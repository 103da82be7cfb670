//! Verified core of a mock-endpoint manager.
//!
//! The library holds everything about the application that can be stated and
//! proved: the endpoint data model and its sanitizers, the JSON wire codec
//! spoken with the remote management service, the URLs of that service, and
//! the view-model state machine that a GUI shell drives.  The shell itself
//! (window, widgets, HTTP transport) lives outside the library and hands it
//! plain values.

pub mod client;
pub mod endpoint;
pub mod state;
pub mod text;
pub mod wire;
