//! The request side of the management-service API: the URLs of the three
//! operations and the success test on a response status.  The HTTP transport
//! itself lives outside the library and hands back plain values.

use vstd::prelude::*;

verus! {

/// Builds the requests this client sends against the fixed service base.
pub struct PretendoHttpClient;

impl PretendoHttpClient {
    /// The URL that lists all domains.
    pub fn domains_url() -> (r: String)
        ensures
            r@ == "http://pretendo.local/api/domain"@,
    {
        String::from_str("http://pretendo.local/api/domain")
    }

    /// The URL that lists, or creates, the endpoints of one domain.  The
    /// domain is interpolated into the path unescaped.
    pub fn pretendos_url(domain: &str) -> (r: String)
        ensures
            r@ == "http://pretendo.local/api/domain/"@ + domain@ + "/pretendos"@,
    {
        let mut r = String::from_str("http://pretendo.local/api/domain/");
        r.append(domain);
        r.append("/pretendos");
        r
    }

    /// Whether an HTTP status counts as success for the create call: any
    /// 2xx response does, and nothing else.
    pub fn is_success_status(status: u16) -> (r: bool)
        ensures
            r == (200 <= status < 300),
    {
        200 <= status && status < 300
    }
}

} // verus!
