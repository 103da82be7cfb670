use pretendo::client::PretendoHttpClient;
use pretendo::endpoint::{sanitize_return_object, validate_status_code, Pretendo};
use pretendo::text::sized_text;

#[test]
fn status_code_keeps_first_three_digits_in_order() {
    let mut s = String::from("a1b2c3d4");
    validate_status_code(&mut s);
    assert_eq!(s, "123");
}

#[test]
fn status_code_short_input_unchanged() {
    let mut s = String::from("20");
    validate_status_code(&mut s);
    assert_eq!(s, "20");
}

#[test]
fn status_code_strips_non_digits() {
    let mut s = String::from("x4y0z4");
    validate_status_code(&mut s);
    assert_eq!(s, "404");
}

#[test]
fn status_code_truncates_to_three() {
    let mut s = String::from("20184");
    validate_status_code(&mut s);
    assert_eq!(s, "201");
}

#[test]
fn status_code_empty_stays_empty() {
    let mut s = String::new();
    validate_status_code(&mut s);
    assert_eq!(s, "");
}

#[test]
fn return_object_quotes_and_newlines() {
    let r = sanitize_return_object("{\"a\":1,\n\"b\":2}");
    assert_eq!(r, "{'a':1,'b':2}");
}

#[test]
fn return_object_plain_text_unchanged() {
    let r = sanitize_return_object("plain body");
    assert_eq!(r, "plain body");
}

#[test]
fn sized_text_pads_with_spaces() {
    assert_eq!(sized_text("Path:", 3), "Path:   ");
    assert_eq!(sized_text("", 0), "");
}

#[test]
fn new_pretendo_is_blank_draft() {
    let p = Pretendo::new();
    assert!(p.id.is_none());
    assert_eq!(p.path, "");
    assert_eq!(p.return_object, "");
    assert_eq!(p.status_code, "");
    assert_eq!(p.name, "");
}

#[test]
fn service_urls() {
    assert_eq!(PretendoHttpClient::domains_url(), "http://pretendo.local/api/domain");
    assert_eq!(
        PretendoHttpClient::pretendos_url("mydomain.com"),
        "http://pretendo.local/api/domain/mydomain.com/pretendos"
    );
}

#[test]
fn success_statuses_are_the_two_hundreds() {
    assert!(PretendoHttpClient::is_success_status(200));
    assert!(PretendoHttpClient::is_success_status(204));
    assert!(PretendoHttpClient::is_success_status(299));
    assert!(!PretendoHttpClient::is_success_status(199));
    assert!(!PretendoHttpClient::is_success_status(300));
    assert!(!PretendoHttpClient::is_success_status(404));
    assert!(!PretendoHttpClient::is_success_status(500));
}
