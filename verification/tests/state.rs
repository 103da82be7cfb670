use pretendo::endpoint::Pretendo;
use pretendo::state::{AppState, Associator, DomainEntry};

fn blank_state() -> AppState {
    AppState {
        data: Vec::new(),
        current_domain: String::new(),
        current_pretendo: Pretendo::new(),
        display_new_domain: false,
        display_new_pretendo: false,
        pretendos_in_current_domain: Vec::new(),
    }
}

const LIST_OF_ONE: &str =
    "[{\"id\":3,\"path\":\"/p\",\"returnObject\":\"r\",\"statusCode\":\"200\",\"name\":\"one\"}]";

#[test]
fn new_seeds_a_placeholder_per_domain() {
    let st = AppState::new(vec![String::from("a.com"), String::from("b.org")]);
    assert_eq!(st.data.len(), 2);
    assert_eq!(st.data[0].domain, "a.com");
    assert_eq!(st.data[0].pretendos.len(), 1);
    assert!(st.data[0].pretendos[0].id.is_none());
    assert_eq!(st.current_domain, "");
    assert!(!st.display_new_domain);
    assert!(!st.display_new_pretendo);
}

#[test]
fn adding_a_domain_appends_one_entry_and_closes_the_dialog() {
    let mut st = blank_state();
    st.open_add_domain();
    assert!(st.display_new_domain);
    st.current_domain = String::from("mydomain.com");
    assert!(st.domain_name_accepted());
    st.confirm_add_domain();
    assert_eq!(st.data.len(), 1);
    assert_eq!(st.data[0].domain, "mydomain.com");
    assert!(st.data[0].pretendos.is_empty());
    assert!(!st.display_new_domain);
}

#[test]
fn adding_a_blank_domain_is_a_no_op() {
    let mut st = blank_state();
    st.open_add_domain();
    st.current_domain = String::from("   ");
    assert!(!st.domain_name_accepted());
    st.confirm_add_domain();
    assert!(st.data.is_empty());
    assert!(st.display_new_domain);
}

#[test]
fn selecting_a_domain_resets_the_edit_state() {
    let mut st = blank_state();
    st.display_new_pretendo = true;
    st.current_pretendo.name = String::from("typed");
    st.select_domain("a.com", Some(LIST_OF_ONE));
    assert!(!st.display_new_pretendo);
    assert!(st.current_pretendo.id.is_none());
    assert_eq!(st.current_pretendo.name, "");
    assert_eq!(st.current_domain, "a.com");
    assert_eq!(st.pretendos_in_current_domain.len(), 1);
    assert_eq!(st.pretendos_in_current_domain[0].name, "one");
}

#[test]
fn selecting_with_a_failed_fetch_keeps_the_list() {
    let mut st = blank_state();
    st.select_domain("a.com", Some(LIST_OF_ONE));
    st.display_new_pretendo = true;
    st.select_domain("b.org", None);
    assert_eq!(st.current_domain, "b.org");
    assert!(!st.display_new_pretendo);
    assert_eq!(st.pretendos_in_current_domain.len(), 1);
    st.select_domain("c.net", Some("garbage"));
    assert_eq!(st.current_domain, "c.net");
    assert_eq!(st.pretendos_in_current_domain.len(), 1);
}

#[test]
fn save_body_carries_the_sanitized_draft() {
    let mut st = blank_state();
    st.current_domain = String::from("a.com");
    st.current_pretendo.path = String::from("/x");
    st.current_pretendo.name = String::from("X");
    st.current_pretendo.status_code = String::from("201");
    st.current_pretendo.return_object = String::from("say \"hi\"\nthere");
    assert_eq!(
        st.save_request_body(),
        "{\"path\":\"/x\",\"returnObject\":\"say 'hi'there\",\"name\":\"X\",\"statusCode\":\"201\"}"
    );
}

#[test]
fn successful_save_shows_the_created_record() {
    let mut st = blank_state();
    st.current_domain = String::from("a.com");
    st.display_new_pretendo = true;
    st.current_pretendo.path = String::from("/x");
    st.current_pretendo.return_object = String::from("say \"hi\"");
    let refetch =
        "[{\"id\":9,\"path\":\"/x\",\"returnObject\":\"say 'hi'\",\"statusCode\":\"201\",\"name\":\"X\"}]";
    st.apply_save_result(true, Some(refetch));
    assert!(st.display_new_pretendo);
    assert_eq!(st.current_pretendo.id, Some(9));
    assert_eq!(st.current_pretendo.return_object, "say 'hi'");
    assert_eq!(st.pretendos_in_current_domain.len(), 1);
}

#[test]
fn successful_save_with_failed_refetch_clears_the_panel() {
    let mut st = blank_state();
    st.display_new_pretendo = true;
    st.current_pretendo.name = String::from("draft");
    st.apply_save_result(true, None);
    assert!(!st.display_new_pretendo);
    assert!(st.current_pretendo.id.is_none());
    assert_eq!(st.current_pretendo.name, "");
}

#[test]
fn failed_save_keeps_the_draft_and_the_panel() {
    let mut st = blank_state();
    st.display_new_pretendo = true;
    st.current_domain = String::from("a.com");
    st.current_pretendo.path = String::from("/x");
    st.current_pretendo.return_object = String::from("body \"q\"");
    st.current_pretendo.name = String::from("draft");
    st.current_pretendo.status_code = String::from("200");
    st.apply_save_result(false, None);
    assert!(st.display_new_pretendo);
    assert!(st.current_pretendo.id.is_none());
    assert_eq!(st.current_pretendo.path, "/x");
    assert_eq!(st.current_pretendo.return_object, "body \"q\"");
    assert_eq!(st.current_pretendo.name, "draft");
    assert_eq!(st.current_pretendo.status_code, "200");
}

#[test]
fn selecting_and_opening_endpoints() {
    let mut st = blank_state();
    st.select_domain("a.com", Some(LIST_OF_ONE));
    st.select_pretendo(0);
    assert!(st.display_new_pretendo);
    assert_eq!(st.current_pretendo.id, Some(3));
    assert_eq!(st.current_pretendo.name, "one");
    st.new_pretendo();
    assert!(st.display_new_pretendo);
    assert!(st.current_pretendo.id.is_none());
}

#[test]
fn association_takes_the_last_matching_entry() {
    let mut st = blank_state();
    let mut first = Pretendo::new();
    first.name = String::from("first");
    let mut second = Pretendo::new();
    second.name = String::from("second");
    st.data.push(DomainEntry { domain: String::from("a.com"), pretendos: vec![first] });
    st.data.push(DomainEntry { domain: String::from("a.com"), pretendos: vec![second] });
    let got = st.get_associated_pretendos(String::from("a.com"));
    assert_eq!(got.len(), 1);
    assert_eq!(got[0].name, "second");
    assert!(st.get_associated_pretendos(String::from("b.org")).is_empty());
}

#[test]
fn panel_width_is_ten_per_character_of_the_longest_name() {
    let st = AppState::new(vec![String::from("ab"), String::from("abcd"), String::from("c")]);
    assert_eq!(st.domain_panel_width(), 40);
}

#[test]
fn url_of_the_edit_panel() {
    let mut st = blank_state();
    assert_eq!(st.current_url(), "Url: 'http://'");
    st.current_domain = String::from("a.com");
    st.current_pretendo.path = String::from("/x");
    assert_eq!(st.current_url(), "http://a.com/x");
}
