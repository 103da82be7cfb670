use pretendo::endpoint::Pretendo;
use pretendo::wire::{encode_create_body, encode_endpoint, parse_domains, parse_endpoints};

#[test]
fn domains_parse() {
    let r = parse_domains(" [ \"a.com\" , \"b.org\" ] ").unwrap();
    assert_eq!(r, vec!["a.com".to_string(), "b.org".to_string()]);
}

#[test]
fn domains_empty_differs_from_failure() {
    assert_eq!(parse_domains("[]"), Some(Vec::new()));
    assert_eq!(parse_domains(""), None);
    assert_eq!(parse_domains("{\"a\":1}"), None);
    assert_eq!(parse_domains("[\"a.com\""), None);
    assert_eq!(parse_domains("[\"a.com\"] x"), None);
}

#[test]
fn endpoints_parse_full_record() {
    let body = "[{\"id\":7,\"path\":\"/x\",\"returnObject\":\"{\\\"a\\\":1}\",\"statusCode\":\"201\",\"name\":\"X\"}]";
    let r = parse_endpoints(body).unwrap();
    assert_eq!(r.len(), 1);
    assert_eq!(r[0].id, Some(7));
    assert_eq!(r[0].path, "/x");
    assert_eq!(r[0].return_object, "{\"a\":1}");
    assert_eq!(r[0].status_code, "201");
    assert_eq!(r[0].name, "X");
}

#[test]
fn endpoints_status_code_number_becomes_string() {
    let body = "[{\"path\":\"/\",\"returnObject\":\"\",\"statusCode\":404,\"name\":\"n\"}]";
    let r = parse_endpoints(body).unwrap();
    assert_eq!(r[0].status_code, "404");
    assert_eq!(r[0].id, None);
}

#[test]
fn endpoints_id_null_and_negative() {
    let body = "[{\"id\":null,\"path\":\"/\",\"returnObject\":\"\",\"statusCode\":\"200\",\"name\":\"a\"},\
                {\"id\":-5,\"path\":\"/\",\"returnObject\":\"\",\"statusCode\":\"200\",\"name\":\"b\"}]";
    let r = parse_endpoints(body).unwrap();
    assert_eq!(r[0].id, None);
    assert_eq!(r[1].id, Some(-5));
}

#[test]
fn endpoints_id_overflow_is_failure() {
    let body = "[{\"id\":99999999999,\"path\":\"/\",\"returnObject\":\"\",\"statusCode\":\"200\",\"name\":\"a\"}]";
    assert!(parse_endpoints(body).is_none());
}

#[test]
fn endpoints_unknown_key_is_failure() {
    let body = "[{\"path\":\"/\",\"returnObject\":\"\",\"statusCode\":\"200\",\"name\":\"a\",\"extra\":1}]";
    assert!(parse_endpoints(body).is_none());
}

#[test]
fn endpoints_missing_field_is_failure() {
    let body = "[{\"path\":\"/\",\"returnObject\":\"\",\"name\":\"a\"}]";
    assert!(parse_endpoints(body).is_none());
    assert!(parse_endpoints("[{}]").is_none());
}

#[test]
fn endpoints_empty_array_and_whitespace() {
    assert_eq!(parse_endpoints(" [ ] ").map(|v| v.len()), Some(0));
    assert!(parse_endpoints("[").is_none());
    assert!(parse_endpoints("not json").is_none());
}

#[test]
fn endpoints_escapes_decode() {
    let body = "[{\"path\":\"/a\\/b\",\"returnObject\":\"a\\nb\\u0007\\\"c\\\\\",\"statusCode\":\"200\",\"name\":\"t\\tt\"}]";
    let r = parse_endpoints(body).unwrap();
    assert_eq!(r[0].path, "/a/b");
    assert_eq!(r[0].return_object, "a\nb\u{7}\"c\\");
    assert_eq!(r[0].name, "t\tt");
}

#[test]
fn create_body_exact() {
    let b = encode_create_body("/x", "{'a':1}", "X", "201");
    assert_eq!(b, "{\"path\":\"/x\",\"returnObject\":\"{'a':1}\",\"name\":\"X\",\"statusCode\":\"201\"}");
}

#[test]
fn create_body_escapes_special_characters() {
    let b = encode_create_body("/q", "a\"b\\c\nd\u{1}", "n", "200");
    assert_eq!(
        b,
        "{\"path\":\"/q\",\"returnObject\":\"a\\\"b\\\\c\\nd\\u0001\",\"name\":\"n\",\"statusCode\":\"200\"}"
    );
}

#[test]
fn encode_endpoint_exact() {
    let p = Pretendo {
        id: Some(7),
        path: String::from("/x"),
        return_object: String::from("{\"a\":1}"),
        status_code: String::from("201"),
        name: String::from("X"),
    };
    assert_eq!(
        encode_endpoint(&p),
        "{\"id\":7,\"path\":\"/x\",\"returnObject\":\"{\\\"a\\\":1}\",\"statusCode\":\"201\",\"name\":\"X\"}"
    );
    let d = Pretendo::new();
    assert_eq!(
        encode_endpoint(&d),
        "{\"id\":null,\"path\":\"\",\"returnObject\":\"\",\"statusCode\":\"\",\"name\":\"\"}"
    );
}

#[test]
fn record_round_trips_through_the_wire_format() {
    let p = Pretendo {
        id: Some(7),
        path: String::from("/x"),
        return_object: String::from("{\"a\":1}"),
        status_code: String::from("201"),
        name: String::from("X"),
    };
    let wire = format!("[{}]", encode_endpoint(&p));
    let back = parse_endpoints(&wire).unwrap();
    assert_eq!(back.len(), 1);
    assert_eq!(back[0].id, Some(7));
    assert_eq!(back[0].path, "/x");
    assert_eq!(back[0].return_object, "{\"a\":1}");
    assert_eq!(back[0].status_code, "201");
    assert_eq!(back[0].name, "X");
}

#[test]
fn negative_id_round_trips() {
    let p = Pretendo {
        id: Some(-2147483648),
        path: String::from("/"),
        return_object: String::new(),
        status_code: String::from("200"),
        name: String::new(),
    };
    let wire = format!("[{}]", encode_endpoint(&p));
    let back = parse_endpoints(&wire).unwrap();
    assert_eq!(back[0].id, Some(-2147483648));
}
