use webserver::{bad_request, Header, StatusCode, Value};

fn single<'a>(v: Option<&'a Value<'a>>) -> &'a str {
    match v {
        Some(Value::Single(s)) => s,
        other => panic!("expected a single value, got {:?}", other),
    }
}

#[test]
fn block_last_line_without_crlf_is_read() {
    let h = Header::from_block("X-Tag: one\r\nX-Tag: two");
    assert_eq!(h.len(), 1);
    match h.get("X-Tag") {
        Some(Value::Multiple(vs)) => assert_eq!(*vs, vec!["one", "two"]),
        other => panic!("expected several values, got {:?}", other),
    }
}

#[test]
fn block_single_line_is_trimmed() {
    let h = Header::from_block("  Host  :   example.com  ");
    assert_eq!(h.len(), 1);
    assert_eq!(single(h.get("Host")), "example.com");
}

#[test]
fn block_value_starts_right_after_colon() {
    let h = Header::from_block("Host:example.com");
    assert_eq!(single(h.get("Host")), "example.com");
}

#[test]
fn block_line_splits_at_first_colon() {
    let h = Header::from_block("Host: localhost:8080");
    assert_eq!(h.len(), 1);
    assert_eq!(single(h.get("Host")), "localhost:8080");
}

#[test]
fn block_keys_are_case_sensitive() {
    let h = Header::from_block("a: 1\r\nA: 2");
    assert_eq!(h.len(), 2);
    assert_eq!(single(h.get("a")), "1");
    assert_eq!(single(h.get("A")), "2");
}

#[test]
fn block_empty_value_does_not_panic() {
    let h = Header::from_block("Empty:\r\nB: 2");
    assert_eq!(h.len(), 2);
    assert_eq!(single(h.get("Empty")), "");
    assert_eq!(single(h.get("B")), "2");
}

#[test]
fn block_stops_at_line_without_colon() {
    let a = "A: 1\r\nB: 2";
    let whole = format!("{}\r\nno colon here\r\nC: 3", a);
    let h1 = Header::from_block(a);
    let h2 = Header::from_block(&whole);
    assert_eq!(format!("{:?}", h1), format!("{:?}", h2));
    assert_eq!(h2.len(), 2);
    assert!(h2.get("C").is_none());
}

#[test]
fn block_with_trailing_crlf_or_empty() {
    let h = Header::from_block("A: 1\r\n");
    assert_eq!(h.len(), 1);
    assert_eq!(single(h.get("A")), "1");
    assert_eq!(Header::from_block("").len(), 0);
    assert_eq!(Header::from_block("\r\nA: 1").len(), 0);
}

#[test]
fn default_bad_request_response() {
    let r = bad_request();
    assert_eq!(r.status_code(), StatusCode::BadRequest);
    assert_eq!(r.body(), None);
}
