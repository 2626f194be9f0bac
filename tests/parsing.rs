use webserver::{Method, ParseError, Request, Value};

fn single<'a>(v: Option<&'a Value<'a>>) -> &'a str {
    match v {
        Some(Value::Single(s)) => s,
        other => panic!("expected a single value, got {:?}", other),
    }
}

fn multiple<'a>(v: Option<&'a Value<'a>>) -> Vec<&'a str> {
    match v {
        Some(Value::Multiple(vs)) => vs.clone(),
        other => panic!("expected several values, got {:?}", other),
    }
}

#[test]
fn end_to_end_search_request() {
    let buf = b"GET /search?name=abc&sort=1 HTTP/1.1\r\nAccept: */*\r\n\r\n";
    let req = Request::parse(&buf[..]).unwrap();
    assert_eq!(*req.method(), Method::GET);
    assert_eq!(req.path(), "/search");
    let q = req.query_string().unwrap();
    assert_eq!(q.len(), 2);
    assert_eq!(single(q.get("name")), "abc");
    assert_eq!(single(q.get("sort")), "1");
    assert_eq!(req.header().len(), 1);
    assert_eq!(single(req.header().get("Accept")), "*/*");
    assert_eq!(req.body(), "");
}

#[test]
fn full_form_request_fields() {
    let buf = b"POST /path?k=v HTTP/1.1\r\nHeader: value\r\n\r\nBODY";
    let req = Request::parse(&buf[..]).unwrap();
    assert_eq!(*req.method(), Method::POST);
    assert_eq!(req.path(), "/path");
    let q = req.query_string().unwrap();
    assert_eq!(q.len(), 1);
    assert_eq!(single(q.get("k")), "v");
    assert_eq!(single(req.header().get("Header")), "value");
    assert_eq!(req.body(), "BODY");
}

#[test]
fn parsing_twice_gives_equal_requests() {
    let buf = b"PUT /a/b?x=1&x=2&y HTTP/1.1\r\nA: 1\r\nB: 2\r\nA: 3\r\n\r\npayload";
    let r1 = Request::parse(&buf[..]).unwrap();
    let r2 = Request::parse(&buf[..]).unwrap();
    assert_eq!(format!("{:?}", r1), format!("{:?}", r2));
    assert_eq!(r1.path(), r2.path());
    assert_eq!(r1.body(), r2.body());
    assert_eq!(multiple(r1.header().get("A")), multiple(r2.header().get("A")));
}

#[test]
fn repeated_query_key_keeps_order() {
    let req = Request::parse(&b"GET /p?a=1&a=2 HTTP/1.1\r\n\r\n"[..]).unwrap();
    let q = req.query_string().unwrap();
    assert_eq!(q.len(), 1);
    assert_eq!(multiple(q.get("a")), vec!["1", "2"]);
}

#[test]
fn query_absent_without_question_mark() {
    let req = Request::parse(&b"GET /p HTTP/1.1\r\n\r\n"[..]).unwrap();
    assert_eq!(req.path(), "/p");
    assert!(req.query_string().is_none());
}

#[test]
fn query_present_but_empty_after_question_mark() {
    let req = Request::parse(&b"GET /p? HTTP/1.1\r\n\r\n"[..]).unwrap();
    assert_eq!(req.path(), "/p");
    assert_eq!(req.query_string().unwrap().len(), 0);
}

#[test]
fn query_pair_without_equals_has_empty_value() {
    let req = Request::parse(&b"GET /p?flag&k=a=b HTTP/1.1\r\n\r\n"[..]).unwrap();
    let q = req.query_string().unwrap();
    assert_eq!(single(q.get("flag")), "");
    assert_eq!(single(q.get("k")), "a=b");
    assert!(q.get("missing").is_none());
}

#[test]
fn repeated_header_folds_in_order() {
    let buf = b"GET / HTTP/1.1\r\nX-Tag: one\r\nX-Tag: two\r\n\r\n";
    let req = Request::parse(&buf[..]).unwrap();
    assert_eq!(req.header().len(), 1);
    assert_eq!(multiple(req.header().get("X-Tag")), vec!["one", "two"]);
}

#[test]
fn header_names_are_case_sensitive() {
    let buf = b"GET / HTTP/1.1\r\nAccept: a\r\naccept: b\r\n\r\n";
    let req = Request::parse(&buf[..]).unwrap();
    assert_eq!(req.header().len(), 2);
    assert_eq!(single(req.header().get("Accept")), "a");
    assert_eq!(single(req.header().get("accept")), "b");
    assert!(req.header().get("ACCEPT").is_none());
}

#[test]
fn header_key_and_value_are_trimmed() {
    let buf = b"GET / HTTP/1.1\r\n  Key \t:   spaced value  \r\nTight:v\r\n\r\n";
    let req = Request::parse(&buf[..]).unwrap();
    assert_eq!(single(req.header().get("Key")), "spaced value");
    assert_eq!(single(req.header().get("Tight")), "v");
}

#[test]
fn header_line_without_colon_ends_headers() {
    let buf = b"GET / HTTP/1.1\r\nA: 1\r\nbroken line\r\nB: 2\r\n\r\nbody";
    let req = Request::parse(&buf[..]).unwrap();
    assert_eq!(req.header().len(), 1);
    assert_eq!(single(req.header().get("A")), "1");
    assert!(req.header().get("B").is_none());
    assert_eq!(req.body(), "body");
}

#[test]
fn missing_blank_line_gives_empty_headers_and_body() {
    let req = Request::parse(&b"GET / HTTP/1.1\r\nHost: x\r\n"[..]).unwrap();
    assert_eq!(req.header().len(), 0);
    assert_eq!(req.body(), "");
}

#[test]
fn body_stops_at_nul_byte() {
    let mut buf = [0u8; 64];
    let text = b"POST /upload HTTP/1.1\r\n\r\nabc";
    buf[..text.len()].copy_from_slice(text);
    let req = Request::parse(&buf[..]).unwrap();
    assert_eq!(req.body(), "abc");
    assert_eq!(req.header().len(), 0);
}

#[test]
fn extra_start_line_tokens_are_ignored() {
    let req = Request::parse(&b"GET / HTTP/1.1 extra\r\n\r\n"[..]).unwrap();
    assert_eq!(req.path(), "/");
}

#[test]
fn old_protocol_is_invalid_protocol() {
    let e = Request::parse(&b"GET / HTTP/1.0\r\n\r\n"[..]).unwrap_err();
    assert_eq!(e, ParseError::InvalidProtocol);
}

#[test]
fn unknown_verb_is_invalid_method() {
    let e = Request::parse(&b"FETCH / HTTP/1.1\r\n\r\n"[..]).unwrap_err();
    assert_eq!(e, ParseError::InvalidMethod);
    let e = Request::parse(&b"get / HTTP/1.1\r\n\r\n"[..]).unwrap_err();
    assert_eq!(e, ParseError::InvalidMethod);
}

#[test]
fn two_token_start_line_is_invalid_request() {
    let e = Request::parse(&b"GET /\r\n\r\n"[..]).unwrap_err();
    assert_eq!(e, ParseError::InvalidRequest);
}

#[test]
fn missing_line_terminator_is_invalid_request() {
    let e = Request::parse(&b"GET / HTTP/1.1"[..]).unwrap_err();
    assert_eq!(e, ParseError::InvalidRequest);
    let e = Request::parse(&b""[..]).unwrap_err();
    assert_eq!(e, ParseError::InvalidRequest);
}

#[test]
fn non_text_bytes_are_invalid_encoding() {
    let e = Request::parse(&b"GET /\xff HTTP/1.1\r\n\r\n"[..]).unwrap_err();
    assert_eq!(e, ParseError::InvalidEncoding);
}

#[test]
fn protocol_is_checked_before_method() {
    let e = Request::parse(&b"FETCH / HTTP/2\r\n\r\n"[..]).unwrap_err();
    assert_eq!(e, ParseError::InvalidProtocol);
}

#[test]
fn non_ascii_text_is_accepted() {
    let buf = "GET /caf\u{e9}?n=\u{e9}t\u{e9} HTTP/1.1\r\nX-\u{df}: \u{fc}\r\n\r\n\u{2603}".as_bytes();
    let req = Request::parse(buf).unwrap();
    assert_eq!(req.path(), "/caf\u{e9}");
    assert_eq!(single(req.query_string().unwrap().get("n")), "\u{e9}t\u{e9}");
    assert_eq!(single(req.header().get("X-\u{df}")), "\u{fc}");
    assert_eq!(req.body(), "\u{2603}");
}

#[test]
fn from_text_matches_parse() {
    let req = Request::from_text("DELETE /x HTTP/1.1\r\n\r\n").unwrap();
    assert_eq!(*req.method(), Method::DELETE);
    assert_eq!(req.path(), "/x");
}

#[test]
fn every_verb_decodes() {
    let all = [
        ("GET", Method::GET),
        ("DELETE", Method::DELETE),
        ("POST", Method::POST),
        ("PUT", Method::PUT),
        ("HEAD", Method::HEAD),
        ("CONNECT", Method::CONNECT),
        ("OPTIONS", Method::OPTIONS),
        ("TRACE", Method::TRACE),
        ("PATCH", Method::PATCH),
    ];
    for (word, m) in all {
        assert_eq!(Method::from_token(word), Ok(m));
        assert_eq!(m.name(), word.as_bytes());
    }
    assert!(Method::from_token("GETS").is_err());
    assert!(Method::from_token("").is_err());
}

#[test]
fn error_messages() {
    assert_eq!(ParseError::InvalidRequest.message(), "Invalid Request");
    assert_eq!(ParseError::InvalidEncoding.message(), "Invalid Encoding");
    assert_eq!(ParseError::InvalidProtocol.message(), "Invalid Protocol");
    assert_eq!(ParseError::InvalidMethod.message(), "Invalid Method");
}
