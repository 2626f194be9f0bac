use webserver::{
    Handler, Method, ParseError, Request, Response, Route, Server, StatusCode, WebsiteHandler,
};

fn text(r: &Response) -> String {
    String::from_utf8(r.to_bytes()).unwrap()
}

fn read_back(bytes: &[u8]) -> (u16, usize, Vec<u8>) {
    let s = std::str::from_utf8(bytes).unwrap();
    let (head, body) = s.split_once("\r\n\r\n").unwrap();
    let mut lines = head.split("\r\n");
    let status = lines.next().unwrap();
    let code: u16 = status.split(' ').nth(1).unwrap().parse().unwrap();
    let len: usize = lines.next().unwrap().strip_prefix("Content-Length: ").unwrap().parse().unwrap();
    (code, len, body.as_bytes().to_vec())
}

#[test]
fn not_found_without_body_serializes_exactly() {
    let r = Response::new(StatusCode::NotFound, None);
    assert_eq!(text(&r), "HTTP/1.1 404 Not Found\r\nContent-Length: 0\r\n\r\n");
}

#[test]
fn ok_with_body_serializes_exactly() {
    let r = Response::new(StatusCode::OK, Some("<h1>hi</h1>".to_string()));
    assert_eq!(text(&r), "HTTP/1.1 200 OK\r\nContent-Length: 11\r\n\r\n<h1>hi</h1>");
}

#[test]
fn content_length_counts_bytes() {
    let r = Response::new(StatusCode::Created, Some("\u{e9}\u{2603}".to_string()));
    assert_eq!(text(&r), "HTTP/1.1 201 Created\r\nContent-Length: 5\r\n\r\n\u{e9}\u{2603}");
}

#[test]
fn every_status_round_trips() {
    let all = [
        (StatusCode::OK, 200, "OK"),
        (StatusCode::Created, 201, "Created"),
        (StatusCode::BadRequest, 400, "Bad Request"),
        (StatusCode::Unauthorized, 401, "Unauthorized"),
        (StatusCode::Forbidden, 403, "Forbidden"),
        (StatusCode::NotFound, 404, "Not Found"),
        (StatusCode::NotImplemented, 501, "Not Implemented"),
    ];
    let body = "x".repeat(1234);
    for (s, code, reason) in all {
        assert_eq!(s.code(), code);
        assert_eq!(s.reason_phrase(), reason.as_bytes());
        let r = Response::new(s, Some(body.clone()));
        let (c, len, b) = read_back(&r.to_bytes());
        assert_eq!(c, code);
        assert_eq!(len, 1234);
        assert_eq!(b, body.as_bytes());
        let r = Response::new(s, None);
        let (c, len, b) = read_back(&r.to_bytes());
        assert_eq!(c, code);
        assert_eq!(len, 0);
        assert!(b.is_empty());
    }
}

#[test]
fn response_getters() {
    let r = Response::new(StatusCode::Forbidden, Some("no".to_string()));
    assert_eq!(r.status_code(), StatusCode::Forbidden);
    assert_eq!(r.body(), Some("no"));
    assert_eq!(Response::new(StatusCode::OK, None).body(), None);
}

struct Echo;

impl Handler for Echo {
    fn handle_request(&mut self, request: &Request) -> Response {
        Response::new(StatusCode::OK, Some(request.path().to_string()))
    }
}

#[test]
fn dispatch_answers_requests_and_errors() {
    let mut h = Echo;
    let r = Server::dispatch(&mut h, b"GET /echo HTTP/1.1\r\n\r\n");
    assert_eq!(r.status_code(), StatusCode::OK);
    assert_eq!(r.body(), Some("/echo"));
    let r = Server::dispatch(&mut h, b"garbage");
    assert_eq!(r.status_code(), StatusCode::BadRequest);
    assert_eq!(r.body(), None);
    let r = h.handle_bad_request(&ParseError::InvalidMethod);
    assert_eq!(text(&r), "HTTP/1.1 400 Bad Request\r\nContent-Length: 0\r\n\r\n");
}

#[test]
fn server_keeps_address() {
    let s = Server::new("127.0.0.1:8080".to_string());
    assert_eq!(s.addr(), "127.0.0.1:8080");
}

#[test]
fn website_routes() {
    let h = WebsiteHandler::new("/srv/public".to_string());
    assert_eq!(h.public_path(), "/srv/public");
    let req = Request::parse(b"GET / HTTP/1.1\r\n\r\n").unwrap();
    assert_eq!(h.route(&req), Route::Page("index.html"));
    let req = Request::parse(b"GET /search?q=1 HTTP/1.1\r\n\r\n").unwrap();
    assert_eq!(h.route(&req), Route::Page("search.html"));
    let req = Request::parse(b"GET /style.css HTTP/1.1\r\n\r\n").unwrap();
    assert_eq!(h.route(&req), Route::File("/style.css"));
    let req = Request::parse(b"POST / HTTP/1.1\r\n\r\n").unwrap();
    assert_eq!(*req.method(), Method::POST);
    assert_eq!(h.route(&req), Route::NotFound);
}

#[test]
fn website_responses() {
    let r = WebsiteHandler::respond(&Route::Page("index.html"), None);
    assert_eq!(text(&r), "HTTP/1.1 200 OK\r\nContent-Length: 0\r\n\r\n");
    let r = WebsiteHandler::respond(&Route::File("/a.css"), Some("a{}".to_string()));
    assert_eq!(text(&r), "HTTP/1.1 200 OK\r\nContent-Length: 3\r\n\r\na{}");
    let r = WebsiteHandler::respond(&Route::File("/a.css"), None);
    assert_eq!(r.status_code(), StatusCode::NotFound);
    let r = WebsiteHandler::respond(&Route::NotFound, Some("ignored".to_string()));
    assert_eq!(text(&r), "HTTP/1.1 404 Not Found\r\nContent-Length: 0\r\n\r\n");
}
