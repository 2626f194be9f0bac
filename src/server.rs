//! What the connection loop decides: the handler interface, and which of its
//! two calls answers a received buffer.
use vstd::prelude::*;
use crate::request::{parse_buffer, ParseError, Request};
use crate::response::Response;
use crate::status_code::StatusCode;

verus! {

/// Answers requests. Implemented by the application.
pub trait Handler {
    /// The response to a well-formed request.
    fn handle_request(&mut self, request: &Request) -> Response;

    /// The response to a buffer that is not a request; by default an empty
    /// `400 Bad Request`.
    fn handle_bad_request(&mut self, error: &ParseError) -> Response {
        bad_request()
    }
}

/// The default answer to a buffer that is not a request: `400 Bad Request`
/// with no body.
pub fn bad_request() -> (r: Response)
    ensures
        r@.status == StatusCode::BadRequest,
        r@.body is None,
{
    Response::new(StatusCode::BadRequest, None)
}

/// A server bound to an address.
pub struct Server {
    addr: String,
}

impl View for Server {
    type V = Seq<char>;

    closed spec fn view(&self) -> Seq<char> {
        self.addr@
    }
}

impl Server {
    /// A server for the given address.
    pub fn new(addr: String) -> (r: Server)
        ensures
            r@ == addr@,
    {
        Server { addr }
    }

    /// The address to listen on.
    pub fn addr(&self) -> (r: &str)
        ensures
            r@ == self@,
    {
        self.addr.as_str()
    }

    /// Answers one received buffer: the handler's response to the parsed
    /// request, or its response to the parse error. The handler is called
    /// once, on its value at the start, and is left as that call left it.
    pub fn dispatch<H: Handler>(handler: &mut H, buf: &[u8]) -> (r: Response)
        ensures
            match parse_buffer(buf@) {
                Err(e) => exists|h: &mut H|
                    *h == *old(handler) && *final(h) == *final(handler) && #[trigger] call_ensures(
                        H::handle_bad_request,
                        (h, &e),
                        r,
                    ),
                Ok(m) => exists|req: Request, h: &mut H|
                    req@ == m && req.wf() && *h == *old(handler) && *final(h) == *final(handler)
                        && #[trigger] call_ensures(H::handle_request, (h, &req), r),
            },
    {
        match Request::parse(buf) {
            Ok(request) => handler.handle_request(&request),
            Err(e) => handler.handle_bad_request(&e),
        }
    }
}

} // verus!
