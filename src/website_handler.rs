//! The website's routing: which file answers a request, and the response
//! once that file has been looked up.
use vstd::prelude::*;
use vstd::string::StringSliceAdditionalSpecFns;
use vstd::utf8::encode_utf8;
use crate::method::Method;
use crate::request::Request;
use crate::response::Response;
use crate::status_code::StatusCode;
use crate::text::same_bytes;

verus! {

/// Where a request leads.
#[derive(Debug, Clone, Copy, PartialEq, Eq)]
pub enum Route<'a> {
    /// A fixed page of the site, answered `200` whether or not it is found.
    Page(&'a str),
    /// A file named by the request path, answered `404` when it is missing.
    File(&'a str),
    /// Nothing to serve.
    NotFound,
}

/// The path `/`.
pub open spec fn root_path() -> Seq<u8> {
    seq![47u8]
}

/// The path `/search`.
pub open spec fn search_path() -> Seq<u8> {
    seq![47u8, 115, 101, 97, 114, 99, 104]
}

/// Serves the files under one directory.
pub struct WebsiteHandler {
    public_path: String,
}

impl View for WebsiteHandler {
    type V = Seq<char>;

    closed spec fn view(&self) -> Seq<char> {
        self.public_path@
    }
}

impl WebsiteHandler {
    /// A handler for the files under `public_path`.
    pub fn new(public_path: String) -> (r: WebsiteHandler)
        ensures
            r@ == public_path@,
    {
        WebsiteHandler { public_path }
    }

    /// The directory served.
    pub fn public_path(&self) -> (r: &str)
        ensures
            r@ == self@,
    {
        self.public_path.as_str()
    }

    /// Where a request leads: `GET /` to the page `index.html`, `GET /search`
    /// to the page `search.html`, any other `GET` to the file its path names,
    /// and every other method nowhere.
    pub fn route<'a>(&self, request: &'a Request) -> (r: Route<'a>)
        ensures
            request@.method != Method::GET ==> r == Route::NotFound,
            request@.method == Method::GET && request@.path == root_path() ==> (r matches Route::Page(
                name,
            ) && name@ == "index.html"@),
            request@.method == Method::GET && request@.path == search_path() ==> (r matches Route::Page(
                name,
            ) && name@ == "search.html"@),
            request@.method == Method::GET && request@.path != root_path() && request@.path
                != search_path() ==> (r matches Route::File(p) && p.spec_bytes() == request@.path),
    {
        match request.method() {
            Method::GET => {},
            _ => return Route::NotFound,
        }
        let path = request.path();
        let root = [47u8];
        let search = [47u8, 115, 101, 97, 114, 99, 104];
        assert(root@ =~= root_path());
        assert(search@ =~= search_path());
        if same_bytes(path.as_bytes(), root.as_slice()) {
            Route::Page("index.html")
        } else if same_bytes(path.as_bytes(), search.as_slice()) {
            Route::Page("search.html")
        } else {
            Route::File(path)
        }
    }

    /// The response for a route, given what reading its file gave.
    pub fn respond(route: &Route, contents: Option<String>) -> (r: Response)
        ensures
            route matches Route::Page(_) ==> r@.status == StatusCode::OK && r@.body == match contents {
                Some(s) => Some(encode_utf8(s@)),
                None => None::<Seq<u8>>,
            },
            route matches Route::File(_) ==> match contents {
                Some(s) => r@.status == StatusCode::OK && r@.body == Some(encode_utf8(s@)),
                None => r@.status == StatusCode::NotFound && r@.body is None,
            },
            route matches Route::NotFound ==> r@.status == StatusCode::NotFound && r@.body is None,
    {
        match route {
            Route::Page(_) => Response::new(StatusCode::OK, contents),
            Route::File(_) => match contents {
                Some(body) => Response::new(StatusCode::OK, Some(body)),
                None => Response::new(StatusCode::NotFound, None),
            },
            Route::NotFound => Response::new(StatusCode::NotFound, None),
        }
    }
}

} // verus!
