//! A small HTTP/1.1 library: a request parser that turns a received buffer
//! into method, path, query parameters, headers and body, and a response
//! serializer that writes a status and an optional body back as bytes.
pub mod text;
pub mod multimap;
pub mod method;
pub mod query_string;
pub mod header;
pub mod request;
pub mod status_code;
pub mod response;
pub mod server;
pub mod website_handler;

pub use header::{Header, HeaderError};
pub use method::{Method, MethodError};
pub use multimap::{MultiMap, Value};
pub use query_string::QueryString;
pub use request::{ParseError, Request};
pub use response::Response;
pub use server::{bad_request, Handler, Server};
pub use status_code::StatusCode;
pub use website_handler::{Route, WebsiteHandler};
