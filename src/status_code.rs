//! Response status codes, each with its number and reason phrase.
use vstd::prelude::*;

verus! {

/// The status of a response.
#[derive(Debug, Clone, Copy, PartialEq, Eq, Structural)]
pub enum StatusCode {
    /// 200 OK
    OK,
    /// 201 Created
    Created,
    /// 400 Bad Request
    BadRequest,
    /// 401 Unauthorized
    Unauthorized,
    /// 403 Forbidden
    Forbidden,
    /// 404 Not Found
    NotFound,
    /// 501 Not Implemented
    NotImplemented,
}

/// The number of each status.
pub open spec fn status_number(s: StatusCode) -> u16 {
    match s {
        StatusCode::OK => 200,
        StatusCode::Created => 201,
        StatusCode::BadRequest => 400,
        StatusCode::Unauthorized => 401,
        StatusCode::Forbidden => 403,
        StatusCode::NotFound => 404,
        StatusCode::NotImplemented => 501,
    }
}

/// The ASCII reason phrase of each status.
pub open spec fn reason_bytes(s: StatusCode) -> Seq<u8> {
    match s {
        StatusCode::OK => seq![79u8, 75],
        StatusCode::Created => seq![67u8, 114, 101, 97, 116, 101, 100],
        StatusCode::BadRequest => seq![66u8, 97, 100, 32, 82, 101, 113, 117, 101, 115, 116],
        StatusCode::Unauthorized => seq![85u8, 110, 97, 117, 116, 104, 111, 114, 105, 122, 101, 100],
        StatusCode::Forbidden => seq![70u8, 111, 114, 98, 105, 100, 100, 101, 110],
        StatusCode::NotFound => seq![78u8, 111, 116, 32, 70, 111, 117, 110, 100],
        StatusCode::NotImplemented => seq![78u8, 111, 116, 32, 73, 109, 112, 108, 101, 109, 101, 110, 116, 101, 100],
    }
}

impl StatusCode {
    /// The status number.
    pub fn code(&self) -> (r: u16)
        ensures
            r == status_number(*self),
    {
        match self {
            StatusCode::OK => 200,
            StatusCode::Created => 201,
            StatusCode::BadRequest => 400,
            StatusCode::Unauthorized => 401,
            StatusCode::Forbidden => 403,
            StatusCode::NotFound => 404,
            StatusCode::NotImplemented => 501,
        }
    }

    /// The reason phrase, as ASCII bytes.
    pub fn reason_phrase(&self) -> (r: &'static [u8])
        ensures
            r@ == reason_bytes(*self),
    {
        match self {
            StatusCode::OK => &[79u8, 75],
            StatusCode::Created => &[67u8, 114, 101, 97, 116, 101, 100],
            StatusCode::BadRequest => &[66u8, 97, 100, 32, 82, 101, 113, 117, 101, 115, 116],
            StatusCode::Unauthorized => &[85u8, 110, 97, 117, 116, 104, 111, 114, 105, 122, 101, 100],
            StatusCode::Forbidden => &[70u8, 111, 114, 98, 105, 100, 100, 101, 110],
            StatusCode::NotFound => &[78u8, 111, 116, 32, 70, 111, 117, 110, 100],
            StatusCode::NotImplemented => &[78u8, 111, 116, 32, 73, 109, 112, 108, 101, 109, 101, 110, 116, 101, 100],
        }
    }
}

} // verus!
