//! The closed set of status codes the engine can emit, with their exact
//! status-line strings and canned text bodies.
use vstd::prelude::*;

verus! {

#[allow(non_camel_case_types)]
#[derive(Clone, Copy, Debug, PartialEq, Eq, Structural)]
pub enum StatusCode {
    ALL_OK,
    INTERNAL_SERVER_ERROR,
    NOT_FOUND,
    CREATED,
    ACCEPTED,
    BAD_REQUEST,
    UNAUTHORIZED,
    FORBIDDEN,
    METHOD_NOT_ALLOWED,
}

/// The exact status line of a code, without a trailing line break.
pub open spec fn status_line(c: StatusCode) -> Seq<char> {
    match c {
        StatusCode::ALL_OK => "HTTP/1.1 200 OK"@,
        StatusCode::INTERNAL_SERVER_ERROR => "HTTP/1.1 500 Internal Server Error"@,
        StatusCode::NOT_FOUND => "HTTP/1.1 404 Not Found"@,
        StatusCode::CREATED => "HTTP/1.1 201 Created"@,
        StatusCode::ACCEPTED => "HTTP/1.1 202 Accepted"@,
        StatusCode::BAD_REQUEST => "HTTP/1.1 400 Bad Request"@,
        StatusCode::UNAUTHORIZED => "HTTP/1.1 401 Unauthorized"@,
        StatusCode::FORBIDDEN => "HTTP/1.1 403 Forbidden"@,
        StatusCode::METHOD_NOT_ALLOWED => "HTTP/1.1 405 Method Not Allowed"@,
    }
}

/// The canned text body used when a bare status code is turned into a
/// response: the code followed by its reason phrase.
pub open spec fn status_text(c: StatusCode) -> Seq<char> {
    match c {
        StatusCode::ALL_OK => "200 OK"@,
        StatusCode::INTERNAL_SERVER_ERROR => "500 Internal Server Error"@,
        StatusCode::NOT_FOUND => "404 Not Found"@,
        StatusCode::CREATED => "201 Created"@,
        StatusCode::ACCEPTED => "202 Accepted"@,
        StatusCode::BAD_REQUEST => "400 Bad Request"@,
        StatusCode::UNAUTHORIZED => "401 Unauthorized"@,
        StatusCode::FORBIDDEN => "403 Forbidden"@,
        StatusCode::METHOD_NOT_ALLOWED => "405 Method Not Allowed"@,
    }
}

impl StatusCode {
    /// The fixed status-line string of this code.
    pub fn as_str(&self) -> (r: &'static str)
        ensures
            r@ == status_line(*self),
    {
        match self {
            StatusCode::ALL_OK => "HTTP/1.1 200 OK",
            StatusCode::INTERNAL_SERVER_ERROR => "HTTP/1.1 500 Internal Server Error",
            StatusCode::NOT_FOUND => "HTTP/1.1 404 Not Found",
            StatusCode::CREATED => "HTTP/1.1 201 Created",
            StatusCode::ACCEPTED => "HTTP/1.1 202 Accepted",
            StatusCode::BAD_REQUEST => "HTTP/1.1 400 Bad Request",
            StatusCode::UNAUTHORIZED => "HTTP/1.1 401 Unauthorized",
            StatusCode::FORBIDDEN => "HTTP/1.1 403 Forbidden",
            StatusCode::METHOD_NOT_ALLOWED => "HTTP/1.1 405 Method Not Allowed",
        }
    }

    /// The canned text body of this code.
    pub fn canned_text(&self) -> (r: &'static str)
        ensures
            r@ == status_text(*self),
    {
        match self {
            StatusCode::ALL_OK => "200 OK",
            StatusCode::INTERNAL_SERVER_ERROR => "500 Internal Server Error",
            StatusCode::NOT_FOUND => "404 Not Found",
            StatusCode::CREATED => "201 Created",
            StatusCode::ACCEPTED => "202 Accepted",
            StatusCode::BAD_REQUEST => "400 Bad Request",
            StatusCode::UNAUTHORIZED => "401 Unauthorized",
            StatusCode::FORBIDDEN => "403 Forbidden",
            StatusCode::METHOD_NOT_ALLOWED => "405 Method Not Allowed",
        }
    }
}

} // verus!
