//! The wire model of a response, its builder, the conversion contract that
//! every handler return value satisfies, and the exact serialization of a
//! response to bytes.
use vstd::prelude::*;
use vstd::utf8::encode_utf8;

use crate::status::{status_line, status_text, StatusCode};
use crate::strmap::{keys_unique, map_insert, Pairs, StringMap};
use crate::text::{dec_chars, dec_string, extend_bytes};

verus! {

/// The mathematical shape of a response: a status code, ordered headers and
/// an optional body.
#[verifier::ext_equal]
pub struct RespModel {
    pub status: StatusCode,
    pub headers: Pairs,
    pub body: Option<Seq<u8>>,
}

/// A response value: status code, headers, optional raw body.
#[derive(Debug)]
pub struct Response {
    pub status_code: StatusCode,
    pub headers: StringMap,
    pub body: Option<Vec<u8>>,
}

impl View for Response {
    type V = RespModel;

    open spec fn view(&self) -> RespModel {
        RespModel {
            status: self.status_code,
            headers: self.headers@,
            body: match self.body {
                Some(b) => Some(b@),
                None => None,
            },
        }
    }
}

impl Response {
    /// The headers have no duplicate names.
    pub open spec fn wf(&self) -> bool {
        keys_unique(self.headers@)
    }
}

/// The exact bytes of one serialized header line.
pub open spec fn header_line_bytes(k: Seq<char>, v: Seq<char>) -> Seq<u8> {
    encode_utf8(k) + encode_utf8(": "@) + encode_utf8(v) + encode_utf8("\r\n"@)
}

/// The serialized header lines, in the order the headers are stored.
pub open spec fn headers_bytes(pairs: Pairs) -> Seq<u8>
    decreases pairs.len(),
{
    if pairs.len() == 0 {
        Seq::empty()
    } else {
        headers_bytes(pairs.drop_last()) + header_line_bytes(pairs.last().0, pairs.last().1)
    }
}

/// The exact wire bytes of a response: status line, the mandatory
/// `Connection: close` header, the stored headers, then either a
/// `Content-Length` header, a blank line and the body, or a blank line only.
pub open spec fn wire_bytes(m: RespModel) -> Seq<u8> {
    encode_utf8(status_line(m.status)) + encode_utf8("\r\n"@) + encode_utf8("Connection: close\r\n"@)
        + headers_bytes(m.headers) + match m.body {
        Some(b) => header_line_bytes("Content-Length"@, dec_chars(b.len() as int)) + encode_utf8(
            "\r\n"@,
        ) + b,
        None => encode_utf8("\r\n"@),
    }
}

/// Appends one `Name: Value` header line at the end of the byte vector.
pub fn write_header(key: &str, value: &str, response: &mut Vec<u8>)
    ensures
        final(response)@ == old(response)@ + header_line_bytes(key@, value@),
{
    extend_bytes(response, key.as_bytes());
    extend_bytes(response, ": ".as_bytes());
    extend_bytes(response, value.as_bytes());
    extend_bytes(response, "\r\n".as_bytes());
    proof {
        assert(final(response)@ =~= old(response)@ + header_line_bytes(key@, value@));
    }
}

impl Response {
    /// A 200 response whose body is the UTF-8 text of the string, with no
    /// headers.
    pub fn new_with_body(body: String) -> (r: Self)
        ensures
            r@.status == StatusCode::ALL_OK,
            r@.body matches Some(b) && b == encode_utf8(body@),
            r@.headers.len() == 0,
            r.wf(),
    {
        Response {
            status_code: StatusCode::ALL_OK,
            body: Some(body.as_str().as_bytes_vec()),
            headers: StringMap::new(),
        }
    }

    /// A 200 response with the given raw bytes as body and no headers.
    pub fn new_with_file(body: Vec<u8>) -> (r: Self)
        ensures
            r@.status == StatusCode::ALL_OK,
            r@.body matches Some(b) && b == body@,
            r@.headers.len() == 0,
            r.wf(),
    {
        Response { status_code: StatusCode::ALL_OK, body: Some(body), headers: StringMap::new() }
    }

    /// Binds a header name to a value, overwriting an earlier binding.
    pub fn add_core_header(&mut self, k: String, v: String)
        requires
            old(self).wf(),
        ensures
            final(self).wf(),
            final(self)@.headers == map_insert(old(self)@.headers, k@, v@),
            final(self)@.status == old(self)@.status,
            final(self)@.body == old(self)@.body,
    {
        self.headers.insert(k, v);
    }

    /// An empty 200 response.
    pub fn new() -> (r: Self)
        ensures
            r@.status == StatusCode::ALL_OK,
            r@.body is None,
            r@.headers.len() == 0,
            r.wf(),
    {
        Response { status_code: StatusCode::ALL_OK, body: None, headers: StringMap::new() }
    }

    /// The stock failure response: an empty 404.
    pub fn error() -> (r: Self)
        ensures
            r@.status == StatusCode::NOT_FOUND,
            r@.body is None,
            r@.headers.len() == 0,
            r.wf(),
    {
        Response { status_code: StatusCode::NOT_FOUND, body: None, headers: StringMap::new() }
    }

    /// Renders this response to its exact wire bytes.
    pub fn to_bytes(&self) -> (r: Vec<u8>)
        ensures
            r@ == wire_bytes(self@),
    {
        let mut response: Vec<u8> = Vec::new();
        extend_bytes(&mut response, self.status_code.as_str().as_bytes());
        extend_bytes(&mut response, "\r\n".as_bytes());
        extend_bytes(&mut response, "Connection: close\r\n".as_bytes());
        let ghost head = response@;

        let mut i: usize = 0;
        while i < self.headers.pairs.len()
            invariant
                i <= self.headers.pairs.len(),
                response@ == head + headers_bytes(self.headers@.subrange(0, i as int)),
                head == encode_utf8(status_line(self@.status)) + encode_utf8("\r\n"@) + encode_utf8(
                    "Connection: close\r\n"@,
                ),
            decreases self.headers.pairs.len() - i,
        {
            let k = &self.headers.pairs[i].0;
            let v = &self.headers.pairs[i].1;
            write_header(k.as_str(), v.as_str(), &mut response);
            proof {
                let hs = self.headers@;
                assert(hs.subrange(0, i + 1 as int).drop_last() =~= hs.subrange(0, i as int));
                assert(hs.subrange(0, i + 1 as int).last() == hs[i as int]);
                assert(response@ =~= head + headers_bytes(hs.subrange(0, i + 1 as int)));
            }
            i += 1;
        }
        proof {
            assert(self.headers@.subrange(0, self.headers@.len() as int) =~= self.headers@);
        }

        if let Some(body) = &self.body {
            let len_text = dec_string(body.len());
            write_header("Content-Length", len_text.as_str(), &mut response);
            extend_bytes(&mut response, "\r\n".as_bytes());
            extend_bytes(&mut response, body.as_slice());
            proof {
                assert(response@ =~= wire_bytes(self@));
            }
        } else {
            extend_bytes(&mut response, "\r\n".as_bytes());
            proof {
                assert(response@ =~= wire_bytes(self@));
            }
        }
        response
    }
}

/// A builder for responses; headers start empty, the status starts unset and
/// must be set before `build`.
#[derive(Debug)]
pub struct ResponseBuilder {
    pub status_code: Option<StatusCode>,
    pub headers: Option<StringMap>,
    pub body: Option<Vec<u8>>,
}

impl ResponseBuilder {
    /// A fresh builder: no status, empty headers, no body.
    pub fn new() -> (r: Self)
        ensures
            r.status_code is None,
            r.headers matches Some(h) && h@.len() == 0 && h.wf(),
            r.body is None,
    {
        ResponseBuilder { status_code: None, headers: Some(StringMap::new()), body: None }
    }

    /// Sets the status code.
    pub fn status_code(self, code: StatusCode) -> (r: Self)
        ensures
            r.status_code == Some(code),
            r.headers == self.headers,
            r.body == self.body,
    {
        ResponseBuilder { status_code: Some(code), ..self }
    }

    /// Adds one header.
    pub fn header(self, header: (&str, &str)) -> (r: Self)
        requires
            self.headers matches Some(h) && h.wf(),
        ensures
            r.headers matches Some(h2) && self.headers matches Some(h1) && h2.wf() && h2@
                == map_insert(h1@, header.0@, header.1@),
            r.status_code == self.status_code,
            r.body == self.body,
    {
        let ResponseBuilder { status_code, headers, body } = self;
        let mut h = match headers {
            Some(h) => h,
            None => StringMap::new(),
        };
        h.insert(header.0.to_owned(), header.1.to_owned());
        ResponseBuilder { status_code, headers: Some(h), body }
    }

    /// Sets the body bytes.
    pub fn body(self, body: &[u8]) -> (r: Self)
        ensures
            r.body matches Some(b) && b@ == body@,
            r.status_code == self.status_code,
            r.headers == self.headers,
    {
        ResponseBuilder { body: Some(vstd::slice::slice_to_vec(body)), ..self }
    }

    /// Assembles the response; the status and the header map must be present.
    pub fn build(self) -> (r: Response)
        requires
            self.status_code is Some,
            self.headers is Some,
        ensures
            self.status_code matches Some(c) && r@.status == c,
            self.headers matches Some(h) && r@.headers == h@,
            match (self.body, r@.body) {
                (Some(b), Some(rb)) => rb == b@,
                (None, None) => true,
                _ => false,
            },
    {
        let status_code = match self.status_code {
            Some(c) => c,
            None => StatusCode::ALL_OK,
        };
        let headers = match self.headers {
            Some(h) => h,
            None => StringMap::new(),
        };
        Response { status_code, headers, body: self.body }
    }
}

/// Raised by a handler that fails; the connection is answered, not aborted.
#[derive(Debug)]
pub enum HandlerError {
    MainHandlerError,
}

/// The uniform conversion contract: every handler return type states the
/// response it converts to, and `into_response` delivers exactly that.
pub trait IntoResponse {
    /// The response this value converts to.
    spec fn resp_spec(&self) -> RespModel;

    fn into_response(self) -> (r: Response)
        ensures
            r@ == self.resp_spec(),
    ;
}

impl IntoResponse for Response {
    /// A response converts to itself.
    open spec fn resp_spec(&self) -> RespModel {
        self@
    }

    fn into_response(self) -> (r: Response) {
        self
    }
}

impl IntoResponse for () {
    /// The empty value converts to an empty 200 response.
    open spec fn resp_spec(&self) -> RespModel {
        RespModel { status: StatusCode::ALL_OK, headers: Seq::empty(), body: None }
    }

    fn into_response(self) -> (r: Response) {
        let resp = Response::new();
        proof {
            assert(resp@.headers =~= Seq::<(Seq<char>, Seq<char>)>::empty());
            assert(resp@ =~= self.resp_spec());
        }
        resp
    }
}

/// The single header pair carried by a text or byte conversion.
pub open spec fn one_header(k: Seq<char>, v: Seq<char>) -> Pairs {
    seq![(k, v)]
}

impl IntoResponse for String {
    /// Owned text converts to a 200 text/plain response whose body is the
    /// UTF-8 encoding of the text.
    open spec fn resp_spec(&self) -> RespModel {
        RespModel {
            status: StatusCode::ALL_OK,
            headers: one_header("Content-Type"@, "text/plain"@),
            body: Some(encode_utf8(self@)),
        }
    }

    fn into_response(self) -> (r: Response) {
        let mut resp = Response::new_with_body(self);
        resp.add_core_header("Content-Type".to_owned(), "text/plain".to_owned());
        proof {
            assert(resp@.headers =~= one_header("Content-Type"@, "text/plain"@));
        }
        resp
    }
}

impl IntoResponse for &str {
    /// Borrowed text converts exactly as owned text does.
    open spec fn resp_spec(&self) -> RespModel {
        RespModel {
            status: StatusCode::ALL_OK,
            headers: one_header("Content-Type"@, "text/plain"@),
            body: Some(encode_utf8(self@)),
        }
    }

    fn into_response(self) -> (r: Response) {
        let mut resp = Response::new_with_body(self.to_owned());
        resp.add_core_header("Content-Type".to_owned(), "text/plain".to_owned());
        proof {
            assert(resp@.headers =~= one_header("Content-Type"@, "text/plain"@));
        }
        resp
    }
}

impl IntoResponse for Vec<u8> {
    /// Raw bytes convert to a 200 octet-stream response with the bytes as
    /// body.
    open spec fn resp_spec(&self) -> RespModel {
        RespModel {
            status: StatusCode::ALL_OK,
            headers: one_header("Content-Type"@, "application/octet-stream"@),
            body: Some(self@),
        }
    }

    fn into_response(self) -> (r: Response) {
        let mut resp = Response::new_with_file(self);
        resp.add_core_header("Content-Type".to_owned(), "application/octet-stream".to_owned());
        proof {
            assert(resp@.headers =~= one_header("Content-Type"@, "application/octet-stream"@));
        }
        resp
    }
}

impl IntoResponse for StatusCode {
    /// A bare status code converts to a response with that code and its
    /// canned text body.
    open spec fn resp_spec(&self) -> RespModel {
        RespModel {
            status: *self,
            headers: one_header("Content-Type"@, "text/plain"@),
            body: Some(encode_utf8(status_text(*self))),
        }
    }

    fn into_response(self) -> (r: Response) {
        let mut resp = Response::new_with_body(self.canned_text().to_owned());
        resp.status_code = self;
        resp.add_core_header("Content-Type".to_owned(), "text/plain".to_owned());
        proof {
            assert(resp@.headers =~= one_header("Content-Type"@, "text/plain"@));
        }
        resp
    }
}

impl<T: IntoResponse> IntoResponse for (StatusCode, T) {
    /// A pair converts as its second component does, with the status code
    /// overridden by the first.
    open spec fn resp_spec(&self) -> RespModel {
        RespModel { status: self.0, ..self.1.resp_spec() }
    }

    fn into_response(self) -> (r: Response) {
        let (status, body) = self;
        let mut response = body.into_response();
        response.status_code = status;
        response
    }
}

impl IntoResponse for HandlerError {
    /// A handler failure converts to a generic empty 500 response.
    open spec fn resp_spec(&self) -> RespModel {
        RespModel { status: StatusCode::INTERNAL_SERVER_ERROR, headers: Seq::empty(), body: None }
    }

    fn into_response(self) -> (r: Response) {
        let mut resp = Response::new();
        resp.status_code = StatusCode::INTERNAL_SERVER_ERROR;
        proof {
            assert(resp@.headers =~= Seq::<(Seq<char>, Seq<char>)>::empty());
            assert(resp@ =~= self.resp_spec());
        }
        resp
    }
}

impl IntoResponse for Result<Response, HandlerError> {
    /// A result converts as its success value, or as the failure response of
    /// its error.
    open spec fn resp_spec(&self) -> RespModel {
        match self {
            Ok(fine) => fine.resp_spec(),
            Err(err) => err.resp_spec(),
        }
    }

    fn into_response(self) -> (r: Response) {
        match self {
            Ok(fine) => fine.into_response(),
            Err(err) => err.into_response(),
        }
    }
}

} // verus!
