//! The wire model of a request: methods, the request value itself and its
//! accessors.
use vstd::prelude::*;
use vstd::utf8::{decode_utf8, valid_utf8};

use crate::strmap::{map_get, StringMap};
use crate::text::{str_eq, trim_chars, trim_str};

verus! {

/// The methods the engine understands. An unknown token is a parse error,
/// never a fallback.
#[derive(Debug, Clone, Copy, PartialEq, Eq, Structural)]
pub enum Method {
    GET,
    POST,
    DELETE,
}

/// Raised for a method token that names no known method; holds the token.
#[derive(Debug)]
pub enum MethodParseError {
    Unknown(String),
}

/// The method a token names, if any.
pub open spec fn method_of(s: Seq<char>) -> Option<Method> {
    if s == "GET"@ {
        Some(Method::GET)
    } else if s == "POST"@ {
        Some(Method::POST)
    } else if s == "DELETE"@ {
        Some(Method::DELETE)
    } else {
        None
    }
}

/// The token that names a method.
pub open spec fn method_name(m: Method) -> Seq<char> {
    match m {
        Method::GET => "GET"@,
        Method::POST => "POST"@,
        Method::DELETE => "DELETE"@,
    }
}

impl Method {
    /// Parses a method token; an unknown token is returned inside the error.
    pub fn from_str(s: &str) -> (r: Result<Method, MethodParseError>)
        ensures
            match method_of(s@) {
                Some(m) => r == Ok::<Method, MethodParseError>(m),
                None => r matches Err(MethodParseError::Unknown(t)) && t@ == s@,
            },
    {
        if str_eq(s, "GET") {
            Ok(Method::GET)
        } else if str_eq(s, "POST") {
            Ok(Method::POST)
        } else if str_eq(s, "DELETE") {
            Ok(Method::DELETE)
        } else {
            Err(MethodParseError::Unknown(s.to_owned()))
        }
    }

    /// The token of this method.
    pub fn to_string(&self) -> (r: String)
        ensures
            r@ == method_name(*self),
    {
        match self {
            Method::GET => "GET".to_owned(),
            Method::POST => "POST".to_owned(),
            Method::DELETE => "DELETE".to_owned(),
        }
    }
}

/// A parsed request: method, path, protocol version, headers and an optional
/// body that may be attached after construction.
#[derive(Debug)]
pub struct Request {
    pub method: Method,
    pub path: String,
    pub version: String,
    pub headers: StringMap,
    pub body: Option<Vec<u8>>,
}

impl Clone for Request {
    /// A clone holds the same method, path, version, headers and body.
    fn clone(&self) -> (r: Self)
        ensures
            r.method == self.method,
            r.path@ == self.path@,
            r.version@ == self.version@,
            r.headers@ == self.headers@,
            match (&r.body, &self.body) {
                (Some(b), Some(a)) => b@ == a@,
                (None, None) => true,
                _ => false,
            },
    {
        Request {
            method: self.method,
            path: self.path.clone(),
            version: self.version.clone(),
            headers: self.headers.clone(),
            body: match &self.body {
                Some(b) => Some(b.clone()),
                None => None,
            },
        }
    }
}

impl Request {
    /// The headers have no duplicate names.
    pub open spec fn wf(&self) -> bool {
        self.headers.wf()
    }

    /// A request with the given parts and no body.
    pub fn new(method: Method, path: &str, version: &str, headers: StringMap) -> (r: Self)
        ensures
            r.method == method,
            r.path@ == path@,
            r.version@ == version@,
            r.headers@ == headers@,
            r.body is None,
            headers.wf() ==> r.wf(),
    {
        Request { method, path: path.to_owned(), version: version.to_owned(), headers, body: None }
    }

    /// The request path.
    pub fn get_path(&self) -> (r: &str)
        ensures
            r@ == self.path@,
    {
        self.path.as_str()
    }

    /// Attaches a body; every other part is unchanged.
    pub fn set_body(&mut self, body: Vec<u8>)
        ensures
            final(self).body matches Some(b) && b@ == body@,
            final(self).method == old(self).method,
            final(self).path == old(self).path,
            final(self).version == old(self).version,
            final(self).headers == old(self).headers,
    {
        self.body = Some(body);
    }

    /// The header value stored under the name, trimmed of surrounding
    /// whitespace, if the name is present.
    pub fn get_header<'a>(&'a self, key: &str) -> (r: Option<&'a str>)
        requires
            self.wf(),
        ensures
            match r {
                Some(v) => map_get(self.headers@, key@) matches Some(w) && v@ == trim_chars(w),
                None => map_get(self.headers@, key@) is None,
            },
    {
        match self.headers.get(key) {
            Some(val) => Some(trim_str(val.as_str())),
            None => None,
        }
    }

    /// The request method.
    pub fn get_method(&self) -> (r: &Method)
        ensures
            r == self.method,
    {
        &self.method
    }

    /// The body decoded as UTF-8 text, if a body is present and is valid
    /// UTF-8.
    pub fn string(self) -> (r: Result<String, ()>)
        ensures
            match &self.body {
                Some(b) => {
                    if valid_utf8(b@) {
                        r matches Ok(s) && s@ == decode_utf8(b@)
                    } else {
                        r matches Err(())
                    }
                },
                None => r matches Err(()),
            },
    {
        if let Some(body) = self.body {
            match crate::text::string_from_utf8(body) {
                Some(string) => Ok(string),
                None => Err(()),
            }
        } else {
            Err(())
        }
    }
}

/// Conversion of a value into a request.
pub trait IntoRequest {
    fn into_request(self) -> Request;
}

impl IntoRequest for String {
    /// A plain default: a GET for the root path with no headers.
    fn into_request(self) -> (r: Request)
        ensures
            r.method == Method::GET,
            r.path@ == "/"@,
            r.version@ == "HTTP/1.1"@,
            r.headers@.len() == 0,
            r.body is None,
    {
        Request {
            method: Method::GET,
            path: "/".to_owned(),
            version: "HTTP/1.1".to_owned(),
            headers: StringMap::new(),
            body: None,
        }
    }
}

} // verus!

