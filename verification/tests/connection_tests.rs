use minihttp::connection::handle_parsed;
use minihttp::dispatch::{Handler, Handler0, HandlerParams, HandlerRequest, HandlerTypes};
use minihttp::parse::{HttpParser, ParseError};
use minihttp::request::{Method, Request};
use minihttp::response::{HandlerError, IntoResponse, Response};
use minihttp::router::{Router, RouterService};
use minihttp::StringMap;

struct Hello;

impl Handler0 for Hello {
    fn call(&self) -> Result<Response, HandlerError> {
        Ok("hello".into_response())
    }
}

struct EchoParam;

impl HandlerParams for EchoParam {
    fn call(&self, params: StringMap) -> Result<Response, HandlerError> {
        match params.get("str") {
            Some(v) => Ok(v.clone().into_response()),
            None => Err(HandlerError::MainHandlerError),
        }
    }
}

struct UserAgent;

impl HandlerRequest for UserAgent {
    fn call(&self, request: &Request) -> Result<Response, HandlerError> {
        match request.get_header("User-Agent") {
            Some(h) => Ok(h.to_string().into_response()),
            None => Ok(().into_response()),
        }
    }
}

struct Both;

impl Handler for Both {
    fn call(&self, request: &Request, params: StringMap) -> Result<Response, HandlerError> {
        let mut text = String::new();
        text.push_str(request.get_path());
        text.push(' ');
        match params.get("id") {
            Some(v) => text.push_str(v),
            None => text.push('-'),
        }
        Ok(text.into_response())
    }
}

struct Failing;

impl Handler0 for Failing {
    fn call(&self) -> Result<Response, HandlerError> {
        Err(HandlerError::MainHandlerError)
    }
}

fn service() -> RouterService {
    Router::builder()
        .route("/", HandlerTypes::empty(Hello, Method::GET))
        .route("/echo/{str}", HandlerTypes::params(EchoParam, Method::POST))
        .route("/agent", HandlerTypes::body(UserAgent, Method::GET))
        .route("/full/{id}", HandlerTypes::full(Both, Method::GET))
        .route("/fails", HandlerTypes::empty(Failing, Method::GET))
        .build()
        .into_service()
}

fn parse_one(wire: &[u8]) -> Result<Request, ParseError> {
    let mut p = HttpParser::new();
    match p.feed(wire) {
        Some(r) => r,
        None => panic!("header block incomplete"),
    }
}

fn body_of(bytes: &[u8]) -> Vec<u8> {
    let pos = bytes
        .windows(4)
        .position(|w| w == b"\r\n\r\n")
        .expect("serialized response has a blank line");
    bytes[pos + 4..].to_vec()
}

#[test]
fn zero_argument_handler_answers() {
    let out = handle_parsed(&service(), parse_one(b"GET / HTTP/1.1\r\n\r\n")).unwrap();
    assert!(out.starts_with(b"HTTP/1.1 200 OK\r\n"));
    assert_eq!(body_of(&out), b"hello".to_vec());
}

#[test]
fn params_handler_receives_extracted_parameters() {
    let out = handle_parsed(&service(), parse_one(b"POST /echo/abc HTTP/1.1\r\n\r\n")).unwrap();
    assert_eq!(body_of(&out), b"abc".to_vec());
}

#[test]
fn request_handler_reads_headers() {
    let out = handle_parsed(
        &service(),
        parse_one(b"GET /agent HTTP/1.1\r\nUser-Agent: tester\r\n\r\n"),
    )
    .unwrap();
    assert_eq!(body_of(&out), b"tester".to_vec());
}

#[test]
fn full_handler_receives_request_and_parameters() {
    let out = handle_parsed(&service(), parse_one(b"GET /full/42 HTTP/1.1\r\n\r\n")).unwrap();
    assert_eq!(body_of(&out), b"/full/42 42".to_vec());
}

#[test]
fn handler_failure_becomes_a_500_response() {
    let out = handle_parsed(&service(), parse_one(b"GET /fails HTTP/1.1\r\n\r\n")).unwrap();
    assert_eq!(
        out,
        b"HTTP/1.1 500 Internal Server Error\r\nConnection: close\r\n\r\n".to_vec()
    );
}

#[test]
fn unknown_path_answers_404() {
    let out = handle_parsed(&service(), parse_one(b"GET /zzz HTTP/1.1\r\n\r\n")).unwrap();
    assert_eq!(
        out,
        b"HTTP/1.1 404 Not Found\r\nConnection: close\r\nContent-Type: text/plain\r\nContent-Length: 13\r\n\r\n404 Not Found"
            .to_vec()
    );
}

#[test]
fn wrong_method_answers_405() {
    let out = handle_parsed(&service(), parse_one(b"GET /echo/abc HTTP/1.1\r\n\r\n")).unwrap();
    assert!(out.starts_with(b"HTTP/1.1 405 Method Not Allowed\r\n"));
    assert_eq!(body_of(&out), b"405 Method Not Allowed".to_vec());
}

#[test]
fn parse_failure_answers_500() {
    let out = handle_parsed(&service(), parse_one(b"NOPE / HTTP/1.1\r\n\r\n")).unwrap();
    assert!(out.starts_with(b"HTTP/1.1 500 Internal Server Error\r\n"));
}

#[test]
fn closed_connection_answers_nothing() {
    assert!(handle_parsed(&service(), Err(ParseError::ClosedConnection)).is_none());
}

#[test]
fn connections_do_not_observe_each_other() {
    let shared = service();
    let first = shared.clone();
    let second = shared.clone();
    let out_a = handle_parsed(&first, parse_one(b"POST /echo/one HTTP/1.1\r\n\r\n")).unwrap();
    let out_b = handle_parsed(&second, parse_one(b"POST /echo/two HTTP/1.1\r\n\r\n")).unwrap();
    assert_eq!(body_of(&out_a), b"one".to_vec());
    assert_eq!(body_of(&out_b), b"two".to_vec());
    let again = handle_parsed(&shared, parse_one(b"POST /echo/one HTTP/1.1\r\n\r\n")).unwrap();
    assert_eq!(again, out_a);
}
