use minihttp::parse::{HttpParser, ParseError};
use minihttp::request::Method;

#[test]
fn parses_simple_get_request() {
    let mut p = HttpParser::new();
    let out = p.feed(b"GET / HTTP/1.1\r\nHost: x\r\n\r\n");
    match out {
        Some(Ok(req)) => {
            assert!(matches!(req.get_method(), Method::GET));
            assert_eq!(req.get_path(), "/");
            assert_eq!(req.version, "HTTP/1.1".to_string());
            assert_eq!(req.headers.len(), 1);
            assert_eq!(req.get_header("Host"), Some("x"));
            assert!(req.body.is_none());
        }
        other => panic!("expected a parsed request, got {:?}", other.is_some()),
    }
}

#[test]
fn chunked_delivery_matches_single_shot() {
    let wire = b"GET /a/b HTTP/1.1\r\nHost: example\r\nAccept: text\r\n\r\n";

    let mut single = HttpParser::new();
    let single_req = match single.feed(wire) {
        Some(Ok(req)) => req,
        _ => panic!("single-shot parse failed"),
    };

    let mut chunked = HttpParser::new();
    assert!(chunked.feed(b"GET /a").is_none());
    assert!(chunked.feed(b"/b HTTP/1.1\r\nHo").is_none());
    assert!(chunked.feed(b"st: example\r").is_none());
    assert!(chunked.feed(b"\nAccept: text\r").is_none());
    let chunked_req = match chunked.feed(b"\n\r\n") {
        Some(Ok(req)) => req,
        _ => panic!("chunked parse failed"),
    };

    assert_eq!(single_req.get_path(), chunked_req.get_path());
    assert_eq!(single_req.version, chunked_req.version);
    assert!(single_req.get_method() == chunked_req.get_method());
    assert_eq!(single_req.headers.len(), chunked_req.headers.len());
    assert_eq!(
        single_req.get_header("Host"),
        chunked_req.get_header("Host")
    );
    assert_eq!(
        single_req.get_header("Accept"),
        chunked_req.get_header("Accept")
    );
}

#[test]
fn empty_read_is_closed_connection() {
    let mut p = HttpParser::new();
    assert!(matches!(p.feed(&[]), Some(Err(ParseError::ClosedConnection))));
}

#[test]
fn oversized_header_block_is_given_up() {
    let mut p = HttpParser::new();
    let chunk = vec![b'a'; minihttp::parse::MAX_HEADER_BYTES + 1];
    assert!(matches!(
        p.feed(&chunk),
        Some(Err(ParseError::ClosedConnection))
    ));

    let mut q = HttpParser::new();
    assert!(q.feed(&vec![b'a'; minihttp::parse::MAX_HEADER_BYTES]).is_none());
}

#[test]
fn unknown_method_is_header_error() {
    let mut p = HttpParser::new();
    assert!(matches!(
        p.feed(b"PATCH / HTTP/1.1\r\n\r\n"),
        Some(Err(ParseError::HeaderError))
    ));
}

#[test]
fn missing_path_token_is_path_error() {
    let mut p = HttpParser::new();
    assert!(matches!(
        p.feed(b"GET\r\n\r\n"),
        Some(Err(ParseError::PathError))
    ));
}

#[test]
fn missing_version_token_is_header_error() {
    let mut p = HttpParser::new();
    assert!(matches!(
        p.feed(b"GET /\r\n\r\n"),
        Some(Err(ParseError::HeaderError))
    ));
}

#[test]
fn header_line_without_colon_is_header_error() {
    let mut p = HttpParser::new();
    assert!(matches!(
        p.feed(b"GET / HTTP/1.1\r\nno-colon-here\r\n\r\n"),
        Some(Err(ParseError::HeaderError))
    ));
}

#[test]
fn header_values_are_trimmed_and_last_write_wins() {
    let mut p = HttpParser::new();
    let req = match p.feed(b"GET / HTTP/1.1\r\nA:   padded value  \r\nA: second\r\n\r\n") {
        Some(Ok(req)) => req,
        _ => panic!("parse failed"),
    };
    assert_eq!(req.headers.len(), 1);
    assert_eq!(req.get_header("A"), Some("second"));
}

#[test]
fn header_value_split_at_first_colon() {
    let mut p = HttpParser::new();
    let req = match p.feed(b"GET / HTTP/1.1\r\nHost: a:b:c\r\n\r\n") {
        Some(Ok(req)) => req,
        _ => panic!("parse failed"),
    };
    assert_eq!(req.get_header("Host"), Some("a:b:c"));
}

#[test]
fn bytes_after_terminator_are_ignored() {
    let mut p = HttpParser::new();
    let req = match p.feed(b"GET /x HTTP/1.1\r\n\r\nGARBAGE: after\r\n\r\n") {
        Some(Ok(req)) => req,
        _ => panic!("parse failed"),
    };
    assert_eq!(req.get_path(), "/x");
    assert_eq!(req.headers.len(), 0);
}

#[test]
fn method_tokens_parse_exactly() {
    assert!(matches!(Method::from_str("GET"), Ok(Method::GET)));
    assert!(matches!(Method::from_str("POST"), Ok(Method::POST)));
    assert!(matches!(Method::from_str("DELETE"), Ok(Method::DELETE)));
    match Method::from_str("PATCH") {
        Err(minihttp::request::MethodParseError::Unknown(t)) => assert_eq!(t, "PATCH"),
        _ => panic!("unknown method must be rejected"),
    }
    assert_eq!(Method::GET.to_string(), "GET");
    assert_eq!(Method::POST.to_string(), "POST");
    assert_eq!(Method::DELETE.to_string(), "DELETE");
}

#[test]
fn body_decodes_as_utf8_text() {
    let mut p = HttpParser::new();
    let mut req = match p.feed(b"POST /u HTTP/1.1\r\n\r\n") {
        Some(Ok(req)) => req,
        _ => panic!("parse failed"),
    };
    req.set_body(b"hello".to_vec());
    assert_eq!(req.string(), Ok("hello".to_string()));

    let mut p2 = HttpParser::new();
    let mut req2 = match p2.feed(b"POST /u HTTP/1.1\r\n\r\n") {
        Some(Ok(req)) => req,
        _ => panic!("parse failed"),
    };
    req2.set_body(vec![0xff, 0xfe]);
    assert_eq!(req2.string(), Err(()));
}

#[test]
fn decoded_bytes_build_the_string() {
    assert_eq!(minihttp::text::bytes_to_string(b"abc"), "abc".to_string());
    assert_eq!(minihttp::text::bytes_to_string(b""), String::new());
}
