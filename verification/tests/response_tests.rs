use minihttp::response::{HandlerError, IntoResponse, Response, ResponseBuilder};
use minihttp::status::StatusCode;

#[test]
fn serializes_200_with_body_exactly() {
    let resp = ResponseBuilder::new()
        .status_code(StatusCode::ALL_OK)
        .body(b"hi")
        .build();
    let bytes = resp.to_bytes();
    assert_eq!(
        bytes,
        b"HTTP/1.1 200 OK\r\nConnection: close\r\nContent-Length: 2\r\n\r\nhi".to_vec()
    );
}

#[test]
fn serializes_without_body_as_blank_line_only() {
    let resp = ResponseBuilder::new()
        .status_code(StatusCode::NOT_FOUND)
        .build();
    assert_eq!(
        resp.to_bytes(),
        b"HTTP/1.1 404 Not Found\r\nConnection: close\r\n\r\n".to_vec()
    );
}

#[test]
fn serializes_stored_headers_in_insertion_order() {
    let resp = ResponseBuilder::new()
        .status_code(StatusCode::ALL_OK)
        .header(("a", "1"))
        .header(("b", "2"))
        .header(("a", "3"))
        .build();
    assert_eq!(
        resp.to_bytes(),
        b"HTTP/1.1 200 OK\r\nConnection: close\r\na: 3\r\nb: 2\r\n\r\n".to_vec()
    );
}

#[test]
fn status_lines_match_the_fixed_table() {
    assert_eq!(StatusCode::ALL_OK.as_str(), "HTTP/1.1 200 OK");
    assert_eq!(StatusCode::CREATED.as_str(), "HTTP/1.1 201 Created");
    assert_eq!(StatusCode::ACCEPTED.as_str(), "HTTP/1.1 202 Accepted");
    assert_eq!(StatusCode::BAD_REQUEST.as_str(), "HTTP/1.1 400 Bad Request");
    assert_eq!(StatusCode::UNAUTHORIZED.as_str(), "HTTP/1.1 401 Unauthorized");
    assert_eq!(StatusCode::FORBIDDEN.as_str(), "HTTP/1.1 403 Forbidden");
    assert_eq!(StatusCode::NOT_FOUND.as_str(), "HTTP/1.1 404 Not Found");
    assert_eq!(
        StatusCode::METHOD_NOT_ALLOWED.as_str(),
        "HTTP/1.1 405 Method Not Allowed"
    );
    assert_eq!(
        StatusCode::INTERNAL_SERVER_ERROR.as_str(),
        "HTTP/1.1 500 Internal Server Error"
    );
}

#[test]
fn unit_converts_to_empty_200() {
    let resp = ().into_response();
    assert!(matches!(resp.status_code, StatusCode::ALL_OK));
    assert!(resp.body.is_none());
    assert_eq!(resp.headers.len(), 0);
}

#[test]
fn text_converts_to_plain_200() {
    let resp = "hello".into_response();
    assert!(matches!(resp.status_code, StatusCode::ALL_OK));
    assert_eq!(resp.body, Some(b"hello".to_vec()));
    assert_eq!(resp.headers.get("Content-Type"), Some(&"text/plain".to_string()));

    let owned = String::from("hello").into_response();
    assert_eq!(owned.body, Some(b"hello".to_vec()));
}

#[test]
fn bytes_convert_to_octet_stream_200() {
    let resp = vec![1u8, 2, 3].into_response();
    assert!(matches!(resp.status_code, StatusCode::ALL_OK));
    assert_eq!(resp.body, Some(vec![1u8, 2, 3]));
    assert_eq!(
        resp.headers.get("Content-Type"),
        Some(&"application/octet-stream".to_string())
    );
}

#[test]
fn status_code_converts_to_canned_text() {
    let resp = StatusCode::METHOD_NOT_ALLOWED.into_response();
    assert!(matches!(resp.status_code, StatusCode::METHOD_NOT_ALLOWED));
    assert_eq!(resp.body, Some(b"405 Method Not Allowed".to_vec()));
}

#[test]
fn pair_overrides_the_status_of_the_inner_conversion() {
    let resp = (StatusCode::FORBIDDEN, "no entry").into_response();
    assert!(matches!(resp.status_code, StatusCode::FORBIDDEN));
    assert_eq!(resp.body, Some(b"no entry".to_vec()));
}

#[test]
fn handler_error_converts_to_empty_500() {
    let resp = HandlerError::MainHandlerError.into_response();
    assert!(matches!(resp.status_code, StatusCode::INTERNAL_SERVER_ERROR));
    assert!(resp.body.is_none());

    let failed: Result<Response, HandlerError> = Err(HandlerError::MainHandlerError);
    let resp2 = failed.into_response();
    assert!(matches!(resp2.status_code, StatusCode::INTERNAL_SERVER_ERROR));

    let fine: Result<Response, HandlerError> = Ok("ok".into_response());
    assert_eq!(fine.into_response().body, Some(b"ok".to_vec()));
}

#[test]
fn error_response_is_an_empty_404() {
    let resp = Response::error();
    assert!(matches!(resp.status_code, StatusCode::NOT_FOUND));
    assert!(resp.body.is_none());
    assert_eq!(resp.headers.len(), 0);
}

#[test]
fn builder_collects_status_headers_and_body() {
    let resp = ResponseBuilder::new()
        .header(("ayaya", "illness"))
        .status_code(StatusCode::FORBIDDEN)
        .build();
    assert!(matches!(resp.status_code, StatusCode::FORBIDDEN));
    assert_eq!(resp.headers.get("ayaya"), Some(&"illness".to_string()));
    assert!(resp.body.is_none());
}

#[test]
fn content_length_renders_in_decimal() {
    let body = vec![7u8; 123];
    let resp = ResponseBuilder::new()
        .status_code(StatusCode::ALL_OK)
        .body(&body)
        .build();
    let bytes = resp.to_bytes();
    let text = String::from_utf8(bytes[..bytes.len() - 123].to_vec()).unwrap();
    assert!(text.contains("Content-Length: 123\r\n"));
}
