use minihttp::request::{IntoRequest, Method, Request};
use minihttp::StringMap;

#[test]
fn string_map_inserts_and_overwrites_in_place() {
    let mut m = StringMap::new();
    assert_eq!(m.len(), 0);
    m.insert("a".to_string(), "1".to_string());
    m.insert("b".to_string(), "2".to_string());
    m.insert("a".to_string(), "3".to_string());
    assert_eq!(m.len(), 2);
    assert_eq!(m.get("a"), Some(&"3".to_string()));
    assert_eq!(m.get("b"), Some(&"2".to_string()));
    assert_eq!(m.get("c"), None);
    assert!(m.contains_key("a"));
    assert!(!m.contains_key("c"));
}

#[test]
fn request_keeps_its_parts_and_trims_header_lookups() {
    let mut headers = StringMap::new();
    headers.insert("Agent".to_string(), "  padded  ".to_string());
    let mut req = Request::new(Method::POST, "/p", "HTTP/1.1", headers);
    assert!(matches!(req.get_method(), Method::POST));
    assert_eq!(req.get_path(), "/p");
    assert_eq!(req.version, "HTTP/1.1");
    assert_eq!(req.get_header("Agent"), Some("padded"));
    assert_eq!(req.get_header("Other"), None);
    assert!(req.body.is_none());
    req.set_body(vec![1, 2]);
    assert_eq!(req.body, Some(vec![1, 2]));
    assert_eq!(req.get_path(), "/p");
}

#[test]
fn request_clone_preserves_every_part() {
    let mut headers = StringMap::new();
    headers.insert("k".to_string(), "v".to_string());
    let mut req = Request::new(Method::GET, "/c", "HTTP/1.1", headers);
    req.set_body(b"xyz".to_vec());
    let copy = req.clone();
    assert_eq!(copy.get_path(), "/c");
    assert_eq!(copy.version, "HTTP/1.1");
    assert_eq!(copy.get_header("k"), Some("v"));
    assert_eq!(copy.body, Some(b"xyz".to_vec()));
}

#[test]
fn a_string_converts_to_the_stock_request() {
    let req = "anything".to_string().into_request();
    assert!(matches!(req.get_method(), Method::GET));
    assert_eq!(req.get_path(), "/");
    assert_eq!(req.version, "HTTP/1.1");
    assert_eq!(req.headers.len(), 0);
    assert!(req.body.is_none());
}
