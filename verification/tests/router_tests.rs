use minihttp::dispatch::{Handler0, HandlerTypes};
use minihttp::request::Method;
use minihttp::response::{HandlerError, IntoResponse, Response};
use minihttp::router::{PatternPath, Router, RouterError};

struct Tag(&'static str);

impl Handler0 for Tag {
    fn call(&self) -> Result<Response, HandlerError> {
        Ok(self.0.into_response())
    }
}

fn body_text(resp: &Response) -> String {
    String::from_utf8(resp.body.clone().expect("response has a body")).unwrap()
}

#[test]
fn equal_counts_and_static_equality_match() {
    let t = PatternPath::from_path("/a/{x}/c");
    assert!(t.matches("/a/anything/c"));
    assert!(t.matches("/a/b/c"));
    assert!(!t.matches("/a/b/d"));
    assert!(!t.matches("/a/b"));
    assert!(!t.matches("/a/b/c/d"));
}

#[test]
fn slashes_collapse_when_splitting() {
    let t = PatternPath::from_path("//a///{x}/");
    assert!(t.matches("/a/b"));
    assert!(t.matches("a/b//"));
    assert!(!t.matches("/a"));
}

#[test]
fn extract_params_binds_declared_names() {
    let t = PatternPath::from_path("/users/{id}/posts/{post}");
    let params = t.extract_params("/users/42/posts/seven");
    assert_eq!(params.len(), 2);
    assert_eq!(params.get("id"), Some(&"42".to_string()));
    assert_eq!(params.get("post"), Some(&"seven".to_string()));
    assert_eq!(params.get("users"), None);
    assert_eq!(params.get("posts"), None);
}

#[test]
fn extract_params_later_occurrence_wins() {
    let t = PatternPath::from_path("/{x}/{x}");
    let params = t.extract_params("/first/second");
    assert_eq!(params.len(), 1);
    assert_eq!(params.get("x"), Some(&"second".to_string()));
}

#[test]
fn first_match_wins_by_registration_order() {
    let router = Router::builder()
        .route("/a/{x}", HandlerTypes::empty(Tag("param route"), Method::GET))
        .route("/a/b", HandlerTypes::empty(Tag("static route"), Method::GET))
        .build();
    let rm = router.matches("/a/b", Method::GET).expect("route resolves");
    assert_eq!(rm.params.get("x"), Some(&"b".to_string()));
    let resp = match rm.handler {
        HandlerTypes::ZeroParams((h, _)) => h.call().unwrap(),
        _ => panic!("zero-argument handler expected"),
    };
    assert_eq!(body_text(&resp), "param route");
}

#[test]
fn path_not_found_and_method_not_allowed_are_distinguished() {
    let router = Router::builder()
        .route("/users", HandlerTypes::empty(Tag("users"), Method::POST))
        .build();
    assert_eq!(
        router.matches("/zzz", Method::GET).err(),
        Some(RouterError::PathNotFound)
    );
    assert_eq!(
        router.matches("/users", Method::GET).err(),
        Some(RouterError::MethodNotAllowed)
    );
    assert!(router.matches("/users", Method::POST).is_ok());
}

#[test]
fn method_mismatch_keeps_scanning_for_a_later_route() {
    let router = Router::builder()
        .route("/u", HandlerTypes::empty(Tag("post route"), Method::POST))
        .route("/u", HandlerTypes::empty(Tag("get route"), Method::GET))
        .build();
    let rm = router.matches("/u", Method::GET).expect("route resolves");
    assert!(rm.methods == &Method::GET);
    let resp = match rm.handler {
        HandlerTypes::ZeroParams((h, _)) => h.call().unwrap(),
        _ => panic!("zero-argument handler expected"),
    };
    assert_eq!(body_text(&resp), "get route");
}

#[test]
fn cloned_service_resolves_the_same_routes() {
    let service = Router::builder()
        .route("/a", HandlerTypes::empty(Tag("a"), Method::GET))
        .build()
        .into_service();
    let copy = service.clone();
    assert!(service.router.matches("/a", Method::GET).is_ok());
    assert!(copy.router.matches("/a", Method::GET).is_ok());
    assert_eq!(
        copy.router.matches("/b", Method::GET).err(),
        Some(RouterError::PathNotFound)
    );
}

#[test]
fn braces_must_wrap_the_whole_segment() {
    let t = PatternPath::from_path("/{x/y}");
    assert!(!t.matches("/a/b"));
    assert!(t.matches("/{x/y}"));
    let params = t.extract_params("/{x/y}");
    assert_eq!(params.len(), 0);
}
