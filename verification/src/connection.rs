//! The per-connection decision: which bytes, if any, answer one parse
//! outcome. Reading and writing belong to the caller that owns the stream;
//! everything between — routing, dispatch, conversion, serialization — is
//! decided here, as a function of the frozen router and the parse result.
use vstd::prelude::*;

use crate::dispatch::invoke_handler;
use crate::parse::ParseError;
use crate::request::Request;
use crate::response::{wire_bytes, HandlerError, IntoResponse, Response};
use crate::router::{route_full_match, route_path_match, RouterError, RouterService};
use crate::status::StatusCode;

verus! {

/// Failure to serve on a socket.
#[derive(Debug)]
pub enum ServerError {
    ServerErr,
}

/// Turns a handler's own result — success or failure — into wire bytes by
/// the uniform conversion contract: a failure becomes a response like any
/// success, never an abort.
pub fn respond_bytes(res: Result<Response, HandlerError>) -> (r: Vec<u8>)
    ensures
        r@ == wire_bytes(res.resp_spec()),
{
    res.into_response().to_bytes()
}

/// The bytes that answer one parse outcome, or nothing when the peer closed
/// before a request arrived. A parse failure is answered with the canned 500
/// response; an unknown path with the canned 404; a known path asked with
/// the wrong method with the canned 405; a resolved request with whatever
/// its handler's result converts to.
pub fn handle_parsed(service: &RouterService, parsed: Result<Request, ParseError>) -> (r: Option<
    Vec<u8>,
>)
    ensures
        match parsed {
            Err(ParseError::ClosedConnection) => r is None,
            Err(_) => r matches Some(b) && b@ == wire_bytes(
                StatusCode::INTERNAL_SERVER_ERROR.resp_spec(),
            ),
            Ok(req) => {
                let routes = service.router.inner@;
                if exists|i: int|
                    0 <= i < routes.len() && #[trigger] route_full_match(
                        routes,
                        req.path@,
                        req.method,
                        i,
                    ) {
                    r matches Some(b) && exists|m: crate::response::RespModel| b@ == #[trigger] wire_bytes(m)
                } else if exists|i: int|
                    0 <= i < routes.len() && #[trigger] route_path_match(routes, req.path@, i) {
                    r matches Some(b) && b@ == wire_bytes(
                        StatusCode::METHOD_NOT_ALLOWED.resp_spec(),
                    )
                } else {
                    r matches Some(b) && b@ == wire_bytes(StatusCode::NOT_FOUND.resp_spec())
                }
            },
        },
{
    match parsed {
        Ok(request) => {
            let m = *request.get_method();
            match service.router.matches(request.get_path(), m) {
                Ok(route_match) => {
                    let res = invoke_handler(route_match.handler, request, route_match.params);
                    Some(respond_bytes(res))
                },
                Err(RouterError::MethodNotAllowed) => Some(
                    StatusCode::METHOD_NOT_ALLOWED.into_response().to_bytes(),
                ),
                Err(RouterError::PathNotFound) => Some(
                    StatusCode::NOT_FOUND.into_response().to_bytes(),
                ),
            }
        },
        Err(ParseError::ClosedConnection) => None,
        Err(_) => Some(StatusCode::INTERNAL_SERVER_ERROR.into_response().to_bytes()),
    }
}

} // verus!
