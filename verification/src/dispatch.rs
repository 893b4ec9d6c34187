//! Handler calling shapes. A route's handler is one of four capabilities —
//! taking nothing, the parameters, the request, or both — held behind a
//! tagged variant so dispatch is a single match over the tag.
use vstd::prelude::*;

use crate::request::{Method, Request};
use crate::response::{HandlerError, Response};
use crate::strmap::StringMap;

verus! {

/// A handler that takes the full request and the extracted parameters.
pub trait Handler: Send + Sync {
    fn call(&self, req: &Request, params: StringMap) -> Result<Response, HandlerError>;
}

/// A handler that takes nothing.
pub trait Handler0: Send + Sync {
    fn call(&self) -> Result<Response, HandlerError>;
}

/// A handler that takes only the extracted parameters.
pub trait HandlerParams: Send + Sync {
    fn call(&self, params: StringMap) -> Result<Response, HandlerError>;
}

/// A handler that takes only the request.
pub trait HandlerRequest: Send + Sync {
    fn call(&self, request: &Request) -> Result<Response, HandlerError>;
}

/// A handler together with the method its route requires, tagged by calling
/// shape.
pub enum HandlerTypes {
    ZeroParams((Box<dyn Handler0>, Method)),
    Full((Box<dyn Handler>, Method)),
    Body((Box<dyn HandlerRequest>, Method)),
    Params((Box<dyn HandlerParams>, Method)),
}

impl HandlerTypes {
    /// The method this handler's route requires.
    pub open spec fn spec_method(&self) -> Method {
        match self {
            HandlerTypes::ZeroParams((_, method)) => *method,
            HandlerTypes::Full((_, method)) => *method,
            HandlerTypes::Body((_, method)) => *method,
            HandlerTypes::Params((_, method)) => *method,
        }
    }

    /// The method this handler's route requires.
    pub fn get_method(&self) -> (r: &Method)
        ensures
            *r == self.spec_method(),
    {
        match self {
            HandlerTypes::ZeroParams((_, method)) => method,
            HandlerTypes::Full((_, method)) => method,
            HandlerTypes::Body((_, method)) => method,
            HandlerTypes::Params((_, method)) => method,
        }
    }

    /// Wraps a request-and-parameters handler.
    pub fn full(handler: impl Handler + 'static, method: Method) -> (r: Self)
        ensures
            r.spec_method() == method,
            r is Full,
    {
        HandlerTypes::Full((Box::new(handler), method))
    }

    /// Wraps a zero-argument handler.
    pub fn empty(handler: impl Handler0 + 'static, method: Method) -> (r: Self)
        ensures
            r.spec_method() == method,
            r is ZeroParams,
    {
        HandlerTypes::ZeroParams((Box::new(handler), method))
    }

    /// Wraps a request-only handler.
    pub fn body(handler: impl HandlerRequest + 'static, method: Method) -> (r: Self)
        ensures
            r.spec_method() == method,
            r is Body,
    {
        HandlerTypes::Body((Box::new(handler), method))
    }

    /// Wraps a parameters-only handler.
    pub fn params(handler: impl HandlerParams + 'static, method: Method) -> (r: Self)
        ensures
            r.spec_method() == method,
            r is Params,
    {
        HandlerTypes::Params((Box::new(handler), method))
    }
}

/// Wrapping of a handler by some method policy.
pub trait Methodable: Send + Sync {
    fn wrap(&self, handler: HandlerTypes) -> Box<HandlerTypes>;
}

/// Invokes a handler according to its calling shape, handing it exactly the
/// parts of the match output — request, extracted parameters — that its shape
/// declares. The handler's own result is returned unchanged; a failure is a
/// value, never an abort.
pub fn invoke_handler(
    handler: &HandlerTypes,
    request: Request,
    params: StringMap,
) -> Result<Response, HandlerError> {
    match handler {
        HandlerTypes::ZeroParams((h, _)) => h.call(),
        HandlerTypes::Params((h, _)) => h.call(params),
        HandlerTypes::Body((h, _)) => h.call(&request),
        HandlerTypes::Full((h, _)) => h.call(&request, params),
    }
}

} // verus!
