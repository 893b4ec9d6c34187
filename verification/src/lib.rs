//! A minimal verified HTTP/1.1 server engine: incremental request parsing,
//! template-based path routing, handler dispatch over four calling shapes,
//! and exact response serialization.
pub mod connection;
pub mod dispatch;
pub mod extract;
pub mod parse;
pub mod request;
pub mod response;
pub mod router;
pub mod status;
pub mod strmap;
pub mod text;

pub use dispatch::{Handler, Handler0, HandlerParams, HandlerRequest, HandlerTypes, Methodable};
pub use response::IntoResponse;
pub use strmap::StringMap;
