//! Typed extraction from a request body.
use vstd::prelude::*;

verus! {

/// A value decoded from a request body; the decoding itself is done by the
/// caller that owns the decoder.
pub struct Json<T>(pub T);

} // verus!
