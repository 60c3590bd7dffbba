//! Memory that threads share.
use vstd::prelude::*;

verus! {

/// Wraps a value that many threads write. How it is laid out is left to the
/// compiler.
pub struct CacheAligned<T>(pub T);

} // verus!
