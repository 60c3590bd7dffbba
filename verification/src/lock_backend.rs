//! What a lock algorithm offers its callers.
use vstd::prelude::*;

verus! {

/// A lock shared by the threads that use it.
pub trait LockBackend {
    /// Returns once the lock is held.
    fn lock(&self);

    /// Takes the lock if it is free, and reports whether it did.
    fn try_lock(&self) -> bool;

    fn unlock(&self);
}

} // verus!
