//! Lock classes: the identities that locks are scheduled and measured by.
use vstd::prelude::*;

verus! {

/// The class of a lock that the scheduler does not manage.
pub const UNMANAGED_LOCK_ID: u32 = 0;

/// Lock classes that exist, the unmanaged one included.
pub const MAX_LOCK_CLASSES: u32 = 64;

/// The length of a table with one entry per lock class.
pub const CLASS_COUNT: usize = 64;

} // verus!
