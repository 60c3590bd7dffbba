//! The error numbers that the locking interfaces hand out.
use vstd::prelude::*;

verus! {

pub const EINTR: i32 = 4;

pub const EAGAIN: i32 = 11;

pub const EBUSY: i32 = 16;

pub const EINVAL: i32 = 22;

pub const ENOTSUP: i32 = 95;

pub const ETIMEDOUT: i32 = 110;

} // verus!
