//! Integer helpers.
use vstd::prelude::*;

verus! {

pub open spec fn min_int(a: int, b: int) -> int {
    if a <= b {
        a
    } else {
        b
    }
}

/// What is left of `a` once `b` is taken away, never below zero.
pub open spec fn monus(a: int, b: int) -> int {
    if a >= b {
        a - b
    } else {
        0
    }
}

/// The product, or the largest value where it does not fit.
pub fn saturating_mul(a: u64, b: u64) -> (r: u64)
    ensures
        r == min_int(a * b, u64::MAX as int),
{
    proof {
        lemma_mul_fits(a, b);
    }
    let product: u128 = a as u128 * b as u128;
    if product > u64::MAX as u128 {
        u64::MAX
    } else {
        product as u64
    }
}

pub proof fn lemma_mul_fits(a: u64, b: u64)
    ensures
        0 <= a * b <= u64::MAX * u64::MAX,
{
    assert(0 <= a * b <= u64::MAX * u64::MAX) by (nonlinear_arith)
        requires
            0 <= a <= u64::MAX,
            0 <= b <= u64::MAX,
    ;
}

/// The low 64 bits of `value`.
pub fn low_u64(value: u128) -> (r: u64)
    ensures
        r == value as int % 0x1_0000_0000_0000_0000,
{
    assert(value as u64 as u128 == value % 0x1_0000_0000_0000_0000u128) by (bit_vector);
    value as u64
}

} // verus!
