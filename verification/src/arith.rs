//! Saturating arithmetic.

use vstd::prelude::*;

verus! {

/// The sum, held at the largest `u64`.
pub open spec fn sat_add(a: u64, b: u64) -> u64 {
    if a + b > u64::MAX {
        u64::MAX
    } else {
        (a + b) as u64
    }
}

/// The difference, held at zero.
pub open spec fn sat_sub(a: u64, b: u64) -> u64 {
    if a < b {
        0
    } else {
        (a - b) as u64
    }
}

pub open spec fn larger(a: u64, b: u64) -> u64 {
    if a >= b {
        a
    } else {
        b
    }
}

pub fn max_u64(a: u64, b: u64) -> (m: u64)
    ensures
        m == larger(a, b),
{
    if a >= b {
        a
    } else {
        b
    }
}

} // verus!
