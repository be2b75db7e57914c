//! Shared arithmetic helpers for the time and backoff calculations.

use vstd::prelude::*;

verus! {

/// Multiplication on `u64` that stops at `u64::MAX` instead of wrapping.
pub open spec fn spec_saturating_mul_u64(x: u64, y: u64) -> u64 {
    if x * y > u64::MAX {
        u64::MAX
    } else {
        (x * y) as u64
    }
}

/// Relies on std's u64::saturating_mul: the product, saturating at the
/// numeric bound instead of overflowing.
pub assume_specification[ u64::saturating_mul ](x: u64, y: u64) -> (r: u64)
    ensures
        r == spec_saturating_mul_u64(x, y),
;

} // verus!
