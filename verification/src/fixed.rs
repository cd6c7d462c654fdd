//! Fixed-point scalars.
//!
//! Every physical quantity in the aggregator is an `i64` holding the value
//! times [`SCALE`] (one million), so a metre is 1_000_000 units and a
//! millimetre is 1_000.  All arithmetic on them is exact integer arithmetic.

use vstd::prelude::*;

verus! {

/// Number of fixed-point units in one whole unit (metre, second, kelvin, ...).
pub const SCALE: i64 = 1_000_000;

/// Bound kept on every fixed-point coordinate so that sums and scaled
/// products stay inside `i64` / `i128`.
pub const FIX_LIMIT: i64 = 1_000_000_000_000;

/// A scalar is in range when its magnitude stays under [`FIX_LIMIT`].
pub open spec fn fix_in_range(x: int) -> bool {
    -(FIX_LIMIT as int) <= x <= FIX_LIMIT as int
}

/// Clamps `x` into `[lo, hi]`.
pub open spec fn spec_clamp(x: int, lo: int, hi: int) -> int {
    if x < lo {
        lo
    } else if x > hi {
        hi
    } else {
        x
    }
}

/// Clamps a scalar into a closed interval.
pub fn clamp_fix(x: i64, lo: i64, hi: i64) -> (r: i64)
    requires
        lo <= hi,
    ensures
        r == spec_clamp(x as int, lo as int, hi as int),
{
    if x < lo {
        lo
    } else if x > hi {
        hi
    } else {
        x
    }
}

} // verus!
