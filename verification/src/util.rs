use vstd::prelude::*;

use crate::fixed::{div_trunc, div_trunc_spec, lemma_abs_mul_le};

verus! {

/// Pi in fixed-point units, rounded to the nearest millionth.
pub const PI_FIXED: i128 = 3_141_593;

/// Converts a fixed-point angle in degrees to radians: degrees * pi / 180.
pub fn degrees_to_radians(degrees: i128) -> (r: i128)
    requires
        -1_000_000_000_000_000_000 <= degrees <= 1_000_000_000_000_000_000,
    ensures
        r == div_trunc_spec(degrees * PI_FIXED, 180_000_000),
{
    proof {
        lemma_abs_mul_le(degrees as int, PI_FIXED as int, 1_000_000_000_000_000_000, PI_FIXED as int);
    }
    div_trunc(degrees * PI_FIXED, 180_000_000)
}

} // verus!
