//! Angle conversion.

use vstd::prelude::*;
use crate::fp::{fdiv, fmul, fp_div, fp_mul, iabs, lemma_fdiv_bound, lemma_fmul_bound, FP_ONE};

verus! {

/// The circle constant, rounded to the fixed-point grid.
pub const FP_PI: i128 = 3_141_593;

/// Degrees to radians: multiply by pi, divide by 180.
pub fn degrees_to_radians(degrees: i128) -> (r: i128)
    requires
        iabs(degrees as int) <= 1_000_000_000_000,
    ensures
        r == fdiv(fmul(degrees as int, FP_PI as int), 180 * FP_ONE as int),
{
    proof {
        lemma_fmul_bound(degrees as int, FP_PI as int, 1_000_000_000_000, FP_PI as int);
        lemma_fdiv_bound(
            fmul(degrees as int, FP_PI as int),
            180 * FP_ONE as int,
            3_141_593_000_000,
            180 * FP_ONE as int,
        );
    }
    fp_div(fp_mul(degrees, FP_PI), 180 * FP_ONE)
}

} // verus!
