//! The library's only source of randomness.

use vstd::prelude::*;

verus! {

/// Relies on `rand::Rng::gen_range` over `low..high` on the thread-local
/// generator: the sample lies in the half-open range.  `gen_range` panics
/// on an empty range, so the contract demands `low < high`.
#[verifier::external_body]
pub fn rng_range(low: i128, high: i128) -> (r: i128)
    requires
        low < high,
    ensures
        low <= r < high,
{
    rand::Rng::gen_range(&mut rand::thread_rng(), low..high)
}

} // verus!
