//! Random draws. The numbers come from the `rand` crate's thread-local
//! generator; of what it returns only the range is known.

use rand::Rng;
use vstd::prelude::*;

verus! {

/// Calls `rand::Rng::gen_range` on `rand::thread_rng()` with the inclusive
/// range from `low` to `high`. The contract claims only what the method's
/// documentation promises: the value lies in the range. The method panics
/// on an empty range, which `requires` excludes.
#[verifier::external_body]
pub(crate) fn random_weight(low: u32, high: u32) -> (weight: u32)
    requires
        low <= high,
    ensures
        low <= weight <= high,
{
    rand::thread_rng().gen_range(low..=high)
}

/// Calls `rand::Rng::gen_range` on `rand::thread_rng()` with the half-open
/// range from zero to `bound`. The contract claims only what the method's
/// documentation promises: the value lies in the range. The method panics
/// on an empty range, which `requires` excludes.
#[verifier::external_body]
pub(crate) fn random_index(bound: usize) -> (index: usize)
    requires
        bound > 0,
    ensures
        index < bound,
{
    rand::thread_rng().gen_range(0..bound)
}

} // verus!
