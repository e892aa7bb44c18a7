//! The uniform random integer source used for mine placement.

use vstd::prelude::*;
use rand::Rng;

verus! {

/// Relies on rand::thread_rng and rand::Rng::gen_range: a uniformly
/// distributed integer in the half-open interval [min, max). The range must
/// be non-empty, since gen_range panics on an empty range. Nothing is
/// promised about which value comes back beyond its bounds.
#[verifier::external_body]
pub fn random_range(min: usize, max: usize) -> (r: usize)
    requires
        min < max,
    ensures
        min <= r < max,
{
    rand::thread_rng().gen_range(min..max)
}

} // verus!
