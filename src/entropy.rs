//! Draws from the thread-local cryptographic random number generator.

use vstd::prelude::*;
use rand::Rng;

verus! {

/// Relies on rand::random: a value drawn from the thread-local generator;
/// nothing is known of it.
pub assume_specification<T>[ rand::random::<T> ]() -> (r: T)
    where
        rand::distributions::Standard: rand::distributions::Distribution<T>,
;

/// Relies on rand::Rng::gen_range on the thread-local generator: a value drawn
/// from `0..bound`, which is below the bound.
#[verifier::external_body]
pub(crate) fn random_below(bound: u128) -> (r: u128)
    requires
        bound > 0,
    ensures
        r < bound,
{
    rand::thread_rng().gen_range(0..bound)
}

} // verus!
