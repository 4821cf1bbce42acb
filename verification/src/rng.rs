//! The randomness source and the few trusted calls into the `rand` crate.
//! Every random decision the engine makes goes through one of these wrappers;
//! their contracts state only what holds of every possible outcome.

use vstd::prelude::*;

verus! {

#[verifier::external_type_specification]
#[verifier::external_body]
pub struct ExThreadRng(rand::rngs::ThreadRng);

/// Relies on `rand::seq::SliceRandom::shuffle`: an in-place Fisher-Yates
/// shuffle, a sequence of swaps, so the result holds exactly the same values
/// with the same multiplicities.
#[verifier::external_body]
pub(crate) fn shuffle_values(values: &mut Vec<usize>, rng: &mut rand::rngs::ThreadRng)
    ensures
        final(values)@.to_multiset() == old(values)@.to_multiset(),
        final(values)@.len() == old(values)@.len(),
{
    rand::seq::SliceRandom::shuffle(values.as_mut_slice(), rng);
}

/// Relies on `rand::seq::SliceRandom::choose`: returns `None` exactly when the
/// slice is empty, and otherwise a uniformly chosen element of it.
#[verifier::external_body]
pub(crate) fn pick_uniform(options: &Vec<usize>, rng: &mut rand::rngs::ThreadRng) -> (r: Option<
    usize,
>)
    ensures
        r is Some <==> options@.len() > 0,
        r is Some ==> options@.contains(r->0),
{
    rand::seq::SliceRandom::choose(options.as_slice(), rng).copied()
}

/// Relies on `rand::Rng::gen_ratio`: returns true with probability
/// `numerator / denominator`; it panics when the denominator is zero or the
/// numerator exceeds it, so those arguments are excluded. Nothing can be
/// promised of a random boolean.
#[verifier::external_body]
pub(crate) fn roll_ratio(numerator: u32, denominator: u32, rng: &mut rand::rngs::ThreadRng) -> (r:
    bool)
    requires
        0 < denominator,
        numerator <= denominator,
{
    rand::Rng::gen_ratio(rng, numerator, denominator)
}

} // verus!
