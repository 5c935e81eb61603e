//! The random source of the engine and of the random-case transformer.
use vstd::prelude::*;

verus! {

#[verifier::external_type_specification]
#[verifier::external_body]
pub struct ExThreadRng(rand::rngs::ThreadRng);

/// Relies on rand::thread_rng: a handle to the thread's random generator.
#[verifier::external_body]
pub(crate) fn new_rng() -> (r: rand::rngs::ThreadRng) {
    rand::thread_rng()
}

/// Relies on rand::seq::SliceRandom::shuffle: a permutation of the items in
/// place, so each value occurs as often as before.
#[verifier::external_body]
pub(crate) fn shuffle(rng: &mut rand::rngs::ThreadRng, items: &mut Vec<bool>)
    ensures
        final(items)@.to_multiset() == old(items)@.to_multiset(),
{
    rand::seq::SliceRandom::shuffle(items.as_mut_slice(), rng)
}

/// Relies on rand::seq::SliceRandom::choose: one item of a non-empty slice.
#[verifier::external_body]
pub(crate) fn pick(rng: &mut rand::rngs::ThreadRng, items: &Vec<usize>) -> (r: usize)
    requires
        items@.len() > 0,
    ensures
        items@.contains(r),
{
    *rand::seq::SliceRandom::choose(items.as_slice(), rng).unwrap()
}

/// Relies on rand::Rng::gen for `bool`: a fair coin.
#[verifier::external_body]
pub(crate) fn coin(rng: &mut rand::rngs::ThreadRng) -> (r: bool) {
    rand::Rng::gen::<bool>(rng)
}

} // verus!
