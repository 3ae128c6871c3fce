//! Drawing lots: a random order for the participants.

use rand::rngs::ThreadRng;
use rand::seq::SliceRandom;
use vstd::prelude::*;

verus! {

/// The generator of random numbers that `rand` keeps for each thread. Nothing
/// is known of what is inside.
#[verifier::external_type_specification]
#[verifier::external_body]
pub struct ExThreadRng(rand::rngs::ThreadRng);

/// `rand::thread_rng`: hands out the calling thread's generator, which the
/// system seeds on first use. Nothing is claimed of it. Trusted, not proved.
pub assume_specification[ rand::thread_rng ]() -> (rng: rand::rngs::ThreadRng)
;

/// `SliceRandom::shuffle` of `rand`, on the slice of `names`: it only swaps
/// entries, so the names afterwards are the names before in some order, each
/// as often as before. Which order is left open. Trusted, not proved.
#[verifier::external_body]
fn shuffle_with(names: &mut Vec<String>, rng: &mut ThreadRng)
    ensures
        final(names).deep_view().to_multiset() == old(names).deep_view().to_multiset(),
{
    names.shuffle(rng);
}

/// Puts `names` in a random order, taken from the thread's generator.
pub fn shuffle(names: &mut Vec<String>)
    ensures
        final(names).deep_view().to_multiset() == old(names).deep_view().to_multiset(),
{
    let mut rng = rand::thread_rng();
    shuffle_with(names, &mut rng);
}

} // verus!
