//! The seeded deck shuffle, performed by the rand crate behind a single
//! trusted wrapper.

use rand::seq::SliceRandom;
use rand::SeedableRng;

use crate::game::Card;
use vstd::prelude::*;

verus! {

/// What rand's seeded Fisher-Yates shuffle leaves of the given cards for the
/// given seed. The result is a function of the cards and the seed alone.
pub uninterp spec fn shuffle_of(cards: Seq<Card>, seed: u64) -> Seq<Card>;

/// Relies on rand's `StdRng::seed_from_u64` and `SliceRandom::shuffle`:
/// seeding is a pure function of the 64-bit seed, and the shuffle only swaps
/// elements of the slice in place, so the outcome is a permutation of the
/// input that depends on the input and the seed alone.
#[verifier::external_body]
pub(crate) fn shuffle_cards(deck: &mut Vec<Card>, seed: u64)
    ensures
        final(deck)@ == shuffle_of(old(deck)@, seed),
        final(deck)@.to_multiset() == old(deck)@.to_multiset(),
        final(deck)@.len() == old(deck)@.len(),
{
    let mut rng: rand::rngs::StdRng = SeedableRng::seed_from_u64(seed);
    deck.shuffle(&mut rng);
}

} // verus!
