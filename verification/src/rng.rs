//! The randomness source: thin trusted wrappers around the `rand` crate.
//! Nothing is assumed of which value comes back, only of its range and,
//! for a shuffle, of what the slice still holds.

use vstd::prelude::*;

use rand::seq::SliceRandom;
use rand::Rng;

use crate::cards::Card;

verus! {

/// Relies on rand's `Rng::random_range` on the range `0..n`: the result
/// is below `n`. Which value comes back is not assumed.
#[verifier::external_body]
pub(crate) fn rand_below(n: usize) -> (r: usize)
    requires
        n > 0,
    ensures
        r < n,
{
    rand::rng().random_range(0..n)
}

/// Relies on rand's `SliceRandom::shuffle`: the slice is permuted in
/// place, so it holds the same cards as before, each the same number of
/// times. Which permutation comes back is not assumed.
#[verifier::external_body]
pub(crate) fn shuffle_cards(cards: &mut Vec<Card>)
    ensures
        final(cards)@.to_multiset() == old(cards)@.to_multiset(),
{
    cards.as_mut_slice().shuffle(&mut rand::rng());
}

} // verus!
