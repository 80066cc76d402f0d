use vstd::prelude::*;

use rand::seq::SliceRandom;

use crate::player::Card;

verus! {

/// Relies on rand's `SliceRandom::shuffle`: it rearranges the elements of the
/// slice in place, so the vector afterwards holds the same cards, possibly in
/// another order. Nothing more is assumed: the order depends on the thread's
/// random generator.
#[verifier::external_body]
pub(crate) fn shuffle_cards(cards: &mut Vec<Card>)
    ensures
        final(cards)@.to_multiset() == old(cards)@.to_multiset(),
{
    cards.shuffle(&mut rand::thread_rng());
}

} // verus!
