use vstd::prelude::*;

use crate::game::{
    action_step, all_chose, chosen_alloc_of, chosen_card_of, chosen_choosing_alloc, resolve_rel,
    seat_step, sum_gold, total_card_gold, verdict_of_choosing, Game, Play, PlayerAction,
};
use crate::player::{
    verdict_matches, PlayerData, ResourceAllocationVerdict,
};

verus! {

/// A verdict depends on nothing but the seat's ledger, the card and the
/// allocation: two verdicts computed from the same data are equal. Together
/// with the pure computation this makes recomputation idempotent.
pub proof fn lemma_verdict_deterministic(
    p: PlayerData,
    card_index: int,
    alloc: Seq<Seq<usize>>,
    v1: ResourceAllocationVerdict,
    v2: ResourceAllocationVerdict,
)
    requires
        verdict_matches(p, card_index, alloc, v1),
        verdict_matches(p, card_index, alloc, v2),
    ensures
        v1 == v2,
{
    assert(v1.extra_resources =~= v2.extra_resources);
    assert(v1.missing_resources =~= v2.missing_resources);
    assert(v1 =~= v2);
}

/// Committing a proposal and taking it back is a round trip: the seat is
/// choosing again, over the same card and allocation, and its stored verdict
/// equals any verdict freshly computed from that allocation.
pub proof fn lemma_unvalidate_roundtrip(
    p: PlayerData,
    before: Play,
    mid: Play,
    after: Play,
    fresh: ResourceAllocationVerdict,
)
    requires
        before is ChoosingResources,
        seat_step(p, before, PlayerAction::Validate, mid),
        mid is ChoseResources,
        seat_step(p, mid, PlayerAction::Unvalidate, after),
        verdict_matches(p, chosen_card_of(mid), chosen_alloc_of(mid), fresh),
    ensures
        after is ChoosingResources,
        chosen_choosing_alloc(after) == chosen_alloc_of(mid),
        chosen_alloc_of(mid) == chosen_choosing_alloc(before),
        verdict_of_choosing(after) == fresh,
{
    lemma_verdict_deterministic(
        p,
        chosen_card_of(mid),
        chosen_alloc_of(mid),
        verdict_of_choosing(after),
        fresh,
    );
}

/// Picking a card index at or beyond the hand length changes nothing
/// observable: the ledgers are untouched and every seat's decision state is
/// what it was.
pub proof fn lemma_pick_out_of_range_noop(pre: Game, mid: Game, post: Game, seat: int, k: usize)
    requires
        pre.wf(),
        0 <= seat < pre.player_count,
        action_step(pre, mid, seat, PlayerAction::PickCard(k)),
        k as int >= pre.players@[seat].hand_cards@.len(),
        if all_chose(mid.plays@) {
            resolve_rel(mid, post)
        } else {
            post == mid
        },
    ensures
        post.players == pre.players,
        post.plays@ == pre.plays@,
        post.player_count == pre.player_count,
        post.age == pre.age,
        post.card_registry == pre.card_registry,
{
    assert(mid.plays@[seat] == pre.plays@[seat]);
    assert(mid.plays@ =~= pre.plays@);
    if pre.player_count >= 1 {
        assert(!all_chose(pre.plays@));
    }
    assert(post == mid);
}

/// A round resolves exactly when every seat has committed, and resolving
/// clears every seat to no action, moves exactly one card from each hand to
/// its board, and so strictly shrinks every hand by one.
pub proof fn lemma_resolution_clears_and_shrinks(pre: Game, post: Game)
    requires
        pre.wf_core(),
        all_chose(pre.plays@),
        resolve_rel(pre, post),
    ensures
        forall|i: int|
            0 <= i < pre.player_count ==> (#[trigger] post.plays@[i]) is NoAction,
        forall|i: int|
            0 <= i < pre.player_count ==> (#[trigger] pre.players@[i]).hand_cards@.len() >= 1,
        forall|i: int|
            0 <= i < pre.player_count ==> (#[trigger] post.players@[i]).hand_cards@.len()
                == pre.players@[i].hand_cards@.len() - 1,
        forall|i: int|
            0 <= i < pre.player_count ==> (#[trigger] post.players@[i]).board_cards@.len()
                == pre.players@[i].board_cards@.len() + 1,
{
    let n = pre.player_count as int;
    assert forall|i: int| 0 <= i < n implies (#[trigger] post.players@[i]).hand_cards@.len()
        == pre.players@[i].hand_cards@.len() - 1 by {
        let donor = crate::game::right_of(i, n);
        let dk = chosen_card_of(pre.plays@[donor]);
        assert(pre.plays@[donor] is ChoseResources);
        assert(0 <= dk < pre.players@[donor].hand_cards@.len());
        pre.players@[donor].hand_cards@.remove_ensures(dk);
        assert(pre.players@[donor].hand_cards@.len() == pre.players@[i].hand_cards@.len());
    }
}

/// Gold is conserved modulo the played cards' gold costs: resource payments
/// are transfers between seats, so resolving a round lowers the system's total
/// gold by exactly the sum of the played cards' own gold costs.
pub proof fn lemma_gold_conservation(pre: Game, post: Game)
    requires
        pre.wf_core(),
        all_chose(pre.plays@),
        resolve_rel(pre, post),
    ensures
        sum_gold(post.players@) == sum_gold(pre.players@) - total_card_gold(
            pre,
            pre.player_count as int,
        ),
        total_card_gold(pre, pre.player_count as int) >= 0,
{
    crate::game::lemma_net_paid_is_card_gold(pre, pre.player_count as int);
}

} // verus!
