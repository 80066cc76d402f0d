use vstd::prelude::*;

use crate::cards::{age_one_table, card_like, CardRegistry};
use crate::player::{
    alloc_view, allocation_valid, costs_of, gold_cost_of, gold_gain_of, lemma_gain_bounds,
    prods_of, verdict_matches, Card, CardEffect, PlayerData, ResourceAllocation,
    ResourceAllocationVerdict, ResourceArray, HAND_SIZE, MAX_PLAYERS, MAX_PRODUCTION_GRANTS,
};
use crate::shuffle::shuffle_cards;

verus! {

/// The structural failures the engine can report. Rule violations are never
/// errors: they show up as a non-valid verdict instead.
#[derive(Debug, Clone, Copy, PartialEq, Eq, Structural)]
pub enum GameError {
    /// An action named a seat the game does not have.
    UnknownSeat,
    /// The catalog cannot deal enough cards for the requested age and count.
    InsufficientCards,
    /// A resolved seat has no card on its board.
    NoCardPlayed,
}

/// What a player asks the engine to do with their seat.
#[derive(Debug)]
pub enum PlayerAction {
    /// Start playing the hand card at the given index.
    PickCard(usize),
    /// Abandon the card in progress.
    CancelCard,
    /// Draw a resource to pay for the card in progress:
    /// (relative source, production grant slot, resource choice; 0 = none).
    GetResource(usize, usize, usize),
    /// Commit the card in progress; only taken when the verdict is valid.
    Validate,
    /// Go back from a committed card to cost selection.
    Unvalidate,
}

/// The per-seat decision state, scoped to the current round.
#[derive(Debug)]
pub enum Play {
    NoAction,
    ChoosingResources {
        card_index: usize,
        resource_allocation: ResourceAllocation,
        verdict: ResourceAllocationVerdict,
    },
    ChoseResources { card_index: usize, resource_allocation: ResourceAllocation },
}

/// The seat to the left of seat `i` among `n` seats.
pub open spec fn left_of(i: int, n: int) -> int {
    if i == 0 {
        n - 1
    } else {
        i - 1
    }
}

/// The seat to the right of seat `i` among `n` seats.
pub open spec fn right_of(i: int, n: int) -> int {
    if i == n - 1 {
        0
    } else {
        i + 1
    }
}

/// Every seat has committed its card: the round is ready to resolve.
pub open spec fn all_chose(plays: Seq<Play>) -> bool {
    forall|i: int| 0 <= i < plays.len() ==> (#[trigger] plays[i]) is ChoseResources
}

/// The allocation has exactly one choice slot per production grant of each
/// relative source.
pub open spec fn alloc_fits(p: PlayerData, av: Seq<Seq<usize>>) -> bool {
    forall|s: int| 0 <= s < 3 ==> (#[trigger] av[s]).len() == prods_of(p, s).len()
}

/// The allocation fits and draws nothing yet: every choice is "none".
pub open spec fn fresh_alloc(p: PlayerData, av: Seq<Seq<usize>>) -> bool {
    &&& alloc_fits(p, av)
    &&& forall|s: int, k: int| 0 <= s < 3 && 0 <= k < av[s].len() ==> (#[trigger] av[s][k]) == 0
}

/// The allocation with the choice at source `s`, slot `k` set to `c`.
pub open spec fn alloc_updated(av: Seq<Seq<usize>>, s: int, k: int, c: usize) -> Seq<Seq<usize>> {
    av.update(s, av[s].update(k, c))
}

/// The hand index a committed seat chose.
pub open spec fn chosen_card_of(play: Play) -> int {
    match play {
        Play::ChoseResources { card_index, .. } => card_index as int,
        _ => 0,
    }
}

/// The allocation a committed seat chose.
pub open spec fn chosen_alloc_of(play: Play) -> Seq<Seq<usize>> {
    match play {
        Play::ChoseResources { resource_allocation, .. } => alloc_view(resource_allocation),
        _ => Seq::empty(),
    }
}

/// The decision state is consistent with the seat's ledger: indices in range,
/// one choice per grant, the stored verdict freshly computed, and a committed
/// allocation valid.
pub open spec fn play_wf(p: PlayerData, play: Play) -> bool {
    match play {
        Play::NoAction => true,
        Play::ChoosingResources { card_index, resource_allocation, verdict } => {
            &&& (card_index as int) < p.hand_cards@.len()
            &&& alloc_fits(p, alloc_view(resource_allocation))
            &&& verdict_matches(p, card_index as int, alloc_view(resource_allocation), verdict)
        },
        Play::ChoseResources { card_index, resource_allocation } => {
            &&& (card_index as int) < p.hand_cards@.len()
            &&& alloc_fits(p, alloc_view(resource_allocation))
            &&& allocation_valid(p, card_index as int, alloc_view(resource_allocation))
        },
    }
}

/// The gold held by all seats together.
pub open spec fn sum_gold(ps: Seq<PlayerData>) -> int
    decreases ps.len(),
{
    if ps.len() == 0 {
        0
    } else {
        sum_gold(ps.drop_last()) + ps.last().gold
    }
}

proof fn lemma_sum_gold_nonneg(ps: Seq<PlayerData>)
    ensures
        sum_gold(ps) >= 0,
    decreases ps.len(),
{
    if ps.len() > 0 {
        lemma_sum_gold_nonneg(ps.drop_last());
    }
}

/// Every single balance is at most the total.
proof fn lemma_sum_gold_element_bound(ps: Seq<PlayerData>, i: int)
    requires
        0 <= i < ps.len(),
    ensures
        ps[i].gold <= sum_gold(ps),
    decreases ps.len(),
{
    if i == ps.len() - 1 {
        lemma_sum_gold_nonneg(ps.drop_last());
    } else {
        lemma_sum_gold_element_bound(ps.drop_last(), i);
        assert(ps.drop_last()[i] == ps[i]);
    }
}

/// Changing one seat's balance changes the total by the same amount.
proof fn lemma_sum_gold_update(ps: Seq<PlayerData>, i: int, q: PlayerData)
    requires
        0 <= i < ps.len(),
    ensures
        sum_gold(ps.update(i, q)) == sum_gold(ps) - ps[i].gold + q.gold,
    decreases ps.len(),
{
    if i == ps.len() - 1 {
        assert(ps.update(i, q).drop_last() =~= ps.drop_last());
        assert(ps.update(i, q).last() == q);
    } else {
        assert(ps.update(i, q).drop_last() =~= ps.drop_last().update(i, q));
        lemma_sum_gold_update(ps.drop_last(), i, q);
        assert(ps.drop_last()[i] == ps[i]);
    }
}

/// A seat whose fields other than gold are untouched keeps its totals: changing
/// only the balance changes no accounting result.
proof fn lemma_accounting_ignores_gold(p1: PlayerData, p2: PlayerData, av: Seq<Seq<usize>>)
    requires
        p1.hand_cards == p2.hand_cards,
        p1.resource_productions == p2.resource_productions,
        p1.resource_costs == p2.resource_costs,
    ensures
        forall|s: int| gold_gain_of(p1, av, s) == gold_gain_of(p2, av, s),
        forall|c: int| 0 <= c < p1.hand_cards@.len() ==> gold_cost_of(p1, c, av) == gold_cost_of(
            p2,
            c,
            av,
        ),
{
    assert forall|s: int| gold_gain_of(p1, av, s) == gold_gain_of(p2, av, s) by {
        lemma_gain_upto_same(p1, p2, av, s, av[s].len() as int);
    }
}

proof fn lemma_gain_upto_same(p1: PlayerData, p2: PlayerData, av: Seq<Seq<usize>>, s: int, k: int)
    requires
        p1.resource_productions == p2.resource_productions,
        p1.resource_costs == p2.resource_costs,
    ensures
        crate::player::gain_upto(p1, av, s, k) == crate::player::gain_upto(p2, av, s, k),
    decreases k,
{
    if k > 0 {
        lemma_gain_upto_same(p1, p2, av, s, k - 1);
    }
}

/// A seat owes its own slot nothing: own production is free.
proof fn lemma_gain_self_zero(p: PlayerData, av: Seq<Seq<usize>>)
    requires
        p.wf(),
    ensures
        gold_gain_of(p, av, 1) == 0,
{
    lemma_gain_upto_zero(p, av, av[1].len() as int);
}

proof fn lemma_gain_upto_zero(p: PlayerData, av: Seq<Seq<usize>>, k: int)
    requires
        p.wf(),
    ensures
        crate::player::gain_upto(p, av, 1, k) == 0,
    decreases k,
{
    if k > 0 {
        lemma_gain_upto_zero(p, av, k - 1);
    }
}

/// A grant list once card `c` is played: a production card appends its
/// resources, any other card leaves the list as it was.
pub open spec fn with_grant(base: Seq<ResourceArray>, c: Card) -> Seq<ResourceArray> {
    match c.effect {
        CardEffect::Resources(ra) => base.push(ra),
        _ => base,
    }
}

/// The total gold committed seat `i` will pay.
pub open spec fn settle_cost(g: Game, i: int) -> int {
    gold_cost_of(g.players@[i], chosen_card_of(g.plays@[i]), chosen_alloc_of(g.plays@[i]))
}

/// The gold committed seat `i` owes to its relative source `s`.
pub open spec fn settle_gain(g: Game, i: int, s: int) -> int {
    gold_gain_of(g.players@[i], chosen_alloc_of(g.plays@[i]), s)
}

/// The card committed seat `i` is about to play.
pub open spec fn played_card(g: Game, i: int) -> Card {
    g.players@[i].hand_cards@[chosen_card_of(g.plays@[i])]
}

/// The gold costs of the cards committed by seats `0..i` together.
pub open spec fn total_card_gold(g: Game, i: int) -> int
    decreases i,
{
    if i <= 0 {
        0
    } else {
        total_card_gold(g, i - 1) + played_card(g, i - 1).gold_cost
    }
}

/// What settling seats `0..i` takes out of the system: each seat's cost less
/// what it hands to its neighbors.
pub open spec fn net_paid(g: Game, i: int) -> int
    decreases i,
{
    if i <= 0 {
        0
    } else {
        net_paid(g, i - 1) + settle_cost(g, i - 1) - settle_gain(g, i - 1, 0) - settle_gain(
            g,
            i - 1,
            2,
        )
    }
}

/// Resource payments are transfers: what leaves the system is exactly the
/// cards' own gold costs.
pub proof fn lemma_net_paid_is_card_gold(g: Game, i: int)
    requires
        g.wf_core(),
        all_chose(g.plays@),
        0 <= i <= g.player_count,
    ensures
        net_paid(g, i) == total_card_gold(g, i),
        total_card_gold(g, i) >= 0,
    decreases i,
{
    if i > 0 {
        lemma_net_paid_is_card_gold(g, i - 1);
        lemma_gain_self_zero(g.players@[i - 1], chosen_alloc_of(g.plays@[i - 1]));
    }
}

/// Seat `t`'s balance once seats `0..i` have settled: its own cost debited,
/// and what its two neighbors owe it credited as they settle.
pub open spec fn gold_after_settlement(pre: Game, t: int, i: int) -> int {
    let n = pre.player_count as int;
    pre.players@[t].gold - (if t < i {
        settle_cost(pre, t)
    } else {
        0
    }) + (if right_of(t, n) < i {
        settle_gain(pre, right_of(t, n), 0)
    } else {
        0
    }) + (if left_of(t, n) < i {
        settle_gain(pre, left_of(t, n), 2)
    } else {
        0
    })
}

/// How a resolved seat's purchase prices relate to what they were: a
/// raw-material discount sets the named source's first four prices to 1, a
/// manufactured-goods discount sets both neighbors' last three prices to 1,
/// anything else changes nothing.
pub open spec fn costs_updated(p: PlayerData, q: PlayerData, eff: CardEffect) -> bool {
    match eff {
        CardEffect::RawMaterialsCost(src) => forall|s: int, r: int|
            0 <= s < 3 && 0 <= r < 7 ==> (#[trigger] costs_of(q, s)[r]) == if s == src && r < 4 {
                1u32
            } else {
                costs_of(p, s)[r]
            },
        CardEffect::ManufacturedProductsCost => forall|s: int, r: int|
            0 <= s < 3 && 0 <= r < 7 ==> (#[trigger] costs_of(q, s)[r]) == if (s == 0 || s == 2)
                && 4 <= r {
                1u32
            } else {
                costs_of(p, s)[r]
            },
        _ => q.resource_costs == p.resource_costs,
    }
}

/// What resolving the round does to seat `i`, given the pre-resolution state
/// `g` in which every seat had committed: the chosen card moves from hand to
/// board, gold settles, the played cards' production becomes visible to the
/// seat and its neighbors, discounts apply, and the remaining hand comes from
/// the right neighbor.
pub open spec fn resolved_player(g: Game, i: int, q: PlayerData) -> bool {
    let n = g.player_count as int;
    let p = g.players@[i];
    let donor = right_of(i, n);
    &&& q.board_cards@ == p.board_cards@.push(played_card(g, i))
    &&& q.hand_cards@ == g.players@[donor].hand_cards@.remove(chosen_card_of(g.plays@[donor]))
    &&& q.gold == gold_after_settlement(g, i, n)
    &&& prods_of(q, 1) == with_grant(prods_of(p, 1), played_card(g, i))
    &&& prods_of(q, 0) == with_grant(prods_of(p, 0), played_card(g, left_of(i, n)))
    &&& prods_of(q, 2) == with_grant(prods_of(p, 2), played_card(g, right_of(i, n)))
    &&& costs_updated(p, q, played_card(g, i).effect)
}

/// The whole effect of resolving a round: every seat resolves as
/// `resolved_player` says, every seat returns to `NoAction`, and the system's
/// gold drops by exactly the played cards' gold costs.
pub open spec fn resolve_rel(pre: Game, post: Game) -> bool {
    let n = pre.player_count as int;
    &&& post.card_registry == pre.card_registry
    &&& post.player_count == pre.player_count
    &&& post.age == pre.age
    &&& post.plays@.len() == pre.plays@.len()
    &&& post.players@.len() == pre.players@.len()
    &&& forall|i: int| 0 <= i < n ==> (#[trigger] post.plays@[i]) is NoAction
    &&& forall|i: int| 0 <= i < n ==> resolved_player(pre, i, #[trigger] post.players@[i])
    &&& sum_gold(post.players@) == sum_gold(pre.players@) - total_card_gold(pre, n)
}

/// Totals depend on the balances alone.
proof fn lemma_sum_gold_same(ps1: Seq<PlayerData>, ps2: Seq<PlayerData>)
    requires
        ps1.len() == ps2.len(),
        forall|t: int| 0 <= t < ps1.len() ==> (#[trigger] ps1[t]).gold == ps2[t].gold,
    ensures
        sum_gold(ps1) == sum_gold(ps2),
    decreases ps1.len(),
{
    if ps1.len() > 0 {
        assert(forall|t: int|
            0 <= t < ps1.len() - 1 ==> (#[trigger] ps1.drop_last()[t]).gold
                == ps2.drop_last()[t].gold);
        lemma_sum_gold_same(ps1.drop_last(), ps2.drop_last());
    }
}

/// The turn-state table for one seat. Any (action, state) pair the table does
/// not name leaves the state unchanged: rule violations are expressed through
/// the verdict, never as errors.
pub open spec fn seat_step(p: PlayerData, before: Play, action: PlayerAction, after: Play) -> bool {
    match action {
        PlayerAction::PickCard(k) => {
            if before is NoAction && (k as int) < p.hand_cards@.len() {
                match after {
                    Play::ChoosingResources { card_index, resource_allocation, verdict } => {
                        &&& card_index == k
                        &&& fresh_alloc(p, alloc_view(resource_allocation))
                        &&& verdict_matches(p, k as int, alloc_view(resource_allocation), verdict)
                    },
                    _ => false,
                }
            } else {
                after == before
            }
        },
        PlayerAction::CancelCard => {
            if before is ChoosingResources {
                after is NoAction
            } else {
                after == before
            }
        },
        PlayerAction::GetResource(src, slot, choice) => {
            match before {
                Play::ChoosingResources { card_index, resource_allocation, verdict } => {
                    if src < 3 && (slot as int) < prods_of(p, src as int).len() && choice < 8 {
                        match after {
                            Play::ChoosingResources {
                                card_index: after_index,
                                resource_allocation: after_alloc,
                                verdict: after_verdict,
                            } => {
                                &&& after_index == card_index
                                &&& alloc_view(after_alloc) == alloc_updated(
                                    alloc_view(resource_allocation),
                                    src as int,
                                    slot as int,
                                    choice,
                                )
                                &&& verdict_matches(
                                    p,
                                    card_index as int,
                                    alloc_view(after_alloc),
                                    after_verdict,
                                )
                            },
                            _ => false,
                        }
                    } else {
                        after == before
                    }
                },
                _ => after == before,
            }
        },
        PlayerAction::Validate => {
            match before {
                Play::ChoosingResources { card_index, resource_allocation, verdict } => {
                    if verdict.valid() {
                        match after {
                            Play::ChoseResources {
                                card_index: after_index,
                                resource_allocation: after_alloc,
                            } => {
                                &&& after_index == card_index
                                &&& alloc_view(after_alloc) == alloc_view(resource_allocation)
                            },
                            _ => false,
                        }
                    } else {
                        after == before
                    }
                },
                _ => after == before,
            }
        },
        PlayerAction::Unvalidate => {
            match before {
                Play::ChoseResources { card_index, resource_allocation } => {
                    match after {
                        Play::ChoosingResources {
                            card_index: after_index,
                            resource_allocation: after_alloc,
                            verdict: after_verdict,
                        } => {
                            &&& after_index == card_index
                            &&& alloc_view(after_alloc) == alloc_view(resource_allocation)
                            &&& verdict_matches(
                                p,
                                card_index as int,
                                alloc_view(after_alloc),
                                after_verdict,
                            )
                        },
                        _ => false,
                    }
                },
                _ => after == before,
            }
        },
    }
}

/// What one accepted action does before any resolution: it rewrites the acting
/// seat's decision state by the table and touches nothing else.
pub open spec fn action_step(pre: Game, post: Game, seat: int, action: PlayerAction) -> bool {
    &&& post.card_registry == pre.card_registry
    &&& post.player_count == pre.player_count
    &&& post.age == pre.age
    &&& post.players == pre.players
    &&& post.plays@.len() == pre.plays@.len()
    &&& forall|t: int|
        0 <= t < pre.plays@.len() && t != seat ==> (#[trigger] post.plays@[t]) == pre.plays@[t]
    &&& seat_step(pre.players@[seat], pre.plays@[seat], action, post.plays@[seat])
}

/// A judgement about updated prices depends on the price tables alone.
proof fn lemma_costs_updated_same(p: PlayerData, q1: PlayerData, q2: PlayerData, eff: CardEffect)
    requires
        costs_updated(p, q1, eff),
        q2.resource_costs == q1.resource_costs,
    ensures
        costs_updated(p, q2, eff),
{
    assert(costs_of(q2, 0) == costs_of(q1, 0));
    assert(costs_of(q2, 1) == costs_of(q1, 1));
    assert(costs_of(q2, 2) == costs_of(q1, 2));
    match eff {
        CardEffect::RawMaterialsCost(src) => {
            assert forall|s: int, r: int| 0 <= s < 3 && 0 <= r < 7 implies (#[trigger] costs_of(
                q2,
                s,
            )[r]) == if s == src && r < 4 {
                1u32
            } else {
                costs_of(p, s)[r]
            } by {
                assert(costs_of(q2, s) == costs_of(q1, s));
            }
        },
        CardEffect::ManufacturedProductsCost => {
            assert forall|s: int, r: int| 0 <= s < 3 && 0 <= r < 7 implies (#[trigger] costs_of(
                q2,
                s,
            )[r]) == if (s == 0 || s == 2) && 4 <= r {
                1u32
            } else {
                costs_of(p, s)[r]
            } by {
                assert(costs_of(q2, s) == costs_of(q1, s));
            }
        },
        _ => {},
    }
}

/// The state of a single game: the catalog, every seat's decision state and
/// ledger, and the current age.
#[derive(Debug)]
pub struct Game {
    pub card_registry: CardRegistry,
    pub plays: Vec<Play>,
    pub player_count: usize,
    pub players: Vec<PlayerData>,
    pub age: usize,
}

impl Game {
    /// The structural invariant that every reachable game state keeps, apart
    /// from the between-actions guarantee that no full round is pending.
    pub open spec fn wf_core(self) -> bool {
        &&& self.players@.len() == self.player_count
        &&& self.plays@.len() == self.player_count
        &&& self.player_count <= MAX_PLAYERS
        &&& self.card_registry.wf()
        &&& forall|i: int| 0 <= i < self.player_count ==> (#[trigger] self.players@[i]).wf()
        &&& forall|i: int|
            0 <= i < self.player_count ==> play_wf(self.players@[i], #[trigger] self.plays@[i])
        &&& forall|i: int, j: int|
            0 <= i < self.player_count && 0 <= j < self.player_count ==> (
            #[trigger] self.players@[i].hand_cards@.len())
                == (#[trigger] self.players@[j].hand_cards@.len())
        &&& forall|i: int, s: int|
            0 <= i < self.player_count && 0 <= s < 3 ==> (#[trigger] prods_of(
                self.players@[i],
                s,
            )).len() + self.players@[i].hand_cards@.len() <= self.player_count * HAND_SIZE
        &&& sum_gold(self.players@) <= 3 * self.player_count
    }

    /// The full invariant between actions: additionally, a round never sits
    /// unresolved (resolution fires within the action that completes it).
    pub open spec fn wf(self) -> bool {
        &&& self.wf_core()
        &&& self.player_count >= 1 ==> !all_chose(self.plays@)
    }
}

/// The hands hold exactly the dealt deck, split in order: seat `i` holds cards
/// `7 i .. 7 i + 7`.
pub open spec fn game_dealt(g: Game, deck: Seq<Card>) -> bool {
    &&& deck.len() == g.player_count * HAND_SIZE
    &&& forall|j: int| 0 <= j < deck.len() ==> (#[trigger] deck[j]).wf()
    &&& forall|i: int|
        0 <= i < g.player_count ==> (#[trigger] g.players@[i].hand_cards@) == deck.subrange(
            i * HAND_SIZE,
            i * HAND_SIZE + HAND_SIZE,
        )
}

/// The deck is a shuffle of the catalog's deal: a sequence holding one
/// `card_like` copy of each of the first `7 * player_count` entries of the
/// game's age-one table, in table order, holds exactly the deck's cards as a
/// multiset.
pub open spec fn dealt_from_catalog(g: Game, deck: Seq<Card>) -> bool {
    exists|deal: Seq<Card>|
        {
            &&& deal.len() == g.player_count * HAND_SIZE
            &&& deck.to_multiset() == #[trigger] deal.to_multiset()
            &&& forall|i: int|
                0 <= i < deal.len() ==> card_like(
                    g.card_registry.cards@[0]@[i],
                    #[trigger] deal[i],
                )
        }
}

impl Game {
    /// Start a game: deal `7 * player_count` cards of the first age, shuffled,
    /// seven to each seat; every seat starts with 3 gold, an empty board, no
    /// visible production, the default prices, and no action.
    pub fn new(player_count: usize) -> (res: Result<Game, GameError>)
        ensures
            match res {
                Ok(g) => {
                    &&& g.wf()
                    &&& g.player_count == player_count
                    &&& g.age == 0
                    &&& player_count <= 3
                    &&& forall|i: int|
                        0 <= i < player_count ==> (#[trigger] g.plays@[i]) is NoAction
                    &&& forall|i: int|
                        0 <= i < player_count ==> (#[trigger] g.players@[i]).hand_cards@.len()
                            == HAND_SIZE
                    &&& forall|i: int|
                        0 <= i < player_count ==> (#[trigger] g.players@[i]).board_cards@.len()
                            == 0
                    &&& forall|i: int|
                        0 <= i < player_count ==> (#[trigger] g.players@[i]).gold == 3
                    &&& forall|i: int, s: int|
                        0 <= i < player_count && 0 <= s < 3 ==> (#[trigger] prods_of(
                            g.players@[i],
                            s,
                        )).len() == 0
                    &&& forall|i: int, r: int|
                        0 <= i < player_count && 0 <= r < 7 ==> (#[trigger] costs_of(
                            g.players@[i],
                            0,
                        )[r]) == 2 && costs_of(g.players@[i], 1)[r] == 0 && costs_of(
                            g.players@[i],
                            2,
                        )[r] == 2
                    &&& age_one_table(g.card_registry.cards@[0]@)
                    &&& g.card_registry.cards@[1]@.len() == 0
                    &&& g.card_registry.cards@[2]@.len() == 0
                    &&& exists|deck: Seq<Card>|
                        #[trigger] game_dealt(g, deck) && dealt_from_catalog(g, deck)
                },
                Err(e) => {
                    &&& e == GameError::InsufficientCards
                    &&& player_count > 3
                },
            },
    {
        let card_registry = CardRegistry::new();
        let mut cards = match card_registry.generate_cards(0, player_count) {
            Ok(c) => c,
            Err(e) => {
                proof {
                    assert(player_count * HAND_SIZE > 21 ==> player_count > 3) by (nonlinear_arith);
                }
                return Err(e);
            },
        };
        proof {
            assert(player_count * HAND_SIZE <= 21 ==> player_count <= 3) by (nonlinear_arith);
        }
        let ghost dealt = cards@;
        shuffle_cards(&mut cards);
        let ghost deck = cards@;
        proof {
            broadcast use vstd::seq_lib::group_to_multiset_ensures;

            dealt.to_multiset_ensures();
            deck.to_multiset_ensures();
            assert(deck.to_multiset().len() == dealt.to_multiset().len());
            assert(deck.len() == dealt.len());
            assert forall|j: int| 0 <= j < deck.len() implies (#[trigger] deck[j]).wf() by {
                assert(deck.contains(deck[j]));
                assert(deck.to_multiset().count(deck[j]) > 0);
                assert(dealt.to_multiset().count(deck[j]) > 0);
                assert(dealt.contains(deck[j]));
                let w = choose|w: int| 0 <= w < dealt.len() && dealt[w] == deck[j];
                assert(dealt[w].wf());
            }
        }
        let total = cards.len();
        let mut players: Vec<PlayerData> = Vec::new();
        let mut i: usize = 0;
        while i < player_count
            invariant
                i <= player_count,
                player_count <= 3,
                deck.len() == player_count * HAND_SIZE,
                forall|j: int| 0 <= j < deck.len() ==> (#[trigger] deck[j]).wf(),
                cards@ == deck.subrange(i * HAND_SIZE, deck.len() as int),
                players@.len() == i,
                forall|t: int|
                    0 <= t < i ==> (#[trigger] players@[t].hand_cards@) == deck.subrange(
                        t * HAND_SIZE,
                        t * HAND_SIZE + HAND_SIZE,
                    ),
                forall|t: int| 0 <= t < i ==> (#[trigger] players@[t]).wf(),
                forall|t: int| 0 <= t < i ==> (#[trigger] players@[t]).hand_cards@.len() == HAND_SIZE,
                forall|t: int| 0 <= t < i ==> (#[trigger] players@[t]).board_cards@.len() == 0,
                forall|t: int| 0 <= t < i ==> (#[trigger] players@[t]).gold == 3,
                forall|t: int, s: int|
                    0 <= t < i && 0 <= s < 3 ==> (#[trigger] prods_of(players@[t], s)).len() == 0,
                forall|t: int, r: int|
                    0 <= t < i && 0 <= r < 7 ==> (#[trigger] costs_of(players@[t], 0)[r]) == 2
                        && costs_of(players@[t], 1)[r] == 0 && costs_of(players@[t], 2)[r] == 2,
                sum_gold(players@) == 3 * i,
            decreases player_count - i,
        {
            let ghost players_before = players@;
            let mut hand: Vec<Card> = Vec::new();
            let mut k: usize = 0;
            proof {
                assert(i * HAND_SIZE + HAND_SIZE <= player_count * HAND_SIZE) by (nonlinear_arith)
                    requires
                        i < player_count,
                ;
            }
            while k < HAND_SIZE
                invariant
                    k <= HAND_SIZE,
                    i < player_count,
                    deck.len() == player_count * HAND_SIZE,
                    i * HAND_SIZE + HAND_SIZE <= deck.len(),
                    forall|j: int| 0 <= j < deck.len() ==> (#[trigger] deck[j]).wf(),
                    cards@ == deck.subrange(i * HAND_SIZE + k, deck.len() as int),
                    hand@ == deck.subrange(i * HAND_SIZE, i * HAND_SIZE + k),
                decreases HAND_SIZE - k,
            {
                let c = cards.remove(0);
                hand.push(c);
                proof {
                    assert(cards@ =~= deck.subrange(i * HAND_SIZE + k + 1, deck.len() as int));
                    assert(hand@ =~= deck.subrange(i * HAND_SIZE, i * HAND_SIZE + k + 1));
                }
                k += 1;
            }
            proof {
                assert forall|j: int| 0 <= j < hand@.len() implies (#[trigger] hand@[j]).wf() by {
                    assert(hand@[j] == deck[i * HAND_SIZE + j]);
                }
            }
            let p = PlayerData::new(hand, 3);
            players.push(p);
            proof {
                assert(players@.drop_last() =~= players_before);
                assert(sum_gold(players@) == 3 * i + 3);
            }
            i += 1;
        }
        let mut plays: Vec<Play> = Vec::new();
        while plays.len() < player_count
            invariant
                plays@.len() <= player_count,
                forall|t: int| 0 <= t < plays@.len() ==> (#[trigger] plays@[t]) is NoAction,
            decreases player_count - plays@.len(),
        {
            plays.push(Play::NoAction);
        }
        let game = Game { card_registry, plays, player_count, players, age: 0 };
        proof {
            assert(game_dealt(game, deck));
            assert(deck.to_multiset() == dealt.to_multiset());
            assert(forall|i: int|
                0 <= i < dealt.len() ==> card_like(
                    game.card_registry.cards@[0]@[i],
                    #[trigger] dealt[i],
                ));
            assert(dealt_from_catalog(game, deck));
            if game.player_count >= 1 {
                assert(game.plays@[0] is NoAction);
                assert(!all_chose(game.plays@));
            }
            assert forall|a: int, s: int|
                0 <= a < game.player_count && 0 <= s < 3 implies (#[trigger] prods_of(
                game.players@[a],
                s,
            )).len() + game.players@[a].hand_cards@.len() <= game.player_count * HAND_SIZE by {
                assert(HAND_SIZE <= game.player_count * HAND_SIZE) by (nonlinear_arith)
                    requires
                        game.player_count >= 1,
                ;
            }
            assert(game.wf());
        }
        Ok(game)
    }

    /// Resolve the round: settle every seat's payment, move the chosen cards
    /// to the boards, apply the played cards' effects, rotate the remaining
    /// hands one seat to the left, and reset every seat to no action.
    #[verifier::rlimit(100)]
    #[verifier::spinoff_prover]
    fn play_cards(&mut self)
        requires
            old(self).wf_core(),
            all_chose(old(self).plays@),
        ensures
            final(self).wf(),
            resolve_rel(*old(self), *final(self)),
    {
        let ghost pre = *old(self);
        let ghost n_int = pre.player_count as int;
        let n = self.player_count;
        // Pass 1: settlement. Move each chosen card to its board, debit the
        // payer, credit its neighbors, clear the seat's action.
        let mut i: usize = 0;
        while i < n
            invariant
                pre.wf_core(),
                all_chose(pre.plays@),
                n == pre.player_count,
                n_int == n as int,
                i <= n,
                self.player_count == n,
                self.card_registry == pre.card_registry,
                self.age == pre.age,
                self.players@.len() == n_int,
                self.plays@.len() == n_int,
                forall|t: int| i <= t < n_int ==> (#[trigger] self.plays@[t]) == pre.plays@[t],
                forall|t: int| 0 <= t < i ==> (#[trigger] self.plays@[t]) is NoAction,
                forall|t: int|
                    0 <= t < n_int ==> (#[trigger] self.players@[t]).resource_productions
                        == pre.players@[t].resource_productions,
                forall|t: int|
                    0 <= t < n_int ==> (#[trigger] self.players@[t]).resource_costs
                        == pre.players@[t].resource_costs,
                forall|t: int|
                    i <= t < n_int ==> (#[trigger] self.players@[t]).hand_cards
                        == pre.players@[t].hand_cards,
                forall|t: int|
                    i <= t < n_int ==> (#[trigger] self.players@[t]).board_cards
                        == pre.players@[t].board_cards,
                forall|t: int|
                    0 <= t < i ==> (#[trigger] self.players@[t]).hand_cards@
                        == pre.players@[t].hand_cards@.remove(chosen_card_of(pre.plays@[t])),
                forall|t: int|
                    0 <= t < i ==> (#[trigger] self.players@[t]).board_cards@
                        == pre.players@[t].board_cards@.push(played_card(pre, t)),
                forall|t: int|
                    0 <= t < n_int ==> (#[trigger] self.players@[t]).gold == gold_after_settlement(
                        pre,
                        t,
                        i as int,
                    ),
                sum_gold(self.players@) == sum_gold(pre.players@) - net_paid(pre, i as int),
            decreases n - i,
        {
            let ghost avi = chosen_alloc_of(pre.plays@[i as int]);
            proof {
                assert(self.plays@[i as int] is ChoseResources);
                let pc = self.players@[i as int];
                let pp = pre.players@[i as int];
                assert forall|s: int| 0 <= s < 3 implies (#[trigger] prods_of(pc, s)).len()
                    <= MAX_PRODUCTION_GRANTS by {
                    assert(prods_of(pc, s) == prods_of(pp, s));
                }
                assert(costs_of(pc, 0) == costs_of(pp, 0));
                assert(costs_of(pc, 1) == costs_of(pp, 1));
                assert(costs_of(pc, 2) == costs_of(pp, 2));
                assert(pc.hand_cards@ == pp.hand_cards@);
                assert(pc.board_cards@ == pp.board_cards@);
                assert(self.players@[i as int].wf());
            }
            let (k, cost, gains): (usize, u32, [u32; 3]) = match &self.plays[i] {
                Play::ChoseResources { card_index, resource_allocation } => {
                    let out = self.players[i].get_gold_cost(*card_index, resource_allocation);
                    (*card_index, out.0, out.1)
                },
                _ => unreached(),
            };
            proof {
                lemma_accounting_ignores_gold(
                    self.players@[i as int],
                    pre.players@[i as int],
                    avi,
                );
                assert(cost as int == settle_cost(pre, i as int));
                assert(forall|s: int|
                    0 <= s < 3 ==> gold_gain_of(self.players@[i as int], avi, s) == gold_gain_of(
                        pre.players@[i as int],
                        avi,
                        s,
                    ));
                assert(gains@[0] == settle_gain(pre, i as int, 0));
                assert(gains@[1] == settle_gain(pre, i as int, 1));
                assert(gains@[2] == settle_gain(pre, i as int, 2));
                lemma_gain_self_zero(pre.players@[i as int], avi);
            }
            // The production/cost tables guarantee a seat owes itself nothing.
            assert(gains[1] == 0);
            let left = if i == 0 {
                n - 1
            } else {
                i - 1
            };
            let right = if i == n - 1 {
                0
            } else {
                i + 1
            };
            proof {
                assert(left as int == left_of(i as int, n_int));
                assert(right as int == right_of(i as int, n_int));
                assert(right_of(left as int, n_int) == i as int);
                assert(left_of(right as int, n_int) == i as int);
                // The committed allocation was valid, so the cost is covered.
                assert(allocation_valid(pre.players@[i as int], chosen_card_of(pre.plays@[i as int]), avi));
                assert(settle_cost(pre, i as int) <= pre.players@[i as int].gold);
                if right_of(i as int, n_int) < i as int {
                    lemma_gain_bounds(
                        pre.players@[right_of(i as int, n_int)],
                        chosen_alloc_of(pre.plays@[right_of(i as int, n_int)]),
                        0,
                    );
                }
                if left_of(i as int, n_int) < i as int {
                    lemma_gain_bounds(
                        pre.players@[left_of(i as int, n_int)],
                        chosen_alloc_of(pre.plays@[left_of(i as int, n_int)]),
                        2,
                    );
                }
                lemma_net_paid_is_card_gold(pre, i as int);
                lemma_sum_gold_nonneg(pre.players@);
            }
            let ghost ps0 = self.players@;
            {
                let pi = &mut self.players[i];
                let card = pi.hand_cards.remove(k);
                pi.board_cards.push(card);
                pi.gold = pi.gold - cost;
            }
            proof {
                assert(self.players@ =~= ps0.update(i as int, self.players@[i as int]));
                lemma_sum_gold_update(ps0, i as int, self.players@[i as int]);
                lemma_gain_bounds(pre.players@[i as int], avi, 0);
                lemma_gain_bounds(pre.players@[i as int], avi, 2);
                lemma_sum_gold_element_bound(self.players@, left as int);
            }
            let ghost ps1 = self.players@;
            {
                let pl = &mut self.players[left];
                pl.gold = pl.gold + gains[0];
            }
            proof {
                assert(self.players@ =~= ps1.update(left as int, self.players@[left as int]));
                lemma_sum_gold_update(ps1, left as int, self.players@[left as int]);
                lemma_sum_gold_element_bound(self.players@, right as int);
            }
            let ghost ps2 = self.players@;
            {
                let pr = &mut self.players[right];
                pr.gold = pr.gold + gains[2];
            }
            proof {
                assert(self.players@ =~= ps2.update(right as int, self.players@[right as int]));
                lemma_sum_gold_update(ps2, right as int, self.players@[right as int]);
            }
            self.plays[i] = Play::NoAction;
            proof {
                assert forall|t: int| 0 <= t < n_int implies (#[trigger] self.players@[t]).gold
                    == gold_after_settlement(pre, t, i as int + 1) by {
                    assert(right_of(t, n_int) == i as int <==> t == left as int);
                    assert(left_of(t, n_int) == i as int <==> t == right as int);
                }
            }
            i += 1;
        }
        // Pass 2: effects of the cards just played.
        let ghost settled = self.players@;
        proof {
            lemma_net_paid_is_card_gold(pre, n_int);
            assert(sum_gold(settled) == sum_gold(pre.players@) - total_card_gold(pre, n_int));
        }
        let mut i: usize = 0;
        while i < n
            invariant
                pre.wf_core(),
                all_chose(pre.plays@),
                n == pre.player_count,
                n_int == n as int,
                i <= n,
                self.player_count == n,
                self.card_registry == pre.card_registry,
                self.age == pre.age,
                self.players@.len() == n_int,
                self.plays@.len() == n_int,
                forall|t: int| 0 <= t < n_int ==> (#[trigger] self.plays@[t]) is NoAction,
                forall|t: int|
                    0 <= t < n_int ==> (#[trigger] self.players@[t]).hand_cards
                        == settled[t].hand_cards,
                forall|t: int|
                    0 <= t < n_int ==> (#[trigger] self.players@[t]).board_cards
                        == settled[t].board_cards,
                forall|t: int|
                    0 <= t < n_int ==> (#[trigger] self.players@[t]).gold == settled[t].gold,
                settled.len() == n_int,
                forall|t: int|
                    0 <= t < n_int ==> (#[trigger] settled[t]).hand_cards@
                        == pre.players@[t].hand_cards@.remove(chosen_card_of(pre.plays@[t])),
                forall|t: int|
                    0 <= t < n_int ==> (#[trigger] settled[t]).board_cards@
                        == pre.players@[t].board_cards@.push(played_card(pre, t)),
                forall|t: int|
                    0 <= t < n_int ==> (#[trigger] settled[t]).gold == gold_after_settlement(
                        pre,
                        t,
                        n_int,
                    ),
                forall|t: int|
                    0 <= t < n_int ==> prods_of(#[trigger] self.players@[t], 1) == (if t < i {
                        with_grant(prods_of(pre.players@[t], 1), played_card(pre, t))
                    } else {
                        prods_of(pre.players@[t], 1)
                    }),
                forall|t: int|
                    0 <= t < n_int ==> prods_of(#[trigger] self.players@[t], 0) == (if left_of(
                        t,
                        n_int,
                    ) < i {
                        with_grant(
                            prods_of(pre.players@[t], 0),
                            played_card(pre, left_of(t, n_int)),
                        )
                    } else {
                        prods_of(pre.players@[t], 0)
                    }),
                forall|t: int|
                    0 <= t < n_int ==> prods_of(#[trigger] self.players@[t], 2) == (if right_of(
                        t,
                        n_int,
                    ) < i {
                        with_grant(
                            prods_of(pre.players@[t], 2),
                            played_card(pre, right_of(t, n_int)),
                        )
                    } else {
                        prods_of(pre.players@[t], 2)
                    }),
                forall|t: int|
                    0 <= t < i ==> costs_updated(
                        pre.players@[t],
                        #[trigger] self.players@[t],
                        played_card(pre, t).effect,
                    ),
                forall|t: int|
                    i <= t < n_int ==> (#[trigger] self.players@[t]).resource_costs
                        == pre.players@[t].resource_costs,
            decreases n - i,
        {
            let left = if i == 0 {
                n - 1
            } else {
                i - 1
            };
            let right = if i == n - 1 {
                0
            } else {
                i + 1
            };
            proof {
                assert(left as int == left_of(i as int, n_int));
                assert(right as int == right_of(i as int, n_int));
                assert(right_of(left as int, n_int) == i as int);
                assert(left_of(right as int, n_int) == i as int);
                assert(self.players@[i as int].board_cards@.len() > 0);
            }
            let bl = self.players[i].board_cards.len();
            let card_effect = self.players[i].board_cards[bl - 1].effect;
            proof {
                assert(card_effect == played_card(pre, i as int).effect);
            }
            let ghost before = self.players@;
            match card_effect {
                CardEffect::Resources(ra) => {
                    {
                        let pl = &mut self.players[left];
                        pl.resource_productions[2].push(ra);
                    }
                    {
                        let pm = &mut self.players[i];
                        pm.resource_productions[1].push(ra);
                    }
                    {
                        let pr = &mut self.players[right];
                        pr.resource_productions[0].push(ra);
                    }
                    proof {
                        assert(prods_of(self.players@[left as int], 2) == prods_of(
                            before[left as int],
                            2,
                        ).push(ra));
                        assert(prods_of(self.players@[i as int], 1) == prods_of(
                            before[i as int],
                            1,
                        ).push(ra));
                        assert(prods_of(self.players@[right as int], 0) == prods_of(
                            before[right as int],
                            0,
                        ).push(ra));
                        assert forall|t: int, s: int|
                            0 <= t < n_int && 0 <= s < 3 && !(t == left as int && s == 2) && !(t
                                == i as int && s == 1) && !(t == right as int && s == 0) implies (
                        #[trigger] prods_of(self.players@[t], s)) == prods_of(before[t], s) by {}
                        assert(forall|t: int|
                            0 <= t < n_int ==> (#[trigger] self.players@[t]).resource_costs
                                == before[t].resource_costs);
                    }
                },
                CardEffect::RawMaterialsCost(src) => {
                    proof {
                        assert(played_card(pre, i as int).wf());
                        assert(src == 0 || src == 2);
                    }
                    {
                        let pm = &mut self.players[i];
                        let mut row = pm.resource_costs[src];
                        row[0] = 1;
                        row[1] = 1;
                        row[2] = 1;
                        row[3] = 1;
                        pm.resource_costs[src] = row;
                    }
                    proof {
                        assert forall|s: int, r: int| 0 <= s < 3 && 0 <= r < 7 implies (
                        #[trigger] costs_of(self.players@[i as int], s)[r]) == if s == src as int
                            && r < 4 {
                            1u32
                        } else {
                            costs_of(before[i as int], s)[r]
                        } by {}
                        assert(costs_updated(
                            pre.players@[i as int],
                            self.players@[i as int],
                            card_effect,
                        ));
                        assert(forall|t: int|
                            0 <= t < n_int && t != i as int
                                ==> (#[trigger] self.players@[t]).resource_costs
                                == before[t].resource_costs);
                        assert(forall|t: int|
                            0 <= t < n_int ==> (#[trigger] self.players@[t]).resource_productions
                                == before[t].resource_productions);
                    }
                },
                CardEffect::ManufacturedProductsCost => {
                    {
                        let pm = &mut self.players[i];
                        let mut row0 = pm.resource_costs[0];
                        row0[4] = 1;
                        row0[5] = 1;
                        row0[6] = 1;
                        pm.resource_costs[0] = row0;
                        let mut row2 = pm.resource_costs[2];
                        row2[4] = 1;
                        row2[5] = 1;
                        row2[6] = 1;
                        pm.resource_costs[2] = row2;
                    }
                    proof {
                        assert forall|s: int, r: int| 0 <= s < 3 && 0 <= r < 7 implies (
                        #[trigger] costs_of(self.players@[i as int], s)[r]) == if (s == 0 || s
                            == 2) && 4 <= r {
                            1u32
                        } else {
                            costs_of(before[i as int], s)[r]
                        } by {}
                        assert(costs_updated(
                            pre.players@[i as int],
                            self.players@[i as int],
                            card_effect,
                        ));
                        assert(forall|t: int|
                            0 <= t < n_int && t != i as int
                                ==> (#[trigger] self.players@[t]).resource_costs
                                == before[t].resource_costs);
                        assert(forall|t: int|
                            0 <= t < n_int ==> (#[trigger] self.players@[t]).resource_productions
                                == before[t].resource_productions);
                    }
                },
                CardEffect::Points(_) => {},
                CardEffect::Shields(_) => {},
                CardEffect::Science(_) => {},
            }
            proof {
                assert forall|t: int| 0 <= t < n_int implies prods_of(
                    #[trigger] self.players@[t],
                    1,
                ) == (if t < i as int + 1 {
                    with_grant(prods_of(pre.players@[t], 1), played_card(pre, t))
                } else {
                    prods_of(pre.players@[t], 1)
                }) by {
                    if t != i as int {
                        assert(prods_of(self.players@[t], 1) == prods_of(before[t], 1));
                    }
                }
                assert forall|t: int| 0 <= t < n_int implies prods_of(
                    #[trigger] self.players@[t],
                    0,
                ) == (if left_of(t, n_int) < i as int + 1 {
                    with_grant(prods_of(pre.players@[t], 0), played_card(pre, left_of(t, n_int)))
                } else {
                    prods_of(pre.players@[t], 0)
                }) by {
                    assert(left_of(t, n_int) == i as int <==> t == right as int);
                    if t != right as int {
                        assert(prods_of(self.players@[t], 0) == prods_of(before[t], 0));
                    }
                }
                assert forall|t: int| 0 <= t < n_int implies prods_of(
                    #[trigger] self.players@[t],
                    2,
                ) == (if right_of(t, n_int) < i as int + 1 {
                    with_grant(prods_of(pre.players@[t], 2), played_card(pre, right_of(t, n_int)))
                } else {
                    prods_of(pre.players@[t], 2)
                }) by {
                    assert(right_of(t, n_int) == i as int <==> t == left as int);
                    if t != left as int {
                        assert(prods_of(self.players@[t], 2) == prods_of(before[t], 2));
                    }
                }
                assert forall|t: int| 0 <= t < i as int + 1 implies costs_updated(
                    pre.players@[t],
                    #[trigger] self.players@[t],
                    played_card(pre, t).effect,
                ) by {
                    if t < i as int {
                        lemma_costs_updated_same(
                            pre.players@[t],
                            before[t],
                            self.players@[t],
                            played_card(pre, t).effect,
                        );
                    } else {
                        match card_effect {
                            CardEffect::RawMaterialsCost(_) => {},
                            CardEffect::ManufacturedProductsCost => {},
                            _ => {
                                assert(self.players@[t].resource_costs == before[t].resource_costs);
                                assert(before[t].resource_costs == pre.players@[t].resource_costs);
                            },
                        }
                    }
                }
            }
            i += 1;
        }
        // Rotate the remaining hands one seat to the left.
        let mut hands: Vec<Vec<Card>> = Vec::new();
        let ghost effected = self.players@;
        let mut i: usize = 0;
        while i < n
            invariant
                n_int == n as int,
                i <= n,
                self.player_count == n,
                self.card_registry == pre.card_registry,
                self.age == pre.age,
                self.players@.len() == n_int,
                self.plays@.len() == pre.plays@.len(),
                effected.len() == n_int,
                hands@.len() == i,
                forall|t: int| 0 <= t < i ==> (#[trigger] hands@[t]) == effected[t].hand_cards,
                forall|t: int|
                    i <= t < n_int ==> (#[trigger] self.players@[t]).hand_cards
                        == effected[t].hand_cards,
                forall|t: int|
                    0 <= t < n_int ==> (#[trigger] self.players@[t]).board_cards
                        == effected[t].board_cards,
                forall|t: int|
                    0 <= t < n_int ==> (#[trigger] self.players@[t]).gold == effected[t].gold,
                forall|t: int|
                    0 <= t < n_int ==> (#[trigger] self.players@[t]).resource_productions
                        == effected[t].resource_productions,
                forall|t: int|
                    0 <= t < n_int ==> (#[trigger] self.players@[t]).resource_costs
                        == effected[t].resource_costs,
                forall|t: int| 0 <= t < n_int ==> (#[trigger] self.plays@[t]) is NoAction,
            decreases n - i,
        {
            let pi = &mut self.players[i];
            let mut taken: Vec<Card> = Vec::new();
            core::mem::swap(&mut taken, &mut pi.hand_cards);
            hands.push(taken);
            i += 1;
        }
        let ghost collected = hands@;
        let mut i: usize = 0;
        while i < n
            invariant
                n_int == n as int,
                i <= n,
                self.player_count == n,
                self.card_registry == pre.card_registry,
                self.age == pre.age,
                self.players@.len() == n_int,
                self.plays@.len() == pre.plays@.len(),
                effected.len() == n_int,
                collected.len() == n_int,
                forall|t: int| 0 <= t < n_int ==> (#[trigger] collected[t]) == effected[t].hand_cards,
                i < n ==> hands@ =~= seq![collected[0]] + collected.subrange(i as int + 1, n_int),
                forall|t: int|
                    0 <= t < i ==> (#[trigger] self.players@[t]).hand_cards == collected[right_of(
                        t,
                        n_int,
                    )],
                forall|t: int|
                    0 <= t < n_int ==> (#[trigger] self.players@[t]).board_cards
                        == effected[t].board_cards,
                forall|t: int|
                    0 <= t < n_int ==> (#[trigger] self.players@[t]).gold == effected[t].gold,
                forall|t: int|
                    0 <= t < n_int ==> (#[trigger] self.players@[t]).resource_productions
                        == effected[t].resource_productions,
                forall|t: int|
                    0 <= t < n_int ==> (#[trigger] self.players@[t]).resource_costs
                        == effected[t].resource_costs,
                forall|t: int| 0 <= t < n_int ==> (#[trigger] self.plays@[t]) is NoAction,
            decreases n - i,
        {
            let idx = if i + 1 < n {
                1
            } else {
                0
            };
            let next_hand = hands.remove(idx);
            proof {
                assert(next_hand == collected[right_of(i as int, n_int)]);
                if i + 1 < n {
                    assert(hands@ =~= seq![collected[0]] + collected.subrange(
                        i as int + 2,
                        n_int,
                    ));
                }
            }
            {
                let pi = &mut self.players[i];
                pi.hand_cards = next_hand;
            }
            i += 1;
        }
        proof {
            assert forall|t: int| 0 <= t < n_int implies (#[trigger] self.players@[t]).gold
                == settled[t].gold by {}
            lemma_sum_gold_same(self.players@, settled);
            assert forall|t: int| 0 <= t < n_int implies resolved_player(
                pre,
                t,
                #[trigger] self.players@[t],
            ) by {
                let q = self.players@[t];
                let donor = right_of(t, n_int);
                assert(q.hand_cards == collected[donor]);
                assert(collected[donor] == effected[donor].hand_cards);
                assert(effected[donor].hand_cards == settled[donor].hand_cards);
                assert(q.hand_cards@ == pre.players@[donor].hand_cards@.remove(
                    chosen_card_of(pre.plays@[donor]),
                ));
                assert(q.board_cards == effected[t].board_cards);
                assert(effected[t].board_cards == settled[t].board_cards);
                assert(q.board_cards@ == pre.players@[t].board_cards@.push(played_card(pre, t)));
                assert(q.gold == settled[t].gold);
                assert(q.gold == gold_after_settlement(pre, t, n_int));
                assert(q.resource_productions == effected[t].resource_productions);
                assert(prods_of(q, 1) == prods_of(effected[t], 1));
                assert(prods_of(q, 0) == prods_of(effected[t], 0));
                assert(prods_of(q, 2) == prods_of(effected[t], 2));
                assert(prods_of(effected[t], 1) == with_grant(
                    prods_of(pre.players@[t], 1),
                    played_card(pre, t),
                ));
                assert(prods_of(effected[t], 0) == with_grant(
                    prods_of(pre.players@[t], 0),
                    played_card(pre, left_of(t, n_int)),
                ));
                assert(prods_of(effected[t], 2) == with_grant(
                    prods_of(pre.players@[t], 2),
                    played_card(pre, right_of(t, n_int)),
                ));
                assert(q.resource_costs == effected[t].resource_costs);
                assert(costs_updated(pre.players@[t], effected[t], played_card(pre, t).effect));
                lemma_costs_updated_same(
                    pre.players@[t],
                    effected[t],
                    q,
                    played_card(pre, t).effect,
                );
            }
            assert(resolve_rel(pre, *self));
            lemma_wf_after_resolution(pre, *self);
        }
    }

    /// Resolve the round now if every seat has committed; otherwise change
    /// nothing.
    fn maybe_play_cards(&mut self)
        requires
            old(self).wf_core(),
        ensures
            if all_chose(old(self).plays@) {
                resolve_rel(*old(self), *final(self)) && final(self).wf()
            } else {
                *final(self) == *old(self)
            },
    {
        let n = self.player_count;
        let mut all = true;
        let mut i: usize = 0;
        while i < n
            invariant
                *self == *old(self),
                old(self).wf_core(),
                n == self.player_count,
                i <= n,
                all <==> (forall|t: int|
                    0 <= t < i ==> (#[trigger] self.plays@[t]) is ChoseResources),
            decreases n - i,
        {
            let ready = match &self.plays[i] {
                Play::ChoseResources { .. } => true,
                _ => false,
            };
            if !ready {
                all = false;
            }
            i += 1;
        }
        if all {
            proof {
                assert(all_chose(self.plays@));
            }
            self.play_cards();
        } else {
            proof {
                assert(!all_chose(self.plays@));
            }
        }
    }

    /// Apply one action for the given seat, then resolve the round if this
    /// completed it. The only hard error is a seat the game does not have;
    /// every rule violation is a no-op or a non-valid verdict instead.
    pub fn perform_action(&mut self, player: usize, action: PlayerAction) -> (res: Result<
        (),
        GameError,
    >)
        requires
            old(self).wf(),
        ensures
            final(self).wf(),
            res is Ok <==> player < old(self).player_count,
            res is Err ==> res == Err::<(), GameError>(GameError::UnknownSeat) && *final(self)
                == *old(self),
            player < old(self).player_count ==> exists|mid: Game|
                {
                    &&& #[trigger] action_step(*old(self), mid, player as int, action)
                    &&& if all_chose(mid.plays@) {
                        resolve_rel(mid, *final(self))
                    } else {
                        *final(self) == mid
                    }
                },
    {
        if player >= self.player_count {
            return Err(GameError::UnknownSeat);
        }
        match action {
            PlayerAction::PickCard(card) => {
                let idle = match &self.plays[player] {
                    Play::NoAction => true,
                    _ => false,
                };
                if idle && card < self.players[player].hand_cards.len() {
                    let len0 = self.players[player].resource_productions[0].len();
                    let len1 = self.players[player].resource_productions[1].len();
                    let len2 = self.players[player].resource_productions[2].len();
                    let none0: Vec<usize> = vec![0; len0];
                    let none1: Vec<usize> = vec![0; len1];
                    let none2: Vec<usize> = vec![0; len2];
                    let nra: ResourceAllocation = [none0, none1, none2];
                    proof {
                        assert(fresh_alloc(
                            self.players@[player as int],
                            alloc_view(nra),
                        ));
                    }
                    let verdict = self.players[player].get_card_verdict(card, &nra);
                    self.plays[player] = Play::ChoosingResources {
                        card_index: card,
                        resource_allocation: nra,
                        verdict,
                    };
                }
            },
            PlayerAction::CancelCard => {
                let choosing = match &self.plays[player] {
                    Play::ChoosingResources { .. } => true,
                    _ => false,
                };
                if choosing {
                    self.plays[player] = Play::NoAction;
                }
            },
            PlayerAction::GetResource(src, production, resource) => {
                if src < 3 && production < self.players[player].resource_productions[src].len()
                    && resource < 8 {
                    let picked: Option<(usize, ResourceAllocation)> = match &self.plays[player] {
                        Play::ChoosingResources { card_index, resource_allocation, .. } => Some(
                            (*card_index, copy_allocation(resource_allocation)),
                        ),
                        _ => None,
                    };
                    match picked {
                        Some((card_index, mut updated)) => {
                            let ghost old_av = chosen_choosing_alloc(self.plays@[player as int]);
                            updated[src][production] = resource;
                            proof {
                                assert(alloc_view(updated) =~= alloc_updated(
                                    old_av,
                                    src as int,
                                    production as int,
                                    resource,
                                ));
                            }
                            let verdict = self.players[player].get_card_verdict(
                                card_index,
                                &updated,
                            );
                            self.plays[player] = Play::ChoosingResources {
                                card_index,
                                resource_allocation: updated,
                                verdict,
                            };
                        },
                        None => {},
                    }
                }
            },
            PlayerAction::Validate => {
                let committed: Option<(usize, ResourceAllocation)> = match &self.plays[player] {
                    Play::ChoosingResources { card_index, resource_allocation, verdict } => {
                        if verdict.is_valid() {
                            Some((*card_index, copy_allocation(resource_allocation)))
                        } else {
                            None
                        }
                    },
                    _ => None,
                };
                match committed {
                    Some((card_index, chosen)) => {
                        proof {
                            crate::player::lemma_verdict_characterizes(
                                self.players@[player as int],
                                card_index as int,
                                alloc_view(chosen),
                                verdict_of_choosing(self.plays@[player as int]),
                            );
                        }
                        self.plays[player] = Play::ChoseResources {
                            card_index,
                            resource_allocation: chosen,
                        };
                    },
                    None => {},
                }
            },
            PlayerAction::Unvalidate => {
                let back: Option<(usize, ResourceAllocation)> = match &self.plays[player] {
                    Play::ChoseResources { card_index, resource_allocation } => Some(
                        (*card_index, copy_allocation(resource_allocation)),
                    ),
                    _ => None,
                };
                match back {
                    Some((card_index, chosen)) => {
                        let verdict = self.players[player].get_card_verdict(card_index, &chosen);
                        self.plays[player] = Play::ChoosingResources {
                            card_index,
                            resource_allocation: chosen,
                            verdict,
                        };
                    },
                    None => {},
                }
            },
        }
        let ghost mid = *self;
        proof {
            assert(action_step(*old(self), mid, player as int, action));
            assert(mid.wf_core());
        }
        self.maybe_play_cards();
        proof {
            if !all_chose(mid.plays@) {
                assert(*self == mid);
                assert(self.wf());
            }
        }
        Ok(())
    }
}

/// The allocation stored in a seat that is still choosing.
pub open spec fn chosen_choosing_alloc(play: Play) -> Seq<Seq<usize>> {
    match play {
        Play::ChoosingResources { resource_allocation, .. } => alloc_view(resource_allocation),
        _ => Seq::empty(),
    }
}

/// The verdict stored in a seat that is still choosing.
pub open spec fn verdict_of_choosing(play: Play) -> ResourceAllocationVerdict {
    match play {
        Play::ChoosingResources { verdict, .. } => verdict,
        _ => arbitrary(),
    }
}

fn copy_choices(v: &Vec<usize>) -> (out: Vec<usize>)
    ensures
        out@ == v@,
{
    let mut out: Vec<usize> = Vec::new();
    let mut i: usize = 0;
    while i < v.len()
        invariant
            i <= v@.len(),
            out@ == v@.subrange(0, i as int),
        decreases v@.len() - i,
    {
        out.push(v[i]);
        proof {
            assert(out@ =~= v@.subrange(0, i + 1));
        }
        i += 1;
    }
    proof {
        assert(out@ =~= v@);
    }
    out
}

fn copy_allocation(a: &ResourceAllocation) -> (out: ResourceAllocation)
    ensures
        alloc_view(out) == alloc_view(*a),
{
    let out = [copy_choices(&a[0]), copy_choices(&a[1]), copy_choices(&a[2])];
    proof {
        assert(alloc_view(out) =~= alloc_view(*a));
    }
    out
}

/// A resolved state keeps the structural invariant.
proof fn lemma_wf_after_resolution(pre: Game, post: Game)
    requires
        pre.wf_core(),
        all_chose(pre.plays@),
        resolve_rel(pre, post),
    ensures
        post.wf(),
{
    let n = pre.player_count as int;
    assert forall|i: int| 0 <= i < n implies (#[trigger] post.players@[i]).wf() by {
        lemma_resolved_player_wf(pre, i, post.players@[i]);
    }
    assert forall|i: int, j: int| 0 <= i < n && 0 <= j < n implies (
    #[trigger] post.players@[i].hand_cards@.len()) == (
    #[trigger] post.players@[j].hand_cards@.len()) by {
        let di = right_of(i, n);
        let dj = right_of(j, n);
        assert(pre.players@[di].hand_cards@.len() == pre.players@[dj].hand_cards@.len());
    }
    assert forall|i: int, s: int| 0 <= i < n && 0 <= s < 3 implies (#[trigger] prods_of(
        post.players@[i],
        s,
    )).len() + post.players@[i].hand_cards@.len() <= pre.player_count * HAND_SIZE by {
        let donor = right_of(i, n);
        let dk = chosen_card_of(pre.plays@[donor]);
        assert(pre.plays@[donor] is ChoseResources);
        assert(0 <= dk < pre.players@[donor].hand_cards@.len());
        pre.players@[donor].hand_cards@.remove_ensures(dk);
        assert(pre.players@[donor].hand_cards@.len() == pre.players@[i].hand_cards@.len());
        assert(post.players@[i].hand_cards@.len() == pre.players@[i].hand_cards@.len() - 1);
        if s == 0 {
            assert(prods_of(post.players@[i], 0) == with_grant(
                prods_of(pre.players@[i], 0),
                played_card(pre, left_of(i, n)),
            ));
        } else if s == 1 {
            assert(prods_of(post.players@[i], 1) == with_grant(
                prods_of(pre.players@[i], 1),
                played_card(pre, i),
            ));
        } else {
            assert(prods_of(post.players@[i], 2) == with_grant(
                prods_of(pre.players@[i], 2),
                played_card(pre, right_of(i, n)),
            ));
        }
        assert(prods_of(post.players@[i], s).len() <= prods_of(pre.players@[i], s).len() + 1);
        assert(pre.players@[i].hand_cards@.len() >= 1);
    }
    lemma_net_paid_is_card_gold(pre, n);
    lemma_sum_gold_nonneg(pre.players@);
    if n >= 1 {
        assert(post.plays@[0] is NoAction);
        assert(!all_chose(post.plays@));
    }
}

/// Each seat's resolved ledger is well formed.
#[verifier::rlimit(60)]
#[verifier::spinoff_prover]
proof fn lemma_resolved_player_wf(pre: Game, i: int, q: PlayerData)
    requires
        pre.wf_core(),
        all_chose(pre.plays@),
        0 <= i < pre.player_count,
        resolved_player(pre, i, q),
    ensures
        q.wf(),
{
    let n = pre.player_count as int;
    let p = pre.players@[i];
    let donor = right_of(i, n);
    let dp = pre.players@[donor];
    let dk = chosen_card_of(pre.plays@[donor]);
    assert(0 <= donor < n);
    assert(pre.plays@[donor] is ChoseResources);
    assert(0 <= dk < dp.hand_cards@.len());
    // Hand: every remaining card comes from the donor's hand.
    assert forall|j: int| 0 <= j < q.hand_cards@.len() implies (
    #[trigger] q.hand_cards@[j]).wf() by {
        assert(q.hand_cards@ == dp.hand_cards@.remove(dk));
        dp.hand_cards@.remove_ensures(dk);
        if j < dk {
            assert(q.hand_cards@[j] == dp.hand_cards@[j]);
        } else {
            assert(q.hand_cards@[j] == dp.hand_cards@[j + 1]);
        }
    }
    // Board: the old board plus the played card.
    assert forall|j: int| 0 <= j < q.board_cards@.len() implies (
    #[trigger] q.board_cards@[j]).wf() by {
        assert(q.board_cards@ == p.board_cards@.push(played_card(pre, i)));
        if j < p.board_cards@.len() {
            assert(q.board_cards@[j] == p.board_cards@[j]);
        } else {
            assert(q.board_cards@[j] == played_card(pre, i));
        }
    }
    // Grant lists: grew by at most one entry while the hand shrank by one.
    assert forall|s: int| 0 <= s < 3 implies (#[trigger] prods_of(q, s)).len()
        <= MAX_PRODUCTION_GRANTS by {
        assert(prods_of(p, s).len() + p.hand_cards@.len() <= pre.player_count * HAND_SIZE);
        assert(p.hand_cards@.len() >= 1);
        assert(pre.player_count * HAND_SIZE <= MAX_PLAYERS * HAND_SIZE) by (nonlinear_arith)
            requires
                pre.player_count <= MAX_PLAYERS,
        ;
        if s == 0 {
            assert(prods_of(q, 0) == with_grant(prods_of(p, 0), played_card(pre, left_of(i, n))));
        } else if s == 1 {
            assert(prods_of(q, 1) == with_grant(prods_of(p, 1), played_card(pre, i)));
        } else {
            assert(prods_of(q, 2) == with_grant(prods_of(p, 2), played_card(pre, right_of(i, n))));
        }
        assert(prods_of(q, s).len() <= prods_of(p, s).len() + 1);
    }
    // Prices: a discount writes 1, anything else leaves the table as it was.
    let eff = played_card(pre, i).effect;
    assert(played_card(pre, i).wf());
    assert forall|r: int| 0 <= r < 7 implies (#[trigger] costs_of(q, 1)[r]) == 0 by {
        match eff {
            CardEffect::RawMaterialsCost(src) => {
                assert(src == 0 || src == 2);
                assert(costs_of(q, 1)[r] == costs_of(p, 1)[r]);
            },
            CardEffect::ManufacturedProductsCost => {
                assert(costs_of(q, 1)[r] == costs_of(p, 1)[r]);
            },
            _ => {
                assert(q.resource_costs == p.resource_costs);
            },
        }
    }
    assert forall|r: int| 0 <= r < 7 implies 1 <= (#[trigger] costs_of(q, 0)[r]) <= 2 by {
        lemma_resolved_costs_in_range(p, q, eff, 0, r);
    }
    assert forall|r: int| 0 <= r < 7 implies 1 <= (#[trigger] costs_of(q, 2)[r]) <= 2 by {
        lemma_resolved_costs_in_range(p, q, eff, 2, r);
    }
    assert(q.hand_cards@.len() <= HAND_SIZE);
}

/// A neighbor-row price stays 1 or 2 through any card effect.
proof fn lemma_resolved_costs_in_range(
    p: PlayerData,
    q: PlayerData,
    eff: CardEffect,
    s: int,
    r: int,
)
    requires
        p.wf(),
        costs_updated(p, q, eff),
        s == 0 || s == 2,
        0 <= r < 7,
    ensures
        1 <= costs_of(q, s)[r] <= 2,
{
    if s == 0 {
        assert(1 <= costs_of(p, 0)[r] <= 2);
    } else {
        assert(1 <= costs_of(p, 2)[r] <= 2);
    }
    match eff {
        CardEffect::RawMaterialsCost(src) => {
            assert(costs_of(q, s)[r] == if s == src && r < 4 {
                1u32
            } else {
                costs_of(p, s)[r]
            });
        },
        CardEffect::ManufacturedProductsCost => {
            assert(costs_of(q, s)[r] == if 4 <= r {
                1u32
            } else {
                costs_of(p, s)[r]
            });
        },
        _ => {
            assert(q.resource_costs == p.resource_costs);
            assert(costs_of(q, 0) == costs_of(p, 0));
            assert(costs_of(q, 2) == costs_of(p, 2));
        },
    }
}

} // verus!
