use vstd::prelude::*;

verus! {

/// Counts of the seven goods, in the fixed order
/// clay, wood, ore, stone, glass, papyrus, loom.
/// The first four are raw materials, the last three manufactured goods.
pub type ResourceArray = [u32; 7];

/// A payment proposal: for each relative source (left neighbor, self, right
/// neighbor), one chosen resource per production grant of that source
/// (0 = none, 1..=7 = one of the seven goods).
pub type ResourceAllocation = [Vec<usize>; 3];

pub const COLOR_BLUE: usize = 0;

pub const COLOR_BROWN: usize = 1;

pub const COLOR_GRAY: usize = 2;

pub const COLOR_GREEN: usize = 3;

pub const COLOR_PURPLE: usize = 4;

pub const COLOR_RED: usize = 5;

pub const COLOR_YELLOW: usize = 6;

/// Relative source slot of the left neighbor.
pub const LEFT_PLAYER: usize = 0;

/// Relative source slot of the right neighbor.
pub const RIGHT_PLAYER: usize = 2;

pub const SCIENCE_TABLET: usize = 0;

pub const SCIENCE_COMPASS: usize = 1;

pub const SCIENCE_GEAR: usize = 2;

/// Largest gold cost a well-formed card may carry; keeps settlement sums
/// comfortably inside `u32`.
pub const MAX_CARD_GOLD_COST: u32 = 1000000;

/// Cards dealt to each seat at the start of an age.
pub const HAND_SIZE: usize = 7;

/// Most seats a game can hold.
pub const MAX_PLAYERS: usize = 7;

/// A ledger never holds more production grants per source than one per card
/// dealt in an age (each played card grants at most one entry per slot).
pub const MAX_PRODUCTION_GRANTS: usize = 7 * 7;

/// What a card does once played.
#[derive(Debug, Clone, Copy)]
pub enum CardEffect {
    /// Produce one unit per round of one of the listed resources (choose one).
    Resources(ResourceArray),
    /// Give victory points.
    Points(u32),
    /// Buying raw materials from the given relative source costs 1 gold.
    RawMaterialsCost(usize),
    /// Buying manufactured goods from either neighbor costs 1 gold.
    ManufacturedProductsCost,
    /// Give military strength.
    Shields(u32),
    /// Advance the given science track.
    Science(usize),
}

/// An immutable card definition.
#[derive(Debug, Clone)]
pub struct Card {
    pub color: usize,
    pub name: String,
    pub gold_cost: u32,
    pub resource_cost: ResourceArray,
    pub effect: CardEffect,
    pub chaining_targets: Vec<String>,
    pub chaining_sources: Vec<String>,
}

impl Card {
    /// A card the engine can settle: its gold cost is bounded and a raw-material
    /// discount names a neighbor slot, never the self slot.
    pub open spec fn wf(self) -> bool {
        &&& self.gold_cost <= MAX_CARD_GOLD_COST
        &&& match self.effect {
            CardEffect::RawMaterialsCost(src) => src == LEFT_PLAYER || src == RIGHT_PLAYER,
            _ => true,
        }
    }
}

/// The acceptability of a proposed payment for a card: what was allocated
/// beyond the requirement, what is still missing, and the gold shortfall.
#[derive(Debug, Clone)]
#[verifier::ext_equal]
pub struct ResourceAllocationVerdict {
    pub extra_resources: ResourceArray,
    pub missing_resources: ResourceArray,
    pub missing_gold: u32,
}

impl ResourceAllocationVerdict {
    /// The payment is acceptable: nothing extra, nothing missing, gold covered.
    pub open spec fn valid(self) -> bool {
        &&& forall|r: int| 0 <= r < 7 ==> self.extra_resources@[r] == 0
        &&& forall|r: int| 0 <= r < 7 ==> self.missing_resources@[r] == 0
        &&& self.missing_gold == 0
    }

    pub fn is_valid(&self) -> (valid: bool)
        ensures
            valid == self.valid(),
    {
        let mut r: usize = 0;
        while r < 7
            invariant
                r <= 7,
                forall|j: int|
                    0 <= j < r ==> self.extra_resources@[j] == 0 && self.missing_resources@[j]
                        == 0,
            decreases 7 - r,
        {
            if self.extra_resources[r] != 0 || self.missing_resources[r] != 0 {
                return false;
            }
            r += 1;
        }
        self.missing_gold == 0
    }
}

/// The ledger of one seat: hand, played cards, visible production grants and
/// purchase prices per relative source, and the gold balance.
#[derive(Debug)]
pub struct PlayerData {
    pub hand_cards: Vec<Card>,
    pub board_cards: Vec<Card>,
    pub resource_productions: [Vec<ResourceArray>; 3],
    pub resource_costs: [ResourceArray; 3],
    pub gold: u32,
}

/// The production grants that seat `p` may draw from relative source `s`.
pub open spec fn prods_of(p: PlayerData, s: int) -> Seq<ResourceArray> {
    p.resource_productions@[s]@
}

/// The per-unit gold prices seat `p` pays for goods of relative source `s`.
pub open spec fn costs_of(p: PlayerData, s: int) -> Seq<u32> {
    p.resource_costs@[s]@
}

/// The mathematical contents of an allocation: one sequence of choices per
/// relative source.
pub open spec fn alloc_view(a: ResourceAllocation) -> Seq<Seq<usize>> {
    Seq::new(3, |s: int| a@[s]@)
}

/// Choice `alloc[s][k]` draws a unit: it names one of the seven goods and the
/// grant at slot `k` of source `s` exists and offers that good. Any other
/// choice is simply not counted.
pub open spec fn slot_counted(p: PlayerData, alloc: Seq<Seq<usize>>, s: int, k: int) -> bool {
    &&& 1 <= alloc[s][k] <= 7
    &&& k < prods_of(p, s).len()
    &&& prods_of(p, s)[k]@[alloc[s][k] - 1] > 0
}

/// Units of good `r` drawn by the first `k` choices for source `s`.
pub open spec fn allocated_upto(
    p: PlayerData,
    alloc: Seq<Seq<usize>>,
    r: int,
    s: int,
    k: int,
) -> int
    decreases k,
{
    if k <= 0 {
        0
    } else {
        allocated_upto(p, alloc, r, s, k - 1) + if slot_counted(p, alloc, s, k - 1) && alloc[s][k
            - 1] == r + 1 {
            1int
        } else {
            0int
        }
    }
}

/// Units of good `r` drawn from source `s` by the whole allocation.
pub open spec fn allocated_in_source(p: PlayerData, alloc: Seq<Seq<usize>>, r: int, s: int) -> int {
    allocated_upto(p, alloc, r, s, alloc[s].len() as int)
}

/// Units of good `r` drawn from the sources before `s`.
pub open spec fn allocated_prefix(p: PlayerData, alloc: Seq<Seq<usize>>, r: int, s: int) -> int
    decreases s,
{
    if s <= 0 {
        0
    } else {
        allocated_prefix(p, alloc, r, s - 1) + allocated_in_source(p, alloc, r, s - 1)
    }
}

/// Units of good `r` drawn by the whole allocation.
pub open spec fn allocated_total(p: PlayerData, alloc: Seq<Seq<usize>>, r: int) -> int {
    allocated_prefix(p, alloc, r, 3)
}

/// Gold owed to source `s` for the first `k` choices: the price of each
/// counted unit.
pub open spec fn gain_upto(p: PlayerData, alloc: Seq<Seq<usize>>, s: int, k: int) -> int
    decreases k,
{
    if k <= 0 {
        0
    } else {
        gain_upto(p, alloc, s, k - 1) + if slot_counted(p, alloc, s, k - 1) {
            costs_of(p, s)[alloc[s][k - 1] - 1] as int
        } else {
            0int
        }
    }
}

/// Gold owed to relative source `s` for the whole allocation.
pub open spec fn gold_gain_of(p: PlayerData, alloc: Seq<Seq<usize>>, s: int) -> int {
    gain_upto(p, alloc, s, alloc[s].len() as int)
}

/// Total gold the card and the allocation cost seat `p`: the card's own gold
/// cost plus the price of every counted unit.
pub open spec fn gold_cost_of(p: PlayerData, card_index: int, alloc: Seq<Seq<usize>>) -> int {
    p.hand_cards@[card_index].gold_cost + gold_gain_of(p, alloc, 0) + gold_gain_of(p, alloc, 1)
        + gold_gain_of(p, alloc, 2)
}

/// Shortfall of good `r`: what the card requires beyond what was allocated.
pub open spec fn missing_at(p: PlayerData, card_index: int, alloc: Seq<Seq<usize>>, r: int) -> int {
    let need = p.hand_cards@[card_index].resource_cost@[r] as int;
    let got = allocated_total(p, alloc, r);
    if got < need {
        need - got
    } else {
        0
    }
}

/// Surplus of good `r`: what was allocated beyond the card's requirement.
pub open spec fn extra_at(p: PlayerData, card_index: int, alloc: Seq<Seq<usize>>, r: int) -> int {
    let need = p.hand_cards@[card_index].resource_cost@[r] as int;
    let got = allocated_total(p, alloc, r);
    if got > need {
        got - need
    } else {
        0
    }
}

/// Gold shortfall: what the total cost exceeds the seat's balance by.
pub open spec fn missing_gold_of(p: PlayerData, card_index: int, alloc: Seq<Seq<usize>>) -> int {
    let cost = gold_cost_of(p, card_index, alloc);
    if p.gold < cost {
        cost - p.gold
    } else {
        0
    }
}

/// `v` is exactly the verdict of proposing `alloc` to pay for hand card
/// `card_index` of seat `p`.
pub open spec fn verdict_matches(
    p: PlayerData,
    card_index: int,
    alloc: Seq<Seq<usize>>,
    v: ResourceAllocationVerdict,
) -> bool {
    &&& forall|r: int|
        0 <= r < 7 ==> (#[trigger] v.extra_resources@[r]) == extra_at(p, card_index, alloc, r)
    &&& forall|r: int|
        0 <= r < 7 ==> (#[trigger] v.missing_resources@[r]) == missing_at(p, card_index, alloc, r)
    &&& v.missing_gold == missing_gold_of(p, card_index, alloc)
}

/// The allocation pays for hand card `card_index` exactly: every good is
/// allocated in the exact required amount and the gold cost is covered.
pub open spec fn allocation_valid(p: PlayerData, card_index: int, alloc: Seq<Seq<usize>>) -> bool {
    &&& forall|r: int|
        0 <= r < 7 ==> allocated_total(p, alloc, r) == p.hand_cards@[card_index].resource_cost@[r]
    &&& gold_cost_of(p, card_index, alloc) <= p.gold
}

proof fn lemma_allocated_upto_bounds(p: PlayerData, alloc: Seq<Seq<usize>>, r: int, s: int, k: int)
    ensures
        0 <= allocated_upto(p, alloc, r, s, k),
        allocated_upto(p, alloc, r, s, k) <= prods_of(p, s).len(),
    decreases k,
{
    if k > 0 {
        lemma_allocated_upto_bounds(p, alloc, r, s, k - 1);
        if slot_counted(p, alloc, s, k - 1) && alloc[s][k - 1] == r + 1 {
            lemma_allocated_upto_stops(p, alloc, r, s, k - 1);
        }
    }
}

/// The first `k` choices draw at most one unit per existing grant slot.
proof fn lemma_allocated_upto_stops(p: PlayerData, alloc: Seq<Seq<usize>>, r: int, s: int, k: int)
    ensures
        allocated_upto(p, alloc, r, s, k) <= if k <= prods_of(p, s).len() {
            if k >= 0 {
                k
            } else {
                0
            }
        } else {
            prods_of(p, s).len() as int
        },
    decreases k,
{
    if k > 0 {
        lemma_allocated_upto_stops(p, alloc, r, s, k - 1);
    }
}

proof fn lemma_gain_upto_bounds(p: PlayerData, alloc: Seq<Seq<usize>>, s: int, k: int)
    requires
        p.wf(),
        0 <= s < 3,
    ensures
        0 <= gain_upto(p, alloc, s, k),
        gain_upto(p, alloc, s, k) <= 2 * prods_of(p, s).len(),
    decreases k,
{
    if k > 0 {
        lemma_gain_upto_bounds(p, alloc, s, k - 1);
        if slot_counted(p, alloc, s, k - 1) {
            lemma_gain_upto_stops(p, alloc, s, k - 1);
        }
    }
}

/// The first `k` counted choices owe at most 2 gold each.
proof fn lemma_gain_upto_stops(p: PlayerData, alloc: Seq<Seq<usize>>, s: int, k: int)
    requires
        p.wf(),
        0 <= s < 3,
    ensures
        gain_upto(p, alloc, s, k) <= 2 * if k <= prods_of(p, s).len() {
            if k >= 0 {
                k
            } else {
                0
            }
        } else {
            prods_of(p, s).len() as int
        },
    decreases k,
{
    if k > 0 {
        lemma_gain_upto_stops(p, alloc, s, k - 1);
    }
}

/// A verdict computed for an allocation is valid exactly when the allocation
/// draws every good in the exact amount the card requires — nothing extra,
/// nothing missing — and the total gold cost is within the seat's balance.
pub proof fn lemma_verdict_characterizes(
    p: PlayerData,
    card_index: int,
    alloc: Seq<Seq<usize>>,
    v: ResourceAllocationVerdict,
)
    requires
        verdict_matches(p, card_index, alloc, v),
    ensures
        v.valid() <==> allocation_valid(p, card_index, alloc),
{
    if v.valid() {
        assert forall|r: int| 0 <= r < 7 implies allocated_total(p, alloc, r)
            == p.hand_cards@[card_index].resource_cost@[r] by {
            assert(v.extra_resources@[r] == extra_at(p, card_index, alloc, r));
            assert(v.missing_resources@[r] == missing_at(p, card_index, alloc, r));
        }
    }
    if allocation_valid(p, card_index, alloc) {
        assert forall|r: int| 0 <= r < 7 implies (#[trigger] v.extra_resources@[r]) == 0 by {
            assert(allocated_total(p, alloc, r) == p.hand_cards@[card_index].resource_cost@[r]);
        }
        assert forall|r: int| 0 <= r < 7 implies (#[trigger] v.missing_resources@[r]) == 0 by {
            assert(allocated_total(p, alloc, r) == p.hand_cards@[card_index].resource_cost@[r]);
        }
    }
}

/// What a seat owes one source is at most 2 gold per grant the source shows.
pub proof fn lemma_gain_bounds(p: PlayerData, alloc: Seq<Seq<usize>>, s: int)
    requires
        p.wf(),
        0 <= s < 3,
    ensures
        0 <= gold_gain_of(p, alloc, s),
        gold_gain_of(p, alloc, s) <= 2 * MAX_PRODUCTION_GRANTS,
{
    lemma_gain_upto_bounds(p, alloc, s, alloc[s].len() as int);
}

proof fn lemma_allocated_prefix_bounds(p: PlayerData, alloc: Seq<Seq<usize>>, r: int, s: int)
    requires
        p.wf(),
        0 <= s <= 3,
    ensures
        0 <= allocated_prefix(p, alloc, r, s),
        allocated_prefix(p, alloc, r, s) <= s * MAX_PRODUCTION_GRANTS,
    decreases s,
{
    if s > 0 {
        lemma_allocated_prefix_bounds(p, alloc, r, s - 1);
        lemma_allocated_upto_bounds(p, alloc, r, s - 1, alloc[s - 1].len() as int);
    }
}

impl PlayerData {
    /// A ledger the engine can settle: bounded grant lists, the documented
    /// price invariants (own production free, neighbor prices 1 or 2 gold),
    /// and well-formed cards.
    pub open spec fn wf(self) -> bool {
        &&& forall|s: int|
            0 <= s < 3 ==> (#[trigger] prods_of(self, s).len()) <= MAX_PRODUCTION_GRANTS
        &&& forall|r: int| 0 <= r < 7 ==> (#[trigger] costs_of(self, 1)[r]) == 0
        &&& forall|r: int| 0 <= r < 7 ==> 1 <= (#[trigger] costs_of(self, 0)[r]) <= 2
        &&& forall|r: int| 0 <= r < 7 ==> 1 <= (#[trigger] costs_of(self, 2)[r]) <= 2
        &&& self.hand_cards@.len() <= HAND_SIZE
        &&& forall|i: int| 0 <= i < self.hand_cards@.len() ==> (#[trigger] self.hand_cards@[i]).wf()
        &&& forall|i: int|
            0 <= i < self.board_cards@.len() ==> (#[trigger] self.board_cards@[i]).wf()
    }

    /// A fresh ledger: the given hand, an empty board, no visible production,
    /// the default prices (2 gold per neighbor unit, own units free).
    pub fn new(hand_cards: Vec<Card>, gold: u32) -> (p: PlayerData)
        requires
            hand_cards@.len() <= HAND_SIZE,
            forall|i: int| 0 <= i < hand_cards@.len() ==> (#[trigger] hand_cards@[i]).wf(),
        ensures
            p.wf(),
            p.hand_cards == hand_cards,
            p.board_cards@.len() == 0,
            p.gold == gold,
            forall|s: int| 0 <= s < 3 ==> (#[trigger] prods_of(p, s).len()) == 0,
            forall|r: int| 0 <= r < 7 ==> (#[trigger] costs_of(p, 0)[r]) == 2,
            forall|r: int| 0 <= r < 7 ==> (#[trigger] costs_of(p, 1)[r]) == 0,
            forall|r: int| 0 <= r < 7 ==> (#[trigger] costs_of(p, 2)[r]) == 2,
    {
        PlayerData {
            hand_cards,
            board_cards: Vec::new(),
            resource_productions: [Vec::new(), Vec::new(), Vec::new()],
            resource_costs: [
                [2, 2, 2, 2, 2, 2, 2],
                [0, 0, 0, 0, 0, 0, 0],
                [2, 2, 2, 2, 2, 2, 2],
            ],
            gold,
        }
    }

    /// Make a production grant of relative source `source` visible to this
    /// seat: one more entry the seat may draw a unit from.
    pub fn add_production(&mut self, source: usize, grant: ResourceArray)
        requires
            source < 3,
            prods_of(*old(self), source as int).len() < MAX_PRODUCTION_GRANTS,
        ensures
            prods_of(*final(self), source as int) == prods_of(*old(self), source as int).push(
                grant,
            ),
            forall|s: int|
                0 <= s < 3 && s != source ==> prods_of(*final(self), s) == prods_of(*old(self), s),
            final(self).hand_cards == old(self).hand_cards,
            final(self).board_cards == old(self).board_cards,
            final(self).resource_costs == old(self).resource_costs,
            final(self).gold == old(self).gold,
            old(self).wf() ==> final(self).wf(),
    {
        self.resource_productions[source].push(grant);
        proof {
            if old(self).wf() {
                assert(self.resource_costs == old(self).resource_costs);
                assert(costs_of(*self, 0) == costs_of(*old(self), 0));
                assert(costs_of(*self, 1) == costs_of(*old(self), 1));
                assert(costs_of(*self, 2) == costs_of(*old(self), 2));
                assert forall|s: int| 0 <= s < 3 implies (#[trigger] prods_of(*self, s).len())
                    <= MAX_PRODUCTION_GRANTS by {
                    if s != source {
                        assert(prods_of(*self, s) == prods_of(*old(self), s));
                    } else {
                        assert(prods_of(*self, s).len() == prods_of(*old(self), s).len() + 1);
                    }
                }
                assert(self.wf());
            }
        }
    }

    /// Count what the allocation draws and owes: units per good, gold owed per
    /// relative source.
    fn tally(&self, resource_allocation: &ResourceAllocation) -> (out: ([u32; 7], [u32; 3]))
        requires
            self.wf(),
        ensures
            forall|r: int|
                0 <= r < 7 ==> (#[trigger] out.0@[r]) == allocated_total(
                    *self,
                    alloc_view(*resource_allocation),
                    r,
                ),
            forall|s: int|
                0 <= s < 3 ==> (#[trigger] out.1@[s]) == gold_gain_of(
                    *self,
                    alloc_view(*resource_allocation),
                    s,
                ),
    {
        let ghost av = alloc_view(*resource_allocation);
        let mut allocated: [u32; 7] = [0, 0, 0, 0, 0, 0, 0];
        let mut gains: [u32; 3] = [0, 0, 0];
        let mut s: usize = 0;
        while s < 3
            invariant
                self.wf(),
                av == alloc_view(*resource_allocation),
                s <= 3,
                forall|r: int|
                    0 <= r < 7 ==> (#[trigger] allocated@[r]) == allocated_prefix(
                        *self,
                        av,
                        r,
                        s as int,
                    ),
                forall|t: int| 0 <= t < s ==> (#[trigger] gains@[t]) == gold_gain_of(*self, av, t),
                forall|t: int| s <= t < 3 ==> (#[trigger] gains@[t]) == 0,
            decreases 3 - s,
        {
            let lst = &resource_allocation[s];
            assert(av[s as int] == lst@);
            let mut k: usize = 0;
            while k < lst.len()
                invariant
                    self.wf(),
                    av == alloc_view(*resource_allocation),
                    s < 3,
                    av[s as int] == lst@,
                    k <= lst@.len(),
                    forall|r: int|
                        0 <= r < 7 ==> (#[trigger] allocated@[r]) == allocated_prefix(
                            *self,
                            av,
                            r,
                            s as int,
                        ) + allocated_upto(*self, av, r, s as int, k as int),
                    forall|t: int|
                        0 <= t < s ==> (#[trigger] gains@[t]) == gold_gain_of(*self, av, t),
                    gains@[s as int] == gain_upto(*self, av, s as int, k as int),
                    forall|t: int| s < t < 3 ==> (#[trigger] gains@[t]) == 0,
                decreases lst@.len() - k,
            {
                let c = lst[k];
                let counted = c >= 1 && c <= 7 && k < self.resource_productions[s].len()
                    && self.resource_productions[s][k][c - 1] > 0;
                proof {
                    assert(counted == slot_counted(*self, av, s as int, k as int));
                }
                if counted {
                    proof {
                        lemma_allocated_prefix_bounds(*self, av, c - 1, s as int);
                        lemma_allocated_upto_bounds(*self, av, c - 1, s as int, k as int);
                        lemma_gain_upto_bounds(*self, av, s as int, k as int);
                        assert(prods_of(*self, s as int).len() <= MAX_PRODUCTION_GRANTS);
                        assert(gains@[s as int] <= 2 * MAX_PRODUCTION_GRANTS);
                        if s == 0 {
                            assert(costs_of(*self, 0)[c - 1] <= 2);
                        } else if s == 1 {
                            assert(costs_of(*self, 1)[c - 1] <= 2);
                        } else {
                            assert(costs_of(*self, 2)[c - 1] <= 2);
                        }
                    }
                    allocated[c - 1] = allocated[c - 1] + 1;
                    gains[s] = gains[s] + self.resource_costs[s][c - 1];
                }
                proof {
                    assert forall|r: int| 0 <= r < 7 implies allocated_upto(
                        *self,
                        av,
                        r,
                        s as int,
                        k as int + 1,
                    ) == allocated_upto(*self, av, r, s as int, k as int) + if slot_counted(
                        *self,
                        av,
                        s as int,
                        k as int,
                    ) && av[s as int][k as int] == r + 1 {
                        1int
                    } else {
                        0int
                    } by {}
                }
                k += 1;
            }
            s += 1;
        }
        (allocated, gains)
    }

    /// Judge a proposed payment for hand card `card`: compare what the
    /// allocation draws against the card's resource cost, and the total gold
    /// cost against the balance.
    pub fn get_card_verdict(&self, card: usize, resource_allocation: &ResourceAllocation) -> (v:
        ResourceAllocationVerdict)
        requires
            self.wf(),
            card < self.hand_cards@.len(),
        ensures
            verdict_matches(*self, card as int, alloc_view(*resource_allocation), v),
    {
        let ghost av = alloc_view(*resource_allocation);
        let (allocated, gains) = self.tally(resource_allocation);
        proof {
            lemma_gain_upto_bounds(*self, av, 0, av[0].len() as int);
            lemma_gain_upto_bounds(*self, av, 1, av[1].len() as int);
            lemma_gain_upto_bounds(*self, av, 2, av[2].len() as int);
        }
        let gold_cost: u32 = self.hand_cards[card].gold_cost + gains[0] + gains[1] + gains[2];
        let mut extra: [u32; 7] = [0, 0, 0, 0, 0, 0, 0];
        let mut missing: [u32; 7] = [0, 0, 0, 0, 0, 0, 0];
        let mut r: usize = 0;
        while r < 7
            invariant
                self.wf(),
                card < self.hand_cards@.len(),
                r <= 7,
                forall|j: int|
                    0 <= j < 7 ==> (#[trigger] allocated@[j]) == allocated_total(*self, av, j),
                forall|j: int|
                    0 <= j < r ==> (#[trigger] extra@[j]) == extra_at(*self, card as int, av, j),
                forall|j: int|
                    0 <= j < r ==> (#[trigger] missing@[j]) == missing_at(
                        *self,
                        card as int,
                        av,
                        j,
                    ),
                forall|j: int| r <= j < 7 ==> (#[trigger] extra@[j]) == 0,
                forall|j: int| r <= j < 7 ==> (#[trigger] missing@[j]) == 0,
            decreases 7 - r,
        {
            let got = allocated[r];
            let need = self.hand_cards[card].resource_cost[r];
            if got < need {
                missing[r] = need - got;
            } else if got > need {
                extra[r] = got - need;
            }
            r += 1;
        }
        let missing_gold: u32 = if self.gold < gold_cost {
            gold_cost - self.gold
        } else {
            0
        };
        ResourceAllocationVerdict { extra_resources: extra, missing_resources: missing, missing_gold }
    }

    /// The settlement view of a payment: the total gold the seat will pay, and
    /// how much of it each relative source receives.
    pub fn get_gold_cost(&self, card: usize, resource_allocation: &ResourceAllocation) -> (out: (
        u32,
        [u32; 3],
    ))
        requires
            self.wf(),
            card < self.hand_cards@.len(),
        ensures
            out.0 == gold_cost_of(*self, card as int, alloc_view(*resource_allocation)),
            forall|s: int|
                0 <= s < 3 ==> (#[trigger] out.1@[s]) == gold_gain_of(
                    *self,
                    alloc_view(*resource_allocation),
                    s,
                ),
    {
        let ghost av = alloc_view(*resource_allocation);
        let (_allocated, gains) = self.tally(resource_allocation);
        proof {
            lemma_gain_upto_bounds(*self, av, 0, av[0].len() as int);
            lemma_gain_upto_bounds(*self, av, 1, av[1].len() as int);
            lemma_gain_upto_bounds(*self, av, 2, av[2].len() as int);
        }
        let gold_cost: u32 = self.hand_cards[card].gold_cost + gains[0] + gains[1] + gains[2];
        (gold_cost, gains)
    }
}

} // verus!
