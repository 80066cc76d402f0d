use vstd::prelude::*;

use crate::game::GameError;
use crate::player::{
    Card, CardEffect, ResourceArray, COLOR_BLUE, COLOR_BROWN, COLOR_GRAY, COLOR_GREEN, COLOR_RED,
    COLOR_YELLOW, HAND_SIZE, LEFT_PLAYER, MAX_CARD_GOLD_COST, RIGHT_PLAYER, SCIENCE_COMPASS,
    SCIENCE_GEAR, SCIENCE_TABLET,
};

verus! {

/// `b` carries the same definition as `a`: every scalar field is equal and the
/// name and chaining lists hold the same text. Cloning a card yields a
/// `card_like` card.
pub open spec fn card_like(a: Card, b: Card) -> bool {
    &&& a.color == b.color
    &&& a.name == b.name
    &&& a.gold_cost == b.gold_cost
    &&& a.resource_cost == b.resource_cost
    &&& a.effect == b.effect
    &&& a.chaining_targets@ == b.chaining_targets@
    &&& a.chaining_sources@ == b.chaining_sources@
}

/// Card `c` carries exactly this definition: the given name, color, gold
/// cost, resource cost and effect, and no chaining tags.
pub open spec fn card_matches(
    c: Card,
    name: Seq<char>,
    color: usize,
    gold_cost: u32,
    resource_cost: ResourceArray,
    effect: CardEffect,
) -> bool {
    &&& c.name@ == name
    &&& c.color == color
    &&& c.gold_cost == gold_cost
    &&& c.resource_cost == resource_cost
    &&& c.effect == effect
    &&& c.chaining_targets@.len() == 0
    &&& c.chaining_sources@.len() == 0
}

/// The fixed age-one table: exactly the 21 three-player cards, each pinned by
/// name, color, gold cost, resource cost and effect.
pub open spec fn age_one_table(t: Seq<Card>) -> bool {
    &&& t.len() == 21
    &&& card_matches(
        t[0],
        "Chantier"@,
        COLOR_BROWN,
        0,
        [0u32, 0, 0, 0, 0, 0, 0],
        CardEffect::Resources([0u32, 1, 0, 0, 0, 0, 0]),
    )
    &&& card_matches(
        t[1],
        "Cavité"@,
        COLOR_BROWN,
        0,
        [0u32, 0, 0, 0, 0, 0, 0],
        CardEffect::Resources([0u32, 0, 0, 1, 0, 0, 0]),
    )
    &&& card_matches(
        t[2],
        "Bassin argileux"@,
        COLOR_BROWN,
        0,
        [0u32, 0, 0, 0, 0, 0, 0],
        CardEffect::Resources([1u32, 0, 0, 0, 0, 0, 0]),
    )
    &&& card_matches(
        t[3],
        "Filon"@,
        COLOR_BROWN,
        0,
        [0u32, 0, 0, 0, 0, 0, 0],
        CardEffect::Resources([0u32, 0, 1, 0, 0, 0, 0]),
    )
    &&& card_matches(
        t[4],
        "Fosse argileuse"@,
        COLOR_BROWN,
        1,
        [0u32, 0, 0, 0, 0, 0, 0],
        CardEffect::Resources([1u32, 0, 1, 0, 0, 0, 0]),
    )
    &&& card_matches(
        t[5],
        "Exploitation forestière"@,
        COLOR_BROWN,
        1,
        [0u32, 0, 0, 0, 0, 0, 0],
        CardEffect::Resources([0u32, 1, 0, 1, 0, 0, 0]),
    )
    &&& card_matches(
        t[6],
        "Métier à tisser"@,
        COLOR_GRAY,
        0,
        [0u32, 0, 0, 0, 0, 0, 0],
        CardEffect::Resources([0u32, 0, 0, 0, 0, 0, 1]),
    )
    &&& card_matches(
        t[7],
        "Verrerie"@,
        COLOR_GRAY,
        0,
        [0u32, 0, 0, 0, 0, 0, 0],
        CardEffect::Resources([0u32, 0, 0, 0, 1, 0, 0]),
    )
    &&& card_matches(
        t[8],
        "Presse"@,
        COLOR_GRAY,
        0,
        [0u32, 0, 0, 0, 0, 0, 0],
        CardEffect::Resources([0u32, 0, 0, 0, 0, 1, 0]),
    )
    &&& card_matches(
        t[9],
        "Bains"@,
        COLOR_BLUE,
        0,
        [0u32, 0, 0, 1, 0, 0, 0],
        CardEffect::Points(3),
    )
    &&& card_matches(t[10], "Autel"@, COLOR_BLUE, 0, [0u32, 0, 0, 0, 0, 0, 0], CardEffect::Points(2))
    &&& card_matches(
        t[11],
        "Théâtre"@,
        COLOR_BLUE,
        0,
        [0u32, 0, 0, 0, 0, 0, 0],
        CardEffect::Points(2),
    )
    &&& card_matches(
        t[12],
        "Comptoir est"@,
        COLOR_YELLOW,
        0,
        [0u32, 0, 0, 0, 0, 0, 0],
        CardEffect::RawMaterialsCost(RIGHT_PLAYER),
    )
    &&& card_matches(
        t[13],
        "Comptoir ouest"@,
        COLOR_YELLOW,
        0,
        [0u32, 0, 0, 0, 0, 0, 0],
        CardEffect::RawMaterialsCost(LEFT_PLAYER),
    )
    &&& card_matches(
        t[14],
        "Marché"@,
        COLOR_YELLOW,
        0,
        [0u32, 0, 0, 0, 0, 0, 0],
        CardEffect::ManufacturedProductsCost,
    )
    &&& card_matches(
        t[15],
        "Palissade"@,
        COLOR_RED,
        0,
        [0u32, 1, 0, 0, 0, 0, 0],
        CardEffect::Shields(1),
    )
    &&& card_matches(
        t[16],
        "Caserne"@,
        COLOR_RED,
        0,
        [0u32, 0, 1, 0, 0, 0, 0],
        CardEffect::Shields(1),
    )
    &&& card_matches(
        t[17],
        "Tour de garde"@,
        COLOR_RED,
        0,
        [1u32, 0, 0, 0, 0, 0, 0],
        CardEffect::Shields(1),
    )
    &&& card_matches(
        t[18],
        "Officine"@,
        COLOR_GREEN,
        0,
        [0u32, 0, 0, 0, 0, 0, 1],
        CardEffect::Science(SCIENCE_COMPASS),
    )
    &&& card_matches(
        t[19],
        "Atelier"@,
        COLOR_GREEN,
        0,
        [0u32, 0, 0, 0, 1, 0, 0],
        CardEffect::Science(SCIENCE_GEAR),
    )
    &&& card_matches(
        t[20],
        "Scriptorium"@,
        COLOR_GREEN,
        0,
        [0u32, 0, 0, 0, 0, 1, 0],
        CardEffect::Science(SCIENCE_TABLET),
    )
}

pub broadcast proof fn lemma_card_like_wf(a: Card, b: Card)
    requires
        #[trigger] card_like(a, b),
    ensures
        a.wf() == b.wf(),
{
}

fn clone_string_vec(v: &Vec<String>) -> (out: Vec<String>)
    ensures
        out@ == v@,
{
    let mut out: Vec<String> = Vec::new();
    let mut i: usize = 0;
    while i < v.len()
        invariant
            i <= v@.len(),
            out@ == v@.subrange(0, i as int),
        decreases v@.len() - i,
    {
        out.push(v[i].clone());
        proof {
            assert(out@ =~= v@.subrange(0, i + 1));
        }
        i += 1;
    }
    proof {
        assert(out@ =~= v@);
    }
    out
}

fn clone_card(c: &Card) -> (out: Card)
    ensures
        card_like(*c, out),
{
    Card {
        color: c.color,
        name: c.name.clone(),
        gold_cost: c.gold_cost,
        resource_cost: c.resource_cost,
        effect: c.effect,
        chaining_targets: clone_string_vec(&c.chaining_targets),
        chaining_sources: clone_string_vec(&c.chaining_sources),
    }
}

/// The card catalog: one immutable table of card definitions per age.
#[derive(Debug)]
pub struct CardRegistry {
    pub cards: [Vec<Card>; 3],
}

impl CardRegistry {
    /// Every card in every age table is well formed.
    pub open spec fn wf(self) -> bool {
        forall|a: int, i: int|
            0 <= a < 3 && 0 <= i < self.cards@[a]@.len() ==> (#[trigger] self.cards@[a]@[i]).wf()
    }

    /// Deal the first `7 * player_count` cards of the age's table; fail when
    /// the table does not hold that many.
    pub fn generate_cards(&self, age: usize, player_count: usize) -> (res: Result<
        Vec<Card>,
        GameError,
    >)
        requires
            self.wf(),
        ensures
            match res {
                Ok(deal) => {
                    &&& age < 3
                    &&& player_count * HAND_SIZE <= self.cards@[age as int]@.len()
                    &&& deal@.len() == player_count * HAND_SIZE
                    &&& forall|i: int|
                        0 <= i < deal@.len() ==> card_like(
                            self.cards@[age as int]@[i],
                            #[trigger] deal@[i],
                        )
                    &&& forall|i: int| 0 <= i < deal@.len() ==> (#[trigger] deal@[i]).wf()
                },
                Err(e) => {
                    &&& e == GameError::InsufficientCards
                    &&& (age >= 3 || player_count * HAND_SIZE > self.cards@[age as int]@.len())
                },
            },
    {
        if age >= 3 {
            return Err(GameError::InsufficientCards);
        }
        let available = self.cards[age].len();
        if player_count > available / HAND_SIZE {
            return Err(GameError::InsufficientCards);
        }
        let wanted = player_count * HAND_SIZE;
        let mut deal: Vec<Card> = Vec::new();
        let mut i: usize = 0;
        while i < wanted
            invariant
                self.wf(),
                age < 3,
                wanted <= self.cards@[age as int]@.len(),
                i <= wanted,
                deal@.len() == i,
                forall|j: int|
                    0 <= j < i ==> card_like(self.cards@[age as int]@[j], #[trigger] deal@[j]),
            decreases wanted - i,
        {
            deal.push(clone_card(&self.cards[age][i]));
            i += 1;
        }
        proof {
            assert forall|j: int| 0 <= j < deal@.len() implies (#[trigger] deal@[j]).wf() by {
                lemma_card_like_wf(self.cards@[age as int]@[j], deal@[j]);
            }
        }
        Ok(deal)
    }

    /// The fixed catalog: the age-one table holds exactly the 21 three-player
    /// cards pinned by `age_one_table`, the later ages are not populated yet.
    /// Every call builds the same table.
    pub fn new() -> (registry: CardRegistry)
        ensures
            registry.wf(),
            age_one_table(registry.cards@[0]@),
            registry.cards@[0]@.len() == 21,
            registry.cards@[1]@.len() == 0,
            registry.cards@[2]@.len() == 0,
    {
        let mut age_one: Vec<Card> = Vec::new();
        age_one.push(
            CardBuilder::new(
                "Chantier",
                COLOR_BROWN,
                CardEffect::Resources([0, 1, 0, 0, 0, 0, 0]),
            ).build(),
        );
        age_one.push(
            CardBuilder::new(
                "Cavité",
                COLOR_BROWN,
                CardEffect::Resources([0, 0, 0, 1, 0, 0, 0]),
            ).build(),
        );
        age_one.push(
            CardBuilder::new(
                "Bassin argileux",
                COLOR_BROWN,
                CardEffect::Resources([1, 0, 0, 0, 0, 0, 0]),
            ).build(),
        );
        age_one.push(
            CardBuilder::new(
                "Filon",
                COLOR_BROWN,
                CardEffect::Resources([0, 0, 1, 0, 0, 0, 0]),
            ).build(),
        );
        age_one.push(
            CardBuilder::new(
                "Fosse argileuse",
                COLOR_BROWN,
                CardEffect::Resources([1, 0, 1, 0, 0, 0, 0]),
            ).with_cost_gold(1).build(),
        );
        age_one.push(
            CardBuilder::new(
                "Exploitation forestière",
                COLOR_BROWN,
                CardEffect::Resources([0, 1, 0, 1, 0, 0, 0]),
            ).with_cost_gold(1).build(),
        );
        age_one.push(
            CardBuilder::new(
                "Métier à tisser",
                COLOR_GRAY,
                CardEffect::Resources([0, 0, 0, 0, 0, 0, 1]),
            ).build(),
        );
        age_one.push(
            CardBuilder::new(
                "Verrerie",
                COLOR_GRAY,
                CardEffect::Resources([0, 0, 0, 0, 1, 0, 0]),
            ).build(),
        );
        age_one.push(
            CardBuilder::new(
                "Presse",
                COLOR_GRAY,
                CardEffect::Resources([0, 0, 0, 0, 0, 1, 0]),
            ).build(),
        );
        age_one.push(
            CardBuilder::new("Bains", COLOR_BLUE, CardEffect::Points(3)).with_cost_stone(
                1,
            ).build(),
        );
        age_one.push(CardBuilder::new("Autel", COLOR_BLUE, CardEffect::Points(2)).build());
        age_one.push(CardBuilder::new("Théâtre", COLOR_BLUE, CardEffect::Points(2)).build());
        age_one.push(
            CardBuilder::new(
                "Comptoir est",
                COLOR_YELLOW,
                CardEffect::RawMaterialsCost(RIGHT_PLAYER),
            ).build(),
        );
        age_one.push(
            CardBuilder::new(
                "Comptoir ouest",
                COLOR_YELLOW,
                CardEffect::RawMaterialsCost(LEFT_PLAYER),
            ).build(),
        );
        age_one.push(
            CardBuilder::new(
                "Marché",
                COLOR_YELLOW,
                CardEffect::ManufacturedProductsCost,
            ).build(),
        );
        age_one.push(
            CardBuilder::new("Palissade", COLOR_RED, CardEffect::Shields(1)).with_cost_wood(
                1,
            ).build(),
        );
        age_one.push(
            CardBuilder::new("Caserne", COLOR_RED, CardEffect::Shields(1)).with_cost_ore(
                1,
            ).build(),
        );
        age_one.push(
            CardBuilder::new("Tour de garde", COLOR_RED, CardEffect::Shields(1)).with_cost_clay(
                1,
            ).build(),
        );
        age_one.push(
            CardBuilder::new(
                "Officine",
                COLOR_GREEN,
                CardEffect::Science(SCIENCE_COMPASS),
            ).with_cost_loom(1).build(),
        );
        age_one.push(
            CardBuilder::new(
                "Atelier",
                COLOR_GREEN,
                CardEffect::Science(SCIENCE_GEAR),
            ).with_cost_glass(1).build(),
        );
        age_one.push(
            CardBuilder::new(
                "Scriptorium",
                COLOR_GREEN,
                CardEffect::Science(SCIENCE_TABLET),
            ).with_cost_papyrus(1).build(),
        );
        proof {
            let t = age_one@;
            assert(t[9].resource_cost =~= [0u32, 0, 0, 1, 0, 0, 0]);
            assert(t[15].resource_cost =~= [0u32, 1, 0, 0, 0, 0, 0]);
            assert(t[16].resource_cost =~= [0u32, 0, 1, 0, 0, 0, 0]);
            assert(t[17].resource_cost =~= [1u32, 0, 0, 0, 0, 0, 0]);
            assert(t[18].resource_cost =~= [0u32, 0, 0, 0, 0, 0, 1]);
            assert(t[19].resource_cost =~= [0u32, 0, 0, 0, 1, 0, 0]);
            assert(t[20].resource_cost =~= [0u32, 0, 0, 0, 0, 1, 0]);
            assert(age_one_table(t));
        }
        CardRegistry { cards: [age_one, Vec::new(), Vec::new()] }
    }
}

/// `b` differs from `a` at most in its resource cost.
pub open spec fn same_except_resource_cost(a: Card, b: Card) -> bool {
    &&& a.color == b.color
    &&& a.name == b.name
    &&& a.gold_cost == b.gold_cost
    &&& a.effect == b.effect
    &&& a.chaining_targets == b.chaining_targets
    &&& a.chaining_sources == b.chaining_sources
}

/// Step-by-step construction of one card definition.
pub struct CardBuilder {
    pub card: Card,
}

impl CardBuilder {
    /// A card with the given name, color and effect, free of any cost.
    pub fn new(name: &str, color: usize, effect: CardEffect) -> (b: CardBuilder)
        requires
            match effect {
                CardEffect::RawMaterialsCost(src) => src == LEFT_PLAYER || src == RIGHT_PLAYER,
                _ => true,
            },
        ensures
            b.card.wf(),
            b.card.color == color,
            b.card.name@ == name@,
            b.card.gold_cost == 0,
            b.card.resource_cost == [0u32, 0, 0, 0, 0, 0, 0],
            b.card.effect == effect,
            b.card.chaining_targets@.len() == 0,
            b.card.chaining_sources@.len() == 0,
    {
        CardBuilder {
            card: Card {
                color,
                name: name.to_string(),
                gold_cost: 0,
                resource_cost: [0, 0, 0, 0, 0, 0, 0],
                effect,
                chaining_targets: Vec::new(),
                chaining_sources: Vec::new(),
            },
        }
    }

    pub fn with_cost_clay(self, resource_cost: u32) -> (b: CardBuilder)
        ensures
            same_except_resource_cost(self.card, b.card),
            b.card.resource_cost@ == self.card.resource_cost@.update(0, resource_cost),
    {
        let mut b = self;
        b.card.resource_cost[0] = resource_cost;
        b
    }

    pub fn with_cost_wood(self, resource_cost: u32) -> (b: CardBuilder)
        ensures
            same_except_resource_cost(self.card, b.card),
            b.card.resource_cost@ == self.card.resource_cost@.update(1, resource_cost),
    {
        let mut b = self;
        b.card.resource_cost[1] = resource_cost;
        b
    }

    pub fn with_cost_ore(self, resource_cost: u32) -> (b: CardBuilder)
        ensures
            same_except_resource_cost(self.card, b.card),
            b.card.resource_cost@ == self.card.resource_cost@.update(2, resource_cost),
    {
        let mut b = self;
        b.card.resource_cost[2] = resource_cost;
        b
    }

    pub fn with_cost_stone(self, resource_cost: u32) -> (b: CardBuilder)
        ensures
            same_except_resource_cost(self.card, b.card),
            b.card.resource_cost@ == self.card.resource_cost@.update(3, resource_cost),
    {
        let mut b = self;
        b.card.resource_cost[3] = resource_cost;
        b
    }

    pub fn with_cost_glass(self, resource_cost: u32) -> (b: CardBuilder)
        ensures
            same_except_resource_cost(self.card, b.card),
            b.card.resource_cost@ == self.card.resource_cost@.update(4, resource_cost),
    {
        let mut b = self;
        b.card.resource_cost[4] = resource_cost;
        b
    }

    pub fn with_cost_papyrus(self, resource_cost: u32) -> (b: CardBuilder)
        ensures
            same_except_resource_cost(self.card, b.card),
            b.card.resource_cost@ == self.card.resource_cost@.update(5, resource_cost),
    {
        let mut b = self;
        b.card.resource_cost[5] = resource_cost;
        b
    }

    pub fn with_cost_loom(self, resource_cost: u32) -> (b: CardBuilder)
        ensures
            same_except_resource_cost(self.card, b.card),
            b.card.resource_cost@ == self.card.resource_cost@.update(6, resource_cost),
    {
        let mut b = self;
        b.card.resource_cost[6] = resource_cost;
        b
    }

    pub fn with_cost(self, resource_cost: ResourceArray) -> (b: CardBuilder)
        ensures
            same_except_resource_cost(self.card, b.card),
            b.card.resource_cost == resource_cost,
    {
        let mut b = self;
        b.card.resource_cost = resource_cost;
        b
    }

    pub fn with_cost_gold(self, gold_cost: u32) -> (b: CardBuilder)
        requires
            gold_cost <= MAX_CARD_GOLD_COST,
        ensures
            b.card.color == self.card.color,
            b.card.name == self.card.name,
            b.card.gold_cost == gold_cost,
            b.card.resource_cost == self.card.resource_cost,
            b.card.effect == self.card.effect,
            b.card.chaining_targets == self.card.chaining_targets,
            b.card.chaining_sources == self.card.chaining_sources,
    {
        let mut b = self;
        b.card.gold_cost = gold_cost;
        b
    }

    pub fn with_chaining_source(self, source: String) -> (b: CardBuilder)
        ensures
            b.card.color == self.card.color,
            b.card.name == self.card.name,
            b.card.gold_cost == self.card.gold_cost,
            b.card.resource_cost == self.card.resource_cost,
            b.card.effect == self.card.effect,
            b.card.chaining_targets == self.card.chaining_targets,
            b.card.chaining_sources@ == self.card.chaining_sources@.push(source),
    {
        let mut b = self;
        b.card.chaining_sources.push(source);
        b
    }

    pub fn with_chaining_target(self, target: String) -> (b: CardBuilder)
        ensures
            b.card.color == self.card.color,
            b.card.name == self.card.name,
            b.card.gold_cost == self.card.gold_cost,
            b.card.resource_cost == self.card.resource_cost,
            b.card.effect == self.card.effect,
            b.card.chaining_targets@ == self.card.chaining_targets@.push(target),
            b.card.chaining_sources == self.card.chaining_sources,
    {
        let mut b = self;
        b.card.chaining_targets.push(target);
        b
    }

    pub fn build(self) -> (card: Card)
        ensures
            card == self.card,
    {
        self.card
    }
}

} // verus!
