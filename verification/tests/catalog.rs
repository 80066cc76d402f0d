use seven_wonders::cards::{CardBuilder, CardRegistry};
use seven_wonders::game::GameError;
use seven_wonders::player::{CardEffect, COLOR_BROWN, COLOR_RED, COLOR_YELLOW, RIGHT_PLAYER};

#[test]
fn deal_three_players_full_age() {
    let registry = CardRegistry::new();
    let deal = registry.generate_cards(0, 3).unwrap();
    assert_eq!(deal.len(), 21);
    assert_eq!(deal[0].name, "Chantier");
    assert_eq!(deal[0].color, COLOR_BROWN);
    match deal[0].effect {
        CardEffect::Resources(ra) => assert_eq!(ra, [0, 1, 0, 0, 0, 0, 0]),
        _ => panic!("first card grants production"),
    }
    assert_eq!(deal[0].gold_cost, 0);
}

#[test]
fn deal_contains_discount_cards() {
    let registry = CardRegistry::new();
    let deal = registry.generate_cards(0, 3).unwrap();
    let east = deal.iter().find(|c| c.name == "Comptoir est").unwrap();
    assert_eq!(east.color, COLOR_YELLOW);
    match east.effect {
        CardEffect::RawMaterialsCost(src) => assert_eq!(src, RIGHT_PLAYER),
        _ => panic!("Comptoir est discounts raw materials"),
    }
    let market = deal.iter().find(|c| c.name == "Marché").unwrap();
    assert!(matches!(market.effect, CardEffect::ManufacturedProductsCost));
}

#[test]
fn deal_partial_counts() {
    let registry = CardRegistry::new();
    assert_eq!(registry.generate_cards(0, 1).unwrap().len(), 7);
    assert_eq!(registry.generate_cards(0, 2).unwrap().len(), 14);
    assert_eq!(registry.generate_cards(0, 0).unwrap().len(), 0);
}

#[test]
fn deal_insufficient_cards() {
    let registry = CardRegistry::new();
    assert_eq!(registry.generate_cards(0, 4).unwrap_err(), GameError::InsufficientCards);
}

#[test]
fn deal_unpopulated_ages() {
    let registry = CardRegistry::new();
    assert_eq!(registry.generate_cards(1, 1).unwrap_err(), GameError::InsufficientCards);
    assert_eq!(registry.generate_cards(2, 3).unwrap_err(), GameError::InsufficientCards);
    assert_eq!(registry.generate_cards(3, 3).unwrap_err(), GameError::InsufficientCards);
}

#[test]
fn builder_sets_each_cost_slot() {
    let card = CardBuilder::new("Essai", COLOR_RED, CardEffect::Shields(2))
        .with_cost_clay(1)
        .with_cost_wood(2)
        .with_cost_ore(3)
        .with_cost_stone(4)
        .with_cost_glass(5)
        .with_cost_papyrus(6)
        .with_cost_loom(7)
        .build();
    assert_eq!(card.resource_cost, [1, 2, 3, 4, 5, 6, 7]);
    assert_eq!(card.name, "Essai");
    assert_eq!(card.color, COLOR_RED);
    assert_eq!(card.gold_cost, 0);
}

#[test]
fn builder_whole_cost_and_gold() {
    let card = CardBuilder::new("Essai", COLOR_RED, CardEffect::Points(5))
        .with_cost([7, 6, 5, 4, 3, 2, 1])
        .with_cost_gold(9)
        .build();
    assert_eq!(card.resource_cost, [7, 6, 5, 4, 3, 2, 1]);
    assert_eq!(card.gold_cost, 9);
}

#[test]
fn builder_chaining_lists() {
    let card = CardBuilder::new("Essai", COLOR_RED, CardEffect::Points(1))
        .with_chaining_source("Autel".to_string())
        .with_chaining_target("Bains".to_string())
        .with_chaining_target("Palissade".to_string())
        .build();
    assert_eq!(card.chaining_sources, vec!["Autel".to_string()]);
    assert_eq!(card.chaining_targets, vec!["Bains".to_string(), "Palissade".to_string()]);
}
