use seven_wonders::cards::CardBuilder;
use seven_wonders::player::{
    Card, CardEffect, PlayerData, ResourceAllocation, COLOR_BLUE, COLOR_RED, LEFT_PLAYER,
};

fn free_card(name: &str) -> Card {
    CardBuilder::new(name, COLOR_BLUE, CardEffect::Points(2)).build()
}

fn clay_card() -> Card {
    CardBuilder::new("Tour de garde", COLOR_RED, CardEffect::Shields(1)).with_cost_clay(1).build()
}

fn empty_allocation() -> ResourceAllocation {
    [vec![], vec![], vec![]]
}

#[test]
fn verdict_reports_missing_resource() {
    let seat = PlayerData::new(vec![clay_card()], 3);
    let verdict = seat.get_card_verdict(0, &empty_allocation());
    assert_eq!(verdict.missing_resources, [1, 0, 0, 0, 0, 0, 0]);
    assert_eq!(verdict.extra_resources, [0, 0, 0, 0, 0, 0, 0]);
    assert_eq!(verdict.missing_gold, 0);
    assert!(!verdict.is_valid());
}

#[test]
fn verdict_valid_when_exactly_paid() {
    let mut seat = PlayerData::new(vec![clay_card()], 3);
    seat.add_production(LEFT_PLAYER, [1, 0, 0, 0, 0, 0, 0]);
    let allocation: ResourceAllocation = [vec![1], vec![], vec![]];
    let verdict = seat.get_card_verdict(0, &allocation);
    assert_eq!(verdict.missing_resources, [0, 0, 0, 0, 0, 0, 0]);
    assert_eq!(verdict.extra_resources, [0, 0, 0, 0, 0, 0, 0]);
    assert_eq!(verdict.missing_gold, 0);
    assert!(verdict.is_valid());
}

#[test]
fn verdict_reports_missing_gold() {
    let mut seat = PlayerData::new(vec![clay_card()], 0);
    seat.add_production(LEFT_PLAYER, [1, 0, 0, 0, 0, 0, 0]);
    let allocation: ResourceAllocation = [vec![1], vec![], vec![]];
    let verdict = seat.get_card_verdict(0, &allocation);
    // One clay from the left neighbor costs the default 2 gold.
    assert_eq!(verdict.missing_gold, 2);
    assert!(!verdict.is_valid());
}

#[test]
fn verdict_reports_extra_resource() {
    let mut seat = PlayerData::new(vec![free_card("Autel")], 3);
    seat.add_production(LEFT_PLAYER, [1, 0, 0, 0, 0, 0, 0]);
    let allocation: ResourceAllocation = [vec![1], vec![], vec![]];
    let verdict = seat.get_card_verdict(0, &allocation);
    assert_eq!(verdict.extra_resources, [1, 0, 0, 0, 0, 0, 0]);
    assert!(!verdict.is_valid());
}

#[test]
fn verdict_ignores_resource_the_grant_does_not_offer() {
    let mut seat = PlayerData::new(vec![clay_card()], 3);
    // The grant offers wood only; drawing clay from it counts nothing.
    seat.add_production(LEFT_PLAYER, [0, 1, 0, 0, 0, 0, 0]);
    let allocation: ResourceAllocation = [vec![1], vec![], vec![]];
    let verdict = seat.get_card_verdict(0, &allocation);
    assert_eq!(verdict.missing_resources, [1, 0, 0, 0, 0, 0, 0]);
    assert_eq!(verdict.missing_gold, 0);
    assert!(!verdict.is_valid());
}

#[test]
fn verdict_ignores_choice_none() {
    let mut seat = PlayerData::new(vec![clay_card()], 3);
    seat.add_production(LEFT_PLAYER, [1, 0, 0, 0, 0, 0, 0]);
    let allocation: ResourceAllocation = [vec![0], vec![], vec![]];
    let verdict = seat.get_card_verdict(0, &allocation);
    assert_eq!(verdict.missing_resources, [1, 0, 0, 0, 0, 0, 0]);
    assert!(!verdict.is_valid());
}

#[test]
fn own_production_is_free() {
    let mut seat = PlayerData::new(vec![clay_card()], 3);
    // Slot 1 is the seat's own production: drawing from it costs no gold.
    seat.add_production(1, [1, 0, 0, 0, 0, 0, 0]);
    let allocation: ResourceAllocation = [vec![], vec![1], vec![]];
    let (gold_cost, gold_gain) = seat.get_gold_cost(0, &allocation);
    assert_eq!(gold_cost, 0);
    assert_eq!(gold_gain, [0, 0, 0]);
    assert!(seat.get_card_verdict(0, &allocation).is_valid());
}

#[test]
fn gold_cost_tracks_gains_per_source() {
    let card = CardBuilder::new("Essai", COLOR_RED, CardEffect::Shields(1))
        .with_cost_clay(1)
        .with_cost_wood(1)
        .with_cost_gold(1)
        .build();
    let mut seat = PlayerData::new(vec![card], 10);
    seat.add_production(LEFT_PLAYER, [1, 0, 0, 0, 0, 0, 0]);
    seat.add_production(2, [0, 1, 0, 0, 0, 0, 0]);
    let allocation: ResourceAllocation = [vec![1], vec![], vec![2]];
    let (gold_cost, gold_gain) = seat.get_gold_cost(0, &allocation);
    // The card's own gold plus 2 per neighbor unit.
    assert_eq!(gold_cost, 5);
    assert_eq!(gold_gain, [2, 0, 2]);
    assert!(seat.get_card_verdict(0, &allocation).is_valid());
}
