use seven_wonders::cards::CardBuilder;
use seven_wonders::game::{Game, GameError, Play, PlayerAction};
use seven_wonders::player::{
    Card, CardEffect, PlayerData, COLOR_BLUE, COLOR_RED, LEFT_PLAYER,
};

fn free_card(name: &str) -> Card {
    CardBuilder::new(name, COLOR_BLUE, CardEffect::Points(2)).build()
}

fn clay_card() -> Card {
    CardBuilder::new("Tour de garde", COLOR_RED, CardEffect::Shields(1)).with_cost_clay(1).build()
}

/// A deterministic three-seat game: seat 0 holds one card costing one clay,
/// the other seats hold one free card each, everyone has 3 gold.
fn crafted_game() -> Game {
    let mut game = Game::new(3).unwrap();
    game.players = vec![
        PlayerData::new(vec![clay_card()], 3),
        PlayerData::new(vec![free_card("Autel")], 3),
        PlayerData::new(vec![free_card("Théâtre")], 3),
    ];
    game
}

#[test]
fn new_game_deals_and_endows() {
    let game = Game::new(3).unwrap();
    assert_eq!(game.players.len(), 3);
    assert_eq!(game.plays.len(), 3);
    for seat in &game.players {
        assert_eq!(seat.hand_cards.len(), 7);
        assert_eq!(seat.board_cards.len(), 0);
        assert_eq!(seat.gold, 3);
        assert_eq!(seat.resource_costs, [[2; 7], [0; 7], [2; 7]]);
    }
    for play in &game.plays {
        assert!(matches!(play, Play::NoAction));
    }
}

#[test]
fn new_game_insufficient_cards() {
    assert_eq!(Game::new(4).unwrap_err(), GameError::InsufficientCards);
}

#[test]
fn unknown_seat_rejected() {
    let mut game = Game::new(3).unwrap();
    assert_eq!(game.perform_action(3, PlayerAction::CancelCard).unwrap_err(), GameError::UnknownSeat);
    assert_eq!(game.perform_action(7, PlayerAction::PickCard(0)).unwrap_err(), GameError::UnknownSeat);
}

#[test]
fn pick_out_of_range_is_noop() {
    let mut game = Game::new(3).unwrap();
    game.perform_action(0, PlayerAction::PickCard(7)).unwrap();
    assert!(matches!(game.plays[0], Play::NoAction));
    assert_eq!(game.players[0].hand_cards.len(), 7);
    assert_eq!(game.players[0].gold, 3);
}

#[test]
fn pick_then_cancel() {
    let mut game = crafted_game();
    game.perform_action(0, PlayerAction::PickCard(0)).unwrap();
    assert!(matches!(game.plays[0], Play::ChoosingResources { .. }));
    game.perform_action(0, PlayerAction::CancelCard).unwrap();
    assert!(matches!(game.plays[0], Play::NoAction));
}

#[test]
fn cancel_on_committed_seat_is_noop() {
    let mut game = crafted_game();
    game.perform_action(1, PlayerAction::PickCard(0)).unwrap();
    game.perform_action(1, PlayerAction::Validate).unwrap();
    assert!(matches!(game.plays[1], Play::ChoseResources { .. }));
    game.perform_action(1, PlayerAction::CancelCard).unwrap();
    assert!(matches!(game.plays[1], Play::ChoseResources { .. }));
}

#[test]
fn validate_refused_while_payment_short() {
    let mut game = crafted_game();
    game.perform_action(0, PlayerAction::PickCard(0)).unwrap();
    match &game.plays[0] {
        Play::ChoosingResources { verdict, .. } => {
            assert_eq!(verdict.missing_resources, [1, 0, 0, 0, 0, 0, 0]);
            assert!(!verdict.is_valid());
        },
        _ => panic!("seat 0 should be choosing"),
    }
    game.perform_action(0, PlayerAction::Validate).unwrap();
    assert!(matches!(game.plays[0], Play::ChoosingResources { .. }));
}

#[test]
fn end_to_end_round() {
    let mut game = crafted_game();
    // A neighbor's clay production is visible to seat 0 on its left slot.
    game.players[0].add_production(LEFT_PLAYER, [1, 0, 0, 0, 0, 0, 0]);
    game.perform_action(0, PlayerAction::PickCard(0)).unwrap();
    match &game.plays[0] {
        Play::ChoosingResources { verdict, .. } => {
            assert_eq!(verdict.missing_resources, [1, 0, 0, 0, 0, 0, 0]);
        },
        _ => panic!("seat 0 should be choosing"),
    }
    // Committing is refused while the payment is short.
    game.perform_action(0, PlayerAction::Validate).unwrap();
    assert!(matches!(game.plays[0], Play::ChoosingResources { .. }));
    // Draw the clay from the left neighbor's grant: the verdict clears.
    game.perform_action(0, PlayerAction::GetResource(LEFT_PLAYER, 0, 1)).unwrap();
    match &game.plays[0] {
        Play::ChoosingResources { verdict, .. } => {
            assert_eq!(verdict.missing_resources, [0; 7]);
            assert_eq!(verdict.extra_resources, [0; 7]);
            assert_eq!(verdict.missing_gold, 0);
            assert!(verdict.is_valid());
        },
        _ => panic!("seat 0 should be choosing"),
    }
    game.perform_action(0, PlayerAction::Validate).unwrap();
    assert!(matches!(game.plays[0], Play::ChoseResources { .. }));
    // Once the other two seats commit, the round resolves.
    game.perform_action(1, PlayerAction::PickCard(0)).unwrap();
    game.perform_action(1, PlayerAction::Validate).unwrap();
    assert!(matches!(game.plays[0], Play::ChoseResources { .. }));
    game.perform_action(2, PlayerAction::PickCard(0)).unwrap();
    game.perform_action(2, PlayerAction::Validate).unwrap();
    for play in &game.plays {
        assert!(matches!(play, Play::NoAction));
    }
    for seat in &game.players {
        assert_eq!(seat.hand_cards.len(), 0);
        assert_eq!(seat.board_cards.len(), 1);
    }
    assert_eq!(game.players[0].board_cards[0].name, "Tour de garde");
    // Seat 0 paid 2 gold to its left neighbor, seat 2, for the clay.
    assert_eq!(game.players[0].gold, 1);
    assert_eq!(game.players[1].gold, 3);
    assert_eq!(game.players[2].gold, 5);
    // Gold is conserved: no card carried a gold cost.
    assert_eq!(
        game.players[0].gold + game.players[1].gold + game.players[2].gold,
        9,
    );
}

#[test]
fn gold_leaves_only_through_card_costs() {
    let mut game = Game::new(3).unwrap();
    let taxed = CardBuilder::new("Fosse argileuse", COLOR_RED, CardEffect::Points(1))
        .with_cost_gold(1)
        .build();
    game.players = vec![
        PlayerData::new(vec![taxed], 3),
        PlayerData::new(vec![free_card("Autel")], 3),
        PlayerData::new(vec![free_card("Théâtre")], 3),
    ];
    for seat in 0..3 {
        game.perform_action(seat, PlayerAction::PickCard(0)).unwrap();
        game.perform_action(seat, PlayerAction::Validate).unwrap();
    }
    for play in &game.plays {
        assert!(matches!(play, Play::NoAction));
    }
    // The system lost exactly the one gold the card cost.
    assert_eq!(game.players[0].gold, 2);
    assert_eq!(
        game.players[0].gold + game.players[1].gold + game.players[2].gold,
        8,
    );
}

#[test]
fn unvalidate_reproduces_fresh_verdict() {
    let mut game = crafted_game();
    game.players[0].add_production(LEFT_PLAYER, [1, 0, 0, 0, 0, 0, 0]);
    game.perform_action(0, PlayerAction::PickCard(0)).unwrap();
    game.perform_action(0, PlayerAction::GetResource(LEFT_PLAYER, 0, 1)).unwrap();
    game.perform_action(0, PlayerAction::Validate).unwrap();
    let committed_allocation = match &game.plays[0] {
        Play::ChoseResources { resource_allocation, .. } => resource_allocation.clone(),
        _ => panic!("seat 0 should have committed"),
    };
    let fresh = game.players[0].get_card_verdict(0, &committed_allocation);
    game.perform_action(0, PlayerAction::Unvalidate).unwrap();
    match &game.plays[0] {
        Play::ChoosingResources { card_index, resource_allocation, verdict } => {
            assert_eq!(*card_index, 0);
            assert_eq!(*resource_allocation, committed_allocation);
            assert_eq!(verdict.extra_resources, fresh.extra_resources);
            assert_eq!(verdict.missing_resources, fresh.missing_resources);
            assert_eq!(verdict.missing_gold, fresh.missing_gold);
            assert!(verdict.is_valid());
        },
        _ => panic!("seat 0 should be choosing again"),
    }
}

#[test]
fn production_card_becomes_visible_to_neighbors() {
    let mut game = Game::new(3).unwrap();
    let grant = CardBuilder::new("Chantier", COLOR_RED, CardEffect::Resources([0, 1, 0, 0, 0, 0, 0]))
        .build();
    game.players = vec![
        PlayerData::new(vec![grant], 3),
        PlayerData::new(vec![free_card("Autel")], 3),
        PlayerData::new(vec![free_card("Théâtre")], 3),
    ];
    for seat in 0..3 {
        game.perform_action(seat, PlayerAction::PickCard(0)).unwrap();
        game.perform_action(seat, PlayerAction::Validate).unwrap();
    }
    // Seat 0's own slot saw the grant, and so did both neighbors' facing slots.
    assert_eq!(game.players[0].resource_productions[1].len(), 1);
    assert_eq!(game.players[0].resource_productions[1][0], [0, 1, 0, 0, 0, 0, 0]);
    // Seat 2 is left of seat 0: the grant shows on its right-neighbor slot.
    assert_eq!(game.players[2].resource_productions[2].len(), 1);
    // Seat 1 is right of seat 0: the grant shows on its left-neighbor slot.
    assert_eq!(game.players[1].resource_productions[0].len(), 1);
    assert_eq!(game.players[1].resource_productions[1].len(), 0);
}

#[test]
fn discount_cards_lower_prices() {
    let mut game = Game::new(3).unwrap();
    let west = CardBuilder::new("Comptoir ouest", COLOR_RED, CardEffect::RawMaterialsCost(LEFT_PLAYER))
        .build();
    let market = CardBuilder::new("Marché", COLOR_RED, CardEffect::ManufacturedProductsCost).build();
    game.players = vec![
        PlayerData::new(vec![west], 3),
        PlayerData::new(vec![market], 3),
        PlayerData::new(vec![free_card("Théâtre")], 3),
    ];
    for seat in 0..3 {
        game.perform_action(seat, PlayerAction::PickCard(0)).unwrap();
        game.perform_action(seat, PlayerAction::Validate).unwrap();
    }
    // Seat 0 now buys raw materials from its left neighbor for 1 gold.
    assert_eq!(game.players[0].resource_costs[0], [1, 1, 1, 1, 2, 2, 2]);
    assert_eq!(game.players[0].resource_costs[2], [2; 7]);
    // Seat 1 buys manufactured goods from both neighbors for 1 gold.
    assert_eq!(game.players[1].resource_costs[0], [2, 2, 2, 2, 1, 1, 1]);
    assert_eq!(game.players[1].resource_costs[2], [2, 2, 2, 2, 1, 1, 1]);
    // Own production stays free everywhere.
    for seat in &game.players {
        assert_eq!(seat.resource_costs[1], [0; 7]);
    }
}

#[test]
fn hands_rotate_left_after_resolution() {
    let mut game = Game::new(3).unwrap();
    game.players = vec![
        PlayerData::new(vec![free_card("Autel"), free_card("Bains")], 3),
        PlayerData::new(vec![free_card("Théâtre"), free_card("Presse")], 3),
        PlayerData::new(vec![free_card("Palissade"), free_card("Caserne")], 3),
    ];
    for seat in 0..3 {
        game.perform_action(seat, PlayerAction::PickCard(0)).unwrap();
        game.perform_action(seat, PlayerAction::Validate).unwrap();
    }
    // Every seat played its first card and received the next seat's remainder.
    assert_eq!(game.players[0].hand_cards[0].name, "Presse");
    assert_eq!(game.players[1].hand_cards[0].name, "Caserne");
    assert_eq!(game.players[2].hand_cards[0].name, "Bains");
}

#[test]
fn deal_is_permutation_of_catalog() {
    let game = Game::new(3).unwrap();
    let mut dealt: Vec<String> = game
        .players
        .iter()
        .flat_map(|seat| seat.hand_cards.iter().map(|card| card.name.clone()))
        .collect();
    dealt.sort();
    let registry = seven_wonders::cards::CardRegistry::new();
    let mut expected: Vec<String> = registry
        .generate_cards(0, 3)
        .unwrap()
        .iter()
        .map(|card| card.name.clone())
        .collect();
    expected.sort();
    assert_eq!(dealt, expected);
}
