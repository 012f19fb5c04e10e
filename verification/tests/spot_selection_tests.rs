use preflop_trainer_core::{
    get_all_possible_hand_notations, Game, GameConfig, Position, Range, SpotType, FREQ_ONE,
};

// Helper to create a GameConfig for tests
fn create_test_config(allowed_spot_types: Vec<SpotType>) -> GameConfig {
    // Populate with some dummy data to ensure ranges are not empty
    fn dummy_range() -> Range {
        let mut range = Range::new();
        let all_notations = get_all_possible_hand_notations();
        for hn in all_notations.into_iter().take(5) {
            range.set(hn, FREQ_ONE);
        }
        range
    }

    let mut config = GameConfig::new();
    config.set_unopened_raise_range(Position::UTG, dummy_range());
    config.set_bb_call_range(Position::UTG, dummy_range());
    config.set_bb_raise_range(Position::UTG, dummy_range());
    config.set_allowed_spot_types(allowed_spot_types);
    config
}

#[test]
fn test_generate_random_spot_only_open() {
    let config = create_test_config(vec![SpotType::Open {
        position: Position::UTG,
    }]);
    let mut game = Game::new(config);

    for _ in 0..100 {
        // Generate many spots to ensure consistency
        let (spot_type, _, _) = game.generate_random_spot().expect("Should generate a spot");
        assert!(
            matches!(spot_type, SpotType::Open { .. }),
            "Expected only Open spot, got {:?}",
            spot_type
        );
    }
}

#[test]
fn test_generate_random_spot_only_bb_defense() {
    let config = create_test_config(vec![SpotType::BBDefense {
        opener_position: Position::UTG,
    }]);
    let mut game = Game::new(config);

    for _ in 0..100 {
        // Generate many spots to ensure consistency
        let (spot_type, _, _) = game.generate_random_spot().expect("Should generate a spot");
        assert!(
            matches!(spot_type, SpotType::BBDefense { .. }),
            "Expected only BBDefense spot, got {:?}",
            spot_type
        );
    }
}

#[test]
fn test_generate_random_spot_all_allowed() {
    let config = create_test_config(vec![
        SpotType::Open {
            position: Position::UTG,
        },
        SpotType::BBDefense {
            opener_position: Position::UTG,
        },
    ]);
    let mut game = Game::new(config);

    let mut open_count = 0;
    let mut bb_defense_count = 0;

    for _ in 0..200 {
        // Generate enough spots to get a mix
        let (spot_type, _, _) = game.generate_random_spot().expect("Should generate a spot");
        match spot_type {
            SpotType::Open { .. } => open_count += 1,
            SpotType::BBDefense { .. } => bb_defense_count += 1,
        }
    }

    assert!(open_count > 0, "Expected some Open spots");
    assert!(bb_defense_count > 0, "Expected some BBDefense spots");
    assert_eq!(open_count + bb_defense_count, 200);
}

#[test]
fn test_generate_random_spot_draw_below_hundred() {
    let config = create_test_config(vec![SpotType::Open {
        position: Position::UTG,
    }]);
    let mut game = Game::new(config);

    for _ in 0..500 {
        let (_, hand, draw) = game.generate_random_spot().expect("Should generate a spot");
        assert!(draw < 100, "shared draw {} out of range", draw);
        assert_ne!(hand.card1, hand.card2);
    }
}

#[test]
fn test_generate_random_spot_empty_allowed_list() {
    let config = create_test_config(vec![]); // Empty allowed list
    let mut game = Game::new(config);

    // With no allowed situation the generator reports the configuration
    // failure instead of producing a spot.
    assert!(game.generate_random_spot().is_none());
}
