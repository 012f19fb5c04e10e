use preflop_trainer_core::{
    build_game_config, check_answer, default_allowed_spot_types, get_action_frequencies,
    parse_range_str, AnswerResult, BBDefensePositionDetail, Card, GameConfig, GenericConfig, Hand,
    HandNotation, Position, PositionDetail, Rank, SpotType, Suit, TomlConfig, UserAction,
    FREQ_ONE,
};
use std::str::FromStr;

fn hn(s: &str) -> HandNotation {
    HandNotation::from_str(s).unwrap()
}

#[test]
fn test_position_from_text_case_insensitive() {
    assert_eq!(Position::from_str("UTG").unwrap(), Position::UTG);
    assert_eq!(Position::from_str("utg").unwrap(), Position::UTG);
    assert_eq!(Position::from_str("Btn").unwrap(), Position::BTN);
    assert_eq!(Position::from_str("sb").unwrap(), Position::SB);
    assert_eq!(Position::from_str("BB").unwrap(), Position::BB);
    assert!(Position::from_str("HJ").is_err());
    assert!(Position::from_str("").is_err());
}

#[test]
fn test_position_is_opener() {
    assert!(Position::UTG.is_opener());
    assert!(Position::MP.is_opener());
    assert!(Position::CO.is_opener());
    assert!(Position::BTN.is_opener());
    assert!(Position::SB.is_opener());
    assert!(!Position::BB.is_opener());
}

#[test]
fn test_spot_type_from_text() {
    assert_eq!(
        SpotType::from_str("Open_UTG").unwrap(),
        SpotType::Open {
            position: Position::UTG
        }
    );
    assert_eq!(
        SpotType::from_str("BBDefense_btn").unwrap(),
        SpotType::BBDefense {
            opener_position: Position::BTN
        }
    );
    assert!(SpotType::from_str("Open").is_err());
    assert!(SpotType::from_str("Open_UTG_X").is_err());
    assert!(SpotType::from_str("Limp_UTG").is_err());
    assert!(SpotType::from_str("Open_HJ").is_err());
    // The big blind never stands as an opener.
    assert!(SpotType::from_str("Open_BB").is_err());
    assert!(SpotType::from_str("BBDefense_BB").is_err());
}

#[test]
fn test_parse_range_str_frequency_forms() {
    let range = parse_range_str("AA:1,KK:1.0,QQ:.5,JJ:0.125,TT:1.").unwrap();
    assert_eq!(range.get(hn("AA")), Some(FREQ_ONE));
    assert_eq!(range.get(hn("KK")), Some(FREQ_ONE));
    assert_eq!(range.get(hn("QQ")), Some(FREQ_ONE / 2));
    assert_eq!(range.get(hn("JJ")), Some(FREQ_ONE / 8));
    assert_eq!(range.get(hn("TT")), Some(FREQ_ONE));
}

#[test]
fn test_parse_range_str_rejects_bad_frequencies() {
    // Above one.
    assert!(parse_range_str("AA:1.5").is_err());
    assert!(parse_range_str("AA:2").is_err());
    // Not a number.
    assert!(parse_range_str("AA:").is_err());
    assert!(parse_range_str("AA:.").is_err());
    assert!(parse_range_str("AA:0.5x").is_err());
    assert!(parse_range_str("AA:0.5:0.5").is_err());
    assert!(parse_range_str("AA:-0.5").is_err());
}

#[test]
fn test_parse_range_str_last_write_wins() {
    let range = parse_range_str("AA:0.5,AA:0.25").unwrap();
    assert_eq!(range.len(), 1);
    assert_eq!(range.get(hn("AA")), Some(FREQ_ONE / 4));
}

#[test]
fn test_parse_range_str_plus_with_frequency() {
    let range = parse_range_str("QQ+:0.5").unwrap();
    assert_eq!(range.len(), 3);
    assert_eq!(range.get(hn("QQ")), Some(FREQ_ONE / 2));
    assert_eq!(range.get(hn("KK")), Some(FREQ_ONE / 2));
    assert_eq!(range.get(hn("AA")), Some(FREQ_ONE / 2));
}

#[test]
fn test_build_game_config_defaults() {
    let tc = TomlConfig {
        unopened_raise: vec![(
            "UTG".to_string(),
            PositionDetail {
                range: "22+".to_string(),
            },
        )],
        bb_defense: None,
        generic: None,
    };
    let config = build_game_config(tc).unwrap();
    assert_eq!(config.allowed_spot_types, default_allowed_spot_types());
    assert_eq!(config.allowed_spot_types.len(), 10);
    let utg_range = config.open_range(Position::UTG);
    assert_eq!(utg_range.len(), 13);
    assert_eq!(utg_range.get(hn("55")), Some(FREQ_ONE));
}

#[test]
fn test_build_game_config_full() {
    let tc = TomlConfig {
        unopened_raise: vec![
            (
                "utg".to_string(),
                PositionDetail {
                    range: "AA".to_string(),
                },
            ),
            (
                "BTN".to_string(),
                PositionDetail {
                    range: "22+,A2s+".to_string(),
                },
            ),
        ],
        bb_defense: Some(vec![(
            "SB".to_string(),
            BBDefensePositionDetail {
                call_range: "QJs:0.5".to_string(),
                raise_range: "AA,KK".to_string(),
            },
        )]),
        generic: Some(GenericConfig {
            allowed_spot_types: Some(vec!["Open_BTN".to_string(), "BBDefense_SB".to_string()]),
        }),
    };
    let config = build_game_config(tc).unwrap();
    assert_eq!(
        config.allowed_spot_types,
        vec![
            SpotType::Open {
                position: Position::BTN
            },
            SpotType::BBDefense {
                opener_position: Position::SB
            },
        ]
    );
    assert_eq!(config.open_range(Position::UTG).len(), 1);
    assert_eq!(config.open_range(Position::BTN).len(), 25);
    assert_eq!(
        config.bb_call_range(Position::SB).get(hn("QJs")),
        Some(FREQ_ONE / 2)
    );
    assert_eq!(config.bb_raise_range(Position::SB).len(), 2);
}

#[test]
fn test_build_game_config_errors() {
    let bad_position = TomlConfig {
        unopened_raise: vec![(
            "HJ".to_string(),
            PositionDetail {
                range: "AA".to_string(),
            },
        )],
        bb_defense: None,
        generic: None,
    };
    assert!(build_game_config(bad_position).is_err());

    let bad_range = TomlConfig {
        unopened_raise: vec![(
            "UTG".to_string(),
            PositionDetail {
                range: "notahand".to_string(),
            },
        )],
        bb_defense: None,
        generic: None,
    };
    assert!(build_game_config(bad_range).is_err());

    let bad_spot = TomlConfig {
        unopened_raise: vec![],
        bb_defense: None,
        generic: Some(GenericConfig {
            allowed_spot_types: Some(vec!["Open_Nowhere".to_string()]),
        }),
    };
    assert!(build_game_config(bad_spot).is_err());
}

fn open_utg_config(range_str: &str) -> GameConfig {
    let mut config = GameConfig::new();
    config.set_unopened_raise_range(Position::UTG, parse_range_str(range_str).unwrap());
    config.set_allowed_spot_types(default_allowed_spot_types());
    config
}

#[test]
fn test_open_mixed_strategy_draw_boundary() {
    // At raise frequency one half the threshold is 50, exclusive of the
    // draw: 49 selects the raise, 50 the fold.
    let config = open_utg_config("K6s:0.5");
    let hand = Hand {
        card1: Card {
            rank: Rank::King,
            suit: Suit::Spades,
        },
        card2: Card {
            rank: Rank::Six,
            suit: Suit::Spades,
        },
    };
    let spot = SpotType::Open {
        position: Position::UTG,
    };
    assert_eq!(
        check_answer(&config, spot, hand, UserAction::Raise, 49),
        AnswerResult::Correct
    );
    assert_eq!(
        check_answer(&config, spot, hand, UserAction::Raise, 50),
        AnswerResult::FrequencyMistake
    );
    assert_eq!(
        check_answer(&config, spot, hand, UserAction::Fold, 50),
        AnswerResult::Correct
    );
    assert_eq!(
        check_answer(&config, spot, hand, UserAction::Fold, 49),
        AnswerResult::FrequencyMistake
    );
}

#[test]
fn test_open_call_is_always_wrong() {
    let config = open_utg_config("K6s:0.5");
    let hand = Hand {
        card1: Card {
            rank: Rank::King,
            suit: Suit::Spades,
        },
        card2: Card {
            rank: Rank::Six,
            suit: Suit::Spades,
        },
    };
    let spot = SpotType::Open {
        position: Position::UTG,
    };
    for draw in [0u8, 49, 50, 99] {
        assert_eq!(
            check_answer(&config, spot, hand, UserAction::Call, draw),
            AnswerResult::Wrong
        );
    }
}

#[test]
fn test_get_action_frequencies_open() {
    let config = open_utg_config("AA,K6s:0.5");
    let spot = SpotType::Open {
        position: Position::UTG,
    };
    let aa = Hand {
        card1: Card {
            rank: Rank::Ace,
            suit: Suit::Spades,
        },
        card2: Card {
            rank: Rank::Ace,
            suit: Suit::Clubs,
        },
    };
    assert_eq!(get_action_frequencies(&config, spot, aa), (FREQ_ONE, 0, 0));

    let k6s = Hand {
        card1: Card {
            rank: Rank::King,
            suit: Suit::Spades,
        },
        card2: Card {
            rank: Rank::Six,
            suit: Suit::Spades,
        },
    };
    assert_eq!(
        get_action_frequencies(&config, spot, k6s),
        (FREQ_ONE / 2, 0, FREQ_ONE / 2)
    );

    let seven_two = Hand {
        card1: Card {
            rank: Rank::Seven,
            suit: Suit::Spades,
        },
        card2: Card {
            rank: Rank::Two,
            suit: Suit::Hearts,
        },
    };
    assert_eq!(
        get_action_frequencies(&config, spot, seven_two),
        (0, 0, FREQ_ONE)
    );
}

#[test]
fn test_get_action_frequencies_bb_defense() {
    let mut config = GameConfig::new();
    config.set_bb_call_range(Position::BTN, parse_range_str("J8s:0.5").unwrap());
    config.set_bb_raise_range(Position::BTN, parse_range_str("J8s:0.25").unwrap());
    config.set_allowed_spot_types(default_allowed_spot_types());
    let spot = SpotType::BBDefense {
        opener_position: Position::BTN,
    };
    let j8s = Hand {
        card1: Card {
            rank: Rank::Jack,
            suit: Suit::Spades,
        },
        card2: Card {
            rank: Rank::Eight,
            suit: Suit::Spades,
        },
    };
    assert_eq!(
        get_action_frequencies(&config, spot, j8s),
        (FREQ_ONE / 4, FREQ_ONE / 2, FREQ_ONE / 4)
    );
}

#[test]
fn test_bb_defense_raise_precedence_in_target_range() {
    // Grading reads the two stored ranges directly; the raise range wins
    // in spot generation. Here the same class has both frequencies and
    // the stacked thresholds order raise before call.
    let mut config = GameConfig::new();
    config.set_bb_call_range(Position::BTN, parse_range_str("J8s:0.25").unwrap());
    config.set_bb_raise_range(Position::BTN, parse_range_str("J8s:0.25").unwrap());
    config.set_allowed_spot_types(default_allowed_spot_types());
    let spot = SpotType::BBDefense {
        opener_position: Position::BTN,
    };
    let j8s = Hand {
        card1: Card {
            rank: Rank::Jack,
            suit: Suit::Spades,
        },
        card2: Card {
            rank: Rank::Eight,
            suit: Suit::Spades,
        },
    };
    // Draws: 0..25 raise, 25..50 call, 50..100 fold.
    assert_eq!(
        check_answer(&config, spot, j8s, UserAction::Raise, 24),
        AnswerResult::Correct
    );
    assert_eq!(
        check_answer(&config, spot, j8s, UserAction::Call, 25),
        AnswerResult::Correct
    );
    assert_eq!(
        check_answer(&config, spot, j8s, UserAction::Fold, 50),
        AnswerResult::Correct
    );
    // A fold on a call draw is still part of the strategy: half the
    // frequency mass is unassigned.
    assert_eq!(
        check_answer(&config, spot, j8s, UserAction::Fold, 25),
        AnswerResult::FrequencyMistake
    );
}
