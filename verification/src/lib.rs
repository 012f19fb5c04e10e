//! Preflop poker trainer core: hand taxonomy, range-string parsing,
//! strategy configuration, deck and dealer, weighted spot generation,
//! and answer grading.

pub mod cards;
pub mod config;
pub mod deck;
pub mod game;
pub mod grade;
pub mod position;
pub mod range;
pub(crate) mod rng;
pub mod text;

pub use cards::{get_all_possible_hand_notations, Card, Hand, HandNotation, HandType, Rank, Suit};
pub use config::{
    build_game_config, default_allowed_spot_types, BBDefensePositionDetail, GameConfig,
    GenericConfig, PositionDetail, TomlConfig,
};
pub use deck::Deck;
pub use game::Game;
pub use grade::{check_answer, get_action_frequencies, AnswerResult, UserAction};
pub use position::{Position, SpotType};
pub use range::{parse_range_str, Range, FREQ_ONE};
