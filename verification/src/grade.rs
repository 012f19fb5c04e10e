//! Grading: reconciling a user's action against the frequency-weighted
//! correct action that the shared random draw selects.

use vstd::prelude::*;

use crate::cards::{spec_classify, Hand, HandNotation};
use crate::config::GameConfig;
use crate::position::SpotType;
use crate::range::Range;

verus! {

/// What the user answered.
#[derive(Clone, Copy, Debug, PartialEq, Eq, Structural)]
pub enum UserAction {
    Raise,
    Call,
    Fold,
}

/// How an answer is judged. A frequency mistake is an action that is a
/// legitimate part of the hand's strategy, only not the one this draw
/// selected.
#[derive(Clone, Copy, Debug, PartialEq, Eq, Structural)]
pub enum AnswerResult {
    Correct,
    Wrong,
    FrequencyMistake,
}

/// Grading an open situation, over a raise frequency in millionths and
/// the shared draw: a call is always wrong; at frequency one only a
/// raise is correct, at zero only a fold; in between the draw selects —
/// raise below the hundredth-floor threshold — and the other of raise
/// and fold is a frequency mistake.
pub open spec fn spec_open_grade(raise_ppm: int, action: UserAction, draw: int) -> AnswerResult {
    if action == UserAction::Call {
        AnswerResult::Wrong
    } else if raise_ppm == 1_000_000 {
        if action == UserAction::Raise {
            AnswerResult::Correct
        } else {
            AnswerResult::Wrong
        }
    } else if raise_ppm == 0 {
        if action == UserAction::Fold {
            AnswerResult::Correct
        } else {
            AnswerResult::Wrong
        }
    } else {
        let correct = if draw < raise_ppm / 10_000 {
            UserAction::Raise
        } else {
            UserAction::Fold
        };
        if action == correct {
            AnswerResult::Correct
        } else {
            AnswerResult::FrequencyMistake
        }
    }
}

/// Grading a big-blind defense, over the raise and call frequencies in
/// millionths and the shared draw: the draw selects raise below the
/// raise threshold, a call below the stacked call threshold, a fold
/// otherwise. A miss is a frequency mistake when the action is played
/// at all — a raise or call at positive frequency, a fold when the two
/// frequencies leave room — and wrong otherwise.
pub open spec fn spec_bb_grade(
    raise_ppm: int,
    call_ppm: int,
    action: UserAction,
    draw: int,
) -> AnswerResult {
    // Each frequency is at most one, so the stacked threshold is at most
    // 200: the sum can never overflow or need clamping.
    let raise_threshold = raise_ppm / 10_000;
    let call_threshold = raise_threshold + call_ppm / 10_000;
    let correct = if draw < raise_threshold {
        UserAction::Raise
    } else if draw < call_threshold {
        UserAction::Call
    } else {
        UserAction::Fold
    };
    if action == correct {
        AnswerResult::Correct
    } else {
        let legitimate = match action {
            UserAction::Raise => raise_ppm > 0,
            UserAction::Call => call_ppm > 0,
            UserAction::Fold => raise_ppm + call_ppm < 1_000_000,
        };
        if legitimate {
            AnswerResult::FrequencyMistake
        } else {
            AnswerResult::Wrong
        }
    }
}

/// The verdict on an answer: the hand classified, the situation's
/// frequencies looked up, and the matching grading rule applied.
pub open spec fn spec_check_answer(
    cfg: &GameConfig,
    st: SpotType,
    hand: Hand,
    action: UserAction,
    draw: u8,
) -> AnswerResult {
    let hc = spec_classify(hand);
    match st {
        SpotType::Open { position } => spec_open_grade(
            Range::spec_freq_of(cfg.open_map(position), hc),
            action,
            draw as int,
        ),
        SpotType::BBDefense { opener_position } => spec_bb_grade(
            Range::spec_freq_of(cfg.bb_raise_map(opener_position), hc),
            Range::spec_freq_of(cfg.bb_call_map(opener_position), hc),
            action,
            draw as int,
        ),
    }
}

/// Grades a user's action on a spot, deterministically from the shared
/// random draw, as `spec_check_answer` describes.
pub fn check_answer(
    config: &GameConfig,
    spot_type: SpotType,
    hand: Hand,
    user_action: UserAction,
    mixed_strategy_rng_value: u8,
) -> (r: AnswerResult)
    requires
        config.wf(),
    ensures
        r == spec_check_answer(config, spot_type, hand, user_action, mixed_strategy_rng_value),
{
    let hand_notation = HandNotation::from_hand(hand);
    proof {
        crate::cards::lemma_classify_wf(hand);
    }
    match spot_type {
        SpotType::Open { position } => {
            // A call is fielded before the frequency rules: no call is
            // legal in an unopened pot, so it is wrong even where the
            // mixed branch below would otherwise judge the miss.
            if user_action == UserAction::Call {
                return AnswerResult::Wrong;
            }
            let raise_freq = config.open_range(position).freq_of(hand_notation);
            if raise_freq == 1_000_000 {
                if user_action == UserAction::Raise {
                    AnswerResult::Correct
                } else {
                    AnswerResult::Wrong
                }
            } else if raise_freq == 0 {
                if user_action == UserAction::Fold {
                    AnswerResult::Correct
                } else {
                    AnswerResult::Wrong
                }
            } else {
                let threshold = raise_freq / 10_000;
                let correct_action = if (mixed_strategy_rng_value as u32) < threshold {
                    UserAction::Raise
                } else {
                    UserAction::Fold
                };
                if user_action == correct_action {
                    AnswerResult::Correct
                } else {
                    AnswerResult::FrequencyMistake
                }
            }
        },
        SpotType::BBDefense { opener_position } => {
            let call_freq = config.bb_call_range(opener_position).freq_of(hand_notation);
            let raise_freq = config.bb_raise_range(opener_position).freq_of(hand_notation);
            let raise_threshold = raise_freq / 10_000;
            let call_threshold = raise_threshold + call_freq / 10_000;
            let correct_action = if (mixed_strategy_rng_value as u32) < raise_threshold {
                UserAction::Raise
            } else if (mixed_strategy_rng_value as u32) < call_threshold {
                UserAction::Call
            } else {
                UserAction::Fold
            };
            if user_action == correct_action {
                AnswerResult::Correct
            } else {
                let legitimate = match user_action {
                    UserAction::Raise => raise_freq > 0,
                    UserAction::Call => call_freq > 0,
                    UserAction::Fold => raise_freq + call_freq < 1_000_000,
                };
                if legitimate {
                    AnswerResult::FrequencyMistake
                } else {
                    AnswerResult::Wrong
                }
            }
        },
    }
}

/// The raise, call and fold frequencies of a hand in a situation, in
/// millionths: for an open, the raise frequency and its complement to
/// fold; for a big-blind defense, the two stored frequencies and what
/// they leave for folding. A display read, not part of grading.
pub fn get_action_frequencies(config: &GameConfig, spot_type: SpotType, hand: Hand) -> (r: (
    u32,
    u32,
    u32,
))
    requires
        config.wf(),
    ensures
        ({
            let hc = spec_classify(hand);
            match spot_type {
                SpotType::Open { position } => {
                    &&& r.0 == Range::spec_freq_of(config.open_map(position), hc)
                    &&& r.1 == 0
                    &&& r.2 == 1_000_000 - r.0
                },
                SpotType::BBDefense { opener_position } => {
                    &&& r.0 == Range::spec_freq_of(config.bb_raise_map(opener_position), hc)
                    &&& r.1 == Range::spec_freq_of(config.bb_call_map(opener_position), hc)
                    &&& r.2 == 1_000_000 - (if r.0 + r.1 <= 1_000_000 {
                        r.0 + r.1 as int
                    } else {
                        1_000_000int
                    })
                },
            }
        }),
{
    let hand_notation = HandNotation::from_hand(hand);
    proof {
        crate::cards::lemma_classify_wf(hand);
    }
    match spot_type {
        SpotType::Open { position } => {
            let raise_freq = config.open_range(position).freq_of(hand_notation);
            (raise_freq, 0, 1_000_000 - raise_freq)
        },
        SpotType::BBDefense { opener_position } => {
            let call_freq = config.bb_call_range(opener_position).freq_of(hand_notation);
            let raise_freq = config.bb_raise_range(opener_position).freq_of(hand_notation);
            let played = if raise_freq + call_freq <= 1_000_000 {
                raise_freq + call_freq
            } else {
                1_000_000
            };
            (raise_freq, call_freq, 1_000_000 - played)
        },
    }
}

/// In an open situation where the class is raised at frequency one,
/// raising is correct and any other action is wrong, whatever the
/// shared draw.
pub proof fn lemma_open_full_raise_grading(action: UserAction, draw: int)
    ensures
        spec_open_grade(1_000_000, action, draw) == (if action == UserAction::Raise {
            AnswerResult::Correct
        } else {
            AnswerResult::Wrong
        }),
{
}

/// In an open situation where the class is raised at frequency one
/// half, the correct action is a raise exactly on draws below fifty and
/// a fold from fifty up: the threshold is exclusive of the draw.
pub proof fn lemma_open_half_raise_boundary(draw: int)
    ensures
        spec_open_grade(500_000, UserAction::Raise, draw) == (if draw < 50 {
            AnswerResult::Correct
        } else {
            AnswerResult::FrequencyMistake
        }),
        spec_open_grade(500_000, UserAction::Fold, draw) == (if draw < 50 {
            AnswerResult::FrequencyMistake
        } else {
            AnswerResult::Correct
        }),
{
}

/// In a big-blind defense where a class calls and raises at one half
/// each: below draw fifty a raise is correct and a call a frequency
/// mistake, from fifty up a call is correct and a raise a frequency
/// mistake, and a fold is wrong at every draw — the two frequencies
/// fill the whole strategy.
pub proof fn lemma_bb_half_half_grading(draw: int)
    requires
        0 <= draw < 100,
    ensures
        spec_bb_grade(500_000, 500_000, UserAction::Raise, draw) == (if draw < 50 {
            AnswerResult::Correct
        } else {
            AnswerResult::FrequencyMistake
        }),
        spec_bb_grade(500_000, 500_000, UserAction::Call, draw) == (if draw < 50 {
            AnswerResult::FrequencyMistake
        } else {
            AnswerResult::Correct
        }),
        spec_bb_grade(500_000, 500_000, UserAction::Fold, draw) == AnswerResult::Wrong,
{
}

} // verus!

