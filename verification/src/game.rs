//! The spot generator: a session holding the deck, the immutable
//! strategy, and the class universe, producing one quiz question at a
//! time by weighted random selection over the 169 hand classes.

use vstd::prelude::*;

use crate::cards::{
    get_all_possible_hand_notations, is_class_universe, lemma_classify_symmetric, spec_classify,
    Card, Hand, HandNotation, HandType, Suit,
};
use crate::config::GameConfig;
use crate::deck::Deck;
use crate::position::SpotType;
use crate::range::Range;
use crate::rng::rand_below;

verus! {

/// The weight a hand class draws in spot selection: classes played at a
/// mixed frequency are sampled heavily, always-played classes a little
/// over the baseline every class keeps.
pub open spec fn spec_weight(freq: int) -> int {
    if 0 < freq < 1_000_000 {
        5000
    } else if freq == 1_000_000 {
        50
    } else {
        20
    }
}

/// The sum of a sequence of weights.
pub open spec fn sum_weights(s: Seq<u32>) -> int
    decreases s.len(),
{
    if s.len() == 0 {
        0
    } else {
        sum_weights(s.drop_last()) + s.last()
    }
}

/// The weight of one class against the target range, matching
/// `spec_weight`.
fn weight_for(freq: u32) -> (w: u32)
    ensures
        w == spec_weight(freq as int),
        20 <= w <= 5000,
{
    if freq > 0 && freq < 1_000_000 {
        5000
    } else if freq == 1_000_000 {
        50
    } else {
        20
    }
}

/// The selection weight of every class of the universe against the
/// target range, in universe order.
fn class_weights(range: &Range, all: &Vec<HandNotation>) -> (w: Vec<u32>)
    requires
        range.wf(),
        forall|i: int| 0 <= i < all@.len() ==> (#[trigger] all@[i]).wf(),
    ensures
        w@.len() == all@.len(),
        forall|i: int|
            0 <= i < all@.len() ==> w@[i] == spec_weight(Range::spec_freq_of(range@, all@[i]))
                && 20 <= #[trigger] w@[i] <= 5000,
{
    let n = all.len();
    let mut w: Vec<u32> = Vec::new();
    for i in 0..n
        invariant
            n == all@.len(),
            range.wf(),
            forall|j: int| 0 <= j < n ==> (#[trigger] all@[j]).wf(),
            w@.len() == i,
            forall|j: int|
                0 <= j < i ==> w@[j] == spec_weight(Range::spec_freq_of(range@, all@[j])) && 20
                    <= #[trigger] w@[j] <= 5000,
    {
        let freq = range.freq_of(all[i]);
        w.push(weight_for(freq));
    }
    w
}

/// The total of a weight vector, with the bounds the per-class weights
/// give it.
fn total_weight(w: &Vec<u32>) -> (total: u32)
    requires
        w@.len() <= 169,
        forall|i: int| 0 <= i < w@.len() ==> 20 <= #[trigger] w@[i] <= 5000,
    ensures
        total == sum_weights(w@),
        total >= 20 * w@.len(),
        total <= 5000 * w@.len(),
{
    let n = w.len();
    let mut total: u32 = 0;
    for i in 0..n
        invariant
            n == w@.len() <= 169,
            forall|j: int| 0 <= j < n ==> 20 <= #[trigger] w@[j] <= 5000,
            total == sum_weights(w@.take(i as int)),
            20 * i <= total <= 5000 * i,
    {
        proof {
            assert(w@.take(i + 1).drop_last() =~= w@.take(i as int));
            assert(w@.take(i + 1).last() == w@[i as int]);
        }
        total = total + w[i];
    }
    proof {
        assert(w@.take(n as int) =~= w@);
    }
    total
}

/// The index the cumulative-weight draw `r` lands on: weights are walked
/// in order, and the first class whose running total exceeds `r` is
/// selected.
fn weighted_pick(w: &Vec<u32>, r: u32) -> (idx: usize)
    requires
        r < sum_weights(w@),
        sum_weights(w@) <= u32::MAX,
        forall|i: int| 0 <= i < w@.len() ==> 20 <= #[trigger] w@[i] <= 5000,
    ensures
        idx < w@.len(),
        sum_weights(w@.take(idx as int)) <= r < sum_weights(w@.take(idx as int + 1)),
{
    let n = w.len();
    let mut rest = r;
    let mut i: usize = 0;
    proof {
        assert(w@.take(0) =~= Seq::<u32>::empty());
        lemma_sum_weights_prefix_bound(w@, 0);
    }
    while i < n
        invariant
            i <= n == w@.len(),
            r < sum_weights(w@),
            forall|j: int| 0 <= j < n ==> 20 <= #[trigger] w@[j] <= 5000,
            r == sum_weights(w@.take(i as int)) + rest,
            sum_weights(w@.take(i as int)) >= 0,
        decreases n - i,
    {
        proof {
            assert(w@.take(i + 1).drop_last() =~= w@.take(i as int));
            assert(w@.take(i + 1).last() == w@[i as int]);
        }
        if rest < w[i] {
            return i;
        }
        rest = rest - w[i];
        i += 1;
    }
    proof {
        assert(w@.take(n as int) =~= w@);
        assert(false);
    }
    0
}

proof fn lemma_sum_weights_prefix_bound(s: Seq<u32>, k: int)
    requires
        0 <= k <= s.len(),
    ensures
        sum_weights(s.take(k)) >= 0,
    decreases k,
{
    if k > 0 {
        lemma_sum_weights_prefix_bound(s, k - 1);
        assert(s.take(k).drop_last() =~= s.take(k - 1));
    }
}

/// A quiz session: the live deck, the strategy it quizzes on, and the
/// precomputed universe of the 169 hand classes.
#[derive(Debug)]
pub struct Game {
    pub deck: Deck,
    pub config: GameConfig,
    pub all_possible_hand_notations: Vec<HandNotation>,
}

impl Game {
    /// Well-formedness: a duplicate-free deck, a well-formed strategy,
    /// and the full class universe.
    pub open spec fn wf(&self) -> bool {
        &&& self.deck.wf()
        &&& self.config.wf()
        &&& is_class_universe(self.all_possible_hand_notations@)
    }

    /// A new session on the given strategy, with a full shuffled deck.
    pub fn new(config: GameConfig) -> (r: Game)
        requires
            config.wf(),
        ensures
            r.wf(),
            r.config == config,
            r.deck.cards@.len() == 52,
            forall|c: Card| r.deck.cards@.contains(c),
    {
        let mut deck = Deck::new();
        deck.shuffle();
        let all_possible_hand_notations = get_all_possible_hand_notations();
        Game { deck, config, all_possible_hand_notations }
    }

    /// The target range of a situation: for an open, that position's
    /// open-raise range; for a big-blind defense, the call range laid
    /// under the raise range, raise entries taking precedence.
    fn target_range(&self, st: SpotType) -> (r: Range)
        requires
            self.config.wf(),
        ensures
            r.wf(),
            r@ == (match st {
                SpotType::Open { position } => self.config.open_map(position),
                SpotType::BBDefense { opener_position } => self.config.bb_call_map(
                    opener_position,
                ).union_prefer_right(self.config.bb_raise_map(opener_position)),
            }),
    {
        match st {
            SpotType::Open { position } => {
                let empty = Range::new();
                let r = empty.overlaid(self.config.open_range(position));
                proof {
                    assert(r@ =~= self.config.open_map(position));
                }
                r
            },
            SpotType::BBDefense { opener_position } => {
                self.config.bb_call_range(opener_position).overlaid(
                    self.config.bb_raise_range(opener_position),
                )
            },
        }
    }

    /// Produces the next quiz question: a situation drawn from the
    /// allowed list, a concrete hand of a weighted-randomly chosen
    /// class dealt from the live deck — reshuffling a full deck and
    /// retrying whenever the class cannot be dealt — and the shared
    /// random draw grading will use. Nothing only when no situation is
    /// allowed at all.
    pub fn generate_random_spot(&mut self) -> (r: Option<(SpotType, Hand, u8)>)
        requires
            old(self).wf(),
        ensures
            final(self).wf(),
            final(self).config == old(self).config,
            final(self).all_possible_hand_notations == old(self).all_possible_hand_notations,
            match r {
                Some(spot) => {
                    &&& old(self).config.allowed_spot_types@.len() > 0
                    &&& old(self).config.allowed_spot_types@.contains(spot.0)
                    &&& spot.1.card1 != spot.1.card2
                    &&& !final(self).deck.cards@.contains(spot.1.card1)
                    &&& !final(self).deck.cards@.contains(spot.1.card2)
                    &&& spot.2 < 100
                },
                None => {
                    &&& old(self).config.allowed_spot_types@.len() == 0
                    &&& *final(self) == *old(self)
                },
            },
    {
        if self.config.allowed_spot_types.len() == 0 {
            return None;
        }
        let mut fresh: bool = false;
        loop
            invariant
                self.wf(),
                self.config == old(self).config,
                self.all_possible_hand_notations == old(self).all_possible_hand_notations,
                self.config.allowed_spot_types@.len() > 0,
                fresh ==> self.deck.cards@.len() == 52 && forall|c: Card|
                    self.deck.cards@.contains(c),
            decreases (if fresh {
                0int
            } else {
                1int
            }),
        {
            if self.deck.cards.len() < 2 {
                self.deck = Deck::new();
                self.deck.shuffle();
                fresh = true;
            }

            // Choose a situation uniformly from the allowed list.
            let spot_idx = rand_below(self.config.allowed_spot_types.len());
            let spot_type = self.config.allowed_spot_types[spot_idx];

            // Weigh every class against the situation's target range.
            let target = self.target_range(spot_type);
            let weights = class_weights(&target, &self.all_possible_hand_notations);
            let total = total_weight(&weights);
            proof {
                assert(total >= 20 * 169);
            }
            if total == 0 {
                // Unreachable under the fixed baseline weight, but a
                // changed weighting scheme must retry here, not divide
                // by zero.
                self.deck = Deck::new();
                self.deck.shuffle();
                fresh = true;
                continue ;
            }

            // The cumulative-weight draw over the 169 classes.
            let rand_weight = rand_below(total as usize);
            let class_idx = weighted_pick(&weights, rand_weight as u32);
            let chosen = self.all_possible_hand_notations[class_idx];

            let ghost deck_before = self.deck.cards@;
            match self.deck.deal_matching(chosen) {
                Some(hand) => {
                    let draw = rand_below(100) as u8;
                    return Some((spot_type, hand, draw));
                },
                None => {
                    proof {
                        if fresh {
                            lemma_full_deck_has_class(deck_before, chosen);
                        }
                    }
                    // The class is not dealable from the live deck:
                    // discard it and retry on a full reshuffled deck.
                    self.deck = Deck::new();
                    self.deck.shuffle();
                    fresh = true;
                },
            }
        }
    }
}

/// A deck holding all 52 cards can deal every well-formed hand class:
/// some pair of its positions classifies to the class.
proof fn lemma_full_deck_has_class(cards: Seq<Card>, hc: HandNotation)
    requires
        hc.wf(),
        forall|c: Card| cards.contains(c),
    ensures
        !(forall|a: int, b: int|
            0 <= a < b < cards.len() ==> spec_classify(
                Hand { card1: cards[a], card2: cards[b] },
            ) != hc),
{
    let (c1, c2) = match hc.hand_type {
        HandType::Pair => (
            Card { rank: hc.rank1, suit: Suit::Spades },
            Card { rank: hc.rank2, suit: Suit::Hearts },
        ),
        HandType::Suited => (
            Card { rank: hc.rank1, suit: Suit::Spades },
            Card { rank: hc.rank2, suit: Suit::Spades },
        ),
        HandType::Offsuit => (
            Card { rank: hc.rank1, suit: Suit::Spades },
            Card { rank: hc.rank2, suit: Suit::Hearts },
        ),
    };
    assert(spec_classify(Hand { card1: c1, card2: c2 }) == hc);
    assert(c1 != c2);
    assert(cards.contains(c1));
    assert(cards.contains(c2));
    let i = choose|i: int| 0 <= i < cards.len() && cards[i] == c1;
    let j = choose|j: int| 0 <= j < cards.len() && cards[j] == c2;
    assert(i != j);
    if i < j {
        assert(spec_classify(Hand { card1: cards[i], card2: cards[j] }) == hc);
    } else {
        lemma_classify_symmetric(Hand { card1: cards[j], card2: cards[i] });
        assert(spec_classify(Hand { card1: cards[j], card2: cards[i] }) == hc);
    }
}

} // verus!
