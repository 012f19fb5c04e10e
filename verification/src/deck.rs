//! The deck and the dealer: a mutable 52-card sequence supporting a
//! random shuffle, dealing two cards off the top, and dealing a random
//! hand that matches a required class.

use vstd::prelude::*;

use crate::cards::{
    card_code, lemma_card_code_injective, rank_val, spec_classify, suit_val, Card, Hand,
    HandNotation, Rank, Suit,
};
use crate::rng::{rand_below, shuffle_cards};

verus! {

broadcast use vstd::seq_lib::group_to_multiset_ensures;

/// A deck of cards. Well formed while no card appears twice.
#[derive(Debug, Clone)]
pub struct Deck {
    pub cards: Vec<Card>,
}

impl Deck {
    /// Well-formedness: no card appears twice.
    pub open spec fn wf(&self) -> bool {
        self.cards@.no_duplicates()
    }

    /// A fresh, unshuffled deck: the 52 rank-and-suit combinations, each
    /// exactly once, the card of code `k` at index `k`.
    pub fn new() -> (r: Deck)
        ensures
            r.wf(),
            r.cards@.len() == 52,
            forall|k: int| 0 <= k < 52 ==> card_code(#[trigger] r.cards@[k]) == k,
            forall|c: Card| r.cards@.contains(c),
    {
        let mut cards: Vec<Card> = Vec::new();
        for sv in 0..4u8
            invariant
                cards@.len() == sv as int * 13,
                forall|k: int| 0 <= k < cards@.len() ==> card_code(#[trigger] cards@[k]) == k,
        {
            for rv in 0..13u8
                invariant
                    sv < 4,
                    cards@.len() == sv as int * 13 + rv as int,
                    forall|k: int| 0 <= k < cards@.len() ==> card_code(#[trigger] cards@[k]) == k,
            {
                let c = Card { rank: Rank::from_val(rv), suit: Suit::from_val(sv) };
                proof {
                    assert(card_code(c) == sv as int * 13 + rv as int);
                }
                cards.push(c);
            }
        }
        let r = Deck { cards };
        proof {
            assert forall|i: int, j: int|
                0 <= i < j < r.cards@.len() implies r.cards@[i] != r.cards@[j] by {
                assert(card_code(r.cards@[i]) == i);
                assert(card_code(r.cards@[j]) == j);
            }
            assert forall|c: Card| r.cards@.contains(c) by {
                assert(0 <= rank_val(c.rank) < 13 && 0 <= suit_val(c.suit) < 4);
                let k = card_code(c);
                lemma_card_code_injective(r.cards@[k], c);
                assert(r.cards@[k] == c);
            }
        }
        r
    }

    /// Shuffles the deck in place: the same cards in a new order.
    pub fn shuffle(&mut self)
        requires
            old(self).wf(),
        ensures
            final(self).wf(),
            final(self).cards@.to_multiset() == old(self).cards@.to_multiset(),
            final(self).cards@.len() == old(self).cards@.len(),
            forall|c: Card| final(self).cards@.contains(c) == old(self).cards@.contains(c),
    {
        shuffle_cards(&mut self.cards);
        proof {
            lemma_multiset_eq_preserves_no_duplicates(old(self).cards@, self.cards@);
        }
    }

    /// Deals the two top cards, or nothing — the deck untouched — when
    /// fewer than two remain.
    pub fn deal_hand(&mut self) -> (r: Option<Hand>)
        requires
            old(self).wf(),
        ensures
            final(self).wf(),
            match r {
                Some(h) => {
                    &&& old(self).cards@.len() >= 2
                    &&& h.card1 == old(self).cards@.last()
                    &&& h.card2 == old(self).cards@[old(self).cards@.len() - 2]
                    &&& h.card1 != h.card2
                    &&& final(self).cards@ == old(self).cards@.take(old(self).cards@.len() - 2)
                    &&& final(self).cards@.len() == old(self).cards@.len() - 2
                },
                None => old(self).cards@.len() < 2 && final(self).cards@ == old(self).cards@,
            },
    {
        if self.cards.len() < 2 {
            return None;
        }
        let ghost s0 = self.cards@;
        let card1 = self.cards.pop().unwrap();
        let card2 = self.cards.pop().unwrap();
        proof {
            assert(s0.drop_last()[s0.len() - 2] == s0[s0.len() - 2]);
            assert(self.cards@ =~= s0.take(s0.len() - 2));
            assert forall|i: int, j: int|
                0 <= i < j < self.cards@.len() implies self.cards@[i] != self.cards@[j] by {
                assert(s0[i] != s0[j]);
            }
        }
        Some(Hand { card1, card2 })
    }

    /// Deals a uniformly chosen hand of the required class from the live
    /// deck: the two cards come out of the deck and classify to the
    /// target. When no pair of remaining cards matches, nothing is dealt
    /// and the deck is untouched.
    pub fn deal_matching(&mut self, target: HandNotation) -> (r: Option<Hand>)
        requires
            old(self).wf(),
        ensures
            final(self).wf(),
            match r {
                Some(h) => {
                    &&& spec_classify(h) == target
                    &&& h.card1 != h.card2
                    &&& old(self).cards@.contains(h.card1)
                    &&& old(self).cards@.contains(h.card2)
                    &&& final(self).cards@.to_multiset() == old(self).cards@.to_multiset().remove(
                        h.card1,
                    ).remove(h.card2)
                    &&& final(self).cards@.len() == old(self).cards@.len() - 2
                    &&& !final(self).cards@.contains(h.card1)
                    &&& !final(self).cards@.contains(h.card2)
                },
                None => {
                    &&& final(self).cards@ == old(self).cards@
                    &&& forall|a: int, b: int|
                        0 <= a < b < old(self).cards@.len() ==> spec_classify(
                            Hand { card1: old(self).cards@[a], card2: old(self).cards@[b] },
                        ) != target
                },
            },
    {
        let n = self.cards.len();
        let mut matches: Vec<(usize, usize)> = Vec::new();
        for a in 0..n
            invariant
                n == self.cards@.len(),
                forall|k: int|
                    0 <= k < matches@.len() ==> {
                        let p = #[trigger] matches@[k];
                        p.0 < p.1 < n && spec_classify(
                            Hand { card1: self.cards@[p.0 as int], card2: self.cards@[p.1 as int] },
                        ) == target
                    },
                matches@.len() == 0 ==> forall|x: int, y: int|
                    0 <= x < y < n && x < a as int ==> spec_classify(
                        Hand { card1: self.cards@[x], card2: self.cards@[y] },
                    ) != target,
        {
            for b in (a + 1)..n
                invariant
                    n == self.cards@.len(),
                    a < n,
                    forall|k: int|
                        0 <= k < matches@.len() ==> {
                            let p = #[trigger] matches@[k];
                            p.0 < p.1 < n && spec_classify(
                                Hand {
                                    card1: self.cards@[p.0 as int],
                                    card2: self.cards@[p.1 as int],
                                },
                            ) == target
                        },
                    matches@.len() == 0 ==> forall|x: int, y: int|
                        0 <= x < y < n && (x < a as int || (x == a as int && y < b as int))
                            ==> spec_classify(
                            Hand { card1: self.cards@[x], card2: self.cards@[y] },
                        ) != target,
            {
                let hand = Hand { card1: self.cards[a], card2: self.cards[b] };
                let hc = HandNotation::from_hand(hand);
                if hc == target {
                    matches.push((a, b));
                }
            }
        }
        if matches.len() == 0 {
            return None;
        }

        let pick = rand_below(matches.len());
        let (a, b) = matches[pick];
        let card1 = self.cards[a];
        let card2 = self.cards[b];
        let ghost s0 = self.cards@;
        // Remove the higher index first, so the lower one still points at
        // the same card.
        let removed_b = self.cards.remove(b);
        let removed_a = self.cards.remove(a);
        proof {
            assert(s0.remove(b as int)[a as int] == s0[a as int]);
            assert(removed_b == card2 && removed_a == card1);
            assert(card1 != card2);
            assert(self.cards@.to_multiset() =~= s0.to_multiset().remove(card1).remove(card2));
            lemma_multiset_remove_keeps_no_duplicates(s0, b as int);
            lemma_multiset_remove_keeps_no_duplicates(s0.remove(b as int), a as int);
            s0.lemma_multiset_has_no_duplicates();
            assert(s0.to_multiset().count(card1) == 1);
            assert(s0.to_multiset().count(card2) == 1);
            assert(self.cards@.to_multiset().count(card1) == 0);
            assert(self.cards@.to_multiset().count(card2) == 0);
        }
        Some(Hand { card1, card2 })
    }
}

impl Default for Deck {
    /// A fresh, unshuffled deck.
    fn default() -> (r: Deck)
        ensures
            r.wf(),
            r.cards@.len() == 52,
            forall|c: Card| r.cards@.contains(c),
    {
        Deck::new()
    }
}

/// Two sequences holding the same elements the same number of times are
/// duplicate-free together.
proof fn lemma_multiset_eq_preserves_no_duplicates(s1: Seq<Card>, s2: Seq<Card>)
    requires
        s1.no_duplicates(),
        s1.to_multiset() == s2.to_multiset(),
    ensures
        s2.no_duplicates(),
        s2.len() == s1.len(),
        forall|c: Card| s2.contains(c) == s1.contains(c),
{
    s1.to_multiset_ensures();
    s2.to_multiset_ensures();
    s1.lemma_multiset_has_no_duplicates();
    s2.lemma_multiset_has_no_duplicates_conv();
    assert forall|c: Card| s2.contains(c) == s1.contains(c) by {
        assert(s1.contains(c) <==> s1.to_multiset().count(c) > 0);
        assert(s2.contains(c) <==> s2.to_multiset().count(c) > 0);
    }
}

/// Removing an element keeps a sequence duplicate-free.
proof fn lemma_multiset_remove_keeps_no_duplicates(s: Seq<Card>, i: int)
    requires
        s.no_duplicates(),
        0 <= i < s.len(),
    ensures
        s.remove(i).no_duplicates(),
{
    assert forall|x: int, y: int|
        0 <= x < y < s.remove(i).len() implies s.remove(i)[x] != s.remove(i)[y] by {
        let x0 = if x < i {
            x
        } else {
            x + 1
        };
        let y0 = if y < i {
            y
        } else {
            y + 1
        };
        assert(s.remove(i)[x] == s[x0]);
        assert(s.remove(i)[y] == s[y0]);
    }
}

} // verus!
