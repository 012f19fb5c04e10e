use preflop_trainer_core::{
    get_all_possible_hand_notations, Card, Deck, Hand, HandNotation, HandType, Rank, Suit,
};
use std::collections::HashSet;
use std::str::FromStr;

#[test]
fn test_all_hand_notations_counts() {
    let all = get_all_possible_hand_notations();
    assert_eq!(all.len(), 169);

    let unique: HashSet<HandNotation> = all.iter().copied().collect();
    assert_eq!(unique.len(), 169);

    let pairs = all
        .iter()
        .filter(|hn| hn.hand_type == HandType::Pair)
        .count();
    let suited = all
        .iter()
        .filter(|hn| hn.hand_type == HandType::Suited)
        .count();
    let offsuit = all
        .iter()
        .filter(|hn| hn.hand_type == HandType::Offsuit)
        .count();
    assert_eq!(pairs, 13);
    assert_eq!(suited, 78);
    assert_eq!(offsuit, 78);
}

#[test]
fn test_hand_notation_text_round_trip() {
    // Formatting every hand class and reparsing it gives the class back.
    for hn in get_all_possible_hand_notations() {
        let text = hn.to_text();
        let reparsed = HandNotation::from_str(&text).unwrap();
        assert_eq!(reparsed, hn, "round trip failed for {}", text);
    }
}

#[test]
fn test_classify_is_symmetric() {
    let deck = Deck::new();
    for (i, &card1) in deck.cards.iter().enumerate() {
        for &card2 in deck.cards.iter().skip(i + 1) {
            let one = HandNotation::from_hand(Hand { card1, card2 });
            let two = HandNotation::from_hand(Hand {
                card1: card2,
                card2: card1,
            });
            assert_eq!(one, two);
        }
    }
}

#[test]
fn test_classify_kinds() {
    let ah = Card {
        rank: Rank::Ace,
        suit: Suit::Hearts,
    };
    let as_ = Card {
        rank: Rank::Ace,
        suit: Suit::Spades,
    };
    let kh = Card {
        rank: Rank::King,
        suit: Suit::Hearts,
    };
    let ks = Card {
        rank: Rank::King,
        suit: Suit::Spades,
    };

    let pair = HandNotation::from_hand(Hand {
        card1: ah,
        card2: as_,
    });
    assert_eq!(pair.hand_type, HandType::Pair);
    assert_eq!(pair.rank1, Rank::Ace);
    assert_eq!(pair.rank2, Rank::Ace);

    let suited = HandNotation::from_hand(Hand {
        card1: kh,
        card2: ah,
    });
    assert_eq!(suited.hand_type, HandType::Suited);
    assert_eq!(suited.rank1, Rank::Ace);
    assert_eq!(suited.rank2, Rank::King);

    let offsuit = HandNotation::from_hand(Hand {
        card1: ah,
        card2: ks,
    });
    assert_eq!(offsuit.hand_type, HandType::Offsuit);
    assert_eq!(offsuit.rank1, Rank::Ace);
    assert_eq!(offsuit.rank2, Rank::King);
}

#[test]
fn test_rank_from_char_and_to_char_lower() {
    assert_eq!(Rank::from_char('2').unwrap(), Rank::Two);
    assert_eq!(Rank::from_char('T').unwrap(), Rank::Ten);
    assert_eq!(Rank::from_char('A').unwrap(), Rank::Ace);
    assert!(Rank::from_char('t').is_err());
    assert!(Rank::from_char('1').is_err());
    assert!(Rank::from_char('X').is_err());

    assert_eq!(Rank::Two.to_char_lower(), '2');
    assert_eq!(Rank::Ten.to_char_lower(), 't');
    assert_eq!(Rank::Ace.to_char_lower(), 'a');
}

#[test]
fn test_suit_display_helpers() {
    assert_eq!(Suit::Spades.to_char_lower(), 's');
    assert_eq!(Suit::Hearts.to_char_lower(), 'h');
    assert_eq!(Suit::Diamonds.to_char_lower(), 'd');
    assert_eq!(Suit::Clubs.to_char_lower(), 'c');

    assert_eq!(Suit::Spades.to_asset_string(), "suit_s");
    assert_eq!(Suit::Hearts.to_asset_string(), "suit_h");
    assert_eq!(Suit::Diamonds.to_asset_string(), "suit_d");
    assert_eq!(Suit::Clubs.to_asset_string(), "suit_c");
}

#[test]
fn test_hand_notation_suit_letter_case_insensitive() {
    let upper_s = HandNotation::from_str("AKS").unwrap();
    let lower_s = HandNotation::from_str("AKs").unwrap();
    assert_eq!(upper_s, lower_s);
    let upper_o = HandNotation::from_str("T9O").unwrap();
    let lower_o = HandNotation::from_str("T9o").unwrap();
    assert_eq!(upper_o, lower_o);
}

#[test]
fn test_deal_matching_deals_the_target_class() {
    let all = get_all_possible_hand_notations();
    for target in all.into_iter().take(20) {
        let mut deck = Deck::new();
        let before = deck.cards.len();
        let hand = deck
            .deal_matching(target)
            .expect("a full deck can deal every class");
        assert_eq!(HandNotation::from_hand(hand), target);
        assert_ne!(hand.card1, hand.card2);
        assert_eq!(deck.cards.len(), before - 2);
        assert!(!deck.cards.contains(&hand.card1));
        assert!(!deck.cards.contains(&hand.card2));
    }
}

#[test]
fn test_deal_matching_exhausted_class_returns_none() {
    let target = HandNotation {
        rank1: Rank::Ace,
        rank2: Rank::Ace,
        hand_type: HandType::Pair,
    };
    let mut deck = Deck::new();
    // Two pair deals use all four aces.
    assert!(deck.deal_matching(target).is_some());
    assert!(deck.deal_matching(target).is_some());
    let before: Vec<Card> = deck.cards.clone();
    assert!(deck.deal_matching(target).is_none());
    // The failed deal leaves the deck untouched.
    assert_eq!(deck.cards, before);
    assert_eq!(deck.cards.len(), 48);
}
