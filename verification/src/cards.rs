//! Card primitives: ranks, suits, cards, concrete hands, and the canonical
//! hand-class notation that collapses the 1326 two-card hands into 169 classes.

use vstd::prelude::*;

verus! {

/// The thirteen card ranks, from Two up to Ace.
#[derive(Clone, Copy, Debug, PartialEq, Eq, Structural, Hash)]
pub enum Rank {
    Two,
    Three,
    Four,
    Five,
    Six,
    Seven,
    Eight,
    Nine,
    Ten,
    Jack,
    Queen,
    King,
    Ace,
}

/// The four card suits.
#[derive(Clone, Copy, Debug, PartialEq, Eq, Structural, Hash)]
pub enum Suit {
    Spades,
    Hearts,
    Diamonds,
    Clubs,
}

/// Numeric strength of a rank: Two is 0, Ace is 12.
pub open spec fn rank_val(r: Rank) -> int {
    match r {
        Rank::Two => 0,
        Rank::Three => 1,
        Rank::Four => 2,
        Rank::Five => 3,
        Rank::Six => 4,
        Rank::Seven => 5,
        Rank::Eight => 6,
        Rank::Nine => 7,
        Rank::Ten => 8,
        Rank::Jack => 9,
        Rank::Queen => 10,
        Rank::King => 11,
        Rank::Ace => 12,
    }
}

/// The rank whose numeric strength is `v` (Ace for anything 12 or above).
pub open spec fn spec_rank_of_val(v: int) -> Rank {
    if v == 0 {
        Rank::Two
    } else if v == 1 {
        Rank::Three
    } else if v == 2 {
        Rank::Four
    } else if v == 3 {
        Rank::Five
    } else if v == 4 {
        Rank::Six
    } else if v == 5 {
        Rank::Seven
    } else if v == 6 {
        Rank::Eight
    } else if v == 7 {
        Rank::Nine
    } else if v == 8 {
        Rank::Ten
    } else if v == 9 {
        Rank::Jack
    } else if v == 10 {
        Rank::Queen
    } else if v == 11 {
        Rank::King
    } else {
        Rank::Ace
    }
}

/// Numeric label of a suit.
pub open spec fn suit_val(s: Suit) -> int {
    match s {
        Suit::Spades => 0,
        Suit::Hearts => 1,
        Suit::Diamonds => 2,
        Suit::Clubs => 3,
    }
}

/// The suit whose numeric label is `v` (Clubs for anything 3 or above).
pub open spec fn spec_suit_of_val(v: int) -> Suit {
    if v == 0 {
        Suit::Spades
    } else if v == 1 {
        Suit::Hearts
    } else if v == 2 {
        Suit::Diamonds
    } else {
        Suit::Clubs
    }
}

/// Round trip between a rank and its numeric strength.
pub proof fn lemma_rank_val_inverse(r: Rank)
    ensures
        spec_rank_of_val(rank_val(r)) == r,
        0 <= rank_val(r) < 13,
{
}

/// The rank denoted by an (upper-case) rank character, if any.
pub open spec fn spec_rank_of_char(c: char) -> Option<Rank> {
    if c == '2' {
        Some(Rank::Two)
    } else if c == '3' {
        Some(Rank::Three)
    } else if c == '4' {
        Some(Rank::Four)
    } else if c == '5' {
        Some(Rank::Five)
    } else if c == '6' {
        Some(Rank::Six)
    } else if c == '7' {
        Some(Rank::Seven)
    } else if c == '8' {
        Some(Rank::Eight)
    } else if c == '9' {
        Some(Rank::Nine)
    } else if c == 'T' {
        Some(Rank::Ten)
    } else if c == 'J' {
        Some(Rank::Jack)
    } else if c == 'Q' {
        Some(Rank::Queen)
    } else if c == 'K' {
        Some(Rank::King)
    } else if c == 'A' {
        Some(Rank::Ace)
    } else {
        None
    }
}

/// The canonical upper-case character of a rank.
pub open spec fn rank_char(r: Rank) -> char {
    match r {
        Rank::Two => '2',
        Rank::Three => '3',
        Rank::Four => '4',
        Rank::Five => '5',
        Rank::Six => '6',
        Rank::Seven => '7',
        Rank::Eight => '8',
        Rank::Nine => '9',
        Rank::Ten => 'T',
        Rank::Jack => 'J',
        Rank::Queen => 'Q',
        Rank::King => 'K',
        Rank::Ace => 'A',
    }
}

impl Rank {
    /// Numeric strength of this rank, matching `rank_val`.
    pub fn val(self) -> (v: u8)
        ensures
            v == rank_val(self),
    {
        match self {
            Rank::Two => 0,
            Rank::Three => 1,
            Rank::Four => 2,
            Rank::Five => 3,
            Rank::Six => 4,
            Rank::Seven => 5,
            Rank::Eight => 6,
            Rank::Nine => 7,
            Rank::Ten => 8,
            Rank::Jack => 9,
            Rank::Queen => 10,
            Rank::King => 11,
            Rank::Ace => 12,
        }
    }

    /// The rank of numeric strength `v`.
    pub fn from_val(v: u8) -> (r: Rank)
        requires
            v < 13,
        ensures
            r == spec_rank_of_val(v as int),
            rank_val(r) == v,
    {
        if v == 0 {
            Rank::Two
        } else if v == 1 {
            Rank::Three
        } else if v == 2 {
            Rank::Four
        } else if v == 3 {
            Rank::Five
        } else if v == 4 {
            Rank::Six
        } else if v == 5 {
            Rank::Seven
        } else if v == 6 {
            Rank::Eight
        } else if v == 7 {
            Rank::Nine
        } else if v == 8 {
            Rank::Ten
        } else if v == 9 {
            Rank::Jack
        } else if v == 10 {
            Rank::Queen
        } else if v == 11 {
            Rank::King
        } else {
            Rank::Ace
        }
    }

    /// Reads a rank from its upper-case character; any other character is an error.
    pub fn from_char(c: char) -> (r: Result<Rank, String>)
        ensures
            match r {
                Ok(rank) => spec_rank_of_char(c) == Some(rank),
                Err(_) => spec_rank_of_char(c) is None,
            },
    {
        if c == '2' {
            Ok(Rank::Two)
        } else if c == '3' {
            Ok(Rank::Three)
        } else if c == '4' {
            Ok(Rank::Four)
        } else if c == '5' {
            Ok(Rank::Five)
        } else if c == '6' {
            Ok(Rank::Six)
        } else if c == '7' {
            Ok(Rank::Seven)
        } else if c == '8' {
            Ok(Rank::Eight)
        } else if c == '9' {
            Ok(Rank::Nine)
        } else if c == 'T' {
            Ok(Rank::Ten)
        } else if c == 'J' {
            Ok(Rank::Jack)
        } else if c == 'Q' {
            Ok(Rank::Queen)
        } else if c == 'K' {
            Ok(Rank::King)
        } else if c == 'A' {
            Ok(Rank::Ace)
        } else {
            Err("invalid rank character".to_owned())
        }
    }

    /// Lower-case display character of this rank.
    pub fn to_char_lower(&self) -> (c: char)
        ensures
            c == spec_rank_char_lower(*self),
    {
        match self {
            Rank::Two => '2',
            Rank::Three => '3',
            Rank::Four => '4',
            Rank::Five => '5',
            Rank::Six => '6',
            Rank::Seven => '7',
            Rank::Eight => '8',
            Rank::Nine => '9',
            Rank::Ten => 't',
            Rank::Jack => 'j',
            Rank::Queen => 'q',
            Rank::King => 'k',
            Rank::Ace => 'a',
        }
    }
}

/// Lower-case display character of a rank.
pub open spec fn spec_rank_char_lower(r: Rank) -> char {
    match r {
        Rank::Two => '2',
        Rank::Three => '3',
        Rank::Four => '4',
        Rank::Five => '5',
        Rank::Six => '6',
        Rank::Seven => '7',
        Rank::Eight => '8',
        Rank::Nine => '9',
        Rank::Ten => 't',
        Rank::Jack => 'j',
        Rank::Queen => 'q',
        Rank::King => 'k',
        Rank::Ace => 'a',
    }
}

/// Lower-case display character of a suit.
pub open spec fn spec_suit_char_lower(s: Suit) -> char {
    match s {
        Suit::Spades => 's',
        Suit::Hearts => 'h',
        Suit::Diamonds => 'd',
        Suit::Clubs => 'c',
    }
}

impl Suit {
    /// Numeric label of this suit, matching `suit_val`.
    pub fn val(self) -> (v: u8)
        ensures
            v == suit_val(self),
    {
        match self {
            Suit::Spades => 0,
            Suit::Hearts => 1,
            Suit::Diamonds => 2,
            Suit::Clubs => 3,
        }
    }

    /// The suit of numeric label `v`.
    pub fn from_val(v: u8) -> (s: Suit)
        requires
            v < 4,
        ensures
            s == spec_suit_of_val(v as int),
            suit_val(s) == v,
    {
        if v == 0 {
            Suit::Spades
        } else if v == 1 {
            Suit::Hearts
        } else if v == 2 {
            Suit::Diamonds
        } else {
            Suit::Clubs
        }
    }

    /// Lower-case display character of this suit.
    pub fn to_char_lower(&self) -> (c: char)
        ensures
            c == spec_suit_char_lower(*self),
    {
        match self {
            Suit::Spades => 's',
            Suit::Hearts => 'h',
            Suit::Diamonds => 'd',
            Suit::Clubs => 'c',
        }
    }

    /// Asset lookup name of this suit: `suit_` followed by its character.
    pub fn to_asset_string(&self) -> (r: String)
        ensures
            r@ == seq!['s', 'u', 'i', 't', '_', spec_suit_char_lower(*self)],
    {
        proof {
            reveal_strlit("suit_s");
            reveal_strlit("suit_h");
            reveal_strlit("suit_d");
            reveal_strlit("suit_c");
        }
        let s: &str = match self {
            Suit::Spades => "suit_s",
            Suit::Hearts => "suit_h",
            Suit::Diamonds => "suit_d",
            Suit::Clubs => "suit_c",
        };
        let r = s.to_owned();
        proof {
            assert(r@ =~= seq!['s', 'u', 'i', 't', '_', spec_suit_char_lower(*self)]);
        }
        r
    }
}

/// A playing card.
#[derive(Clone, Copy, Debug, PartialEq, Eq, Structural, Hash)]
pub struct Card {
    pub rank: Rank,
    pub suit: Suit,
}

/// Numeric label of a card, distinct for each of the 52 cards.
pub open spec fn card_code(c: Card) -> int {
    suit_val(c.suit) * 13 + rank_val(c.rank)
}

/// Distinct cards have distinct codes.
pub proof fn lemma_card_code_injective(a: Card, b: Card)
    requires
        card_code(a) == card_code(b),
    ensures
        a == b,
{
    assert(0 <= rank_val(a.rank) < 13);
    assert(0 <= rank_val(b.rank) < 13);
    assert(suit_val(a.suit) == suit_val(b.suit) && rank_val(a.rank) == rank_val(b.rank));
    assert(a.suit == b.suit);
    assert(a.rank == b.rank);
}

/// A concrete dealt hand: two cards.
#[derive(Clone, Copy, Debug)]
pub struct Hand {
    pub card1: Card,
    pub card2: Card,
}

/// The kind of a hand class: a pocket pair, two suited cards, or two
/// offsuit cards.
#[derive(Clone, Copy, Debug, PartialEq, Eq, Structural, Hash)]
pub enum HandType {
    Pair,
    Suited,
    Offsuit,
}

/// Numeric label of a hand-class kind.
pub open spec fn kind_val(k: HandType) -> int {
    match k {
        HandType::Pair => 0,
        HandType::Suited => 1,
        HandType::Offsuit => 2,
    }
}

/// A canonical hand class, such as `AKs`: the two ranks with the higher
/// first, and the kind. Exactly 169 well-formed values exist:
/// 13 pairs, 78 suited and 78 offsuit classes.
#[derive(Clone, Copy, Debug, PartialEq, Eq, Structural, Hash)]
pub struct HandNotation {
    pub rank1: Rank,
    pub rank2: Rank,
    pub hand_type: HandType,
}

impl HandNotation {
    /// Well-formedness: a pair holds one rank twice; a suited or offsuit
    /// class holds a strictly higher first rank.
    pub open spec fn wf(self) -> bool {
        match self.hand_type {
            HandType::Pair => self.rank1 == self.rank2,
            HandType::Suited => rank_val(self.rank1) > rank_val(self.rank2),
            HandType::Offsuit => rank_val(self.rank1) > rank_val(self.rank2),
        }
    }
}

/// Numeric label of a hand class, distinct for each well-formed class.
pub open spec fn class_code(hc: HandNotation) -> int {
    kind_val(hc.hand_type) * 169 + rank_val(hc.rank1) * 13 + rank_val(hc.rank2)
}

/// Distinct well-formed hand classes have distinct codes.
pub proof fn lemma_class_code_injective(a: HandNotation, b: HandNotation)
    requires
        class_code(a) == class_code(b),
    ensures
        a == b,
{
    assert(0 <= rank_val(a.rank1) < 13 && 0 <= rank_val(a.rank2) < 13);
    assert(0 <= rank_val(b.rank1) < 13 && 0 <= rank_val(b.rank2) < 13);
    assert(0 <= kind_val(a.hand_type) < 3 && 0 <= kind_val(b.hand_type) < 3);
    assert(kind_val(a.hand_type) == kind_val(b.hand_type));
    assert(rank_val(a.rank1) == rank_val(b.rank1) && rank_val(a.rank2) == rank_val(b.rank2));
    assert(a.hand_type == b.hand_type);
    assert(a.rank1 == b.rank1 && a.rank2 == b.rank2);
}

/// The class of a concrete hand: the higher rank first, and the kind read
/// off the two cards — a pair on equal ranks, suited on equal suits,
/// offsuit otherwise.
pub open spec fn spec_classify(h: Hand) -> HandNotation {
    let r1 = h.card1.rank;
    let r2 = h.card2.rank;
    let hi = if rank_val(r1) >= rank_val(r2) {
        r1
    } else {
        r2
    };
    let lo = if rank_val(r1) >= rank_val(r2) {
        r2
    } else {
        r1
    };
    HandNotation {
        rank1: hi,
        rank2: lo,
        hand_type: if r1 == r2 {
            HandType::Pair
        } else if h.card1.suit == h.card2.suit {
            HandType::Suited
        } else {
            HandType::Offsuit
        },
    }
}

/// Classification does not depend on the order of the two cards.
/// This holds of every hand, pairs included.
pub proof fn lemma_classify_symmetric(h: Hand)
    ensures
        spec_classify(Hand { card1: h.card2, card2: h.card1 }) == spec_classify(h),
{
}

/// The class of a hand is well formed: equal ranks classify as a pair,
/// and otherwise the higher rank comes first.
pub proof fn lemma_classify_wf(h: Hand)
    ensures
        spec_classify(h).wf(),
{
}

impl HandNotation {
    /// Classifies a concrete hand.
    pub fn from_hand(hand: Hand) -> (r: HandNotation)
        ensures
            r == spec_classify(hand),
    {
        let v1 = hand.card1.rank.val();
        let v2 = hand.card2.rank.val();
        let (rank1, rank2) = if v1 >= v2 {
            (hand.card1.rank, hand.card2.rank)
        } else {
            (hand.card2.rank, hand.card1.rank)
        };
        let hand_type = if hand.card1.rank == hand.card2.rank {
            HandType::Pair
        } else if hand.card1.suit == hand.card2.suit {
            HandType::Suited
        } else {
            HandType::Offsuit
        };
        HandNotation { rank1, rank2, hand_type }
    }
}

/// The hand class denoted by a piece of text: two equal rank characters
/// for a pair, or two distinct rank characters and a suitedness letter
/// (`s`/`o`, either case) with the ranks normalized to high first.
pub open spec fn spec_parse_class(s: Seq<char>) -> Option<HandNotation> {
    if s.len() == 2 {
        match (spec_rank_of_char(s[0]), spec_rank_of_char(s[1])) {
            (Some(r1), Some(r2)) => if r1 == r2 {
                Some(HandNotation { rank1: r1, rank2: r2, hand_type: HandType::Pair })
            } else {
                None
            },
            _ => None,
        }
    } else if s.len() == 3 {
        match (spec_rank_of_char(s[0]), spec_rank_of_char(s[1])) {
            (Some(r1), Some(r2)) => if r1 == r2 {
                None
            } else {
                let hand_type = if s[2] == 's' || s[2] == 'S' {
                    Some(HandType::Suited)
                } else if s[2] == 'o' || s[2] == 'O' {
                    Some(HandType::Offsuit)
                } else {
                    None
                };
                match hand_type {
                    Some(k) => if rank_val(r1) > rank_val(r2) {
                        Some(HandNotation { rank1: r1, rank2: r2, hand_type: k })
                    } else {
                        Some(HandNotation { rank1: r2, rank2: r1, hand_type: k })
                    },
                    None => None,
                }
            },
            _ => None,
        }
    } else {
        None
    }
}

/// A hand class read from text is well formed.
pub proof fn lemma_parse_class_wf(s: Seq<char>)
    ensures
        match spec_parse_class(s) {
            Some(hc) => hc.wf(),
            None => true,
        },
{
}

/// The canonical text of a hand class: the two rank characters, high
/// first, then `s` or `o` unless the class is a pair.
pub open spec fn spec_format_class(hc: HandNotation) -> Seq<char> {
    match hc.hand_type {
        HandType::Pair => seq![rank_char(hc.rank1), rank_char(hc.rank2)],
        HandType::Suited => seq![rank_char(hc.rank1), rank_char(hc.rank2), 's'],
        HandType::Offsuit => seq![rank_char(hc.rank1), rank_char(hc.rank2), 'o'],
    }
}

/// Reading back the canonical text of a well-formed hand class yields
/// that class again.
pub proof fn lemma_class_text_round_trip(hc: HandNotation)
    requires
        hc.wf(),
    ensures
        spec_parse_class(spec_format_class(hc)) == Some(hc),
{
    assert(spec_rank_of_char(rank_char(hc.rank1)) == Some(hc.rank1));
    assert(spec_rank_of_char(rank_char(hc.rank2)) == Some(hc.rank2));
}

impl HandNotation {
    /// Reads a hand class from characters, as `spec_parse_class` describes;
    /// anything else is an error.
    pub fn parse_chars(v: &Vec<char>) -> (r: Result<HandNotation, String>)
        ensures
            match r {
                Ok(hc) => spec_parse_class(v@) == Some(hc),
                Err(_) => spec_parse_class(v@) is None,
            },
    {
        if v.len() == 2 {
            let r1 = match Rank::from_char(v[0]) {
                Ok(r) => r,
                Err(e) => {
                    return Err(e);
                },
            };
            let r2 = match Rank::from_char(v[1]) {
                Ok(r) => r,
                Err(e) => {
                    return Err(e);
                },
            };
            if r1 == r2 {
                Ok(HandNotation { rank1: r1, rank2: r2, hand_type: HandType::Pair })
            } else {
                Err("invalid pair notation".to_owned())
            }
        } else if v.len() == 3 {
            let r1 = match Rank::from_char(v[0]) {
                Ok(r) => r,
                Err(e) => {
                    return Err(e);
                },
            };
            let r2 = match Rank::from_char(v[1]) {
                Ok(r) => r,
                Err(e) => {
                    return Err(e);
                },
            };
            if r1 == r2 {
                return Err("invalid suited or offsuit notation for a pair".to_owned());
            }
            let c = v[2];
            let hand_type = if c == 's' || c == 'S' {
                HandType::Suited
            } else if c == 'o' || c == 'O' {
                HandType::Offsuit
            } else {
                return Err("invalid hand type character".to_owned());
            };
            if r1.val() > r2.val() {
                Ok(HandNotation { rank1: r1, rank2: r2, hand_type })
            } else {
                Ok(HandNotation { rank1: r2, rank2: r1, hand_type })
            }
        } else {
            Err("invalid hand notation length".to_owned())
        }
    }

    /// Reads a hand class from text.
    pub fn from_text(s: &str) -> (r: Result<HandNotation, String>)
        ensures
            match r {
                Ok(hc) => spec_parse_class(s@) == Some(hc),
                Err(_) => spec_parse_class(s@) is None,
            },
    {
        let v = crate::text::chars_of(s);
        HandNotation::parse_chars(&v)
    }

    /// The canonical text of this hand class.
    pub fn to_text(&self) -> (r: String)
        ensures
            r@ == spec_format_class(*self),
    {
        let mut out = rank_str(self.rank1).to_owned();
        out.append(rank_str(self.rank2));
        match self.hand_type {
            HandType::Pair => {},
            HandType::Suited => {
                proof {
                    reveal_strlit("s");
                }
                out.append("s");
            },
            HandType::Offsuit => {
                proof {
                    reveal_strlit("o");
                }
                out.append("o");
            },
        }
        proof {
            assert(out@ =~= spec_format_class(*self));
        }
        out
    }
}

impl core::str::FromStr for HandNotation {
    type Err = String;

    fn from_str(s: &str) -> Result<HandNotation, String> {
        HandNotation::from_text(s)
    }
}

/// The one-character string of a rank's upper-case character.
fn rank_str(r: Rank) -> (s: &'static str)
    ensures
        s@ == seq![rank_char(r)],
{
    proof {
        reveal_strlit("2");
        reveal_strlit("3");
        reveal_strlit("4");
        reveal_strlit("5");
        reveal_strlit("6");
        reveal_strlit("7");
        reveal_strlit("8");
        reveal_strlit("9");
        reveal_strlit("T");
        reveal_strlit("J");
        reveal_strlit("Q");
        reveal_strlit("K");
        reveal_strlit("A");
    }
    let s: &'static str = match r {
        Rank::Two => "2",
        Rank::Three => "3",
        Rank::Four => "4",
        Rank::Five => "5",
        Rank::Six => "6",
        Rank::Seven => "7",
        Rank::Eight => "8",
        Rank::Nine => "9",
        Rank::Ten => "T",
        Rank::Jack => "J",
        Rank::Queen => "Q",
        Rank::King => "K",
        Rank::Ace => "A",
    };
    proof {
        assert(s@ =~= seq![rank_char(r)]);
    }
    s
}

/// An element already in a sequence, or the element pushed, is in the
/// sequence after the push.
proof fn lemma_push_contains<A>(s: Seq<A>, x: A, y: A)
    requires
        s.contains(y) || y == x,
    ensures
        s.push(x).contains(y),
{
    if y == x {
        assert(s.push(x)[s.len() as int] == x);
    } else {
        let i = choose|i: int| 0 <= i < s.len() && s[i] == y;
        assert(s.push(x)[i] == y);
    }
}

/// The triangle number: how many rank pairs (h, l) with l below h have a
/// high rank below `h`.
pub open spec fn tri(h: int) -> int {
    h * (h - 1) / 2
}

proof fn lemma_tri_step(h: int)
    requires
        h >= 0,
    ensures
        tri(h + 1) == tri(h) + h,
{
    if h % 2 == 0 {
        let k = h / 2;
        assert(h == 2 * k);
        assert(h * (h - 1) == 2 * (k * (h - 1))) by (nonlinear_arith)
            requires
                h == 2 * k,
        ;
        assert((h + 1) * h == 2 * (k * (h + 1))) by (nonlinear_arith)
            requires
                h == 2 * k,
        ;
        vstd::arithmetic::div_mod::lemma_div_multiples_vanish(k * (h - 1), 2);
        vstd::arithmetic::div_mod::lemma_div_multiples_vanish(k * (h + 1), 2);
        assert(k * (h + 1) == k * (h - 1) + 2 * k) by (nonlinear_arith);
    } else {
        let k = (h - 1) / 2;
        assert(h - 1 == 2 * k);
        assert(h * (h - 1) == 2 * (k * h)) by (nonlinear_arith)
            requires
                h - 1 == 2 * k,
        ;
        assert((h + 1) * h == 2 * ((k + 1) * h)) by (nonlinear_arith)
            requires
                h - 1 == 2 * k,
        ;
        vstd::arithmetic::div_mod::lemma_div_multiples_vanish(k * h, 2);
        vstd::arithmetic::div_mod::lemma_div_multiples_vanish((k + 1) * h, 2);
        assert((k + 1) * h == k * h + h) by (nonlinear_arith);
    }
}

/// What it is to be the class universe: the 169 well-formed hand
/// classes, each exactly once.
pub open spec fn is_class_universe(s: Seq<HandNotation>) -> bool {
    &&& s.len() == 169
    &&& forall|i: int| 0 <= i < 169 ==> (#[trigger] s[i]).wf()
    &&& forall|i: int, j: int| 0 <= i < j < 169 ==> s[i] != s[j]
    &&& forall|hc: HandNotation| hc.wf() ==> s.contains(hc)
}

/// The universe of the 169 well-formed hand classes, in a fixed order:
/// the 13 pairs by rising rank, then the 78 suited classes, then the 78
/// offsuit classes. Every well-formed class appears exactly once.
pub fn get_all_possible_hand_notations() -> (r: Vec<HandNotation>)
    ensures
        is_class_universe(r@),
        r@.len() == 169,
        forall|i: int| 0 <= i < 169 ==> (#[trigger] r@[i]).wf(),
        forall|i: int, j: int| 0 <= i < j < 169 ==> r@[i] != r@[j],
        forall|i: int| 0 <= i < 13 ==> (#[trigger] r@[i]).hand_type == HandType::Pair,
        forall|i: int| 13 <= i < 91 ==> (#[trigger] r@[i]).hand_type == HandType::Suited,
        forall|i: int| 91 <= i < 169 ==> (#[trigger] r@[i]).hand_type == HandType::Offsuit,
        forall|hc: HandNotation| hc.wf() ==> r@.contains(hc),
{
    let mut r: Vec<HandNotation> = Vec::new();

    // Pairs, by rising rank.
    for v in 0..13u8
        invariant
            r@.len() == v as int,
            forall|i: int| 0 <= i < r@.len() ==> (#[trigger] r@[i]).wf(),
            forall|i: int| 0 <= i < r@.len() ==> (#[trigger] r@[i]).hand_type == HandType::Pair,
            forall|i: int| 0 <= i < r@.len() ==> class_code(#[trigger] r@[i]) < 14 * (v as int),
            forall|i: int, j: int| 0 <= i < j < r@.len() ==> r@[i] != r@[j],
            forall|rv: int|
                0 <= rv < v as int ==> r@.contains(
                    HandNotation {
                        rank1: spec_rank_of_val(rv),
                        rank2: spec_rank_of_val(rv),
                        hand_type: HandType::Pair,
                    },
                ),
    {
        let rank = Rank::from_val(v);
        let hc = HandNotation { rank1: rank, rank2: rank, hand_type: HandType::Pair };
        proof {
            assert(class_code(hc) == 14 * (v as int));
            assert forall|i: int, j: int| 0 <= i < j < r@.push(hc).len() implies r@.push(hc)[i]
                != r@.push(hc)[j] by {
                if j == r@.len() as int {
                    assert(class_code(r@[i]) < class_code(hc));
                }
            }
            assert forall|rv: int|
                0 <= rv < v as int + 1 implies r@.push(hc).contains(
                HandNotation {
                    rank1: spec_rank_of_val(rv),
                    rank2: spec_rank_of_val(rv),
                    hand_type: HandType::Pair,
                },
            ) by {
                let target = HandNotation {
                    rank1: spec_rank_of_val(rv),
                    rank2: spec_rank_of_val(rv),
                    hand_type: HandType::Pair,
                };
                if rv < v as int {
                    lemma_push_contains(r@, hc, target);
                } else {
                    lemma_push_contains(r@, hc, hc);
                }
            }
        }
        r.push(hc);
    }

    // Suited classes, by rising high rank, then rising low rank.
    for hv in 1..13u8
        invariant
            r@.len() == 13 + tri(hv as int),
            forall|i: int| 0 <= i < r@.len() ==> (#[trigger] r@[i]).wf(),
            forall|i: int| 0 <= i < 13 ==> (#[trigger] r@[i]).hand_type == HandType::Pair,
            forall|i: int| 13 <= i < r@.len() ==> (#[trigger] r@[i]).hand_type == HandType::Suited,
            forall|i: int|
                0 <= i < r@.len() ==> class_code(#[trigger] r@[i]) < 169 + 13 * (hv as int),
            forall|i: int, j: int| 0 <= i < j < r@.len() ==> r@[i] != r@[j],
            forall|rv: int|
                0 <= rv < 13 ==> r@.contains(
                    HandNotation {
                        rank1: spec_rank_of_val(rv),
                        rank2: spec_rank_of_val(rv),
                        hand_type: HandType::Pair,
                    },
                ),
            forall|h: int, l: int|
                0 <= l < h < hv as int ==> r@.contains(
                    HandNotation {
                        rank1: spec_rank_of_val(h),
                        rank2: spec_rank_of_val(l),
                        hand_type: HandType::Suited,
                    },
                ),
    {
        let rank1 = Rank::from_val(hv);
        for lv in 0..hv
            invariant
                hv < 13,
                rank1 == spec_rank_of_val(hv as int),
                r@.len() == 13 + tri(hv as int) + lv as int,
                forall|i: int| 0 <= i < r@.len() ==> (#[trigger] r@[i]).wf(),
                forall|i: int| 0 <= i < 13 ==> (#[trigger] r@[i]).hand_type == HandType::Pair,
                forall|i: int|
                    13 <= i < r@.len() ==> (#[trigger] r@[i]).hand_type == HandType::Suited,
                forall|i: int|
                    0 <= i < r@.len() ==> class_code(#[trigger] r@[i]) < 169 + 13 * (hv as int)
                        + lv as int,
                forall|i: int, j: int| 0 <= i < j < r@.len() ==> r@[i] != r@[j],
                forall|rv: int|
                    0 <= rv < 13 ==> r@.contains(
                        HandNotation {
                            rank1: spec_rank_of_val(rv),
                            rank2: spec_rank_of_val(rv),
                            hand_type: HandType::Pair,
                        },
                    ),
                forall|h: int, l: int|
                    0 <= l < h < hv as int || (h == hv as int && 0 <= l < lv as int)
                        ==> r@.contains(
                        HandNotation {
                            rank1: spec_rank_of_val(h),
                            rank2: spec_rank_of_val(l),
                            hand_type: HandType::Suited,
                        },
                    ),
        {
            let rank2 = Rank::from_val(lv);
            let hc = HandNotation { rank1, rank2, hand_type: HandType::Suited };
            proof {
                assert(class_code(hc) == 169 + 13 * (hv as int) + lv as int);
                assert forall|i: int, j: int| 0 <= i < j < r@.push(hc).len() implies r@.push(
                    hc,
                )[i] != r@.push(hc)[j] by {
                    if j == r@.len() as int {
                        assert(class_code(r@[i]) < class_code(hc));
                    }
                }
                assert forall|a: HandNotation| r@.contains(a) implies r@.push(hc).contains(a) by {
                    lemma_push_contains(r@, hc, a);
                }
                lemma_push_contains(r@, hc, hc);
            }
            r.push(hc);
        }
        proof {
            lemma_tri_step(hv as int);
        }
    }

    proof {
        assert(tri(13) == 78);
        assert(r@.len() == 91);
        assert(tri(1) == 0);
        assert(r@.len() == 91 + tri(1));
    }

    // Offsuit classes, in the same order.
    for hv in 1..13u8
        invariant
            r@.len() == 91 + tri(hv as int),
            forall|i: int| 0 <= i < r@.len() ==> (#[trigger] r@[i]).wf(),
            forall|i: int| 0 <= i < 13 ==> (#[trigger] r@[i]).hand_type == HandType::Pair,
            forall|i: int| 13 <= i < 91 ==> (#[trigger] r@[i]).hand_type == HandType::Suited,
            forall|i: int| 91 <= i < r@.len() ==> (#[trigger] r@[i]).hand_type == HandType::Offsuit,
            forall|i: int|
                0 <= i < r@.len() ==> class_code(#[trigger] r@[i]) < 338 + 13 * (hv as int),
            forall|i: int, j: int| 0 <= i < j < r@.len() ==> r@[i] != r@[j],
            forall|rv: int|
                0 <= rv < 13 ==> r@.contains(
                    HandNotation {
                        rank1: spec_rank_of_val(rv),
                        rank2: spec_rank_of_val(rv),
                        hand_type: HandType::Pair,
                    },
                ),
            forall|h: int, l: int|
                0 <= l < h < 13 ==> r@.contains(
                    HandNotation {
                        rank1: spec_rank_of_val(h),
                        rank2: spec_rank_of_val(l),
                        hand_type: HandType::Suited,
                    },
                ),
            forall|h: int, l: int|
                0 <= l < h < hv as int ==> r@.contains(
                    HandNotation {
                        rank1: spec_rank_of_val(h),
                        rank2: spec_rank_of_val(l),
                        hand_type: HandType::Offsuit,
                    },
                ),
    {
        let rank1 = Rank::from_val(hv);
        for lv in 0..hv
            invariant
                hv < 13,
                rank1 == spec_rank_of_val(hv as int),
                r@.len() == 91 + tri(hv as int) + lv as int,
                forall|i: int| 0 <= i < r@.len() ==> (#[trigger] r@[i]).wf(),
                forall|i: int| 0 <= i < 13 ==> (#[trigger] r@[i]).hand_type == HandType::Pair,
                forall|i: int| 13 <= i < 91 ==> (#[trigger] r@[i]).hand_type == HandType::Suited,
                forall|i: int|
                    91 <= i < r@.len() ==> (#[trigger] r@[i]).hand_type == HandType::Offsuit,
                forall|i: int|
                    0 <= i < r@.len() ==> class_code(#[trigger] r@[i]) < 338 + 13 * (hv as int)
                        + lv as int,
                forall|i: int, j: int| 0 <= i < j < r@.len() ==> r@[i] != r@[j],
                forall|rv: int|
                    0 <= rv < 13 ==> r@.contains(
                        HandNotation {
                            rank1: spec_rank_of_val(rv),
                            rank2: spec_rank_of_val(rv),
                            hand_type: HandType::Pair,
                        },
                    ),
                forall|h: int, l: int|
                    0 <= l < h < 13 ==> r@.contains(
                        HandNotation {
                            rank1: spec_rank_of_val(h),
                            rank2: spec_rank_of_val(l),
                            hand_type: HandType::Suited,
                        },
                    ),
                forall|h: int, l: int|
                    0 <= l < h < hv as int || (h == hv as int && 0 <= l < lv as int)
                        ==> r@.contains(
                        HandNotation {
                            rank1: spec_rank_of_val(h),
                            rank2: spec_rank_of_val(l),
                            hand_type: HandType::Offsuit,
                        },
                    ),
        {
            let rank2 = Rank::from_val(lv);
            let hc = HandNotation { rank1, rank2, hand_type: HandType::Offsuit };
            proof {
                assert(class_code(hc) == 338 + 13 * (hv as int) + lv as int);
                assert forall|i: int, j: int| 0 <= i < j < r@.push(hc).len() implies r@.push(
                    hc,
                )[i] != r@.push(hc)[j] by {
                    if j == r@.len() as int {
                        assert(class_code(r@[i]) < class_code(hc));
                    }
                }
                assert forall|a: HandNotation| r@.contains(a) implies r@.push(hc).contains(a) by {
                    lemma_push_contains(r@, hc, a);
                }
                lemma_push_contains(r@, hc, hc);
            }
            r.push(hc);
        }
        proof {
            lemma_tri_step(hv as int);
        }
    }

    proof {
        assert(r@.len() == 169);
        assert forall|hc: HandNotation| hc.wf() implies r@.contains(hc) by {
            let h = rank_val(hc.rank1);
            let l = rank_val(hc.rank2);
            assert(spec_rank_of_val(h) == hc.rank1);
            assert(spec_rank_of_val(l) == hc.rank2);
        }
    }
    r
}

} // verus!
