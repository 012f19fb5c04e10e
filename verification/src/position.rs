//! Seating positions and quiz situations: the six table positions, the
//! two situation kinds, and their text identifiers.

use vstd::prelude::*;

use crate::text::{chars_of, spec_find};

verus! {

/// The six seating positions, in table order.
#[derive(Clone, Copy, Debug, PartialEq, Eq, Structural, Hash)]
pub enum Position {
    UTG,
    MP,
    CO,
    BTN,
    SB,
    BB,
}

/// Numeric label of a position, in table order.
pub open spec fn position_index(p: Position) -> int {
    match p {
        Position::UTG => 0,
        Position::MP => 1,
        Position::CO => 2,
        Position::BTN => 3,
        Position::SB => 4,
        Position::BB => 5,
    }
}

/// The upper-case form of an ASCII letter; any other character is
/// unchanged.
pub open spec fn spec_upper(c: char) -> char {
    if c == 'a' {
        'A'
    } else if c == 'b' {
        'B'
    } else if c == 'c' {
        'C'
    } else if c == 'd' {
        'D'
    } else if c == 'e' {
        'E'
    } else if c == 'f' {
        'F'
    } else if c == 'g' {
        'G'
    } else if c == 'h' {
        'H'
    } else if c == 'i' {
        'I'
    } else if c == 'j' {
        'J'
    } else if c == 'k' {
        'K'
    } else if c == 'l' {
        'L'
    } else if c == 'm' {
        'M'
    } else if c == 'n' {
        'N'
    } else if c == 'o' {
        'O'
    } else if c == 'p' {
        'P'
    } else if c == 'q' {
        'Q'
    } else if c == 'r' {
        'R'
    } else if c == 's' {
        'S'
    } else if c == 't' {
        'T'
    } else if c == 'u' {
        'U'
    } else if c == 'v' {
        'V'
    } else if c == 'w' {
        'W'
    } else if c == 'x' {
        'X'
    } else if c == 'y' {
        'Y'
    } else if c == 'z' {
        'Z'
    } else {
        c
    }
}

/// The characters of `s` upper-cased.
pub open spec fn spec_upper_seq(s: Seq<char>) -> Seq<char> {
    s.map(|i: int, c: char| spec_upper(c))
}

/// The position a piece of text names, compared without regard to
/// letter case; anything but the six canonical codes is nothing.
pub open spec fn spec_parse_position(s: Seq<char>) -> Option<Position> {
    let u = spec_upper_seq(s);
    if u == seq!['U', 'T', 'G'] {
        Some(Position::UTG)
    } else if u == seq!['M', 'P'] {
        Some(Position::MP)
    } else if u == seq!['C', 'O'] {
        Some(Position::CO)
    } else if u == seq!['B', 'T', 'N'] {
        Some(Position::BTN)
    } else if u == seq!['S', 'B'] {
        Some(Position::SB)
    } else if u == seq!['B', 'B'] {
        Some(Position::BB)
    } else {
        None
    }
}

/// The upper-case form of an ASCII letter, matching `spec_upper`.
fn upper(c: char) -> (r: char)
    ensures
        r == spec_upper(c),
{
    if c == 'a' {
        'A'
    } else if c == 'b' {
        'B'
    } else if c == 'c' {
        'C'
    } else if c == 'd' {
        'D'
    } else if c == 'e' {
        'E'
    } else if c == 'f' {
        'F'
    } else if c == 'g' {
        'G'
    } else if c == 'h' {
        'H'
    } else if c == 'i' {
        'I'
    } else if c == 'j' {
        'J'
    } else if c == 'k' {
        'K'
    } else if c == 'l' {
        'L'
    } else if c == 'm' {
        'M'
    } else if c == 'n' {
        'N'
    } else if c == 'o' {
        'O'
    } else if c == 'p' {
        'P'
    } else if c == 'q' {
        'Q'
    } else if c == 'r' {
        'R'
    } else if c == 's' {
        'S'
    } else if c == 't' {
        'T'
    } else if c == 'u' {
        'U'
    } else if c == 'v' {
        'V'
    } else if c == 'w' {
        'W'
    } else if c == 'x' {
        'X'
    } else if c == 'y' {
        'Y'
    } else if c == 'z' {
        'Z'
    } else {
        c
    }
}

/// The characters of `v` upper-cased.
fn upper_vec(v: &Vec<char>) -> (r: Vec<char>)
    ensures
        r@ == spec_upper_seq(v@),
{
    let n = v.len();
    let mut r: Vec<char> = Vec::new();
    for i in 0..n
        invariant
            n == v@.len(),
            r@.len() == i,
            forall|j: int| 0 <= j < i ==> r@[j] == spec_upper(v@[j]),
    {
        r.push(upper(v[i]));
    }
    proof {
        assert(r@ =~= spec_upper_seq(v@));
    }
    r
}

impl Position {
    /// Numeric label of this position, matching `position_index`.
    pub fn index(self) -> (r: u8)
        ensures
            r == position_index(self),
    {
        match self {
            Position::UTG => 0,
            Position::MP => 1,
            Position::CO => 2,
            Position::BTN => 3,
            Position::SB => 4,
            Position::BB => 5,
        }
    }

    /// Whether this position can open the pot: every position but the
    /// big blind.
    pub fn is_opener(&self) -> (r: bool)
        ensures
            r == (*self != Position::BB),
    {
        match self {
            Position::BB => false,
            _ => true,
        }
    }

    /// Reads a position code, without regard to letter case; anything
    /// else is an error.
    pub fn from_text(s: &str) -> (r: Result<Position, String>)
        ensures
            match r {
                Ok(p) => spec_parse_position(s@) == Some(p),
                Err(_) => spec_parse_position(s@) is None,
            },
    {
        let v = chars_of(s);
        Position::parse_chars(&v)
    }

    /// Reads a position code from characters, as `spec_parse_position`
    /// describes.
    pub fn parse_chars(v: &Vec<char>) -> (r: Result<Position, String>)
        ensures
            match r {
                Ok(p) => spec_parse_position(v@) == Some(p),
                Err(_) => spec_parse_position(v@) is None,
            },
    {
        let u = upper_vec(v);
        let n = u.len();
        if n == 3 && u[0] == 'U' && u[1] == 'T' && u[2] == 'G' {
            proof {
                assert(u@ =~= seq!['U', 'T', 'G']);
            }
            Ok(Position::UTG)
        } else if n == 2 && u[0] == 'M' && u[1] == 'P' {
            proof {
                assert(u@ =~= seq!['M', 'P']);
            }
            Ok(Position::MP)
        } else if n == 2 && u[0] == 'C' && u[1] == 'O' {
            proof {
                assert(u@ =~= seq!['C', 'O']);
            }
            Ok(Position::CO)
        } else if n == 3 && u[0] == 'B' && u[1] == 'T' && u[2] == 'N' {
            proof {
                assert(u@ =~= seq!['B', 'T', 'N']);
            }
            Ok(Position::BTN)
        } else if n == 2 && u[0] == 'S' && u[1] == 'B' {
            proof {
                assert(u@ =~= seq!['S', 'B']);
            }
            Ok(Position::SB)
        } else if n == 2 && u[0] == 'B' && u[1] == 'B' {
            proof {
                assert(u@ =~= seq!['B', 'B']);
            }
            Ok(Position::BB)
        } else {
            Err("invalid position".to_owned())
        }
    }
}

/// A quiz situation: an unopened pot to be opened from a position, or
/// the big blind defending against an opener.
#[derive(Clone, Copy, Debug, PartialEq, Eq, Structural)]
pub enum SpotType {
    Open { position: Position },
    BBDefense { opener_position: Position },
}

impl SpotType {
    /// Well-formedness: the big blind never stands as an opener.
    pub open spec fn wf(self) -> bool {
        match self {
            SpotType::Open { position } => position != Position::BB,
            SpotType::BBDefense { opener_position } => opener_position != Position::BB,
        }
    }
}

/// The situation a text identifier names: a kind, an underscore, and an
/// opener position — `Open` or `BBDefense` exactly, the position in any
/// letter case, never the big blind. Anything else is nothing.
pub open spec fn spec_parse_spot(s: Seq<char>) -> Option<SpotType> {
    let k = spec_find(s, '_');
    if k >= s.len() {
        None
    } else {
        let kind = s.take(k);
        let rest = s.skip(k + 1);
        if spec_find(rest, '_') < rest.len() {
            None
        } else {
            match spec_parse_position(rest) {
                Some(p) => if p == Position::BB {
                    None
                } else if kind == seq!['O', 'p', 'e', 'n'] {
                    Some(SpotType::Open { position: p })
                } else if kind == seq!['B', 'B', 'D', 'e', 'f', 'e', 'n', 's', 'e'] {
                    Some(SpotType::BBDefense { opener_position: p })
                } else {
                    None
                },
                None => None,
            }
        }
    }
}

impl SpotType {
    /// Reads a situation identifier; anything else is an error.
    pub fn from_text(s: &str) -> (r: Result<SpotType, String>)
        ensures
            match r {
                Ok(st) => spec_parse_spot(s@) == Some(st) && st.wf(),
                Err(_) => spec_parse_spot(s@) is None,
            },
    {
        let v = chars_of(s);
        let k = find_underscore(&v);
        proof {
            crate::text::lemma_find_props(v@, '_');
        }
        if k == v.len() {
            return Err("invalid situation identifier".to_owned());
        }
        let kind = crate::text::subvec(&v, 0, k);
        let rest = crate::text::subvec(&v, k + 1, v.len());
        proof {
            assert(kind@ =~= v@.take(k as int));
            assert(rest@ =~= v@.skip(k + 1));
        }
        let k2 = find_underscore(&rest);
        proof {
            crate::text::lemma_find_props(rest@, '_');
        }
        if k2 < rest.len() {
            return Err("invalid situation identifier".to_owned());
        }
        let p = match Position::parse_chars(&rest) {
            Ok(p) => p,
            Err(e) => {
                return Err(e);
            },
        };
        if p == Position::BB {
            return Err("the big blind cannot open".to_owned());
        }
        let is_open = kind.len() == 4 && kind[0] == 'O' && kind[1] == 'p' && kind[2] == 'e'
            && kind[3] == 'n';
        if is_open {
            proof {
                assert(kind@ =~= seq!['O', 'p', 'e', 'n']);
            }
            return Ok(SpotType::Open { position: p });
        }
        let is_bbd = kind.len() == 9 && kind[0] == 'B' && kind[1] == 'B' && kind[2] == 'D'
            && kind[3] == 'e' && kind[4] == 'f' && kind[5] == 'e' && kind[6] == 'n' && kind[7]
            == 's' && kind[8] == 'e';
        if is_bbd {
            proof {
                assert(kind@ =~= seq!['B', 'B', 'D', 'e', 'f', 'e', 'n', 's', 'e']);
            }
            return Ok(SpotType::BBDefense { opener_position: p });
        }
        Err("unknown situation kind".to_owned())
    }
}

impl core::str::FromStr for Position {
    type Err = String;

    fn from_str(s: &str) -> Result<Position, String> {
        Position::from_text(s)
    }
}

impl core::str::FromStr for SpotType {
    type Err = String;

    fn from_str(s: &str) -> Result<SpotType, String> {
        SpotType::from_text(s)
    }
}

/// Index of the first underscore in `v`, or `v`'s length.
fn find_underscore(v: &Vec<char>) -> (k: usize)
    ensures
        k == spec_find(v@, '_'),
{
    crate::text::find_char(v, '_')
}

} // verus!
