//! Ranges: the mapping from hand classes to play frequencies, and the
//! compact range-string mini-language that describes one.
//!
//! A frequency is held in millionths, so `FREQ_ONE` stands for an
//! always-played class and `FREQ_ONE / 2` for one played half the time.

use vstd::prelude::*;

use crate::cards::{
    class_code, kind_val, lemma_class_code_injective, rank_val, spec_parse_class, HandNotation,
    HandType, Rank,
};
use crate::text::{
    chars_of, digit_of_char, find_char, spec_digit_of_char, spec_find, spec_trim, subvec,
    trim_vec,
};

verus! {

/// A frequency of one: the class is always played.
pub const FREQ_ONE: u32 = 1_000_000;

/// How many hand-class codes a range table holds.
pub const CLASS_TABLE_SIZE: usize = 507;

/// How many entries of `s` are present.
spec fn count_present(s: Seq<Option<u32>>) -> int
    decreases s.len(),
{
    if s.len() == 0 {
        0
    } else {
        count_present(s.drop_last()) + if s.last() is Some {
            1int
        } else {
            0int
        }
    }
}

proof fn lemma_count_present_zero(s: Seq<Option<u32>>)
    ensures
        count_present(s) >= 0,
        (count_present(s) == 0 <==> forall|i: int| 0 <= i < s.len() ==> s[i] is None),
    decreases s.len(),
{
    if s.len() > 0 {
        lemma_count_present_zero(s.drop_last());
        if count_present(s) == 0 {
            assert forall|i: int| 0 <= i < s.len() implies s[i] is None by {
                if i < s.len() - 1 {
                    assert(s.drop_last()[i] is None);
                }
            }
        } else {
            if !(s.last() is Some) {
                let w = choose|i: int| 0 <= i < s.drop_last().len() && s.drop_last()[i] is Some;
                assert(s[w] is Some);
            }
        }
    }
}

/// The classes whose code lies below `n` and whose slot is present.
spec fn dom_prefix(entries: Seq<Option<u32>>, n: int) -> Set<HandNotation> {
    Set::new(
        |hc: HandNotation|
            hc.wf() && 0 <= class_code(hc) < n && 0 <= class_code(hc) < entries.len()
                && entries[class_code(hc)] is Some,
    )
}

proof fn lemma_count_matches_dom(entries: Seq<Option<u32>>, n: int)
    requires
        0 <= n <= entries.len(),
        forall|i: int|
            0 <= i < entries.len() && entries[i] is Some ==> exists|hc: HandNotation|
                hc.wf() && class_code(hc) == i,
    ensures
        dom_prefix(entries, n).finite(),
        dom_prefix(entries, n).len() == count_present(entries.take(n)),
    decreases n,
{
    if n == 0 {
        assert(entries.take(0) =~= Seq::<Option<u32>>::empty());
        assert(dom_prefix(entries, 0) =~= Set::<HandNotation>::empty());
    } else {
        lemma_count_matches_dom(entries, n - 1);
        assert(entries.take(n).drop_last() =~= entries.take(n - 1));
        assert(entries.take(n).last() == entries[n - 1]);
        if entries[n - 1] is Some {
            let hc = choose|hc: HandNotation| hc.wf() && class_code(hc) == n - 1;
            assert forall|w: HandNotation|
                dom_prefix(entries, n).contains(w) == dom_prefix(entries, n - 1).insert(
                    hc,
                ).contains(w) by {
                if w.wf() && class_code(w) == n - 1 {
                    lemma_class_code_injective(w, hc);
                }
            }
            assert(dom_prefix(entries, n) =~= dom_prefix(entries, n - 1).insert(hc));
            assert(!dom_prefix(entries, n - 1).contains(hc));
        } else {
            assert(dom_prefix(entries, n) =~= dom_prefix(entries, n - 1));
        }
    }
}

/// A range: each well-formed hand class maps to a play frequency in
/// millionths; an absent class is implicitly never played. Viewed as a
/// map from hand class to frequency.
#[derive(Debug, Clone)]
pub struct Range {
    /// One slot per hand-class code; a present slot holds that class's
    /// frequency in millionths.
    pub entries: Vec<Option<u32>>,
}

impl View for Range {
    type V = Map<HandNotation, int>;

    /// The classes stored, each with its frequency in millionths.
    open spec fn view(&self) -> Map<HandNotation, int> {
        Map::new(
            |hc: HandNotation|
                hc.wf() && 0 <= class_code(hc) < self.entries@.len()
                    && self.entries@[class_code(hc)] is Some,
            |hc: HandNotation| self.entries@[class_code(hc)]->0 as int,
        )
    }
}

/// Every well-formed hand class has a code inside the range table.
pub proof fn lemma_class_code_bounds(hc: HandNotation)
    ensures
        0 <= class_code(hc) < 507,
{
    assert(0 <= rank_val(hc.rank1) < 13);
    assert(0 <= rank_val(hc.rank2) < 13);
    assert(0 <= kind_val(hc.hand_type) < 3);
}

impl Range {
    /// Well-formedness: the table has one slot per class code, frequencies
    /// stay within one, and a present slot belongs to some class.
    pub open spec fn wf(&self) -> bool {
        &&& self.entries@.len() == 507
        &&& forall|i: int|
            0 <= i < 507 ==> match #[trigger] self.entries@[i] {
                Some(f) => f <= 1_000_000,
                None => true,
            }
        &&& forall|i: int|
            0 <= i < 507 && self.entries@[i] is Some ==> exists|hc: HandNotation|
                hc.wf() && class_code(hc) == i
    }

    /// The frequency of `hc` in map `m`, zero when absent.
    pub open spec fn spec_freq_of(m: Map<HandNotation, int>, hc: HandNotation) -> int {
        if m.dom().contains(hc) {
            m[hc]
        } else {
            0
        }
    }

    /// An empty range: no class is played.
    pub fn new() -> (r: Range)
        ensures
            r.wf(),
            r@ == Map::<HandNotation, int>::empty(),
    {
        let mut entries: Vec<Option<u32>> = Vec::new();
        for i in 0..CLASS_TABLE_SIZE
            invariant
                entries@.len() == i,
                forall|j: int| 0 <= j < i ==> entries@[j] is None,
        {
            entries.push(None);
        }
        let r = Range { entries };
        proof {
            lemma_count_present_zero(r.entries@);
            assert(r@ =~= Map::<HandNotation, int>::empty());
        }
        r
    }

    /// Stores frequency `freq` (in millionths) for class `hc`, replacing
    /// any earlier entry.
    pub fn set(&mut self, hc: HandNotation, freq: u32)
        requires
            old(self).wf(),
            hc.wf(),
            freq <= 1_000_000,
        ensures
            final(self).wf(),
            final(self)@ == old(self)@.insert(hc, freq as int),
    {
        proof {
            lemma_class_code_bounds(hc);
        }
        let idx = class_code_exec(hc);
        self.entries[idx] = Some(freq);
        proof {
            assert forall|i: int|
                0 <= i < 507 && self.entries@[i] is Some implies exists|w: HandNotation|
                w.wf() && class_code(w) == i by {
                if i == idx {
                    assert(hc.wf() && class_code(hc) == i);
                } else {
                    assert(old(self).entries@[i] is Some);
                }
            }
            assert forall|w: HandNotation| #[trigger]
                old(self)@.insert(hc, freq as int).dom().contains(w) == self@.dom().contains(w)
                && (self@.dom().contains(w) ==> self@[w] == old(self)@.insert(hc, freq as int)[w])
            by {
                if w.wf() && w != hc && class_code(w) == class_code(hc) {
                    lemma_class_code_injective(w, hc);
                }
            }
            assert(self@ =~= old(self)@.insert(hc, freq as int));
        }
    }

    /// The stored frequency of `hc` in millionths, or nothing when the
    /// class is absent.
    pub fn get(&self, hc: HandNotation) -> (r: Option<u32>)
        requires
            self.wf(),
            hc.wf(),
        ensures
            match r {
                Some(f) => self@.dom().contains(hc) && self@[hc] == f as int && f <= 1_000_000,
                None => !self@.dom().contains(hc),
            },
    {
        proof {
            lemma_class_code_bounds(hc);
        }
        let idx = class_code_exec(hc);
        self.entries[idx]
    }

    /// Whether `hc` is stored in this range.
    pub fn contains_key(&self, hc: HandNotation) -> (r: bool)
        requires
            self.wf(),
            hc.wf(),
        ensures
            r == self@.dom().contains(hc),
    {
        self.get(hc).is_some()
    }

    /// The frequency at which `hc` is played: its stored frequency, or
    /// zero when absent.
    pub fn freq_of(&self, hc: HandNotation) -> (r: u32)
        requires
            self.wf(),
            hc.wf(),
        ensures
            r == Self::spec_freq_of(self@, hc),
            r <= 1_000_000,
    {
        match self.get(hc) {
            Some(f) => f,
            None => 0,
        }
    }

    /// How many classes are stored: the size of the view's domain. Zero
    /// exactly when the range is empty.
    pub fn len(&self) -> (r: usize)
        requires
            self.wf(),
        ensures
            self@.dom().finite(),
            r == self@.dom().len(),
            (r == 0 <==> self@ == Map::<HandNotation, int>::empty()),
    {
        let n = self.entries.len();
        let mut count: usize = 0;
        for i in 0..n
            invariant
                n == self.entries@.len() == 507,
                count == count_present(self.entries@.take(i as int)),
                count <= i,
        {
            proof {
                assert(self.entries@.take(i + 1).drop_last() =~= self.entries@.take(i as int));
                assert(self.entries@.take(i + 1).last() == self.entries@[i as int]);
            }
            if self.entries[i].is_some() {
                count += 1;
            }
        }
        proof {
            assert(self.entries@.take(n as int) =~= self.entries@);
            lemma_count_present_zero(self.entries@);
            lemma_count_matches_dom(self.entries@, 507);
            assert(dom_prefix(self.entries@, 507) =~= self@.dom());
            if count == 0 {
                assert(self@ =~= Map::<HandNotation, int>::empty());
            } else {
                assert(!(forall|i: int|
                    0 <= i < self.entries@.len() ==> self.entries@[i] is None));
                let i = choose|i: int| 0 <= i < self.entries@.len() && self.entries@[i] is Some;
                let hc = choose|hc: HandNotation| hc.wf() && class_code(hc) == i;
                assert(self@.dom().contains(hc));
            }
        }
        count
    }

    /// Whether no class is stored.
    pub fn is_empty(&self) -> (r: bool)
        requires
            self.wf(),
        ensures
            r == (self@ == Map::<HandNotation, int>::empty()),
    {
        self.len() == 0
    }

    /// The two ranges laid over one another: where a class appears in
    /// both, the entry of `other` wins.
    pub fn overlaid(&self, other: &Range) -> (r: Range)
        requires
            self.wf(),
            other.wf(),
        ensures
            r.wf(),
            r@ == self@.union_prefer_right(other@),
    {
        let mut entries: Vec<Option<u32>> = Vec::new();
        for i in 0..CLASS_TABLE_SIZE
            invariant
                self.wf(),
                other.wf(),
                entries@.len() == i,
                forall|j: int|
                    0 <= j < i ==> entries@[j] == (if other.entries@[j] is Some {
                        other.entries@[j]
                    } else {
                        self.entries@[j]
                    }),
        {
            let e = if other.entries[i].is_some() {
                other.entries[i]
            } else {
                self.entries[i]
            };
            entries.push(e);
        }
        let r = Range { entries };
        proof {
            assert forall|i: int|
                0 <= i < 507 && r.entries@[i] is Some implies exists|w: HandNotation|
                w.wf() && class_code(w) == i by {
                if other.entries@[i] is Some {
                    assert(exists|w: HandNotation| w.wf() && class_code(w) == i);
                } else {
                    assert(self.entries@[i] is Some);
                }
            }
            assert(r@ =~= self@.union_prefer_right(other@));
        }
        r
    }
}

/// The value of a digit string read left to right on top of `acc`, or
/// nothing when a character is not a digit.
pub open spec fn spec_digits_val_acc(s: Seq<char>, acc: int) -> Option<int>
    decreases s.len(),
{
    if s.len() == 0 {
        Some(acc)
    } else {
        match spec_digit_of_char(s[0]) {
            Some(d) => spec_digits_val_acc(s.drop_first(), acc * 10 + d),
            None => None,
        }
    }
}

/// The value of a digit string, or nothing when a character is not a
/// digit. The empty string counts as zero.
pub open spec fn spec_digits_val(s: Seq<char>) -> Option<int> {
    spec_digits_val_acc(s, 0)
}

proof fn lemma_frac_ppm_nonneg(s: Seq<char>, scale: int)
    requires
        scale >= 0,
    ensures
        match spec_frac_ppm(s, scale) {
            Some(v) => v >= 0,
            None => true,
        },
    decreases s.len(),
{
    if s.len() > 0 {
        match spec_digit_of_char(s[0]) {
            Some(d) => {
                lemma_frac_ppm_nonneg(s.drop_first(), scale / 10);
                assert(d * scale >= 0) by (nonlinear_arith)
                    requires
                        d >= 0,
                        scale >= 0,
                ;
            },
            None => {},
        }
    }
}

proof fn lemma_digits_val_acc_ge(s: Seq<char>, acc: int)
    requires
        acc >= 0,
    ensures
        match spec_digits_val_acc(s, acc) {
            Some(v) => v >= acc,
            None => true,
        },
    decreases s.len(),
{
    if s.len() > 0 {
        match spec_digit_of_char(s[0]) {
            Some(d) => {
                lemma_digits_val_acc_ge(s.drop_first(), acc * 10 + d);
            },
            None => {},
        }
    }
}

/// The value in millionths of the fractional digits `s`, read with the
/// place value `scale` for the first digit; digits beyond the millionths
/// place are read but contribute nothing. Nothing when a character is
/// not a digit.
pub open spec fn spec_frac_ppm(s: Seq<char>, scale: int) -> Option<int>
    decreases s.len(),
{
    if s.len() == 0 {
        Some(0)
    } else {
        match spec_digit_of_char(s[0]) {
            Some(d) => match spec_frac_ppm(s.drop_first(), scale / 10) {
                Some(rest) => Some(d * scale + rest),
                None => None,
            },
            None => None,
        }
    }
}

/// The frequency denoted by a piece of text, in millionths: a plain
/// decimal number — digits, at most one dot, at least one digit in all —
/// no greater than one. Anything else, a greater value included, is
/// nothing.
pub open spec fn spec_parse_freq(s: Seq<char>) -> Option<int> {
    let d = spec_find(s, '.');
    if d == s.len() {
        if s.len() == 0 {
            None
        } else {
            match spec_digits_val(s) {
                Some(iv) => if iv * 1_000_000 <= 1_000_000 {
                    Some(iv * 1_000_000)
                } else {
                    None
                },
                None => None,
            }
        }
    } else {
        let ip = s.take(d);
        let fp = s.skip(d + 1);
        if ip.len() == 0 && fp.len() == 0 {
            None
        } else {
            match (spec_digits_val(ip), spec_frac_ppm(fp, 100_000)) {
                (Some(iv), Some(fv)) => if iv * 1_000_000 + fv <= 1_000_000 {
                    Some(iv * 1_000_000 + fv)
                } else {
                    None
                },
                _ => None,
            }
        }
    }
}

/// Reads a frequency from characters, as `spec_parse_freq` describes;
/// anything else is an error.
pub fn parse_freq(v: &Vec<char>) -> (r: Result<u32, String>)
    ensures
        match r {
            Ok(f) => spec_parse_freq(v@) == Some(f as int) && f <= 1_000_000,
            Err(_) => spec_parse_freq(v@) is None,
        },
{
    let n = v.len();
    let d = find_char(v, '.');
    proof {
        crate::text::lemma_find_props(v@, '.');
    }
    if d == n && n == 0 {
        return Err("empty frequency".to_owned());
    }
    if d < n && d == 0 && n == 1 {
        return Err("frequency needs a digit".to_owned());
    }
    // The digits before the dot.
    let ghost ip = v@.take(d as int);
    proof {
        assert(ip.skip(0) =~= ip);
        if d == n {
            assert(ip =~= v@);
        }
    }
    let mut iv: u32 = 0;
    let mut i: usize = 0;
    while i < d
        invariant
            i <= d <= n == v@.len(),
            d == spec_find(v@, '.'),
            ip == v@.take(d as int),
            d == n ==> ip == v@,
            n > 0,
            iv <= 1,
            spec_digits_val(ip) == spec_digits_val_acc(ip.skip(i as int), iv as int),
        decreases d - i,
    {
        proof {
            assert(ip.skip(i as int)[0] == v@[i as int]);
        }
        let dg = match digit_of_char(v[i]) {
            Some(dg) => dg,
            None => {
                proof {
                    assert(spec_digits_val_acc(ip.skip(i as int), iv as int) is None);
                }
                return Err("invalid frequency".to_owned());
            },
        };
        let next = iv * 10 + dg;
        proof {
            assert(dg <= 9);
            assert(ip.skip(i as int).drop_first() =~= ip.skip(i + 1));
        }
        if next > 1 {
            proof {
                lemma_digits_val_acc_ge(ip.skip(i + 1), next as int);
                assert(spec_digits_val(ip) == spec_digits_val_acc(ip.skip(i + 1), next as int));
                match spec_digits_val(ip) {
                    Some(x) => {
                        assert(x >= 2);
                        assert(x * 1_000_000 >= 2_000_000) by (nonlinear_arith)
                            requires
                                x >= 2,
                        ;
                    },
                    None => {},
                }
                if d < n {
                    lemma_frac_ppm_nonneg(v@.skip(d + 1), 100_000);
                }
            }
            return Err("frequency above one".to_owned());
        }
        iv = next;
        i += 1;
    }
    proof {
        assert(ip.skip(d as int) =~= Seq::<char>::empty());
        assert(spec_digits_val(ip) == Some(iv as int));
    }
    let total: u32 = if d == n {
        iv * 1_000_000
    } else {
        // The digits after the dot.
        let ghost fp = v@.skip(d + 1);
        proof {
            assert(fp.skip(0) =~= fp);
        }
        let mut fv: u32 = 0;
        let mut scale: u32 = 100_000;
        let mut j: usize = d + 1;
        while j < n
            invariant
                d + 1 <= j <= n == v@.len(),
                d == spec_find(v@, '.'),
                d < n,
                ip == v@.take(d as int),
                fp == v@.skip(d + 1),
                spec_digits_val(ip) == Some(iv as int),
                iv <= 1,
                fv + 10 * scale <= 1_000_000,
                spec_frac_ppm(fp, 100_000) == (match spec_frac_ppm(
                    fp.skip(j - d - 1),
                    scale as int,
                ) {
                    Some(rest) => Some(fv as int + rest),
                    None => None::<int>,
                }),
            decreases n - j,
        {
            proof {
                assert(fp.skip(j - d - 1)[0] == v@[j as int]);
            }
            let dg = match digit_of_char(v[j]) {
                Some(dg) => dg,
                None => {
                    proof {
                        assert(spec_frac_ppm(fp.skip(j - d - 1), scale as int) is None);
                    }
                    return Err("invalid frequency".to_owned());
                },
            };
            proof {
                assert(dg <= 9);
                assert(fp.skip(j - d - 1).drop_first() =~= fp.skip(j - d));
                assert(10 * ((scale as int) / 10) <= scale as int);
                assert(dg * scale <= 9 * scale) by (nonlinear_arith)
                    requires
                        dg <= 9,
                        scale >= 0,
                ;
            }
            fv = fv + dg * scale;
            scale = scale / 10;
            j += 1;
        }
        proof {
            assert(fp.skip(n - d - 1) =~= Seq::<char>::empty());
            assert(spec_frac_ppm(fp, 100_000) == Some(fv as int));
        }
        iv * 1_000_000 + fv
    };
    if total > 1_000_000 {
        Err("frequency above one".to_owned())
    } else {
        Ok(total)
    }
}

/// The classes covered by an open-ended `+` token on `base`, each at
/// frequency `freq`: for a pair, every pair of that rank or higher; for
/// a suited or offsuit class, the same high rank and kind with the low
/// rank running from the base's up to just below the high rank.
pub open spec fn spec_expansion(base: HandNotation, freq: int) -> Map<HandNotation, int> {
    if base.hand_type == HandType::Pair {
        pair_expansion_upto(rank_val(base.rank1), freq, 13)
    } else {
        suit_expansion_upto(
            base.rank1,
            base.hand_type,
            freq,
            rank_val(base.rank2),
            rank_val(base.rank1),
        )
    }
}

/// The pair classes of rank strength at least `base_val` and below
/// `bound`, each at frequency `freq`.
pub open spec fn pair_expansion_upto(base_val: int, freq: int, bound: int) -> Map<HandNotation, int> {
    Map::new(
        |hc: HandNotation|
            hc.hand_type == HandType::Pair && hc.rank1 == hc.rank2 && base_val <= rank_val(
                hc.rank1,
            ) < bound,
        |hc: HandNotation| freq,
    )
}

/// The classes of kind `kind` with high rank `hi` whose low rank's
/// strength runs from `lo_min` up to below `bound`, each at frequency
/// `freq`.
pub open spec fn suit_expansion_upto(hi: Rank, kind: HandType, freq: int, lo_min: int, bound: int) -> Map<
    HandNotation,
    int,
> {
    Map::new(
        |hc: HandNotation|
            hc.hand_type == kind && hc.rank1 == hi && lo_min <= rank_val(hc.rank2) < bound,
        |hc: HandNotation| freq,
    )
}

/// The range map after one comma-separated token is applied over `acc`:
/// the token trimmed, an optional `:` frequency read (one when missing),
/// and the class — or the open-ended `+` family — written over `acc`.
/// Nothing when any part is malformed.
pub open spec fn spec_apply_token(tok: Seq<char>, acc: Map<HandNotation, int>) -> Option<
    Map<HandNotation, int>,
> {
    let t = spec_trim(tok);
    let c = spec_find(t, ':');
    let freq_res = if c == t.len() {
        Some(1_000_000int)
    } else {
        spec_parse_freq(t.skip(c + 1))
    };
    let cls = t.take(c);
    match freq_res {
        Some(freq) => if cls.len() > 0 && cls[cls.len() - 1] == '+' {
            match spec_parse_class(cls.drop_last()) {
                Some(base) => Some(acc.union_prefer_right(spec_expansion(base, freq))),
                None => None,
            }
        } else {
            match spec_parse_class(cls) {
                Some(hc) => Some(acc.insert(hc, freq)),
                None => None,
            }
        },
        None => None,
    }
}

/// The range map after every comma-separated token of `s` is applied
/// over `acc`, left to right, later tokens overwriting earlier ones.
/// Nothing when any token is malformed.
pub open spec fn spec_parse_tokens(s: Seq<char>, acc: Map<HandNotation, int>) -> Option<
    Map<HandNotation, int>,
>
    decreases s.len(),
{
    let k = spec_find(s, ',');
    if k < 0 || k >= s.len() {
        spec_apply_token(s, acc)
    } else {
        match spec_apply_token(s.take(k), acc) {
            Some(m) => spec_parse_tokens(s.skip(k + 1), m),
            None => None,
        }
    }
}

/// The range a range string denotes: the empty string denotes the empty
/// range; otherwise its comma-separated tokens applied in order.
/// Nothing when the string is malformed.
pub open spec fn spec_parse_range(s: Seq<char>) -> Option<Map<HandNotation, int>> {
    if s.len() == 0 {
        Some(Map::empty())
    } else {
        spec_parse_tokens(s, Map::empty())
    }
}

/// Writes the open-ended pair family of `base` into `range`.
fn expand_pairs(range: &mut Range, base: HandNotation, freq: u32)
    requires
        old(range).wf(),
        base.wf(),
        base.hand_type == HandType::Pair,
        freq <= 1_000_000,
    ensures
        final(range).wf(),
        final(range)@ == old(range)@.union_prefer_right(spec_expansion(base, freq as int)),
{
    let base_val = base.rank1.val();
    let ghost m0 = range@;
    let mut v: u8 = base_val;
    while v < 13
        invariant
            range.wf(),
            base_val == rank_val(base.rank1),
            base_val <= v <= 13,
            range@ == m0.union_prefer_right(
                pair_expansion_upto(base_val as int, freq as int, v as int),
            ),
            freq <= 1_000_000,
        decreases 13 - v,
    {
        let rank = Rank::from_val(v);
        let hc = HandNotation { rank1: rank, rank2: rank, hand_type: HandType::Pair };
        range.set(hc, freq);
        proof {
            assert forall|w: HandNotation|
                pair_expansion_upto(base_val as int, freq as int, v + 1).dom().contains(w) && w
                    != hc implies pair_expansion_upto(base_val as int, freq as int, v as int).dom()
                .contains(w) by {
                if rank_val(w.rank1) == v as int {
                    crate::cards::lemma_rank_val_inverse(w.rank1);
                }
            }
            assert(m0.union_prefer_right(
                pair_expansion_upto(base_val as int, freq as int, v as int),
            ).insert(hc, freq as int) =~= m0.union_prefer_right(
                pair_expansion_upto(base_val as int, freq as int, v + 1),
            ));
        }
        v += 1;
    }
    proof {
        assert(pair_expansion_upto(base_val as int, freq as int, 13) =~= spec_expansion(
            base,
            freq as int,
        ));
        assert(range@ =~= m0.union_prefer_right(spec_expansion(base, freq as int)));
    }
}

/// Writes the open-ended suited or offsuit family of `base` into `range`.
fn expand_suits(range: &mut Range, base: HandNotation, freq: u32)
    requires
        old(range).wf(),
        base.wf(),
        base.hand_type != HandType::Pair,
        freq <= 1_000_000,
    ensures
        final(range).wf(),
        final(range)@ == old(range)@.union_prefer_right(spec_expansion(base, freq as int)),
{
    let hi = base.rank1;
    let hi_val = hi.val();
    let lo_min = base.rank2.val();
    let ghost m0 = range@;
    let mut v: u8 = lo_min;
    while v < hi_val
        invariant
            range.wf(),
            hi == base.rank1,
            hi_val == rank_val(base.rank1),
            lo_min == rank_val(base.rank2),
            lo_min <= v <= hi_val,
            hi_val < 13,
            base.hand_type != HandType::Pair,
            range@ == m0.union_prefer_right(
                suit_expansion_upto(hi, base.hand_type, freq as int, lo_min as int, v as int),
            ),
            freq <= 1_000_000,
        decreases hi_val - v,
    {
        let rank2 = Rank::from_val(v);
        let hc = HandNotation { rank1: hi, rank2, hand_type: base.hand_type };
        range.set(hc, freq);
        proof {
            assert forall|w: HandNotation|
                suit_expansion_upto(hi, base.hand_type, freq as int, lo_min as int, v + 1).dom()
                    .contains(w) && w != hc implies suit_expansion_upto(
                hi,
                base.hand_type,
                freq as int,
                lo_min as int,
                v as int,
            ).dom().contains(w) by {
                if rank_val(w.rank2) == v as int {
                    crate::cards::lemma_rank_val_inverse(w.rank2);
                }
            }
            assert(m0.union_prefer_right(
                suit_expansion_upto(hi, base.hand_type, freq as int, lo_min as int, v as int),
            ).insert(hc, freq as int) =~= m0.union_prefer_right(
                suit_expansion_upto(hi, base.hand_type, freq as int, lo_min as int, v + 1),
            ));
        }
        v += 1;
    }
    proof {
        assert(suit_expansion_upto(hi, base.hand_type, freq as int, lo_min as int, hi_val as int)
            =~= spec_expansion(base, freq as int));
        assert(range@ =~= m0.union_prefer_right(spec_expansion(base, freq as int)));
    }
}

/// Applies one comma-separated token over `range`, as `spec_apply_token`
/// describes; on an error the range is left as it was.
fn apply_token(token: &Vec<char>, range: &mut Range) -> (r: Result<(), String>)
    requires
        old(range).wf(),
    ensures
        final(range).wf(),
        match r {
            Ok(_) => Some(final(range)@) == spec_apply_token(token@, old(range)@),
            Err(_) => spec_apply_token(token@, old(range)@) is None && final(range)@ == old(
                range,
            )@,
        },
{
    let t = trim_vec(token);
    let k = find_char(&t, ':');
    proof {
        crate::text::lemma_find_props(t@, ':');
    }
    let freq: u32 = if k == t.len() {
        1_000_000
    } else {
        let tail = subvec(&t, k + 1, t.len());
        proof {
            assert(tail@ =~= t@.skip(k + 1));
        }
        match parse_freq(&tail) {
            Ok(f) => f,
            Err(e) => {
                return Err(e);
            },
        }
    };
    let cls = subvec(&t, 0, k);
    proof {
        assert(cls@ =~= t@.take(k as int));
    }
    if cls.len() > 0 && cls[cls.len() - 1] == '+' {
        let body = subvec(&cls, 0, cls.len() - 1);
        proof {
            assert(body@ =~= cls@.drop_last());
        }
        let base = match HandNotation::parse_chars(&body) {
            Ok(b) => b,
            Err(e) => {
                return Err(e);
            },
        };
        proof {
            crate::cards::lemma_parse_class_wf(body@);
        }
        match base.hand_type {
            HandType::Pair => expand_pairs(range, base, freq),
            _ => expand_suits(range, base, freq),
        }
        Ok(())
    } else {
        let hc = match HandNotation::parse_chars(&cls) {
            Ok(hc) => hc,
            Err(e) => {
                return Err(e);
            },
        };
        proof {
            crate::cards::lemma_parse_class_wf(cls@);
        }
        range.set(hc, freq);
        Ok(())
    }
}

/// Reads a range string: comma-separated tokens, each a hand class with
/// an optional `:` frequency and an optional open-ended `+`, later
/// tokens overwriting earlier ones. The empty string is the empty range;
/// any malformed token is an error.
pub fn parse_range_str(range_str: &str) -> (r: Result<Range, String>)
    ensures
        match r {
            Ok(rg) => rg.wf() && Some(rg@) == spec_parse_range(range_str@),
            Err(_) => spec_parse_range(range_str@) is None,
        },
{
    let chars = chars_of(range_str);
    let mut range = Range::new();
    if chars.len() == 0 {
        return Ok(range);
    }
    let mut rest = chars;
    loop
        invariant
            range.wf(),
            spec_parse_range(range_str@) == spec_parse_tokens(rest@, range@),
        ensures
            range.wf(),
            Some(range@) == spec_parse_range(range_str@),
        decreases rest@.len(),
    {
        let k = find_char(&rest, ',');
        proof {
            crate::text::lemma_find_props(rest@, ',');
        }
        let token = subvec(&rest, 0, k);
        proof {
            assert(token@ =~= rest@.take(k as int));
            if k == rest@.len() {
                assert(token@ =~= rest@);
            }
        }
        match apply_token(&token, &mut range) {
            Ok(_) => {},
            Err(e) => {
                return Err(e);
            },
        }
        if k == rest.len() {
            break ;
        }
        let next = subvec(&rest, k + 1, rest.len());
        proof {
            assert(next@ =~= rest@.skip(k + 1));
        }
        rest = next;
    }
    Ok(range)
}

/// The table code of a hand class, matching `class_code`.
fn class_code_exec(hc: HandNotation) -> (r: usize)
    ensures
        r == class_code(hc),
        r < 507,
{
    let k: usize = match hc.hand_type {
        HandType::Pair => 0,
        HandType::Suited => 1,
        HandType::Offsuit => 2,
    };
    k * 169 + (hc.rank1.val() as usize) * 13 + (hc.rank2.val() as usize)
}

} // verus!
