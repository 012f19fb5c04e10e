//! Strategy configuration: the per-position ranges and the allowed quiz
//! situations, and the mapping from raw configuration text to a built
//! configuration.

use vstd::prelude::*;

use crate::cards::HandNotation;
use crate::position::{
    position_index, spec_parse_position, spec_parse_spot, Position, SpotType,
};
use crate::range::{parse_range_str, spec_parse_range, Range};

verus! {

/// The open-raise range string configured for one position.
#[derive(Debug, Clone)]
pub struct PositionDetail {
    pub range: String,
}

/// The call and raise range strings configured for the big blind against
/// one opener.
#[derive(Debug, Clone)]
pub struct BBDefensePositionDetail {
    pub call_range: String,
    pub raise_range: String,
}

/// The optional explicit list of situation identifiers.
#[derive(Debug, Clone)]
pub struct GenericConfig {
    pub allowed_spot_types: Option<Vec<String>>,
}

/// Raw configuration text, as the loader hands it over: range strings
/// keyed by position name, not yet parsed.
#[derive(Debug, Clone)]
pub struct TomlConfig {
    pub unopened_raise: Vec<(String, PositionDetail)>,
    pub bb_defense: Option<Vec<(String, BBDefensePositionDetail)>>,
    pub generic: Option<GenericConfig>,
}

/// The built strategy: one range per position for opening, and one call
/// and one raise range per opener for big-blind defense, plus the
/// situations the quiz may ask.
#[derive(Debug)]
pub struct GameConfig {
    /// Open-raise range of each position, indexed by `position_index`.
    pub unopened_raise_ranges: Vec<Range>,
    /// Big-blind calling range against each opener, indexed by
    /// `position_index` of the opener.
    pub bb_defense_call_ranges: Vec<Range>,
    /// Big-blind raising range against each opener, indexed by
    /// `position_index` of the opener.
    pub bb_defense_raise_ranges: Vec<Range>,
    /// The situations the quiz may ask.
    pub allowed_spot_types: Vec<SpotType>,
}

impl GameConfig {
    /// Well-formedness: one range per position in each table, every
    /// range well formed, and no allowed situation opened by the big
    /// blind.
    pub open spec fn wf(&self) -> bool {
        &&& self.unopened_raise_ranges@.len() == 6
        &&& self.bb_defense_call_ranges@.len() == 6
        &&& self.bb_defense_raise_ranges@.len() == 6
        &&& forall|i: int| 0 <= i < 6 ==> (#[trigger] self.unopened_raise_ranges@[i]).wf()
        &&& forall|i: int| 0 <= i < 6 ==> (#[trigger] self.bb_defense_call_ranges@[i]).wf()
        &&& forall|i: int| 0 <= i < 6 ==> (#[trigger] self.bb_defense_raise_ranges@[i]).wf()
        &&& forall|i: int|
            0 <= i < self.allowed_spot_types@.len() ==> (#[trigger] self.allowed_spot_types@[i]).wf()
    }

    /// The open-raise range of `p`, as a map.
    pub open spec fn open_map(&self, p: Position) -> Map<HandNotation, int> {
        self.unopened_raise_ranges@[position_index(p)]@
    }

    /// The big-blind calling range against opener `p`, as a map.
    pub open spec fn bb_call_map(&self, p: Position) -> Map<HandNotation, int> {
        self.bb_defense_call_ranges@[position_index(p)]@
    }

    /// The big-blind raising range against opener `p`, as a map.
    pub open spec fn bb_raise_map(&self, p: Position) -> Map<HandNotation, int> {
        self.bb_defense_raise_ranges@[position_index(p)]@
    }

    /// All six open-raise maps, in position order.
    pub open spec fn open_maps(&self) -> Seq<Map<HandNotation, int>> {
        self.unopened_raise_ranges@.map(|i: int, r: Range| r@)
    }

    /// All six big-blind calling maps, in position order.
    pub open spec fn call_maps(&self) -> Seq<Map<HandNotation, int>> {
        self.bb_defense_call_ranges@.map(|i: int, r: Range| r@)
    }

    /// All six big-blind raising maps, in position order.
    pub open spec fn raise_maps(&self) -> Seq<Map<HandNotation, int>> {
        self.bb_defense_raise_ranges@.map(|i: int, r: Range| r@)
    }

    /// An empty configuration: every range empty, no situation allowed.
    pub fn new() -> (r: GameConfig)
        ensures
            r.wf(),
            r.open_maps() == empty_maps(),
            r.call_maps() == empty_maps(),
            r.raise_maps() == empty_maps(),
            r.allowed_spot_types@ == Seq::<SpotType>::empty(),
    {
        let r = GameConfig {
            unopened_raise_ranges: six_empty_ranges(),
            bb_defense_call_ranges: six_empty_ranges(),
            bb_defense_raise_ranges: six_empty_ranges(),
            allowed_spot_types: Vec::new(),
        };
        proof {
            assert(r.open_maps() =~= empty_maps());
            assert(r.call_maps() =~= empty_maps());
            assert(r.raise_maps() =~= empty_maps());
        }
        r
    }

    /// Replaces the open-raise range of `p`.
    pub fn set_unopened_raise_range(&mut self, p: Position, range: Range)
        requires
            old(self).wf(),
            range.wf(),
        ensures
            final(self).wf(),
            final(self).open_maps() == old(self).open_maps().update(position_index(p), range@),
            final(self).call_maps() == old(self).call_maps(),
            final(self).raise_maps() == old(self).raise_maps(),
            final(self).allowed_spot_types@ == old(self).allowed_spot_types@,
    {
        let idx = p.index() as usize;
        self.unopened_raise_ranges[idx] = range;
        proof {
            assert(self.open_maps() =~= old(self).open_maps().update(
                position_index(p),
                self.unopened_raise_ranges@[position_index(p)]@,
            ));
        }
    }

    /// Replaces the big-blind calling range against opener `p`.
    pub fn set_bb_call_range(&mut self, p: Position, range: Range)
        requires
            old(self).wf(),
            range.wf(),
        ensures
            final(self).wf(),
            final(self).call_maps() == old(self).call_maps().update(position_index(p), range@),
            final(self).open_maps() == old(self).open_maps(),
            final(self).raise_maps() == old(self).raise_maps(),
            final(self).allowed_spot_types@ == old(self).allowed_spot_types@,
    {
        let idx = p.index() as usize;
        self.bb_defense_call_ranges[idx] = range;
        proof {
            assert(self.call_maps() =~= old(self).call_maps().update(
                position_index(p),
                self.bb_defense_call_ranges@[position_index(p)]@,
            ));
        }
    }

    /// Replaces the big-blind raising range against opener `p`.
    pub fn set_bb_raise_range(&mut self, p: Position, range: Range)
        requires
            old(self).wf(),
            range.wf(),
        ensures
            final(self).wf(),
            final(self).raise_maps() == old(self).raise_maps().update(position_index(p), range@),
            final(self).open_maps() == old(self).open_maps(),
            final(self).call_maps() == old(self).call_maps(),
            final(self).allowed_spot_types@ == old(self).allowed_spot_types@,
    {
        let idx = p.index() as usize;
        self.bb_defense_raise_ranges[idx] = range;
        proof {
            assert(self.raise_maps() =~= old(self).raise_maps().update(
                position_index(p),
                self.bb_defense_raise_ranges@[position_index(p)]@,
            ));
        }
    }

    /// Replaces the list of allowed situations.
    pub fn set_allowed_spot_types(&mut self, spots: Vec<SpotType>)
        requires
            old(self).wf(),
            forall|i: int| 0 <= i < spots@.len() ==> (#[trigger] spots@[i]).wf(),
        ensures
            final(self).wf(),
            final(self).allowed_spot_types@ == spots@,
            final(self).open_maps() == old(self).open_maps(),
            final(self).call_maps() == old(self).call_maps(),
            final(self).raise_maps() == old(self).raise_maps(),
    {
        self.allowed_spot_types = spots;
    }

    /// A borrow of the open-raise range of `p`.
    pub fn open_range(&self, p: Position) -> (r: &Range)
        requires
            self.wf(),
        ensures
            r.wf(),
            r@ == self.open_map(p),
    {
        &self.unopened_raise_ranges[p.index() as usize]
    }

    /// A borrow of the big-blind calling range against opener `p`.
    pub fn bb_call_range(&self, p: Position) -> (r: &Range)
        requires
            self.wf(),
        ensures
            r.wf(),
            r@ == self.bb_call_map(p),
    {
        &self.bb_defense_call_ranges[p.index() as usize]
    }

    /// A borrow of the big-blind raising range against opener `p`.
    pub fn bb_raise_range(&self, p: Position) -> (r: &Range)
        requires
            self.wf(),
        ensures
            r.wf(),
            r@ == self.bb_raise_map(p),
    {
        &self.bb_defense_raise_ranges[p.index() as usize]
    }
}

impl Default for GameConfig {
    /// An empty configuration, as `GameConfig::new` builds it.
    fn default() -> (r: GameConfig)
        ensures
            r.wf(),
            r.open_maps() == empty_maps(),
            r.call_maps() == empty_maps(),
            r.raise_maps() == empty_maps(),
            r.allowed_spot_types@ == Seq::<SpotType>::empty(),
    {
        GameConfig::new()
    }
}

/// Six empty range maps, one per position.
pub open spec fn empty_maps() -> Seq<Map<HandNotation, int>> {
    Seq::new(6, |i: int| Map::<HandNotation, int>::empty())
}

fn six_empty_ranges() -> (r: Vec<Range>)
    ensures
        r@.len() == 6,
        forall|i: int| 0 <= i < 6 ==> (#[trigger] r@[i]).wf() && r@[i]@ == Map::<
            HandNotation,
            int,
        >::empty(),
{
    let mut r: Vec<Range> = Vec::new();
    for i in 0..6usize
        invariant
            r@.len() == i,
            forall|j: int| 0 <= j < i ==> (#[trigger] r@[j]).wf() && r@[j]@ == Map::<
                HandNotation,
                int,
            >::empty(),
    {
        r.push(Range::new());
    }
    r
}

/// The default situation list: an open from each position but the big
/// blind, then a big-blind defense against each of those openers.
pub open spec fn spec_default_spots() -> Seq<SpotType> {
    seq![
        SpotType::Open { position: Position::UTG },
        SpotType::Open { position: Position::MP },
        SpotType::Open { position: Position::CO },
        SpotType::Open { position: Position::BTN },
        SpotType::Open { position: Position::SB },
        SpotType::BBDefense { opener_position: Position::UTG },
        SpotType::BBDefense { opener_position: Position::MP },
        SpotType::BBDefense { opener_position: Position::CO },
        SpotType::BBDefense { opener_position: Position::BTN },
        SpotType::BBDefense { opener_position: Position::SB },
    ]
}

/// The default situation list, matching `spec_default_spots`.
pub fn default_allowed_spot_types() -> (r: Vec<SpotType>)
    ensures
        r@ == spec_default_spots(),
        forall|i: int| 0 <= i < r@.len() ==> (#[trigger] r@[i]).wf(),
{
    let mut r: Vec<SpotType> = Vec::new();
    r.push(SpotType::Open { position: Position::UTG });
    r.push(SpotType::Open { position: Position::MP });
    r.push(SpotType::Open { position: Position::CO });
    r.push(SpotType::Open { position: Position::BTN });
    r.push(SpotType::Open { position: Position::SB });
    r.push(SpotType::BBDefense { opener_position: Position::UTG });
    r.push(SpotType::BBDefense { opener_position: Position::MP });
    r.push(SpotType::BBDefense { opener_position: Position::CO });
    r.push(SpotType::BBDefense { opener_position: Position::BTN });
    r.push(SpotType::BBDefense { opener_position: Position::SB });
    proof {
        assert(r@ =~= spec_default_spots());
        assert forall|i: int| 0 <= i < r@.len() implies (#[trigger] r@[i]).wf() by {
            assert(r@[i] == spec_default_spots()[i]);
        }
    }
    r
}

/// The six open-raise maps after the raw entries are applied over `acc`
/// in order, later entries for a position overwriting earlier ones.
/// Nothing when a position name or range string is malformed.
pub open spec fn spec_apply_open_entries(
    entries: Seq<(String, PositionDetail)>,
    acc: Seq<Map<HandNotation, int>>,
) -> Option<Seq<Map<HandNotation, int>>>
    decreases entries.len(),
{
    if entries.len() == 0 {
        Some(acc)
    } else {
        match (spec_parse_position(entries[0].0@), spec_parse_range(entries[0].1.range@)) {
            (Some(p), Some(m)) => spec_apply_open_entries(
                entries.drop_first(),
                acc.update(position_index(p), m),
            ),
            _ => None,
        }
    }
}

/// The six calling and six raising maps after the raw big-blind entries
/// are applied over the accumulators in order. Nothing when a position
/// name or range string is malformed.
pub open spec fn spec_apply_bb_entries(
    entries: Seq<(String, BBDefensePositionDetail)>,
    calls: Seq<Map<HandNotation, int>>,
    raises: Seq<Map<HandNotation, int>>,
) -> Option<(Seq<Map<HandNotation, int>>, Seq<Map<HandNotation, int>>)>
    decreases entries.len(),
{
    if entries.len() == 0 {
        Some((calls, raises))
    } else {
        match (
            spec_parse_position(entries[0].0@),
            spec_parse_range(entries[0].1.call_range@),
            spec_parse_range(entries[0].1.raise_range@),
        ) {
            (Some(p), Some(cm), Some(rm)) => spec_apply_bb_entries(
                entries.drop_first(),
                calls.update(position_index(p), cm),
                raises.update(position_index(p), rm),
            ),
            _ => None,
        }
    }
}

/// The situations a list of identifiers names, in order. Nothing when
/// any identifier is malformed.
pub open spec fn spec_parse_spots(ids: Seq<String>) -> Option<Seq<SpotType>>
    decreases ids.len(),
{
    if ids.len() == 0 {
        Some(Seq::empty())
    } else {
        match (spec_parse_spot(ids[0]@), spec_parse_spots(ids.drop_first())) {
            (Some(st), Some(rest)) => Some(seq![st] + rest),
            _ => None,
        }
    }
}

/// What a raw configuration builds to: the three range tables and the
/// allowed situations, or nothing when any part is malformed. A missing
/// big-blind section leaves those tables empty; a missing situation
/// list falls back to the default.
pub open spec fn spec_built_config(tc: &TomlConfig) -> Option<
    (
        Seq<Map<HandNotation, int>>,
        Seq<Map<HandNotation, int>>,
        Seq<Map<HandNotation, int>>,
        Seq<SpotType>,
    ),
> {
    match spec_apply_open_entries(tc.unopened_raise@, empty_maps()) {
        None => None,
        Some(opens) => {
            let bb = match tc.bb_defense {
                Some(ref v) => spec_apply_bb_entries(v@, empty_maps(), empty_maps()),
                None => Some((empty_maps(), empty_maps())),
            };
            match bb {
                None => None,
                Some((calls, raises)) => {
                    let allowed = match tc.generic {
                        Some(ref g) => match g.allowed_spot_types {
                            Some(ref ids) => spec_parse_spots(ids@),
                            None => Some(spec_default_spots()),
                        },
                        None => Some(spec_default_spots()),
                    };
                    match allowed {
                        None => None,
                        Some(sp) => Some((opens, calls, raises, sp)),
                    }
                },
            }
        },
    }
}

/// Builds the strategy configuration from raw configuration text, as
/// `spec_built_config` describes; any malformed position name, range
/// string or situation identifier is an error.
pub fn build_game_config(tc: TomlConfig) -> (r: Result<GameConfig, String>)
    ensures
        match r {
            Ok(cfg) => cfg.wf() && spec_built_config(&tc) == Some(
                (cfg.open_maps(), cfg.call_maps(), cfg.raise_maps(), cfg.allowed_spot_types@),
            ),
            Err(_) => spec_built_config(&tc) is None,
        },
{
    let mut cfg = GameConfig::new();

    proof {
        assert(tc.unopened_raise@.skip(0) =~= tc.unopened_raise@);
    }
    let n = tc.unopened_raise.len();
    for i in 0..n
        invariant
            n == tc.unopened_raise@.len(),
            cfg.wf(),
            cfg.call_maps() == empty_maps(),
            cfg.raise_maps() == empty_maps(),
            cfg.allowed_spot_types@ == Seq::<SpotType>::empty(),
            spec_apply_open_entries(tc.unopened_raise@, empty_maps())
                == spec_apply_open_entries(tc.unopened_raise@.skip(i as int), cfg.open_maps()),
    {
        let entry = &tc.unopened_raise[i];
        proof {
            assert(tc.unopened_raise@.skip(i as int)[0] == tc.unopened_raise@[i as int]);
        }
        let p = match Position::from_text(entry.0.as_str()) {
            Ok(p) => p,
            Err(e) => {
                return Err(e);
            },
        };
        let range = match parse_range_str(entry.1.range.as_str()) {
            Ok(rg) => rg,
            Err(e) => {
                return Err(e);
            },
        };
        cfg.set_unopened_raise_range(p, range);
        proof {
            assert(tc.unopened_raise@.skip(i as int).drop_first() =~= tc.unopened_raise@.skip(
                i + 1,
            ));
        }
    }
    proof {
        assert(tc.unopened_raise@.skip(n as int) =~= Seq::<(String, PositionDetail)>::empty());
    }

    match tc.bb_defense {
        Some(ref entries) => {
            proof {
                assert(entries@.skip(0) =~= entries@);
            }
            let m = entries.len();
            for i in 0..m
                invariant
                    tc.bb_defense == Some(*entries),
                    m == entries@.len(),
                    cfg.wf(),
                    cfg.allowed_spot_types@ == Seq::<SpotType>::empty(),
                    spec_apply_open_entries(tc.unopened_raise@, empty_maps()) == Some(
                        cfg.open_maps(),
                    ),
                    spec_apply_bb_entries(entries@, empty_maps(), empty_maps())
                        == spec_apply_bb_entries(
                        entries@.skip(i as int),
                        cfg.call_maps(),
                        cfg.raise_maps(),
                    ),
            {
                let entry = &entries[i];
                proof {
                    assert(entries@.skip(i as int)[0] == entries@[i as int]);
                }
                let p = match Position::from_text(entry.0.as_str()) {
                    Ok(p) => p,
                    Err(e) => {
                        return Err(e);
                    },
                };
                let call_range = match parse_range_str(entry.1.call_range.as_str()) {
                    Ok(rg) => rg,
                    Err(e) => {
                        return Err(e);
                    },
                };
                let raise_range = match parse_range_str(entry.1.raise_range.as_str()) {
                    Ok(rg) => rg,
                    Err(e) => {
                        return Err(e);
                    },
                };
                cfg.set_bb_call_range(p, call_range);
                cfg.set_bb_raise_range(p, raise_range);
                proof {
                    assert(entries@.skip(i as int).drop_first() =~= entries@.skip(i + 1));
                }
            }
            proof {
                assert(entries@.skip(m as int) =~= Seq::<
                    (String, BBDefensePositionDetail),
                >::empty());
            }
        },
        None => {},
    }

    match tc.generic {
        Some(ref g) => match g.allowed_spot_types {
            Some(ref ids) => {
                let m = ids.len();
                let mut spots: Vec<SpotType> = Vec::new();
                proof {
                    assert(ids@.skip(0) =~= ids@);
                    assert(spots@ =~= Seq::<SpotType>::empty());
                    match spec_parse_spots(ids@) {
                        Some(rest) => {
                            assert(spots@ + rest =~= rest);
                        },
                        None => {},
                    }
                }
                for i in 0..m
                    invariant
                        tc.generic is Some,
                        tc.generic->0.allowed_spot_types == Some(*ids),
                        tc.bb_defense is Some ==> spec_apply_bb_entries(
                            tc.bb_defense->0@,
                            empty_maps(),
                            empty_maps(),
                        ) == Some((cfg.call_maps(), cfg.raise_maps())),
                        tc.bb_defense is None ==> cfg.call_maps() == empty_maps()
                            && cfg.raise_maps() == empty_maps(),
                        spec_apply_open_entries(tc.unopened_raise@, empty_maps()) == Some(
                            cfg.open_maps(),
                        ),
                        m == ids@.len(),
                        spots@.len() == i,
                        forall|j: int| 0 <= j < i ==> (#[trigger] spots@[j]).wf(),
                        (match spec_parse_spots(ids@.skip(i as int)) {
                            Some(rest) => spec_parse_spots(ids@) == Some(spots@ + rest),
                            None => spec_parse_spots(ids@) is None,
                        }),
                {
                    proof {
                        assert(ids@.skip(i as int)[0] == ids@[i as int]);
                    }
                    let st = match SpotType::from_text(ids[i].as_str()) {
                        Ok(st) => st,
                        Err(e) => {
                            return Err(e);
                        },
                    };
                    spots.push(st);
                    proof {
                        assert(ids@.skip(i as int).drop_first() =~= ids@.skip(i + 1));
                        match spec_parse_spots(ids@.skip(i + 1)) {
                            Some(rest) => {
                                assert(spots@ + rest =~= spots@.drop_last() + (seq![st] + rest));
                            },
                            None => {},
                        }
                    }
                }
                proof {
                    assert(ids@.skip(m as int) =~= Seq::<String>::empty());
                    assert(spots@ + Seq::<SpotType>::empty() =~= spots@);
                }
                cfg.set_allowed_spot_types(spots);
            },
            None => {
                cfg.set_allowed_spot_types(default_allowed_spot_types());
            },
        },
        None => {
            cfg.set_allowed_spot_types(default_allowed_spot_types());
        },
    }

    Ok(cfg)
}

} // verus!
