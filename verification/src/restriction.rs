use vstd::prelude::*;

use crate::ids::{OriginalIntersection, OriginalRoad};
use crate::text::{prefix_is_str, str_chars};

verus! {

/// The two kinds of turn restriction between two roads.
#[derive(Debug, Clone, Copy, PartialEq, Eq, Structural, PartialOrd, Ord, Hash)]
pub enum RestrictionType {
    BanTurns,
    OnlyAllowTurns,
}

/// A turn restriction: from the first road, of the given kind, to the second road.
#[derive(Debug, Clone, Copy, PartialEq, Eq, Structural, PartialOrd, Ord, Hash)]
pub struct TurnRestriction(pub OriginalRoad, pub RestrictionType, pub OriginalRoad);

/// The key under which a turn restriction is ordered: the key of the road it starts
/// from, the code of its kind, and the key of the road it leads to. Tuples of integers
/// are ordered lexicographically, which is the order of `TurnRestriction` itself.
pub type TurnRestrictionKey = (i64, i64, i64, u8, i64, i64, i64);

impl RestrictionType {
    /// Kinds are numbered in the order in which they are declared.
    pub open spec fn spec_code(&self) -> u8 {
        match self {
            RestrictionType::BanTurns => 0,
            RestrictionType::OnlyAllowTurns => 1,
        }
    }

    pub open spec fn spec_from_code(c: u8) -> RestrictionType {
        if c == 0 {
            RestrictionType::BanTurns
        } else {
            RestrictionType::OnlyAllowTurns
        }
    }

    pub(crate) fn code(&self) -> (c: u8)
        ensures
            c == self.spec_code(),
    {
        match self {
            RestrictionType::BanTurns => 0,
            RestrictionType::OnlyAllowTurns => 1,
        }
    }

    pub(crate) fn from_code(c: u8) -> (t: RestrictionType)
        ensures
            t == Self::spec_from_code(c),
    {
        if c == 0 {
            RestrictionType::BanTurns
        } else {
            RestrictionType::OnlyAllowTurns
        }
    }
}

impl TurnRestriction {
    pub open spec fn spec_key(&self) -> TurnRestrictionKey {
        (
            self.0.osm_way_id,
            self.0.i1.osm_node_id,
            self.0.i2.osm_node_id,
            self.1.spec_code(),
            self.2.osm_way_id,
            self.2.i1.osm_node_id,
            self.2.i2.osm_node_id,
        )
    }

    pub open spec fn spec_from_key(k: TurnRestrictionKey) -> TurnRestriction {
        TurnRestriction(
            OriginalRoad {
                osm_way_id: k.0,
                i1: OriginalIntersection { osm_node_id: k.1 },
                i2: OriginalIntersection { osm_node_id: k.2 },
            },
            RestrictionType::spec_from_code(k.3),
            OriginalRoad {
                osm_way_id: k.4,
                i1: OriginalIntersection { osm_node_id: k.5 },
                i2: OriginalIntersection { osm_node_id: k.6 },
            },
        )
    }

    /// Whether the key is the key of some turn restriction.
    pub open spec fn valid_key(k: TurnRestrictionKey) -> bool {
        k.3 <= 1
    }

    pub proof fn lemma_key_roundtrip(tr: TurnRestriction, k: TurnRestrictionKey)
        ensures
            Self::spec_from_key(tr.spec_key()) == tr,
            Self::valid_key(tr.spec_key()),
            Self::valid_key(k) ==> Self::spec_from_key(k).spec_key() == k,
    {
    }

    pub(crate) fn key(&self) -> (k: TurnRestrictionKey)
        ensures
            k == self.spec_key(),
    {
        (
            self.0.osm_way_id,
            self.0.i1.osm_node_id,
            self.0.i2.osm_node_id,
            self.1.code(),
            self.2.osm_way_id,
            self.2.i1.osm_node_id,
            self.2.i2.osm_node_id,
        )
    }

    pub(crate) fn from_key(k: TurnRestrictionKey) -> (tr: TurnRestriction)
        ensures
            tr == Self::spec_from_key(k),
    {
        TurnRestriction(
            OriginalRoad {
                osm_way_id: k.0,
                i1: OriginalIntersection { osm_node_id: k.1 },
                i2: OriginalIntersection { osm_node_id: k.2 },
            },
            RestrictionType::from_code(k.3),
            OriginalRoad {
                osm_way_id: k.4,
                i1: OriginalIntersection { osm_node_id: k.5 },
                i2: OriginalIntersection { osm_node_id: k.6 },
            },
        )
    }
}

/// Where the first `" @ "` at or after position `i` of a restriction value starts; the
/// length of the value when there is none.
pub open spec fn condition_start(s: Seq<char>, i: int) -> int
    decreases s.len() - i,
{
    if i < 0 || i + 3 > s.len() {
        s.len() as int
    } else if s[i] == ' ' && s[i + 1] == '@' && s[i + 2] == ' ' {
        i
    } else {
        condition_start(s, i + 1)
    }
}

/// The part of a restriction value before its first `" @ "`, which starts a condition
/// such as a time range (`no_left_turn @ (Mo-Fr 06:00-09:00)`).
pub open spec fn restriction_head(s: Seq<char>) -> Seq<char> {
    s.take(condition_start(s, 0))
}

/// The OSM restriction values that ban turns.
pub open spec fn bans_turns(h: Seq<char>) -> bool {
    ||| h == "no_left_turn"@
    ||| h == "no_right_turn"@
    ||| h == "no_straight_on"@
    ||| h == "no_u_turn"@
    ||| h == "no_anything"@
    ||| h == "conditional=no_left_turn"@
}

/// The OSM restriction values that allow only some turns.
pub open spec fn only_allows_turns(h: Seq<char>) -> bool {
    ||| h == "only_left_turn"@
    ||| h == "only_right_turn"@
    ||| h == "only_straight_on"@
    ||| h == "only_u_turn"@
}

/// The OSM restriction values that are known but not supported, and so ignored.
pub open spec fn unsupported_restriction(h: Seq<char>) -> bool {
    h == "no_right_turn_on_red"@
}

/// What a restriction value means: `None` for a value that is not known; else the kind
/// of restriction, or `None` inside for a known value that is ignored.
pub open spec fn parse_restriction(s: Seq<char>) -> Option<Option<RestrictionType>> {
    let h = restriction_head(s);
    if bans_turns(h) {
        Some(Some(RestrictionType::BanTurns))
    } else if only_allows_turns(h) {
        Some(Some(RestrictionType::OnlyAllowTurns))
    } else if unsupported_restriction(h) {
        Some(None)
    } else {
        None
    }
}

/// Where the first `" @ "` of the characters starts; their length when there is none.
fn find_condition_start(v: &Vec<char>) -> (n: usize)
    ensures
        n == condition_start(v@, 0),
{
    let mut i: usize = 0;
    while i < v.len() && v.len() - i >= 3
        invariant
            i <= v@.len(),
            condition_start(v@, 0) == condition_start(v@, i as int),
        decreases v@.len() - i,
    {
        if v[i] == ' ' && v[i + 1] == '@' && v[i + 2] == ' ' {
            return i;
        }
        i = i + 1;
    }
    v.len()
}

fn parse(restriction: &str) -> (res: Option<Option<RestrictionType>>)
    ensures
        res == parse_restriction(restriction@),
{
    let v = str_chars(restriction);
    let n = find_condition_start(&v);
    proof {
        let s = restriction@;
        assert(condition_start(s, 0) <= s.len()) by {
            lemma_condition_start_bound(s, 0);
        }
    }
    if prefix_is_str(&v, n, "no_left_turn") || prefix_is_str(&v, n, "no_right_turn")
        || prefix_is_str(&v, n, "no_straight_on") || prefix_is_str(&v, n, "no_u_turn")
        || prefix_is_str(&v, n, "no_anything") || prefix_is_str(&v, n, "conditional=no_left_turn")
    {
        Some(Some(RestrictionType::BanTurns))
    } else if prefix_is_str(&v, n, "only_left_turn") || prefix_is_str(&v, n, "only_right_turn")
        || prefix_is_str(&v, n, "only_straight_on") || prefix_is_str(&v, n, "only_u_turn")
    {
        Some(Some(RestrictionType::OnlyAllowTurns))
    } else if prefix_is_str(&v, n, "no_right_turn_on_red") {
        Some(None)
    } else {
        None
    }
}

proof fn lemma_condition_start_bound(s: Seq<char>, i: int)
    ensures
        condition_start(s, i) <= s.len(),
    decreases s.len() - i,
{
    if !(i < 0 || i + 3 > s.len()) && !(s[i] == ' ' && s[i + 1] == '@' && s[i + 2] == ' ') {
        lemma_condition_start_bound(s, i + 1);
    }
}

impl RestrictionType {
    /// Whether `restriction` is an OSM restriction value that this library knows, either
    /// as a kind of turn restriction or as one it ignores.
    pub open spec fn spec_is_known(restriction: Seq<char>) -> bool {
        parse_restriction(restriction) is Some
    }

    /// Whether `restriction` is an OSM restriction value that this library knows.
    pub fn is_known(restriction: &str) -> (known: bool)
        ensures
            known == Self::spec_is_known(restriction@),
    {
        parse(restriction).is_some()
    }

    /// The kind of turn restriction that an OSM restriction value names. What follows a
    /// `" @ "` (a condition such as a time range) is ignored, and so is the kind of turn:
    /// between two roads there is only one. `None` for `no_right_turn_on_red`, which is
    /// not supported.
    pub fn new(restriction: &str) -> (kind: Option<RestrictionType>)
        requires
            Self::spec_is_known(restriction@),
        ensures
            Some(kind) == parse_restriction(restriction@),
    {
        parse(restriction).unwrap()
    }
}

} // verus!
