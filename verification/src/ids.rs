use vstd::prelude::*;
use vstd::string::StringExecFns;

use crate::text::{decimal, push_decimal};

verus! {

/// The key under which a road is stored: its way id and the node ids of its two ends.
/// Tuples of integers are ordered lexicographically, which is the order of
/// `OriginalRoad` itself.
pub type RoadKey = (i64, i64, i64);

/// A way to refer to intersections across many maps.
#[derive(Debug, Clone, Copy, PartialEq, Eq, Structural, PartialOrd, Ord, Hash)]
pub struct OriginalIntersection {
    pub osm_node_id: i64,
}

/// A way to refer to roads across many maps and over time.
#[derive(Debug, Clone, Copy, PartialEq, Eq, Structural, PartialOrd, Ord, Hash)]
pub struct OriginalRoad {
    pub osm_way_id: i64,
    pub i1: OriginalIntersection,
    pub i2: OriginalIntersection,
}

/// A way to refer to buildings across many maps.
#[derive(Debug, Clone, Copy, PartialEq, Eq, Structural, PartialOrd, Ord, Hash)]
pub struct OriginalBuilding {
    pub osm_way_id: i64,
}

impl OriginalRoad {
    /// The key of this road in a map's road table.
    pub open spec fn spec_key(&self) -> RoadKey {
        (self.osm_way_id, self.i1.osm_node_id, self.i2.osm_node_id)
    }

    /// The road that a key of a map's road table names.
    pub open spec fn spec_from_key(k: RoadKey) -> OriginalRoad {
        OriginalRoad {
            osm_way_id: k.0,
            i1: OriginalIntersection { osm_node_id: k.1 },
            i2: OriginalIntersection { osm_node_id: k.2 },
        }
    }

    /// Whether the road ends at the intersection.
    pub open spec fn spec_touches(self, i: OriginalIntersection) -> bool {
        self.i1 == i || self.i2 == i
    }

    /// Whether the two roads end at a common intersection.
    pub open spec fn spec_shares_end(self, other: OriginalRoad) -> bool {
        self.i1 == other.i1 || self.i1 == other.i2 || self.i2 == other.i1 || self.i2 == other.i2
    }

    #[verifier::when_used_as_spec(spec_key)]
    pub fn key(&self) -> (k: RoadKey)
        ensures
            k == self.spec_key(),
    {
        (self.osm_way_id, self.i1.osm_node_id, self.i2.osm_node_id)
    }

    #[verifier::when_used_as_spec(spec_from_key)]
    pub fn from_key(k: RoadKey) -> (r: OriginalRoad)
        ensures
            r == Self::spec_from_key(k),
    {
        OriginalRoad {
            osm_way_id: k.0,
            i1: OriginalIntersection { osm_node_id: k.1 },
            i2: OriginalIntersection { osm_node_id: k.2 },
        }
    }

    /// A key and the road that it names determine each other.
    pub proof fn lemma_key_roundtrip(r: OriginalRoad, k: RoadKey)
        ensures
            Self::spec_from_key(r.spec_key()) == r,
            Self::spec_from_key(k).spec_key() == k,
    {
    }
}

impl OriginalRoad {
    /// Describes the road, as `OriginalRoad(way W between node A to B)`.
    pub fn to_string(&self) -> (s: String)
        ensures
            s@ == "OriginalRoad(way "@ + decimal(self.osm_way_id as int) + " between node "@ + decimal(
                self.i1.osm_node_id as int,
            ) + " to "@ + decimal(self.i2.osm_node_id as int) + ")"@,
    {
        let mut s = String::from_str("OriginalRoad(way ");
        push_decimal(&mut s, self.osm_way_id);
        s.append(" between node ");
        push_decimal(&mut s, self.i1.osm_node_id);
        s.append(" to ");
        push_decimal(&mut s, self.i2.osm_node_id);
        s.append(")");
        s
    }
}

impl OriginalIntersection {
    /// Describes the intersection, as `OriginalIntersection(N)`.
    pub fn to_string(&self) -> (s: String)
        ensures
            s@ == "OriginalIntersection("@ + decimal(self.osm_node_id as int) + ")"@,
    {
        let mut s = String::from_str("OriginalIntersection(");
        push_decimal(&mut s, self.osm_node_id);
        s.append(")");
        s
    }
}

impl OriginalBuilding {
    /// Describes the building, as `OriginalBuilding(W)`.
    pub fn to_string(&self) -> (s: String)
        ensures
            s@ == "OriginalBuilding("@ + decimal(self.osm_way_id as int) + ")"@,
    {
        let mut s = String::from_str("OriginalBuilding(");
        push_decimal(&mut s, self.osm_way_id);
        s.append(")");
        s
    }
}

} // verus!
