use std::collections::{BTreeMap, BTreeSet};
use vstd::prelude::*;
use vstd::string::StringExecFns;
use vstd::std_specs::btree::spec_keys_iter;
use vstd::std_specs::iter::IteratorSpec;

use crate::geometry::{Distance, Pt2D};
use crate::ids::{OriginalIntersection, OriginalRoad, RoadKey};
use crate::order::{key_lt, keys_increasing, lemma_btree_keys_increasing};
use crate::restriction::RestrictionType;

verus! {

/// Which side of the road vehicles drive on.
#[derive(Debug, Clone, Copy, PartialEq, Eq, Structural)]
pub enum DrivingSide {
    Right,
    Left,
}

/// A side of a line, as seen looking along it.
#[derive(Debug, Clone, Copy, PartialEq, Eq, Structural)]
pub enum Side {
    Right,
    Left,
}

impl Side {
    pub open spec fn spec_opposite(self) -> Side {
        match self {
            Side::Right => Side::Left,
            Side::Left => Side::Right,
        }
    }
}

impl DrivingSide {
    /// Where a shift "to the right" goes. "Right" and "left" are named as in right-hand
    /// traffic, and swap in left-hand traffic.
    pub open spec fn spec_right_shift_side(self) -> Side {
        match self {
            DrivingSide::Right => Side::Right,
            DrivingSide::Left => Side::Left,
        }
    }

    /// Where a shift "to the left" goes: the other side from a shift "to the right".
    pub open spec fn spec_left_shift_side(self) -> Side {
        match self {
            DrivingSide::Right => Side::Left,
            DrivingSide::Left => Side::Right,
        }
    }

    /// Whether an angle measured for right-hand traffic is turned around on this side.
    pub open spec fn spec_flips_angles(self) -> bool {
        self == DrivingSide::Left
    }

    /// Where a shift "to the right" goes on this side of the road.
    pub fn right_shift_side(self) -> (side: Side)
        ensures
            side == self.spec_right_shift_side(),
    {
        match self {
            DrivingSide::Right => Side::Right,
            DrivingSide::Left => Side::Left,
        }
    }

    /// Where a shift "to the left" goes on this side of the road.
    pub fn left_shift_side(self) -> (side: Side)
        ensures
            side == self.spec_left_shift_side(),
    {
        match self {
            DrivingSide::Right => Side::Left,
            DrivingSide::Left => Side::Right,
        }
    }

    /// Whether an angle measured for right-hand traffic is turned around on this side.
    pub fn flips_angles(self) -> (flips: bool)
        ensures
            flips == self.spec_flips_angles(),
    {
        match self {
            DrivingSide::Right => false,
            DrivingSide::Left => true,
        }
    }
}

/// A road as it was imported.
#[derive(Debug, Clone, PartialEq)]
pub struct RawRoad {
    /// The road's center line, from its first intersection to its second.
    pub center_points: Vec<Pt2D>,
    pub osm_tags: BTreeMap<String, String>,
    pub turn_restrictions: Vec<(RestrictionType, OriginalRoad)>,
    /// (via, to). For turn restrictions where 'via' is an entire road. Only BanTurns.
    pub complicated_turn_restrictions: Vec<(OriginalRoad, OriginalRoad)>,
}

/// How traffic is controlled at an intersection.
#[derive(Debug, Clone, Copy, PartialEq, Eq, Structural)]
pub enum IntersectionType {
    StopSign,
    TrafficSignal,
    Border,
    Construction,
}

/// What kind of place an area is.
#[derive(Debug, Clone, Copy, PartialEq, Eq, Structural)]
pub enum AreaType {
    Park,
    Water,
    PedestrianIsland,
    Island,
}

/// An intersection as it was imported: the place where OSM center lines meet.
#[derive(Debug, Clone, Copy, PartialEq)]
pub struct RawIntersection {
    pub point: Pt2D,
    pub intersection_type: IntersectionType,
    pub elevation: Distance,
}

/// A building as it was imported.
#[derive(Debug, Clone)]
pub struct RawBuilding {
    pub osm_tags: BTreeMap<String, String>,
    pub public_garage_name: Option<String>,
    pub num_parking_spots: usize,
    /// (Name, amenity type)
    pub amenities: BTreeSet<(String, String)>,
}

/// An area (park, water, ...) as it was imported.
#[derive(Debug, Clone)]
pub struct RawArea {
    pub area_type: AreaType,
    pub osm_tags: BTreeMap<String, String>,
    pub osm_id: i64,
}

/// A whole imported map. Roads are stored under `OriginalRoad::key`, intersections
/// under their node id and buildings under their way id.
#[derive(Debug)]
pub struct RawMap {
    pub city_name: String,
    pub name: String,
    pub roads: BTreeMap<RoadKey, RawRoad>,
    pub intersections: BTreeMap<i64, RawIntersection>,
    pub buildings: BTreeMap<i64, RawBuilding>,
    pub areas: Vec<RawArea>,
    pub driving_side: DrivingSide,
}

/// The roads named by `keys` that end at `i`, in the order of `keys`.
pub open spec fn roads_touching(keys: Seq<RoadKey>, i: OriginalIntersection) -> Seq<OriginalRoad>
    decreases keys.len(),
{
    if keys.len() == 0 {
        Seq::empty()
    } else {
        let prev = roads_touching(keys.drop_last(), i);
        let r = OriginalRoad::spec_from_key(keys.last());
        if r.spec_touches(i) {
            prev.push(r)
        } else {
            prev
        }
    }
}

/// A road is listed by `roads_touching` exactly when its key is among the keys and it
/// ends at the intersection.
pub proof fn lemma_roads_touching_contains(keys: Seq<RoadKey>, i: OriginalIntersection, r: OriginalRoad)
    ensures
        roads_touching(keys, i).contains(r) <==> (keys.contains(r.spec_key()) && r.spec_touches(i)),
    decreases keys.len(),
{
    if keys.len() > 0 {
        let prev_keys = keys.drop_last();
        lemma_roads_touching_contains(prev_keys, i, r);
        let last = keys.last();
        let x = OriginalRoad::spec_from_key(last);
        assert(x.spec_key() == last);
        assert(OriginalRoad::spec_from_key(r.spec_key()) == r);
        assert(keys == prev_keys.push(last));
        assert(keys.contains(r.spec_key()) <==> (prev_keys.contains(r.spec_key()) || r.spec_key() == last));
        if r.spec_key() == last {
            assert(x == r);
        }
        let prev = roads_touching(prev_keys, i);
        if x.spec_touches(i) {
            assert(roads_touching(keys, i) == prev.push(x));
            if prev.contains(r) {
                let j = choose|j: int| 0 <= j < prev.len() && prev[j] == r;
                assert(prev.push(x)[j] == r);
            }
            if r == x {
                assert(prev.push(x)[prev.len() as int] == r);
            }
            if prev.push(x).contains(r) {
                let j = choose|j: int| 0 <= j < prev.len() + 1 && prev.push(x)[j] == r;
                if j < prev.len() {
                    assert(prev[j] == r);
                }
            }
        }
    }
}

/// `roads_touching` keeps the order of the keys that it is given.
pub proof fn lemma_roads_touching_increasing(keys: Seq<RoadKey>, i: OriginalIntersection)
    requires
        keys_increasing(keys),
    ensures
        keys_increasing(roads_touching(keys, i).map_values(|r: OriginalRoad| r.spec_key())),
    decreases keys.len(),
{
    if keys.len() > 0 {
        let prev_keys = keys.drop_last();
        assert(keys_increasing(prev_keys)) by {
            assert forall|a: int, b: int| 0 <= a < b < prev_keys.len() implies key_lt(#[trigger] prev_keys[a], #[trigger] prev_keys[b]) by {
                assert(prev_keys[a] == keys[a] && prev_keys[b] == keys[b]);
            }
        }
        lemma_roads_touching_increasing(prev_keys, i);
        let prev = roads_touching(prev_keys, i);
        let r = OriginalRoad::spec_from_key(keys.last());
        if r.spec_touches(i) {
            let s = prev.push(r).map_values(|r: OriginalRoad| r.spec_key());
            let ps = prev.map_values(|r: OriginalRoad| r.spec_key());
            assert forall|a: int, b: int| 0 <= a < b < s.len() implies key_lt(#[trigger] s[a], #[trigger] s[b]) by {
                if b == s.len() - 1 {
                    let x = prev[a];
                    assert(prev.contains(x));
                    lemma_roads_touching_contains(prev_keys, i, x);
                    let j = choose|j: int| 0 <= j < prev_keys.len() && prev_keys[j] == x.spec_key();
                    assert(keys[j] == x.spec_key());
                    assert(key_lt(keys[j], keys[keys.len() - 1]));
                } else {
                    assert(s[a] == ps[a] && s[b] == ps[b]);
                }
            }
        }
    }
}

impl RawMap {
    /// Whether the map holds the road.
    pub open spec fn has_road(self, r: OriginalRoad) -> bool {
        self.roads@.contains_key(r.spec_key())
    }

    /// Lists the roads that end at the intersection `i`, in increasing order.
    pub fn roads_per_intersection(&self, i: OriginalIntersection) -> (results: Vec<OriginalRoad>)
        ensures
            forall|r: OriginalRoad| #[trigger] results@.contains(r) <==> (self.has_road(r) && r.spec_touches(i)),
            keys_increasing(results@.map_values(|r: OriginalRoad| r.spec_key())),
    {
        let ghost ks = spec_keys_iter(&self.roads).remaining().unref();
        let mut results: Vec<OriginalRoad> = Vec::new();
        for k in it: self.roads.keys()
            invariant
                ks == it.seq().unref(),
                results@ == roads_touching(ks.take(it.index()), i),
        {
            let r = OriginalRoad::from_key(*k);
            if r.i1 == i || r.i2 == i {
                results.push(r);
            }
            proof {
                assert(ks.take(it.index() + 1).drop_last() == ks.take(it.index()));
            }
        }
        proof {
            assert(ks.take(ks.len() as int) == ks);
            lemma_btree_keys_increasing(spec_keys_iter(&self.roads).remaining());
            lemma_roads_touching_increasing(ks, i);
            assert forall|r: OriginalRoad| #[trigger] results@.contains(r) <==> (self.has_road(r) && r.spec_touches(i)) by {
                lemma_roads_touching_contains(ks, i, r);
                assert(ks.to_set().contains(r.spec_key()) <==> ks.contains(r.spec_key()));
            }
        }
        results
    }
}

impl RawMap {
    /// Whether some intersection of the map has the node id.
    pub open spec fn node_id_used(self, id: i64) -> bool {
        self.intersections@.contains_key(id)
    }

    /// Whether some road, building or area of the map has the way id.
    pub open spec fn way_id_used(self, id: i64) -> bool {
        ||| exists|k: RoadKey| #[trigger] self.roads@.contains_key(k) && k.0 == id
        ||| self.buildings@.contains_key(id)
        ||| exists|j: int| 0 <= j < self.areas@.len() && #[trigger] self.areas@[j].osm_id == id
    }

    /// Some node id at or below `start` is not used yet.
    pub open spec fn has_free_node_id_at_or_below(self, start: i64) -> bool {
        exists|id: i64| id <= start && !#[trigger] self.node_id_used(id)
    }

    /// Some way id at or below `start` is not used yet.
    pub open spec fn has_free_way_id_at_or_below(self, start: i64) -> bool {
        exists|id: i64| id <= start && !#[trigger] self.way_id_used(id)
    }

    /// `id` is the node id that `new_osm_node_id` gives for `start`: the largest id at or
    /// below `start` that no intersection uses.
    pub open spec fn is_new_node_id(self, start: i64, id: i64) -> bool {
        &&& id <= start
        &&& !self.node_id_used(id)
        &&& forall|other: i64| id < other <= start ==> #[trigger] self.node_id_used(other)
    }

    /// `id` is the way id that `new_osm_way_id` gives for `start`: the largest id at or
    /// below `start` that no road, building or area uses.
    pub open spec fn is_new_way_id(self, start: i64, id: i64) -> bool {
        &&& id <= start
        &&& !self.way_id_used(id)
        &&& forall|other: i64| id < other <= start ==> #[trigger] self.way_id_used(other)
    }

    /// Finds a node id for a new intersection: the largest id at or below `start` that no
    /// intersection uses yet. Slow, but deterministic.
    pub fn new_osm_node_id(&self, start: i64) -> (id: i64)
        requires
            start < 0,
            self.has_free_node_id_at_or_below(start),
        ensures
            self.is_new_node_id(start, id),
            id <= start,
            !self.intersections@.contains_key(id),
            forall|other: i64| id < other <= start ==> #[trigger] self.intersections@.contains_key(other),
    {
        let ghost free = choose|id: i64| id <= start && !#[trigger] self.node_id_used(id);
        let mut osm_node_id = start;
        loop
            invariant
                free <= start,
                !self.node_id_used(free),
                osm_node_id <= start,
                forall|other: i64| osm_node_id < other <= start ==> #[trigger] self.node_id_used(other),
            decreases osm_node_id - free,
        {
            assert(free <= osm_node_id);
            if self.intersections.contains_key(&osm_node_id) {
                osm_node_id = osm_node_id - 1;
            } else {
                assert forall|other: i64| osm_node_id < other <= start implies #[trigger] self.intersections@.contains_key(other) by {
                    assert(self.node_id_used(other));
                }
                return osm_node_id;
            }
        }
    }

    /// Whether some road of the map has the way id.
    fn road_uses_way_id(&self, id: i64) -> (used: bool)
        ensures
            used == exists|k: RoadKey| #[trigger] self.roads@.contains_key(k) && k.0 == id,
    {
        let ghost ks = spec_keys_iter(&self.roads).remaining().unref();
        for k in it: self.roads.keys()
            invariant
                ks == it.seq().unref(),
                ks.to_set() == self.roads@.dom(),
                forall|j: int| 0 <= j < it.index() ==> (#[trigger] ks[j]).0 != id,
        {
            if k.0 == id {
                proof {
                    assert(ks[it.index()] == *k);
                    assert(ks.contains(*k));
                    assert(ks.to_set().contains(*k));
                }
                return true;
            }
        }
        proof {
            assert forall|k: RoadKey| #[trigger] self.roads@.contains_key(k) implies k.0 != id by {
                assert(ks.to_set().contains(k));
                let j = choose|j: int| 0 <= j < ks.len() && ks[j] == k;
            }
        }
        false
    }

    /// Whether some area of the map has the way id.
    fn area_uses_way_id(&self, id: i64) -> (used: bool)
        ensures
            used == exists|j: int| 0 <= j < self.areas@.len() && #[trigger] self.areas@[j].osm_id == id,
    {
        let mut j: usize = 0;
        while j < self.areas.len()
            invariant
                j <= self.areas@.len(),
                forall|a: int| 0 <= a < j ==> #[trigger] self.areas@[a].osm_id != id,
            decreases self.areas@.len() - j,
        {
            if self.areas[j].osm_id == id {
                return true;
            }
            j = j + 1;
        }
        false
    }

    /// Whether some road, building or area of the map has the way id.
    fn way_id_in_use(&self, id: i64) -> (used: bool)
        ensures
            used == self.way_id_used(id),
    {
        self.road_uses_way_id(id) || self.buildings.contains_key(&id) || self.area_uses_way_id(id)
    }

    /// Finds a way id for a new road, building or area: the largest id at or below
    /// `start` that no road, building or area uses yet. Slow, but deterministic.
    pub fn new_osm_way_id(&self, start: i64) -> (id: i64)
        requires
            start < 0,
            self.has_free_way_id_at_or_below(start),
        ensures
            self.is_new_way_id(start, id),
            id <= start,
            forall|q: OriginalRoad| #[trigger] self.has_road(q) ==> q.osm_way_id != id,
            !self.buildings@.contains_key(id),
            forall|j: int| 0 <= j < self.areas@.len() ==> #[trigger] self.areas@[j].osm_id != id,
    {
        let ghost free = choose|id: i64| id <= start && !#[trigger] self.way_id_used(id);
        let mut osm_way_id = start;
        loop
            invariant
                free <= start,
                !self.way_id_used(free),
                osm_way_id <= start,
                forall|other: i64| osm_way_id < other <= start ==> #[trigger] self.way_id_used(other),
            decreases osm_way_id - free,
        {
            assert(free <= osm_way_id);
            if self.way_id_in_use(osm_way_id) {
                osm_way_id = osm_way_id - 1;
            } else {
                return osm_way_id;
            }
        }
    }
}

impl RawMap {
    /// An empty map of the city.
    pub fn blank(city_name: &str, name: &str) -> (map: RawMap)
        ensures
            map.city_name@ == city_name@,
            map.name@ == name@,
            map.roads@ == Map::<RoadKey, RawRoad>::empty(),
            map.intersections@ == Map::<i64, RawIntersection>::empty(),
            map.buildings@ == Map::<i64, RawBuilding>::empty(),
            map.areas@ == Seq::<RawArea>::empty(),
            map.driving_side == DrivingSide::Right,
    {
        RawMap {
            city_name: city_name.to_string(),
            name: name.to_string(),
            roads: BTreeMap::new(),
            intersections: BTreeMap::new(),
            buildings: BTreeMap::new(),
            areas: Vec::new(),
            driving_side: DrivingSide::Right,
        }
    }

    /// Some road of the map ends at the intersection.
    pub open spec fn has_roads_at(self, i: OriginalIntersection) -> bool {
        exists|r: OriginalRoad| #[trigger] self.has_road(r) && r.spec_touches(i)
    }

    /// An intersection can be deleted when no road of the map ends at it.
    pub fn can_delete_intersection(&self, i: OriginalIntersection) -> (ok: bool)
        ensures
            ok == !self.has_roads_at(i),
    {
        let roads = self.roads_per_intersection(i);
        proof {
            if self.has_roads_at(i) {
                let r = choose|r: OriginalRoad| #[trigger] self.has_road(r) && r.spec_touches(i);
                assert(roads@.contains(r));
            }
            if roads@.len() > 0 {
                assert(roads@.contains(roads@[0]));
            }
        }
        roads.len() == 0
    }

    /// Whether a turn restriction between the two roads makes sense: they share an end.
    pub fn can_add_turn_restriction(&self, from: OriginalRoad, to: OriginalRoad) -> (ok: bool)
        ensures
            ok == from.spec_shares_end(to),
            ok == (from.i1 == to.i1 || from.i1 == to.i2 || from.i2 == to.i1 || from.i2 == to.i2),
    {
        let (i1, i2) = (from.i1, from.i2);
        let (i3, i4) = (to.i1, to.i2);
        i1 == i3 || i1 == i4 || i2 == i3 || i2 == i4
    }
}

/// The OSM tag that marks a road as made up by an editor rather than imported.
pub const SYNTHETIC: &'static str = "abst:synthetic";

/// Looks up an OSM tag by its key (`BTreeMap::get`).
#[verifier::external_body]
fn tag_value<'a>(tags: &'a BTreeMap<String, String>, key: &str) -> (value: Option<&'a String>)
    ensures
        match value {
            Some(v) => {
                &&& exists|k: String| #[trigger] tags@.contains_key(k) && k@ == key@ && tags@[k] == *v
                &&& forall|k: String| #[trigger] tags@.contains_key(k) && k@ == key@ ==> tags@[k] == *v
            },
            None => forall|k: String| #[trigger] tags@.contains_key(k) ==> k@ != key@,
        },
{
    tags.get(key)
}

impl RawRoad {
    /// Whether the road is tagged as synthetic: its tag `SYNTHETIC` is `true`.
    pub open spec fn spec_synthetic(&self) -> bool {
        exists|k: String| #[trigger] self.osm_tags@.contains_key(k) && k@ == SYNTHETIC@ && self.osm_tags@[k]@ == "true"@
    }

    /// Whether the road is tagged as synthetic: its tag `SYNTHETIC` is `true`.
    pub fn synthetic(&self) -> (yes: bool)
        ensures
            yes == self.spec_synthetic(),
    {
        match tag_value(&self.osm_tags, SYNTHETIC) {
            Some(v) => {
                let t = String::from_str("true");
                v.eq(&t)
            },
            None => false,
        }
    }
}

} // verus!
