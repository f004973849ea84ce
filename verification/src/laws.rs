use vstd::prelude::*;
use vstd::set_lib::{
    lemma_int_range, lemma_len_subset, lemma_len_union, lemma_map_size, lemma_map_size_bound, set_int_range,
};

use crate::edits::RestrictionEntry;
use crate::geometry::Pt2D;
use crate::ids::{OriginalIntersection, OriginalRoad, RoadKey};
use crate::restriction::RestrictionType;
use crate::raw::{DrivingSide, RawArea, RawIntersection, RawMap, Side};
use crate::restriction::{condition_start, parse_restriction, restriction_head, TurnRestriction};

verus! {

broadcast use vstd::seq_lib::group_filter_ensures;

/// `new_osm_node_id` is deterministic: the map and the start decide the id.
pub proof fn law_new_node_id_deterministic(map: RawMap, start: i64, a: i64, b: i64)
    requires
        map.is_new_node_id(start, a),
        map.is_new_node_id(start, b),
    ensures
        a == b,
{
    if a < b {
        assert(map.node_id_used(b));
    }
    if b < a {
        assert(map.node_id_used(a));
    }
}

/// `new_osm_way_id` is deterministic: the map and the start decide the id.
pub proof fn law_new_way_id_deterministic(map: RawMap, start: i64, a: i64, b: i64)
    requires
        map.is_new_way_id(start, a),
        map.is_new_way_id(start, b),
    ensures
        a == b,
{
    if a < b {
        assert(map.way_id_used(b));
    }
    if b < a {
        assert(map.way_id_used(a));
    }
}

/// Once an intersection is added under the node id that `new_osm_node_id` gave, the
/// next call with the same start gives a smaller id: ids are never handed out twice.
pub proof fn law_new_node_id_fresh(
    map: RawMap,
    next: RawMap,
    start: i64,
    a: i64,
    added: RawIntersection,
    b: i64,
)
    requires
        map.is_new_node_id(start, a),
        next.intersections@ == map.intersections@.insert(a, added),
        next.is_new_node_id(start, b),
    ensures
        b < a,
{
    assert(next.node_id_used(a));
    if a < b {
        assert(map.node_id_used(b));
        assert(next.node_id_used(b));
    }
}

/// Once an area is added under the way id that `new_osm_way_id` gave, the next call
/// with the same start gives a smaller id.
pub proof fn law_new_way_id_fresh(map: RawMap, next: RawMap, start: i64, a: i64, b: i64)
    requires
        map.is_new_way_id(start, a),
        next.roads@ == map.roads@,
        next.buildings@ == map.buildings@,
        next.areas@.len() == map.areas@.len() + 1,
        forall|j: int| 0 <= j < map.areas@.len() ==> #[trigger] next.areas@[j] == map.areas@[j],
        next.areas@.last().osm_id == a,
        next.is_new_way_id(start, b),
    ensures
        b < a,
{
    assert(next.areas@[map.areas@.len() as int].osm_id == a);
    assert(next.way_id_used(a));
    if a < b {
        assert(map.way_id_used(b));
        if exists|j: int| 0 <= j < map.areas@.len() && #[trigger] map.areas@[j].osm_id == b {
            let j = choose|j: int| 0 <= j < map.areas@.len() && #[trigger] map.areas@[j].osm_id == b;
            assert(next.areas@[j].osm_id == b);
        }
        assert(next.way_id_used(b));
    }
}

/// After `delete_road(r)` the road is gone, every other road is still there (so the
/// roads at any intersection are those from before, less `r`), and no turn restriction
/// of any road leads to `r` any more.
pub proof fn law_delete_road(map: RawMap, new: RawMap, r: OriginalRoad)
    requires
        map.road_deleted(new, r),
    ensures
        !new.has_road(r),
        forall|q: OriginalRoad| #[trigger] new.has_road(q) <==> (map.has_road(q) && q != r),
        forall|q: OriginalRoad, e: RestrictionEntry|
            new.has_road(q) && #[trigger] new.road(q).turn_restrictions@.contains(e) ==> e.1 != r,
{
    assert forall|q: OriginalRoad| #[trigger] new.has_road(q) <==> (map.has_road(q) && q != r) by {
        OriginalRoad::lemma_key_roundtrip(q, r.spec_key());
        OriginalRoad::lemma_key_roundtrip(r, q.spec_key());
    }
    assert forall|q: OriginalRoad, e: RestrictionEntry|
        new.has_road(q) && #[trigger] new.road(q).turn_restrictions@.contains(e) implies e.1 != r by {
        let l = map.road(q).turn_restrictions@;
        let f = crate::edits::not_leading_to(r);
        assert(new.road(q).turn_restrictions@ == l.filter(f));
        let i = choose|i: int| 0 <= i < l.filter(f).len() && l.filter(f)[i] == e;
        assert(f(l.filter(f)[i]));
    }
}

/// After `delete_turn_restriction(tr)` road `tr.0` has no restriction of kind `tr.1` to
/// road `tr.2`, and keeps every other one it had, and no new one.
pub proof fn law_delete_turn_restriction(map: RawMap, new: RawMap, tr: TurnRestriction)
    requires
        map.restriction_deleted(new, tr),
    ensures
        !new.road(tr.0).turn_restrictions@.contains((tr.1, tr.2)),
        forall|e: RestrictionEntry| #[trigger] map.road(tr.0).turn_restrictions@.contains(e) && e != (tr.1, tr.2)
            ==> new.road(tr.0).turn_restrictions@.contains(e),
        forall|e: RestrictionEntry| #[trigger] new.road(tr.0).turn_restrictions@.contains(e)
            ==> map.road(tr.0).turn_restrictions@.contains(e),
{
    let l = map.road(tr.0).turn_restrictions@;
    let f = crate::edits::keeps_entry(tr.1, tr.2);
    assert(new.road(tr.0).turn_restrictions@ == l.filter(f));
    if l.filter(f).contains((tr.1, tr.2)) {
        let i = choose|i: int| 0 <= i < l.filter(f).len() && l.filter(f)[i] == (tr.1, tr.2);
        assert(f(l.filter(f)[i]));
    }
    assert forall|e: RestrictionEntry| #[trigger] l.contains(e) && e != (tr.1, tr.2) implies l.filter(f).contains(e) by {
        let i = choose|i: int| 0 <= i < l.len() && l[i] == e;
        assert(f(l[i]));
    }
    assert forall|e: RestrictionEntry| #[trigger] l.filter(f).contains(e) implies l.contains(e) by {
        l.lemma_filter_contains_rev(f, e);
    }
}

/// Deleting the same turn restriction twice does no more than deleting it once.
pub proof fn law_delete_turn_restriction_idempotent(a: RawMap, b: RawMap, c: RawMap, tr: TurnRestriction)
    requires
        a.restriction_deleted(b, tr),
        b.restriction_deleted(c, tr),
    ensures
        c.road(tr.0).turn_restrictions@ == b.road(tr.0).turn_restrictions@,
        c.roads@.dom() == b.roads@.dom(),
{
    let f = crate::edits::keeps_entry(tr.1, tr.2);
    crate::edits::lemma_filter_twice(a.road(tr.0).turn_restrictions@, f, f, f);
}

/// After `move_intersection(id, point)` the intersection stands at `point`; every road
/// that starts at it starts at `point`, every other road that ends at it ends at `point`;
/// the roads that do not end at it are unchanged, and no road was added or removed.
pub proof fn law_move_intersection(map: RawMap, new: RawMap, id: OriginalIntersection, point: Pt2D)
    requires
        map.intersection_moved(new, id, point),
        forall|r: OriginalRoad| #[trigger] map.has_road(r) && r.spec_touches(id)
            ==> map.road(r).center_points@.len() > 0,
    ensures
        new.intersections@[id.osm_node_id].point == point,
        forall|q: OriginalRoad| #[trigger] new.has_road(q) <==> map.has_road(q),
        forall|q: OriginalRoad| #[trigger] new.has_road(q) && q.i1 == id
            ==> new.road(q).center_points@[0] == point,
        forall|q: OriginalRoad| #[trigger] new.has_road(q) && q.i1 != id && q.i2 == id
            ==> new.road(q).center_points@.last() == point,
        forall|q: OriginalRoad| #[trigger] new.has_road(q) && !q.spec_touches(id)
            ==> new.road(q) == map.road(q),
{
    assert forall|q: OriginalRoad| #[trigger] new.has_road(q) && q.i1 == id implies new.road(q).center_points@[0] == point by {
        OriginalRoad::lemma_key_roundtrip(q, q.spec_key());
        assert(new.roads@.contains_key(q.spec_key()));
        assert(map.has_road(q) && q.spec_touches(id));
        assert(map.road(q).center_points@.len() > 0);
    }
    assert forall|q: OriginalRoad| #[trigger] new.has_road(q) && q.i1 != id && q.i2 == id implies new.road(q).center_points@.last() == point by {
        OriginalRoad::lemma_key_roundtrip(q, q.spec_key());
        assert(new.roads@.contains_key(q.spec_key()));
        assert(map.has_road(q) && q.spec_touches(id));
        assert(map.road(q).center_points@.len() > 0);
    }
    assert forall|q: OriginalRoad| #[trigger] new.has_road(q) && !q.spec_touches(id) implies new.road(q) == map.road(q) by {
        OriginalRoad::lemma_key_roundtrip(q, q.spec_key());
        assert(new.roads@.contains_key(q.spec_key()));
    }
}

/// Whether two roads may have a turn restriction between them does not depend on which
/// of them it starts from.
pub proof fn law_can_add_turn_restriction_symmetric(a: OriginalRoad, b: OriginalRoad)
    ensures
        a.spec_shares_end(b) == b.spec_shares_end(a),
{
}

/// Whether a `" @ "` starts at position `i`.
pub open spec fn condition_at(s: Seq<char>, i: int) -> bool {
    0 <= i && i + 3 <= s.len() && s[i] == ' ' && s[i + 1] == '@' && s[i + 2] == ' '
}

proof fn lemma_no_condition_before_start(s: Seq<char>, i: int)
    requires
        0 <= i,
    ensures
        forall|j: int| i <= j < condition_start(s, i) ==> !condition_at(s, j),
        0 <= condition_start(s, i) <= s.len(),
    decreases s.len() - i,
{
    if !(i + 3 > s.len()) && !(s[i] == ' ' && s[i + 1] == '@' && s[i + 2] == ' ') {
        lemma_no_condition_before_start(s, i + 1);
    }
}

proof fn lemma_start_without_condition(t: Seq<char>, i: int)
    requires
        0 <= i,
        forall|j: int| i <= j ==> !condition_at(t, j),
    ensures
        condition_start(t, i) == t.len(),
    decreases t.len() - i,
{
    if !(i + 3 > t.len()) {
        assert(!condition_at(t, i));
        lemma_start_without_condition(t, i + 1);
    }
}

/// Only the part of a restriction value before its first `" @ "` decides what it means:
/// that part holds no `" @ "` of its own, and means what the whole value means.
pub proof fn law_restriction_condition_ignored(s: Seq<char>)
    ensures
        forall|j: int| !condition_at(restriction_head(s), j),
        restriction_head(restriction_head(s)) == restriction_head(s),
        parse_restriction(restriction_head(s)) == parse_restriction(s),
{
    let c = condition_start(s, 0);
    lemma_no_condition_before_start(s, 0);
    let t = s.take(c);
    assert forall|j: int| !condition_at(t, j) by {
        if condition_at(t, j) {
            assert(t[j] == s[j] && t[j + 1] == s[j + 1] && t[j + 2] == s[j + 2]);
            assert(condition_at(s, j));
        }
    }
    lemma_start_without_condition(t, 0);
    assert(t.take(t.len() as int) == t);
}

/// There is a free node id at or below `start` whenever the map holds fewer intersections
/// than there are ids from `i64::MIN` to `start`.
pub proof fn law_free_node_id_exists(map: RawMap, start: i64)
    requires
        map.intersections@.len() < start - i64::MIN + 1,
    ensures
        map.has_free_node_id_at_or_below(start),
{
    if !map.has_free_node_id_at_or_below(start) {
        let dom = map.intersections@.dom();
        let f = |x: i64| x as int;
        let wide = dom.map(f);
        assert(dom.finite());
        lemma_map_size(dom, wide, f);
        let low = i64::MIN as int;
        let range = set_int_range(low, start + 1);
        assert forall|x: int| #[trigger] range.contains(x) implies wide.contains(x) by {
            let y = x as i64;
            assert(y <= start);
            assert(map.node_id_used(y));
            assert(dom.contains(y) && f(y) == x);
        }
        lemma_len_subset(range, wide);
        lemma_int_range(low, start + 1);
    }
}

/// There is a free way id at or below `start` whenever the map holds fewer roads,
/// buildings and areas in all than there are ids from `i64::MIN` to `start`.
pub proof fn law_free_way_id_exists(map: RawMap, start: i64)
    requires
        map.roads@.len() + map.buildings@.len() + map.areas@.len() < start - i64::MIN + 1,
    ensures
        map.has_free_way_id_at_or_below(start),
{
    if !map.has_free_way_id_at_or_below(start) {
        let road_dom = map.roads@.dom();
        let fr = |k: RoadKey| k.0 as int;
        let road_ids = road_dom.map(fr);
        assert(road_dom.finite());
        lemma_map_size_bound(road_dom, road_ids, fr);
        let building_dom = map.buildings@.dom();
        let fb = |x: i64| x as int;
        let building_ids = building_dom.map(fb);
        assert(building_dom.finite());
        lemma_map_size_bound(building_dom, building_ids, fb);
        let area_seq = map.areas@.map_values(|a: RawArea| a.osm_id as int);
        let area_ids = area_seq.to_set();
        area_seq.lemma_cardinality_of_set();
        let used = road_ids.union(building_ids).union(area_ids);
        lemma_len_union(road_ids, building_ids);
        lemma_len_union(road_ids.union(building_ids), area_ids);
        let low = i64::MIN as int;
        let range = set_int_range(low, start + 1);
        assert forall|x: int| #[trigger] range.contains(x) implies used.contains(x) by {
            let y = x as i64;
            assert(y <= start);
            assert(map.way_id_used(y));
            if exists|k: RoadKey| #[trigger] map.roads@.contains_key(k) && k.0 == y {
                let k = choose|k: RoadKey| #[trigger] map.roads@.contains_key(k) && k.0 == y;
                assert(road_dom.contains(k) && fr(k) == x);
            } else if map.buildings@.contains_key(y) {
                assert(building_dom.contains(y) && fb(y) == x);
            } else {
                let j = choose|j: int| 0 <= j < map.areas@.len() && #[trigger] map.areas@[j].osm_id == y;
                assert(area_seq[j] == x);
                assert(area_seq.contains(x));
            }
        }
        lemma_len_subset(range, used);
        lemma_int_range(low, start + 1);
    }
}

/// Shifts "to the right" and "to the left" always go to opposite sides; in right-hand
/// traffic they go where they are named, and left-hand traffic swaps them.
pub proof fn law_shift_sides_mirror(d: DrivingSide)
    ensures
        d.spec_left_shift_side() == d.spec_right_shift_side().spec_opposite(),
        DrivingSide::Right.spec_right_shift_side() == Side::Right,
        DrivingSide::Left.spec_right_shift_side() == DrivingSide::Right.spec_left_shift_side(),
        DrivingSide::Left.spec_left_shift_side() == DrivingSide::Right.spec_right_shift_side(),
        d.spec_flips_angles() <==> d.spec_right_shift_side() != Side::Right,
{
}

/// A node id that `new_osm_node_id` gave for some start is what it gives when asked from
/// that id itself; once an intersection is added under it, asking from the first start or
/// from that id gives the same, smaller id.
pub proof fn law_new_node_id_from_itself(
    map: RawMap,
    next: RawMap,
    start: i64,
    r: i64,
    again: i64,
    added: RawIntersection,
    b: i64,
    c: i64,
)
    requires
        map.is_new_node_id(start, r),
        map.is_new_node_id(r, again),
        next.intersections@ == map.intersections@.insert(r, added),
        next.is_new_node_id(start, b),
        next.is_new_node_id(r, c),
    ensures
        again == r,
        b < r,
        b == c,
{
    assert(map.is_new_node_id(r, r));
    law_new_node_id_deterministic(map, r, r, again);
    law_new_node_id_fresh(map, next, start, r, added, b);
    assert(next.node_id_used(r));
    if b < c {
        assert(c < r);
        assert(next.node_id_used(c));
    }
    if c < b {
        assert(next.node_id_used(b));
    }
}

/// The way id that `new_osm_way_id` gives depends only on which way ids the roads,
/// buildings and areas use: not on intersections or on anything else in the map.
pub proof fn law_new_way_id_depends_on_way_ids(m1: RawMap, m2: RawMap, start: i64, a: i64, b: i64)
    requires
        forall|x: i64| #[trigger] m1.way_id_used(x) == m2.way_id_used(x),
        m1.is_new_way_id(start, a),
        m2.is_new_way_id(start, b),
    ensures
        a == b,
{
    assert(m1.way_id_used(b) == m2.way_id_used(b));
    assert(m1.is_new_way_id(start, b));
    law_new_way_id_deterministic(m1, start, a, b);
}

/// What `delete_road(r)` reports: every restriction that `r` itself has, whatever its
/// kind, and every restriction of another road that leads to `r`; and nothing else.
pub proof fn law_delete_road_reports(map: RawMap, r: OriginalRoad, deleted: Seq<TurnRestriction>)
    requires
        map.has_road(r),
        forall|tr: TurnRestriction| #[trigger] deleted.contains(tr) <==> map.involves(r, tr),
    ensures
        forall|kind: RestrictionType, to: OriginalRoad|
            #[trigger] map.road(r).turn_restrictions@.contains((kind, to))
            ==> deleted.contains(TurnRestriction(r, kind, to)),
        forall|q: OriginalRoad, kind: RestrictionType|
            map.has_road(q) && #[trigger] map.road(q).turn_restrictions@.contains((kind, r))
            ==> deleted.contains(TurnRestriction(q, kind, r)),
        forall|tr: TurnRestriction| #[trigger] deleted.contains(tr) ==> {
            ||| (tr.0 == r && map.road(r).turn_restrictions@.contains((tr.1, tr.2)))
            ||| (tr.2 == r && map.has_road(tr.0) && map.road(tr.0).turn_restrictions@.contains((tr.1, tr.2)))
        },
{
    assert forall|kind: RestrictionType, to: OriginalRoad|
        #[trigger] map.road(r).turn_restrictions@.contains((kind, to)) implies deleted.contains(TurnRestriction(r, kind, to)) by {
        assert(map.involves(r, TurnRestriction(r, kind, to)));
    }
    assert forall|q: OriginalRoad, kind: RestrictionType|
        map.has_road(q) && #[trigger] map.road(q).turn_restrictions@.contains((kind, r)) implies deleted.contains(TurnRestriction(q, kind, r)) by {
        assert(map.involves(r, TurnRestriction(q, kind, r)));
    }
}

/// `move_intersection` moves exactly one point of each road that ends at the
/// intersection: its first point if the road starts there, else its last. Every other
/// point of the center line, and its length, stay as they were.
pub proof fn law_move_intersection_moves_one_point(
    map: RawMap,
    new: RawMap,
    id: OriginalIntersection,
    point: Pt2D,
    q: OriginalRoad,
    j: int,
)
    requires
        map.intersection_moved(new, id, point),
        forall|r: OriginalRoad| #[trigger] map.has_road(r) && r.spec_touches(id)
            ==> map.road(r).center_points@.len() > 0,
        map.has_road(q),
        q.i1 == id || q.i2 == id,
    ensures
        new.road(q).center_points@.len() == map.road(q).center_points@.len(),
        q.i1 == id ==> new.road(q).center_points@[0] == point,
        q.i1 != id ==> new.road(q).center_points@[map.road(q).center_points@.len() - 1] == point,
        0 <= j < map.road(q).center_points@.len() && j != (if q.i1 == id { 0 } else {
            map.road(q).center_points@.len() - 1
        }) ==> new.road(q).center_points@[j] == map.road(q).center_points@[j],
{
    OriginalRoad::lemma_key_roundtrip(q, q.spec_key());
    assert(new.roads@.contains_key(q.spec_key()));
    assert(q.spec_touches(id));
    assert(map.road(q).center_points@.len() > 0);
}

/// The way id that `new_osm_way_id` gives is the way id of no road (whatever its ends),
/// of no building and of no area; and every id above it, up to `start`, is the way id of
/// some road, building or area.
pub proof fn law_new_way_id_unused(map: RawMap, start: i64, id: i64)
    requires
        map.is_new_way_id(start, id),
    ensures
        id <= start,
        forall|q: OriginalRoad| #[trigger] map.has_road(q) ==> q.osm_way_id != id,
        !map.buildings@.contains_key(id),
        forall|j: int| 0 <= j < map.areas@.len() ==> #[trigger] map.areas@[j].osm_id != id,
        forall|other: i64| id < other <= start ==> {
            ||| exists|q: OriginalRoad| #[trigger] map.has_road(q) && q.osm_way_id == other
            ||| map.buildings@.contains_key(other)
            ||| exists|j: int| 0 <= j < map.areas@.len() && #[trigger] map.areas@[j].osm_id == other
        },
{
    assert forall|q: OriginalRoad| #[trigger] map.has_road(q) implies q.osm_way_id != id by {
        assert(map.roads@.contains_key(q.spec_key()));
    }
    assert forall|other: i64| id < other <= start implies {
        ||| exists|q: OriginalRoad| #[trigger] map.has_road(q) && q.osm_way_id == other
        ||| map.buildings@.contains_key(other)
        ||| exists|j: int| 0 <= j < map.areas@.len() && #[trigger] map.areas@[j].osm_id == other
    } by {
        assert(map.way_id_used(other));
        if exists|k: RoadKey| #[trigger] map.roads@.contains_key(k) && k.0 == other {
            let k = choose|k: RoadKey| #[trigger] map.roads@.contains_key(k) && k.0 == other;
            let q = OriginalRoad::spec_from_key(k);
            OriginalRoad::lemma_key_roundtrip(q, k);
            assert(map.has_road(q) && q.osm_way_id == other);
        }
    }
}

/// The node id that `new_osm_node_id` gives is that of no intersection, and every id
/// above it, up to `start`, is that of some intersection.
pub proof fn law_new_node_id_unused(map: RawMap, start: i64, id: i64)
    requires
        map.is_new_node_id(start, id),
    ensures
        id <= start,
        !map.intersections@.contains_key(id),
        forall|other: i64| id < other <= start ==> #[trigger] map.intersections@.contains_key(other),
{
    assert forall|other: i64| id < other <= start implies #[trigger] map.intersections@.contains_key(other) by {
        assert(map.node_id_used(other));
    }
}

/// A turn restriction between two roads makes sense exactly when some end of one is
/// some end of the other, in either direction and at either end.
pub proof fn law_can_add_turn_restriction_any_shared_end(from: OriginalRoad, to: OriginalRoad, ok: bool)
    requires
        ok == from.spec_shares_end(to),
    ensures
        ok <==> (from.i1 == to.i1 || from.i1 == to.i2 || from.i2 == to.i1 || from.i2 == to.i2),
        from.i1 == to.i1 ==> ok,
        from.i2 == to.i2 ==> ok,
{
}

} // verus!
