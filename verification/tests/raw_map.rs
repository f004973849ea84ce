use std::collections::{BTreeMap, BTreeSet};

use map_model::{
    AreaType, Distance, IntersectionType, Side, DrivingSide, OriginalBuilding, OriginalIntersection, OriginalRoad, Pt2D, RawArea,
    RawBuilding, RawIntersection, RawMap, RawRoad, RestrictionType, TurnRestriction, SYNTHETIC,
};

fn node(id: i64) -> OriginalIntersection {
    OriginalIntersection { osm_node_id: id }
}

fn road_id(way: i64, a: i64, b: i64) -> OriginalRoad {
    OriginalRoad { osm_way_id: way, i1: node(a), i2: node(b) }
}

fn pt(x: i64, y: i64) -> Pt2D {
    Pt2D { x_e4: x, y_e4: y }
}

fn raw_road(points: Vec<Pt2D>, restrictions: Vec<(RestrictionType, OriginalRoad)>) -> RawRoad {
    RawRoad {
        center_points: points,
        osm_tags: BTreeMap::new(),
        turn_restrictions: restrictions,
        complicated_turn_restrictions: Vec::new(),
    }
}

fn intersection(x: i64, y: i64) -> RawIntersection {
    RawIntersection {
        point: pt(x, y),
        intersection_type: IntersectionType::StopSign,
        elevation: Distance { meters_e4: 0 },
    }
}

fn add_road(map: &mut RawMap, r: OriginalRoad, road: RawRoad) {
    map.roads.insert(r.key(), road);
}

#[test]
fn blank_map_is_empty() {
    let map = RawMap::blank("seattle", "montlake");
    assert_eq!(map.city_name, "seattle");
    assert_eq!(map.name, "montlake");
    assert!(map.roads.is_empty());
    assert!(map.intersections.is_empty());
    assert!(map.buildings.is_empty());
    assert!(map.areas.is_empty());
    assert_eq!(map.driving_side, DrivingSide::Right);
}

#[test]
fn ids_describe_themselves() {
    assert_eq!(node(53).to_string(), "OriginalIntersection(53)");
    assert_eq!(node(-7).to_string(), "OriginalIntersection(-7)");
    assert_eq!(node(0).to_string(), "OriginalIntersection(0)");
    assert_eq!(
        node(i64::MIN).to_string(),
        "OriginalIntersection(-9223372036854775808)"
    );
    assert_eq!(
        road_id(123, 4, -5).to_string(),
        "OriginalRoad(way 123 between node 4 to -5)"
    );
    assert_eq!(
        OriginalBuilding { osm_way_id: i64::MAX }.to_string(),
        "OriginalBuilding(9223372036854775807)"
    );
}

#[test]
fn restriction_types_from_osm_values() {
    assert_eq!(RestrictionType::new("no_left_turn"), Some(RestrictionType::BanTurns));
    assert_eq!(RestrictionType::new("no_right_turn"), Some(RestrictionType::BanTurns));
    assert_eq!(RestrictionType::new("no_straight_on"), Some(RestrictionType::BanTurns));
    assert_eq!(RestrictionType::new("no_u_turn"), Some(RestrictionType::BanTurns));
    assert_eq!(RestrictionType::new("no_anything"), Some(RestrictionType::BanTurns));
    assert_eq!(
        RestrictionType::new("conditional=no_left_turn"),
        Some(RestrictionType::BanTurns)
    );
    assert_eq!(RestrictionType::new("only_left_turn"), Some(RestrictionType::OnlyAllowTurns));
    assert_eq!(RestrictionType::new("only_right_turn"), Some(RestrictionType::OnlyAllowTurns));
    assert_eq!(RestrictionType::new("only_straight_on"), Some(RestrictionType::OnlyAllowTurns));
    assert_eq!(RestrictionType::new("only_u_turn"), Some(RestrictionType::OnlyAllowTurns));
    assert_eq!(RestrictionType::new("no_right_turn_on_red"), None);
}

#[test]
fn restriction_conditions_are_ignored() {
    assert_eq!(
        RestrictionType::new("no_left_turn @ (Mo-Fr 06:00-09:00, 15:00-18:30)"),
        Some(RestrictionType::BanTurns)
    );
    assert_eq!(
        RestrictionType::new("only_u_turn @ x @ y"),
        Some(RestrictionType::OnlyAllowTurns)
    );
    assert_eq!(RestrictionType::new("no_right_turn_on_red @ (22:00-06:00)"), None);
}

#[test]
fn unknown_restrictions_are_not_known() {
    assert!(!RestrictionType::is_known("no_entry"));
    assert!(!RestrictionType::is_known("no_left_turn@ x"));
    assert!(!RestrictionType::is_known(""));
    assert!(!RestrictionType::is_known(" @ no_left_turn"));
    assert!(RestrictionType::is_known("no_u_turn @ "));
    assert!(RestrictionType::is_known("no_right_turn_on_red"));
}

#[test]
fn roads_per_intersection_lists_touching_roads_in_order() {
    let mut map = RawMap::blank("c", "n");
    let r1 = road_id(10, 1, 2);
    let r2 = road_id(5, 2, 3);
    let r3 = road_id(5, 1, 3);
    let r4 = road_id(7, 4, 2);
    for r in [r1, r2, r3, r4] {
        add_road(&mut map, r, raw_road(vec![pt(0, 0), pt(1, 1)], Vec::new()));
    }
    assert_eq!(map.roads_per_intersection(node(2)), vec![r2, r4, r1]);
    assert_eq!(map.roads_per_intersection(node(1)), vec![r3, r1]);
    assert_eq!(map.roads_per_intersection(node(9)), Vec::<OriginalRoad>::new());
}

#[test]
fn can_delete_intersection_only_without_roads() {
    let mut map = RawMap::blank("c", "n");
    map.intersections.insert(1, intersection(0, 0));
    map.intersections.insert(2, intersection(5, 5));
    map.intersections.insert(3, intersection(9, 9));
    add_road(&mut map, road_id(10, 1, 2), raw_road(vec![pt(0, 0), pt(5, 5)], Vec::new()));
    assert!(!map.can_delete_intersection(node(1)));
    assert!(!map.can_delete_intersection(node(2)));
    assert!(map.can_delete_intersection(node(3)));
    map.delete_intersection(node(3));
    assert!(!map.intersections.contains_key(&3));
    assert_eq!(map.intersections.len(), 2);
    assert_eq!(map.roads.len(), 1);
}

#[test]
fn can_add_turn_restriction_needs_a_shared_end() {
    let map = RawMap::blank("c", "n");
    let a = road_id(1, 1, 2);
    let b = road_id(2, 2, 3);
    let c = road_id(3, 3, 4);
    let d = road_id(4, 4, 1);
    assert!(map.can_add_turn_restriction(a, b));
    assert!(map.can_add_turn_restriction(b, a));
    assert!(!map.can_add_turn_restriction(a, c));
    assert!(!map.can_add_turn_restriction(c, a));
    assert!(map.can_add_turn_restriction(a, d));
    assert!(map.can_add_turn_restriction(d, c));
}

#[test]
fn new_osm_node_id_skips_used_ids() {
    let mut map = RawMap::blank("c", "n");
    assert_eq!(map.new_osm_node_id(-1), -1);
    map.intersections.insert(-1, intersection(0, 0));
    map.intersections.insert(-2, intersection(0, 0));
    map.intersections.insert(-4, intersection(0, 0));
    map.intersections.insert(5, intersection(0, 0));
    assert_eq!(map.new_osm_node_id(-1), -3);
    assert_eq!(map.new_osm_node_id(-4), -5);
    assert_eq!(map.new_osm_node_id(-10), -10);
    // Deterministic: the same question gets the same answer.
    assert_eq!(map.new_osm_node_id(-1), -3);
    // Once used, the id is not handed out again.
    map.intersections.insert(-3, intersection(0, 0));
    assert_eq!(map.new_osm_node_id(-1), -5);
}

#[test]
fn new_osm_way_id_skips_roads_buildings_and_areas() {
    let mut map = RawMap::blank("c", "n");
    assert_eq!(map.new_osm_way_id(-1), -1);
    add_road(&mut map, road_id(-1, 1, 2), raw_road(Vec::new(), Vec::new()));
    map.buildings.insert(
        -2,
        RawBuilding {
            osm_tags: BTreeMap::new(),
            public_garage_name: None,
            num_parking_spots: 0,
            amenities: BTreeSet::new(),
        },
    );
    map.areas.push(RawArea { area_type: AreaType::Park, osm_tags: BTreeMap::new(), osm_id: -3 });
    // A node id equal to a way id does not count.
    map.intersections.insert(-4, intersection(0, 0));
    assert_eq!(map.new_osm_way_id(-1), -4);
    assert_eq!(map.new_osm_way_id(-3), -4);
    assert_eq!(map.new_osm_way_id(-100), -100);
}

#[test]
fn delete_turn_restriction_removes_every_matching_entry() {
    let mut map = RawMap::blank("c", "n");
    let from = road_id(1, 1, 2);
    let to = road_id(2, 2, 3);
    let other = road_id(3, 2, 4);
    add_road(
        &mut map,
        from,
        raw_road(
            Vec::new(),
            vec![
                (RestrictionType::BanTurns, to),
                (RestrictionType::OnlyAllowTurns, to),
                (RestrictionType::BanTurns, other),
                (RestrictionType::BanTurns, to),
            ],
        ),
    );
    add_road(&mut map, to, raw_road(Vec::new(), vec![(RestrictionType::BanTurns, from)]));
    map.delete_turn_restriction(TurnRestriction(from, RestrictionType::BanTurns, to));
    assert_eq!(
        map.roads[&from.key()].turn_restrictions,
        vec![(RestrictionType::OnlyAllowTurns, to), (RestrictionType::BanTurns, other)]
    );
    assert_eq!(
        map.roads[&to.key()].turn_restrictions,
        vec![(RestrictionType::BanTurns, from)]
    );
    // A second time changes nothing.
    map.delete_turn_restriction(TurnRestriction(from, RestrictionType::BanTurns, to));
    assert_eq!(map.roads[&from.key()].turn_restrictions.len(), 2);
}

#[test]
fn delete_road_removes_restrictions_to_it() {
    let mut map = RawMap::blank("c", "n");
    let a = road_id(1, 1, 2);
    let b = road_id(2, 2, 3);
    let c = road_id(3, 2, 4);
    add_road(
        &mut map,
        a,
        raw_road(
            Vec::new(),
            vec![
                (RestrictionType::OnlyAllowTurns, b),
                (RestrictionType::BanTurns, c),
                (RestrictionType::BanTurns, b),
            ],
        ),
    );
    add_road(
        &mut map,
        b,
        raw_road(
            Vec::new(),
            vec![(RestrictionType::BanTurns, c), (RestrictionType::BanTurns, c)],
        ),
    );
    add_road(&mut map, c, raw_road(Vec::new(), vec![(RestrictionType::BanTurns, b)]));
    let deleted = map.delete_road(b);
    assert_eq!(
        deleted,
        vec![
            TurnRestriction(a, RestrictionType::BanTurns, b),
            TurnRestriction(a, RestrictionType::OnlyAllowTurns, b),
            TurnRestriction(b, RestrictionType::BanTurns, c),
            TurnRestriction(c, RestrictionType::BanTurns, b),
        ]
    );
    assert!(!map.roads.contains_key(&b.key()));
    assert_eq!(map.roads.len(), 2);
    assert_eq!(map.roads[&a.key()].turn_restrictions, vec![(RestrictionType::BanTurns, c)]);
    assert!(map.roads[&c.key()].turn_restrictions.is_empty());
}

#[test]
fn move_intersection_moves_road_ends() {
    let mut map = RawMap::blank("c", "n");
    map.intersections.insert(1, intersection(0, 0));
    map.intersections.insert(2, intersection(10, 0));
    map.intersections.insert(3, intersection(20, 0));
    let a = road_id(1, 1, 2);
    let b = road_id(2, 2, 3);
    let c = road_id(3, 1, 3);
    add_road(&mut map, a, raw_road(vec![pt(0, 0), pt(5, 1), pt(10, 0)], Vec::new()));
    add_road(&mut map, b, raw_road(vec![pt(10, 0), pt(20, 0)], Vec::new()));
    add_road(&mut map, c, raw_road(vec![pt(0, 0), pt(20, 0)], Vec::new()));
    let fixed = map.move_intersection(node(2), pt(11, 3));
    assert_eq!(fixed, Some(vec![a, b]));
    assert_eq!(map.intersections[&2].point, pt(11, 3));
    assert_eq!(map.roads[&a.key()].center_points, vec![pt(0, 0), pt(5, 1), pt(11, 3)]);
    assert_eq!(map.roads[&b.key()].center_points, vec![pt(11, 3), pt(20, 0)]);
    assert_eq!(map.roads[&c.key()].center_points, vec![pt(0, 0), pt(20, 0)]);
}

#[test]
fn move_intersection_keeps_type_and_elevation() {
    let mut map = RawMap::blank("c", "n");
    map.intersections.insert(
        1,
        RawIntersection {
            point: pt(0, 0),
            intersection_type: IntersectionType::TrafficSignal,
            elevation: Distance { meters_e4: 25_000 },
        },
    );
    assert_eq!(map.move_intersection(node(1), pt(4, 4)), Some(Vec::new()));
    assert_eq!(
        map.intersections[&1],
        RawIntersection {
            point: pt(4, 4),
            intersection_type: IntersectionType::TrafficSignal,
            elevation: Distance { meters_e4: 25_000 },
        }
    );
}

#[test]
fn shifts_swap_in_left_hand_traffic() {
    assert_eq!(DrivingSide::Right.right_shift_side(), Side::Right);
    assert_eq!(DrivingSide::Right.left_shift_side(), Side::Left);
    assert_eq!(DrivingSide::Left.right_shift_side(), Side::Left);
    assert_eq!(DrivingSide::Left.left_shift_side(), Side::Right);
    assert!(!DrivingSide::Right.flips_angles());
    assert!(DrivingSide::Left.flips_angles());
}

#[test]
fn new_way_id_ignores_intersections() {
    let mut map = RawMap::blank("c", "n");
    let before = map.new_osm_way_id(-1);
    map.intersections.insert(-1, intersection(0, 0));
    assert_eq!(map.new_osm_way_id(-1), before);
    assert_eq!(map.new_osm_node_id(-1), -2);
    // Asking from the id it gave gives that id again.
    assert_eq!(map.new_osm_node_id(-2), -2);
}

#[test]
fn synthetic_roads_are_tagged() {
    let mut road = raw_road(Vec::new(), Vec::new());
    assert!(!road.synthetic());
    road.osm_tags.insert(SYNTHETIC.to_string(), "false".to_string());
    assert!(!road.synthetic());
    road.osm_tags.insert(SYNTHETIC.to_string(), "true".to_string());
    assert!(road.synthetic());
    road.osm_tags.remove(SYNTHETIC);
    road.osm_tags.insert("highway".to_string(), "true".to_string());
    assert!(!road.synthetic());
}

#[test]
fn road_keys_name_roads() {
    let r = road_id(9, -1, 4);
    assert_eq!(r.key(), (9, -1, 4));
    assert_eq!(OriginalRoad::from_key(r.key()), r);
}
