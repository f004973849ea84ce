# map_model (raw map)

The raw form of a city map imported from OpenStreetMap, and the queries and edits that
run on it, verified with Verus.

- `src/ids.rs`: the identifiers of roads, intersections and buildings, their keys and
  their descriptions.
- `src/restriction.rs`: kinds of turn restriction, and how an OSM restriction value is read.
- `src/raw.rs`: the map and its parts; queries (roads at an intersection, fresh ids,
  whether an intersection can be deleted, whether a turn restriction makes sense).
- `src/edits.rs`: edits (deleting roads, turn restrictions and intersections, moving
  intersections), each summed up by a predicate relating the map before and after.
- `src/laws.rs`: properties that relate several calls.
- `src/order.rs`, `src/text.rs`: the order of keys, and decimal text.
- `app/`: serialized copies of the types, checked calls, and the geometry and import
  steps, which run on crates that this package does not build.
