//! The raw, pre-processed form of a city map: roads, intersections, buildings and
//! areas as they were imported from OpenStreetMap, with the queries and edits that
//! run on a map before it is turned into a full map model.
//!
//! Roads are stored under `OriginalRoad::key`, a tuple of integers, so that the maps
//! of the model are ordered as the identifiers themselves are.

pub mod edits;
pub mod geometry;
pub mod ids;
pub mod laws;
pub mod order;
pub mod raw;
pub mod restriction;
pub mod text;

pub use edits::RestrictionEntry;
pub use geometry::{Distance, Pt2D};
pub use ids::{OriginalBuilding, OriginalIntersection, OriginalRoad, RoadKey};
pub use raw::{
    AreaType, DrivingSide, IntersectionType, RawArea, RawBuilding, RawIntersection, RawMap, RawRoad, Side, SYNTHETIC,
};
pub use restriction::{RestrictionType, TurnRestriction, TurnRestrictionKey};
