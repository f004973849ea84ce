use vstd::prelude::*;

verus! {

/// A point in map space. Coordinates are held at a fixed precision of one
/// ten-thousandth of a meter.
#[derive(Debug, Clone, Copy, PartialEq, Eq, Structural)]
pub struct Pt2D {
    pub x_e4: i64,
    pub y_e4: i64,
}

/// A length, held at a fixed precision of one ten-thousandth of a meter.
#[derive(Debug, Clone, Copy, PartialEq, Eq, Structural)]
pub struct Distance {
    pub meters_e4: i64,
}

} // verus!
