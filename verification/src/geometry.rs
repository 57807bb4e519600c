//! Geometry primitives: fixed-point 3-D points and line segments.
//!
//! All coordinates are fixed-point integers: one `i64` unit is a thousandth of
//! a model unit. Values are kept within `COORD_LIMIT` so that sums and
//! differences of any two coordinates fit comfortably in `i64`.
use vstd::prelude::*;

verus! {

/// One model unit expressed in fixed-point coordinate units.
pub const UNIT: i64 = 1000;

/// Largest magnitude a coordinate may take, in fixed-point units.
pub const COORD_LIMIT: i64 = 1_000_000_000_000_000;

/// A coordinate the library considers representable.
pub open spec fn coord_in_range(c: int) -> bool {
    -(COORD_LIMIT as int) <= c <= COORD_LIMIT as int
}

/// Mathematical clamp of a value into the representable coordinate range.
pub open spec fn clamp_coord(v: int) -> int {
    if v < -(COORD_LIMIT as int) {
        -(COORD_LIMIT as int)
    } else if v > COORD_LIMIT as int {
        COORD_LIMIT as int
    } else {
        v
    }
}

/// Clamps a wide intermediate value back into the coordinate range.
pub fn clamp_coord_i128(v: i128) -> (r: i64)
    ensures
        r as int == clamp_coord(v as int),
{
    if v < -(COORD_LIMIT as i128) {
        -COORD_LIMIT
    } else if v > COORD_LIMIT as i128 {
        COORD_LIMIT
    } else {
        v as i64
    }
}

/// A point in 3-D space, in fixed-point coordinates.
#[derive(Clone, Copy, PartialEq, Eq, Structural, Debug)]
pub struct Point3D {
    pub x: i64,
    pub y: i64,
    pub z: i64,
}

impl Point3D {
    /// All three coordinates are representable.
    pub open spec fn wf(self) -> bool {
        coord_in_range(self.x as int) && coord_in_range(self.y as int) && coord_in_range(
            self.z as int,
        )
    }

    pub fn new(x: i64, y: i64, z: i64) -> (p: Self)
        ensures
            p == (Point3D { x, y, z }),
    {
        Point3D { x, y, z }
    }

    /// The origin.
    pub fn zero() -> (p: Self)
        ensures
            p == (Point3D { x: 0i64, y: 0i64, z: 0i64 }),
    {
        Point3D { x: 0, y: 0, z: 0 }
    }
}

/// One continuous motion from `start` to `end`.
///
/// `is_depositing` is true iff the motion increased the cumulative
/// deposited-material quantity; `layer_z` records the z-coordinate of the
/// endpoint for layer-based filtering by callers.
#[derive(Clone, Copy, PartialEq, Eq, Structural, Debug)]
pub struct LineSegment {
    pub start: Point3D,
    pub end: Point3D,
    pub is_depositing: bool,
    pub layer_z: i64,
}

impl LineSegment {
    /// Both endpoints and the recorded layer height are representable.
    pub open spec fn wf(self) -> bool {
        self.start.wf() && self.end.wf() && coord_in_range(self.layer_z as int)
    }
}

} // verus!
