//! Absolute positions in the fixed-point plane.

use vstd::prelude::*;
use crate::num::POS_LIMIT;
use crate::num::mag_sq;
use crate::num::sqrt_floor;
use crate::vector_2d::Vector2D;

verus! {

/// An absolute position, in coordinate units.
#[derive(Clone, Copy, Debug, PartialEq, Eq, Structural)]
pub struct Point2D {
    pub x: i64,
    pub y: i64,
}

/// Squared distance between two positions.
pub open spec fn dist_sq(a: Point2D, b: Point2D) -> int {
    mag_sq(b.x - a.x, b.y - a.y)
}

impl Point2D {
    /// Both coordinates within the supported world box.
    pub open spec fn in_world(self) -> bool {
        &&& -POS_LIMIT <= self.x <= POS_LIMIT
        &&& -POS_LIMIT <= self.y <= POS_LIMIT
    }

    /// The directed displacement from `self` to `other`.
    pub fn vector_to(&self, other: &Point2D) -> (v: Vector2D)
        requires
            self.in_world(),
            other.in_world(),
        ensures
            v == (Vector2D { x: (other.x - self.x) as i64, y: (other.y - self.y) as i64 }),
            v.in_range(),
    {
        Vector2D { x: other.x - self.x, y: other.y - self.y }
    }

    /// The distance to `other`, rounded down.
    pub fn distance_to(&self, other: &Point2D) -> (d: i64)
        requires
            self.in_world(),
            other.in_world(),
        ensures
            d as nat == sqrt_floor(dist_sq(*self, *other) as nat),
            d >= 0,
    {
        let v = self.vector_to(other);
        v.length()
    }
}

} // verus!
