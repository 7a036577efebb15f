//! Fixed-point 2D vectors. Coordinates are `num::SCALE` units per pixel.

use vstd::prelude::*;

verus! {

/// A 2D point or vector in fixed-point units.
#[derive(Clone, Copy, PartialEq, Eq, Structural, Debug)]
pub struct Vec2 {
    pub x: i64,
    pub y: i64,
}

/// Squared Euclidean distance between two points, over the integers.
pub open spec fn dist_sq(p: Vec2, q: Vec2) -> int {
    let dx = p.x - q.x;
    let dy = p.y - q.y;
    dx * dx + dy * dy
}

impl Vec2 {
    /// Builds the vector from its components.
    pub fn new(x: i64, y: i64) -> (v: Vec2)
        ensures
            v.x == x,
            v.y == y,
    {
        Vec2 { x, y }
    }

    /// Squared distance to another point, exact in `i128`.
    pub fn dist_sq_to(&self, other: &Vec2) -> (d: i128)
        requires
            -8_000_000_000_000_000_000 <= self.x - other.x <= 8_000_000_000_000_000_000,
            -8_000_000_000_000_000_000 <= self.y - other.y <= 8_000_000_000_000_000_000,
        ensures
            d as int == dist_sq(*self, *other),
            d >= 0,
    {
        let dx: i128 = (self.x as i128) - (other.x as i128);
        let dy: i128 = (self.y as i128) - (other.y as i128);
        proof {
            assert(dx * dx + dy * dy <= 8_000_000_000_000_000_000i128
                * 8_000_000_000_000_000_000i128 + 8_000_000_000_000_000_000i128
                * 8_000_000_000_000_000_000i128 && dx * dx >= 0 && dy * dy >= 0)
                by (nonlinear_arith)
                requires
                    -8_000_000_000_000_000_000 <= dx <= 8_000_000_000_000_000_000,
                    -8_000_000_000_000_000_000 <= dy <= 8_000_000_000_000_000_000,
            ;
        }
        dx * dx + dy * dy
    }
}

} // verus!
