//! A body: one simulated point mass with identity, position, velocity,
//! mass and color. Its collision radius equals its mass, which is also the
//! radius it is drawn with.

use vstd::prelude::*;
use crate::num::{COLOR_ONE, SCALE};
use crate::rng::gen_range_i64;
use crate::vec2::Vec2;

verus! {

/// An RGBA color; each channel runs from 0 to `COLOR_ONE`.
#[derive(Clone, Copy, PartialEq, Eq, Structural, Debug)]
pub struct Color {
    pub r: i64,
    pub g: i64,
    pub b: i64,
    pub a: i64,
}

/// One simulated point mass.
#[derive(Clone, Copy, PartialEq, Eq, Structural, Debug)]
pub struct Body {
    /// Stable identity, unique within one run, assigned in creation order.
    pub id: usize,
    pub colour: Color,
    pub position: Vec2,
    pub velocity: Vec2,
    /// Mass in `SCALE` units; always positive, and doubling as the
    /// collision/render radius.
    pub mass: i64,
}

/// Largest position coordinate magnitude the physics step accepts.
pub const POS_LIMIT: i64 = 1_000_000_000;

/// Largest velocity component magnitude the physics step accepts.
pub const VEL_LIMIT: i64 = 1_000_000_000;

/// Smallest accepted mass (1.0 in pixel units).
pub const MASS_MIN: i64 = 1_000;

/// Largest accepted mass (1000.0 in pixel units).
pub const MASS_MAX: i64 = 1_000_000;

/// Largest accepted screen dimension.
pub const DIM_MAX: i64 = 1_000_000_000;

/// Smallest accepted screen dimension.
pub const DIM_MIN: i64 = 4;

/// Most bodies one simulation accepts.
pub const BODIES_MAX: usize = 100;

/// Every channel of the color is in range.
pub open spec fn color_ok(c: Color) -> bool {
    &&& 0 <= c.r <= COLOR_ONE
    &&& 0 <= c.g <= COLOR_ONE
    &&& 0 <= c.b <= COLOR_ONE
    &&& 0 <= c.a <= COLOR_ONE
}

/// The envelope of values on which one physics step is defined: positions,
/// velocities and masses small enough that every intermediate product fits
/// the machine integers it is computed in.
pub open spec fn body_ok(b: Body) -> bool {
    &&& -POS_LIMIT <= b.position.x <= POS_LIMIT
    &&& -POS_LIMIT <= b.position.y <= POS_LIMIT
    &&& -VEL_LIMIT <= b.velocity.x <= VEL_LIMIT
    &&& -VEL_LIMIT <= b.velocity.y <= VEL_LIMIT
    &&& MASS_MIN <= b.mass <= MASS_MAX
    &&& color_ok(b.colour)
}

/// The wider envelope the collision test accepts: it admits the
/// positions one integration step can reach from the physics envelope.
pub open spec fn body_near_ok(b: Body) -> bool {
    &&& -4_000_000_000_000_000_000 <= b.position.x <= 4_000_000_000_000_000_000
    &&& -4_000_000_000_000_000_000 <= b.position.y <= 4_000_000_000_000_000_000
    &&& MASS_MIN <= b.mass <= MASS_MAX
}

/// Both screen dimensions are in the accepted range.
pub open spec fn dims_ok(width: i64, height: i64) -> bool {
    &&& DIM_MIN <= width <= DIM_MAX
    &&& DIM_MIN <= height <= DIM_MAX
}

impl Body {
    /// Checks this body against the physics envelope.
    pub fn check_ok(&self) -> (r: bool)
        ensures
            r == body_ok(*self),
    {
        -POS_LIMIT <= self.position.x && self.position.x <= POS_LIMIT
            && -POS_LIMIT <= self.position.y && self.position.y <= POS_LIMIT
            && -VEL_LIMIT <= self.velocity.x && self.velocity.x <= VEL_LIMIT
            && -VEL_LIMIT <= self.velocity.y && self.velocity.y <= VEL_LIMIT
            && MASS_MIN <= self.mass && self.mass <= MASS_MAX && 0 <= self.colour.r
            && self.colour.r <= COLOR_ONE && 0 <= self.colour.g && self.colour.g <= COLOR_ONE
            && 0 <= self.colour.b && self.colour.b <= COLOR_ONE && 0 <= self.colour.a
            && self.colour.a <= COLOR_ONE
    }

    /// Creates a new body with random properties: color channels in
    /// [0.2, 1.0], position in the central half of the viewport, velocity
    /// components in [-1.0, 1.0] and mass in [1.0, 10.0] (pixel units).
    pub fn new_random(id: usize, width: i64, height: i64) -> (b: Body)
        requires
            dims_ok(width, height),
        ensures
            b.id == id,
            width / 4 <= b.position.x <= width - width / 4,
            height / 4 <= b.position.y <= height - height / 4,
            -SCALE <= b.velocity.x <= SCALE,
            -SCALE <= b.velocity.y <= SCALE,
            SCALE <= b.mass <= 10 * SCALE,
            b.colour.a == COLOR_ONE,
            COLOR_ONE / 5 <= b.colour.r <= COLOR_ONE,
            COLOR_ONE / 5 <= b.colour.g <= COLOR_ONE,
            COLOR_ONE / 5 <= b.colour.b <= COLOR_ONE,
            body_ok(b),
    {
        let colour = Color {
            r: gen_range_i64(COLOR_ONE / 5, COLOR_ONE),
            g: gen_range_i64(COLOR_ONE / 5, COLOR_ONE),
            b: gen_range_i64(COLOR_ONE / 5, COLOR_ONE),
            a: COLOR_ONE,
        };
        let wq: i64 = ((width as u64) / 4) as i64;
        let hq: i64 = ((height as u64) / 4) as i64;
        let position = Vec2::new(
            gen_range_i64(wq, width - wq),
            gen_range_i64(hq, height - hq),
        );
        let velocity = Vec2::new(gen_range_i64(-SCALE, SCALE), gen_range_i64(-SCALE, SCALE));
        let mass = gen_range_i64(SCALE, 10 * SCALE);
        Body { id, colour, position, velocity, mass }
    }
}

} // verus!
