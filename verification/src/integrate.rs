//! The integrator: one Euler step per frame (Δt = 1), advancing each
//! body's position by its already-updated velocity, with optional
//! single-step wrap-around at the screen edges.

use vstd::prelude::*;
use crate::body::{dims_ok, Body};
use crate::vec2::Vec2;

verus! {

/// Largest position component magnitude the integrator accepts.
pub const POS_STEP_LIMIT: i64 = 4_000_000_000_000_000_000;

/// Largest velocity component magnitude the integrator accepts.
pub const VEL_STEP_LIMIT: i64 = 4_000_000_000_000_000_000;

/// One Euler step of a position component. With wrap on, a position past
/// the extent re-enters lowered by the extent, and a negative position
/// re-enters raised by it (single-step wrap: the velocity is assumed
/// small against the extent).
pub open spec fn step_pos(x: int, v: int, extent: int, wrap: bool) -> int {
    let nx = x + v;
    if wrap {
        if nx > extent {
            nx - extent
        } else if nx < 0 {
            nx + extent
        } else {
            nx
        }
    } else {
        nx
    }
}

/// The body as the integrator leaves it: only the position changes.
pub open spec fn pos_updated(b: Body, width: int, height: int, wrap: bool) -> Body {
    Body {
        position: Vec2 {
            x: step_pos(b.position.x as int, b.velocity.x as int, width, wrap) as i64,
            y: step_pos(b.position.y as int, b.velocity.y as int, height, wrap) as i64,
        },
        ..b
    }
}

/// A position component after n identical Euler steps.
pub open spec fn iter_step_pos(x: int, v: int, extent: int, wrap: bool, n: nat) -> int
    decreases n,
{
    if n == 0 {
        x
    } else {
        step_pos(iter_step_pos(x, v, extent, wrap, (n - 1) as nat), v, extent, wrap)
    }
}

/// A body with zero velocity never moves, across any number of steps,
/// whether or not the axis wraps (an on-screen position is needed for the
/// wrapped case, since wrapping moves an off-screen stationary point).
pub proof fn lemma_zero_velocity_stationary(x: int, extent: int, wrap: bool, n: nat)
    requires
        0 <= x <= extent,
    ensures
        iter_step_pos(x, 0, extent, wrap, n) == x,
    decreases n,
{
    if n > 0 {
        lemma_zero_velocity_stationary(x, extent, wrap, (n - 1) as nat);
    }
}

impl Body {
    /// Advances the position by the velocity, wrapping at the screen
    /// edges when the torus is on.
    pub fn update_position(&mut self, width: i64, height: i64, wrap: bool)
        requires
            -POS_STEP_LIMIT <= old(self).position.x <= POS_STEP_LIMIT,
            -POS_STEP_LIMIT <= old(self).position.y <= POS_STEP_LIMIT,
            -VEL_STEP_LIMIT <= old(self).velocity.x <= VEL_STEP_LIMIT,
            -VEL_STEP_LIMIT <= old(self).velocity.y <= VEL_STEP_LIMIT,
            dims_ok(width, height),
        ensures
            *final(self) == pos_updated(*old(self), width as int, height as int, wrap),
    {
        let mut nx: i64 = self.position.x + self.velocity.x;
        let mut ny: i64 = self.position.y + self.velocity.y;
        if wrap {
            if nx > width {
                nx = nx - width;
            } else if nx < 0 {
                nx = nx + width;
            }
            if ny > height {
                ny = ny - height;
            } else if ny < 0 {
                ny = ny + height;
            }
        }
        self.position = Vec2 { x: nx, y: ny };
    }
}

} // verus!
