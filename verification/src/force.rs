//! The force accumulator: pairwise inverse-square gravity over an
//! optionally wrapped (toroidal) screen, and the per-frame velocity pass
//! that applies either gravity or the elastic collision response.

use vstd::prelude::*;
use crate::body::{body_ok, dims_ok, Body, BODIES_MAX, DIM_MAX, DIM_MIN};
use crate::collision::{
    any_overlap, collides, elastic_sum_x, elastic_sum_y, elastic_vel_component,
    lemma_elastic_sum_bound, ELASTIC_TERM_MAX,
};
use crate::num::{
    abs_int, div_trunc, div_trunc_i128, isqrt_u128, lemma_div_trunc_bounds,
    lemma_sqrt_floor_bounds, lemma_sqrt_floor_ordered, lemma_sqrt_floor_unique, sqrt_floor,
    GRAV_SCALE, SCALE,
};
use crate::vec2::Vec2;

verus! {

/// Smallest squared wrapped separation on which the gravity arithmetic is
/// defined (one pixel of distance): below it the inverse-square increment
/// no longer fits the machine integers it is computed in.
pub const MIN_SEP_SQ: i64 = 1_000_000;

/// Largest magnitude one pairwise gravity term reaches on the envelope.
pub const GRAV_TERM_MAX: i64 = 3_000_000_000_000_000;

/// Largest velocity component magnitude the force pass can produce.
pub const VEL_STEP_MAX: i64 = 3_000_000_000_000_000_000;

/// The displacement component along a wrapped (toroidal) axis of the
/// given extent: a displacement longer than half the extent is replaced
/// by the complementary path around the torus, which is shorter and runs
/// the opposite way.
pub open spec fn wrap_delta(d: int, extent: int) -> int {
    if 2 * abs_int(d) > extent {
        if d >= 0 {
            d - extent
        } else {
            d + extent
        }
    } else {
        d
    }
}

/// Within half the extent the wrapped and plain displacements are
/// identical; beyond it the wrapped displacement has the opposite sign
/// and the smaller magnitude.
pub proof fn lemma_wrap_delta_shorter(d: int, extent: int)
    requires
        0 < extent,
        abs_int(d) < extent,
    ensures
        2 * abs_int(d) <= extent ==> wrap_delta(d, extent) == d,
        2 * abs_int(d) > extent ==> wrap_delta(d, extent) * d < 0,
        2 * abs_int(d) > extent ==> abs_int(wrap_delta(d, extent)) < abs_int(d),
{
    if 2 * abs_int(d) > extent {
        if d >= 0 {
            assert((d - extent) * d < 0) by (nonlinear_arith)
                requires
                    d > 0,
                    d < extent,
            ;
        } else {
            assert((d + extent) * d < 0) by (nonlinear_arith)
                requires
                    d < 0,
                    d + extent > 0,
            ;
        }
    }
}

/// Wrapping is an odd function of the displacement.
pub proof fn lemma_wrap_delta_odd(d: int, extent: int)
    requires
        0 <= extent,
    ensures
        wrap_delta(-d, extent) == -wrap_delta(d, extent),
{
}

/// Displacement from `me` to `o` along x, wrapped when the torus is on.
pub open spec fn delta_x(me: Body, o: Body, width: int, wrap: bool) -> int {
    if wrap {
        wrap_delta(o.position.x - me.position.x, width)
    } else {
        o.position.x - me.position.x
    }
}

/// Displacement from `me` to `o` along y, wrapped when the torus is on.
pub open spec fn delta_y(me: Body, o: Body, height: int, wrap: bool) -> int {
    if wrap {
        wrap_delta(o.position.y - me.position.y, height)
    } else {
        o.position.y - me.position.y
    }
}

/// Exact squared (wrapped) distance between two bodies.
pub open spec fn pair_dist_sq(me: Body, o: Body, width: int, height: int, wrap: bool) -> int {
    let dx = delta_x(me, o, width, wrap);
    let dy = delta_y(me, o, height, wrap);
    dx * dx + dy * dy
}

/// Fixed-point (wrapped) distance: the floor square root of the exact
/// squared distance.
pub open spec fn pair_dist(me: Body, o: Body, width: int, height: int, wrap: bool) -> int {
    sqrt_floor(pair_dist_sq(me, o, width, height, wrap))
}

/// The displacement each body computes toward the other is the exact
/// negation of its partner's, so the squared distance is symmetric.
pub proof fn lemma_pair_dist_sq_symmetric(a: Body, b: Body, width: int, height: int, wrap: bool)
    requires
        0 <= width,
        0 <= height,
    ensures
        pair_dist_sq(a, b, width, height, wrap) == pair_dist_sq(b, a, width, height, wrap),
{
    lemma_wrap_delta_odd(b.position.x - a.position.x, width);
    lemma_wrap_delta_odd(b.position.y - a.position.y, height);
    let dx = delta_x(a, b, width, wrap);
    let dy = delta_y(a, b, height, wrap);
    assert(delta_x(b, a, width, wrap) == -dx);
    assert(delta_y(b, a, height, wrap) == -dy);
    assert((-dx) * (-dx) == dx * dx && (-dy) * (-dy) == dy * dy) by (nonlinear_arith);
}

/// The raw pairwise force magnitude in fixed-point units:
/// m1 · m2 · SCALE / d², with the exact squared (wrapped) distance.
pub open spec fn pair_force_mag(a: Body, b: Body, width: int, height: int, wrap: bool) -> int {
    div_trunc(a.mass * b.mass * SCALE, pair_dist_sq(a, b, width, height, wrap))
}

/// The raw pairwise force magnitude computed from A toward B equals the
/// one computed from B toward A, before either is scaled by its own mass.
pub proof fn lemma_force_symmetry(a: Body, b: Body, width: int, height: int, wrap: bool)
    requires
        0 <= width,
        0 <= height,
    ensures
        pair_force_mag(a, b, width, height, wrap) == pair_force_mag(b, a, width, height, wrap),
{
    lemma_pair_dist_sq_symmetric(a, b, width, height, wrap);
    assert(a.mass * b.mass == b.mass * a.mass) by (nonlinear_arith);
}

/// Before rounding, the gravitational increment on `me` from `o` is the
/// vector (k·dx, k·dy) / d³ with k = m_me · m_o · SCALE and d the true
/// distance. This lemma pins down its geometry exactly: the numerator
/// vector is collinear with the displacement (zero cross product), points
/// the same way (positive dot product), and its squared length is k²·d²,
/// so the increment's length is k·d/d³ = m_me·m_o·SCALE/d² — the
/// inverse-square magnitude along the normalized displacement.
pub proof fn lemma_grav_term_aligned(me: Body, o: Body, width: int, height: int, wrap: bool)
    requires
        me.mass >= 1,
        o.mass >= 1,
        pair_dist_sq(me, o, width, height, wrap) > 0,
    ensures
        ({
            let dx = delta_x(me, o, width, wrap);
            let dy = delta_y(me, o, height, wrap);
            let k = me.mass * o.mass * SCALE;
            &&& (k * dx) * dy - (k * dy) * dx == 0
            &&& (k * dx) * dx + (k * dy) * dy > 0
            &&& (k * dx) * (k * dx) + (k * dy) * (k * dy) == (k * k) * pair_dist_sq(
                me,
                o,
                width,
                height,
                wrap,
            )
        }),
{
    let dx = delta_x(me, o, width, wrap);
    let dy = delta_y(me, o, height, wrap);
    let k = me.mass * o.mass * SCALE;
    assert(k >= 1000) by (nonlinear_arith)
        requires
            me.mass >= 1,
            o.mass >= 1,
            k == me.mass * o.mass * SCALE,
            SCALE == 1000,
    ;
    assert((k * dx) * dy - (k * dy) * dx == 0) by (nonlinear_arith);
    assert((k * dx) * dx + (k * dy) * dy == k * (dx * dx + dy * dy)) by (nonlinear_arith);
    assert(k * (dx * dx + dy * dy) > 0) by (nonlinear_arith)
        requires
            k >= 1000,
            dx * dx + dy * dy > 0,
    ;
    assert((k * dx) * (k * dx) + (k * dy) * (k * dy) == (k * k) * (dx * dx + dy * dy))
        by (nonlinear_arith);
}

/// One pairwise gravity term (x component): the x part of the increment
/// m_me · m_o · SCALE · (dx, dy) / d³, rounded toward zero, with d the
/// fixed-point wrapped distance.
pub open spec fn grav_term_x(me: Body, o: Body, width: int, height: int, wrap: bool) -> int {
    let d = pair_dist(me, o, width, height, wrap);
    div_trunc(me.mass * o.mass * delta_x(me, o, width, wrap) * SCALE, d * d * d)
}

/// One pairwise gravity term (y component).
pub open spec fn grav_term_y(me: Body, o: Body, width: int, height: int, wrap: bool) -> int {
    let d = pair_dist(me, o, width, height, wrap);
    div_trunc(me.mass * o.mass * delta_y(me, o, height, wrap) * SCALE, d * d * d)
}

/// On the envelope a wrapped displacement component stays within three
/// position limits.
pub proof fn lemma_delta_bounds(me: Body, o: Body, width: int, height: int, wrap: bool)
    requires
        body_ok(me),
        body_ok(o),
        0 < width <= DIM_MAX,
        0 < height <= DIM_MAX,
    ensures
        abs_int(delta_x(me, o, width, wrap)) <= 3_000_000_000,
        abs_int(delta_y(me, o, height, wrap)) <= 3_000_000_000,
        0 <= pair_dist_sq(me, o, width, height, wrap) <= 18_000_000_000_000_000_000,
{
    let dx = delta_x(me, o, width, wrap);
    let dy = delta_y(me, o, height, wrap);
    assert(dx * dx + dy * dy <= 18_000_000_000_000_000_000 && dx * dx >= 0 && dy * dy >= 0)
        by (nonlinear_arith)
        requires
            abs_int(dx) <= 3_000_000_000,
            abs_int(dy) <= 3_000_000_000,
    ;
}

/// The fixed-point wrapped distance on the envelope, bracketed: at least
/// a pixel where the separation floor holds, and never above five pixels'
/// worth of billions.
pub proof fn lemma_pair_dist_bounds(me: Body, o: Body, width: int, height: int, wrap: bool)
    requires
        body_ok(me),
        body_ok(o),
        0 < width <= DIM_MAX,
        0 < height <= DIM_MAX,
        pair_dist_sq(me, o, width, height, wrap) >= MIN_SEP_SQ,
    ensures
        1_000 <= pair_dist(me, o, width, height, wrap) <= 5_000_000_000,
        1_000_000_000 <= pair_dist(me, o, width, height, wrap) * pair_dist(
            me,
            o,
            width,
            height,
            wrap,
        ) * pair_dist(me, o, width, height, wrap) <= 125_000_000_000_000_000_000_000_000_000,
{
    lemma_delta_bounds(me, o, width, height, wrap);
    let dsq = pair_dist_sq(me, o, width, height, wrap);
    let d = pair_dist(me, o, width, height, wrap);
    lemma_sqrt_floor_bounds(dsq);
    lemma_sqrt_floor_unique(1_000_000, 1_000);
    lemma_sqrt_floor_ordered(1_000_000, dsq);
    if d > 5_000_000_000 {
        assert(d * d > 18_000_000_000_000_000_000) by (nonlinear_arith)
            requires
                d > 5_000_000_000,
        ;
        assert(false);
    }
    assert(1_000_000_000 <= d * d * d && d * d * d <= 125_000_000_000_000_000_000_000_000_000)
        by (nonlinear_arith)
        requires
            1_000 <= d <= 5_000_000_000,
    ;
}

/// On the envelope one pairwise gravity term is bounded.
pub proof fn lemma_grav_term_bound(me: Body, o: Body, width: int, height: int, wrap: bool)
    requires
        body_ok(me),
        body_ok(o),
        0 < width <= DIM_MAX,
        0 < height <= DIM_MAX,
        pair_dist_sq(me, o, width, height, wrap) >= MIN_SEP_SQ,
    ensures
        abs_int(grav_term_x(me, o, width, height, wrap)) <= GRAV_TERM_MAX,
        abs_int(grav_term_y(me, o, width, height, wrap)) <= GRAV_TERM_MAX,
{
    lemma_delta_bounds(me, o, width, height, wrap);
    lemma_pair_dist_bounds(me, o, width, height, wrap);
    let d = pair_dist(me, o, width, height, wrap);
    let d3 = d * d * d;
    let nx = me.mass * o.mass * delta_x(me, o, width, wrap) * SCALE;
    let ny = me.mass * o.mass * delta_y(me, o, height, wrap) * SCALE;
    assert(abs_int(nx) <= 3_000_000_000_000_000_000_000_000 && abs_int(ny)
        <= 3_000_000_000_000_000_000_000_000) by (nonlinear_arith)
        requires
            1_000 <= me.mass <= 1_000_000,
            1_000 <= o.mass <= 1_000_000,
            abs_int(delta_x(me, o, width, wrap)) <= 3_000_000_000,
            abs_int(delta_y(me, o, height, wrap)) <= 3_000_000_000,
            nx == me.mass * o.mass * delta_x(me, o, width, wrap) * SCALE,
            ny == me.mass * o.mass * delta_y(me, o, height, wrap) * SCALE,
            SCALE == 1000,
    ;
    lemma_div_trunc_bounds(nx, d3);
    lemma_div_trunc_bounds(ny, d3);
    vstd::arithmetic::div_mod::lemma_div_is_ordered_by_denominator(
        abs_int(nx),
        1_000_000_000,
        d3,
    );
    vstd::arithmetic::div_mod::lemma_div_is_ordered_by_denominator(
        abs_int(ny),
        1_000_000_000,
        d3,
    );
    vstd::arithmetic::div_mod::lemma_div_is_ordered(
        abs_int(nx),
        3_000_000_000_000_000_000_000_000,
        1_000_000_000,
    );
    vstd::arithmetic::div_mod::lemma_div_is_ordered(
        abs_int(ny),
        3_000_000_000_000_000_000_000_000,
        1_000_000_000,
    );
}

/// Summed gravity terms of `me` against every body with a different id
/// (x component).
pub open spec fn grav_sum_x(me: Body, others: Seq<Body>, width: int, height: int, wrap: bool) -> int
    decreases others.len(),
{
    if others.len() == 0 {
        0
    } else {
        grav_sum_x(me, others.drop_last(), width, height, wrap) + ({
            let o = others.last();
            if o.id != me.id {
                grav_term_x(me, o, width, height, wrap)
            } else {
                0
            }
        })
    }
}

/// Summed gravity terms of `me` against every body with a different id
/// (y component).
pub open spec fn grav_sum_y(me: Body, others: Seq<Body>, width: int, height: int, wrap: bool) -> int
    decreases others.len(),
{
    if others.len() == 0 {
        0
    } else {
        grav_sum_y(me, others.drop_last(), width, height, wrap) + ({
            let o = others.last();
            if o.id != me.id {
                grav_term_y(me, o, width, height, wrap)
            } else {
                0
            }
        })
    }
}

/// Every body in `others` distinct from `me` keeps at least the minimum
/// wrapped separation the gravity arithmetic needs.
pub open spec fn sep_ok(me: Body, others: Seq<Body>, width: int, height: int, wrap: bool) -> bool {
    forall|k: int|
        0 <= k < others.len() && others[k].id != me.id ==> pair_dist_sq(
            me,
            #[trigger] others[k],
            width,
            height,
            wrap,
        ) >= MIN_SEP_SQ
}

/// On the envelope the gravity sum is bounded by one term bound per body.
pub proof fn lemma_grav_sum_bound(me: Body, others: Seq<Body>, width: int, height: int, wrap: bool)
    requires
        body_ok(me),
        forall|k: int| 0 <= k < others.len() ==> body_ok(#[trigger] others[k]),
        0 < width <= DIM_MAX,
        0 < height <= DIM_MAX,
        sep_ok(me, others, width, height, wrap),
    ensures
        abs_int(grav_sum_x(me, others, width, height, wrap)) <= others.len() * GRAV_TERM_MAX,
        abs_int(grav_sum_y(me, others, width, height, wrap)) <= others.len() * GRAV_TERM_MAX,
    decreases others.len(),
{
    if others.len() > 0 {
        assert(sep_ok(me, others.drop_last(), width, height, wrap));
        lemma_grav_sum_bound(me, others.drop_last(), width, height, wrap);
        let o = others.last();
        if o.id != me.id {
            assert(o == others[others.len() - 1]);
            lemma_grav_term_bound(me, o, width, height, wrap);
        }
    }
}

/// Velocity increment gravity applies to `me` this frame (x component):
/// GRAV_SCALE times the summed terms, divided by the body's own mass.
pub open spec fn grav_increment_x(
    me: Body,
    others: Seq<Body>,
    width: int,
    height: int,
    wrap: bool,
) -> int {
    div_trunc(GRAV_SCALE * grav_sum_x(me, others, width, height, wrap), me.mass as int)
}

/// Velocity increment gravity applies to `me` this frame (y component).
pub open spec fn grav_increment_y(
    me: Body,
    others: Seq<Body>,
    width: int,
    height: int,
    wrap: bool,
) -> int {
    div_trunc(GRAV_SCALE * grav_sum_y(me, others, width, height, wrap), me.mass as int)
}

/// The velocity `me` carries out of the frame's force pass: the summed
/// elastic response when elastic collisions are on and `me` overlaps some
/// other body; otherwise the gravity increment added to the old velocity.
/// Gravity is skipped entirely for a colliding body in elastic mode.
pub open spec fn new_velocity_x(
    me: Body,
    others: Seq<Body>,
    width: int,
    height: int,
    wrap: bool,
    elastic: bool,
) -> int {
    if elastic && any_overlap(me, others) {
        elastic_sum_x(me, others)
    } else {
        me.velocity.x + grav_increment_x(me, others, width, height, wrap)
    }
}

/// The y component of the velocity out of the force pass.
pub open spec fn new_velocity_y(
    me: Body,
    others: Seq<Body>,
    width: int,
    height: int,
    wrap: bool,
    elastic: bool,
) -> int {
    if elastic && any_overlap(me, others) {
        elastic_sum_y(me, others)
    } else {
        me.velocity.y + grav_increment_y(me, others, width, height, wrap)
    }
}

/// The body as the force pass leaves it: only the velocity changes.
#[verifier::opaque]
pub open spec fn vel_updated(
    me: Body,
    others: Seq<Body>,
    width: int,
    height: int,
    wrap: bool,
    elastic: bool,
) -> Body {
    Body {
        velocity: Vec2 {
            x: new_velocity_x(me, others, width, height, wrap, elastic) as i64,
            y: new_velocity_y(me, others, width, height, wrap, elastic) as i64,
        },
        ..me
    }
}

/// The preconditions of one body's force pass: the envelope, at least one
/// other body, and the separation floor wherever gravity will be used.
#[verifier::opaque]
pub open spec fn force_pass_ok(
    me: Body,
    others: Seq<Body>,
    width: int,
    height: int,
    wrap: bool,
    elastic: bool,
) -> bool {
    &&& body_ok(me)
    &&& (forall|k: int| 0 <= k < others.len() ==> body_ok(#[trigger] others[k]))
    &&& others.len() <= BODIES_MAX
    &&& DIM_MIN as int <= width <= DIM_MAX as int
    &&& DIM_MIN as int <= height <= DIM_MAX as int
    &&& (exists|k: int| 0 <= k < others.len() && others[k].id != me.id)
    &&& (!(elastic && any_overlap(me, others)) ==> sep_ok(me, others, width, height, wrap))
}

/// On the envelope the force pass leaves both velocity components within
/// `VEL_STEP_MAX`.
pub proof fn lemma_new_velocity_bound(
    me: Body,
    others: Seq<Body>,
    width: int,
    height: int,
    wrap: bool,
    elastic: bool,
)
    requires
        force_pass_ok(me, others, width, height, wrap, elastic),
    ensures
        abs_int(new_velocity_x(me, others, width, height, wrap, elastic)) <= VEL_STEP_MAX,
        abs_int(new_velocity_y(me, others, width, height, wrap, elastic)) <= VEL_STEP_MAX,
{
    reveal(force_pass_ok);
    if elastic && any_overlap(me, others) {
        lemma_elastic_sum_bound(me, others);
    } else {
        lemma_grav_sum_bound(me, others, width, height, wrap);
        let sx = grav_sum_x(me, others, width, height, wrap);
        let sy = grav_sum_y(me, others, width, height, wrap);
        assert(abs_int(GRAV_SCALE * sx) <= 9810 * 300_000_000_000_000_000 && abs_int(
            GRAV_SCALE * sy,
        ) <= 9810 * 300_000_000_000_000_000) by (nonlinear_arith)
            requires
                abs_int(sx) <= 300_000_000_000_000_000,
                abs_int(sy) <= 300_000_000_000_000_000,
                GRAV_SCALE == 9810,
        ;
        lemma_div_trunc_bounds(GRAV_SCALE * sx, me.mass as int);
        lemma_div_trunc_bounds(GRAV_SCALE * sy, me.mass as int);
        vstd::arithmetic::div_mod::lemma_div_is_ordered_by_denominator(
            abs_int(GRAV_SCALE * sx),
            1_000,
            me.mass as int,
        );
        vstd::arithmetic::div_mod::lemma_div_is_ordered_by_denominator(
            abs_int(GRAV_SCALE * sy),
            1_000,
            me.mass as int,
        );
        vstd::arithmetic::div_mod::lemma_div_is_ordered(
            abs_int(GRAV_SCALE * sx),
            2_943_000_000_000_000_000_000,
            1_000,
        );
        vstd::arithmetic::div_mod::lemma_div_is_ordered(
            abs_int(GRAV_SCALE * sy),
            2_943_000_000_000_000_000_000,
            1_000,
        );
    }
}

/// Computes the wrapped displacement component.
pub fn wrap_delta_exec(d: i64, extent: i64) -> (r: i64)
    requires
        -3_000_000_000 <= d <= 3_000_000_000,
        0 < extent <= DIM_MAX,
    ensures
        r as int == wrap_delta(d as int, extent as int),
        -3_000_000_000 - DIM_MAX <= r <= 3_000_000_000 + DIM_MAX,
{
    let ad: i64 = if d >= 0 {
        d
    } else {
        -d
    };
    if 2 * ad > extent {
        if d >= 0 {
            d - extent
        } else {
            d + extent
        }
    } else {
        d
    }
}

/// Computes the exact squared (wrapped) distance between two bodies.
pub fn pair_dist_sq_exec(me: &Body, o: &Body, width: i64, height: i64, wrap: bool) -> (d: i128)
    requires
        body_ok(*me),
        body_ok(*o),
        dims_ok(width, height),
    ensures
        d as int == pair_dist_sq(*me, *o, width as int, height as int, wrap),
        d >= 0,
{
    proof {
        lemma_delta_bounds(*me, *o, width as int, height as int, wrap);
    }
    let dx: i64 = if wrap {
        wrap_delta_exec(o.position.x - me.position.x, width)
    } else {
        o.position.x - me.position.x
    };
    let dy: i64 = if wrap {
        wrap_delta_exec(o.position.y - me.position.y, height)
    } else {
        o.position.y - me.position.y
    };
    let dxl: i128 = dx as i128;
    let dyl: i128 = dy as i128;
    proof {
        assert(dxl * dxl + dyl * dyl <= 18_000_000_000_000_000_000i128 && dxl * dxl >= 0 && dyl
            * dyl >= 0) by (nonlinear_arith)
            requires
                -3_000_000_000 <= dxl <= 3_000_000_000,
                -3_000_000_000 <= dyl <= 3_000_000_000,
        ;
    }
    dxl * dxl + dyl * dyl
}

/// Computes both components of one pairwise gravity term.
fn grav_term(me: &Body, o: &Body, width: i64, height: i64, wrap: bool) -> (t: (i64, i64))
    requires
        body_ok(*me),
        body_ok(*o),
        dims_ok(width, height),
        pair_dist_sq(*me, *o, width as int, height as int, wrap) >= MIN_SEP_SQ,
    ensures
        t.0 as int == grav_term_x(*me, *o, width as int, height as int, wrap),
        t.1 as int == grav_term_y(*me, *o, width as int, height as int, wrap),
        abs_int(t.0 as int) <= GRAV_TERM_MAX,
        abs_int(t.1 as int) <= GRAV_TERM_MAX,
{
    proof {
        lemma_delta_bounds(*me, *o, width as int, height as int, wrap);
        lemma_pair_dist_bounds(*me, *o, width as int, height as int, wrap);
        lemma_grav_term_bound(*me, *o, width as int, height as int, wrap);
    }
    let dx: i64 = if wrap {
        wrap_delta_exec(o.position.x - me.position.x, width)
    } else {
        o.position.x - me.position.x
    };
    let dy: i64 = if wrap {
        wrap_delta_exec(o.position.y - me.position.y, height)
    } else {
        o.position.y - me.position.y
    };
    let dxl: i128 = dx as i128;
    let dyl: i128 = dy as i128;
    proof {
        assert(dxl * dxl + dyl * dyl <= 18_000_000_000_000_000_000i128 && dxl * dxl >= 0 && dyl
            * dyl >= 0) by (nonlinear_arith)
            requires
                -3_000_000_000 <= dxl <= 3_000_000_000,
                -3_000_000_000 <= dyl <= 3_000_000_000,
        ;
    }
    let dsq: i128 = dxl * dxl + dyl * dyl;
    let d = isqrt_u128(dsq as u128);
    proof {
        assert(d as int == pair_dist(*me, *o, width as int, height as int, wrap));
        assert(1_000 <= d as int <= 5_000_000_000);
    }
    let dl: i128 = d as i128;
    proof {
        assert(dl * dl <= 25_000_000_000_000_000_000i128 && 1 <= dl * dl && dl * dl * dl
            <= 125_000_000_000_000_000_000_000_000_000i128 && 1 <= dl * dl * dl)
            by (nonlinear_arith)
            requires
                1_000 <= dl <= 5_000_000_000,
        ;
    }
    let d3: i128 = dl * dl * dl;
    proof {
        assert((me.mass as int) * (o.mass as int) <= 1_000_000_000_000int && 1_000_000 <= (
        me.mass as int) * (o.mass as int)) by (nonlinear_arith)
            requires
                1_000 <= me.mass as int <= 1_000_000,
                1_000 <= o.mass as int <= 1_000_000,
        ;
    }
    let mm: i128 = (me.mass as i128) * (o.mass as i128);
    proof {
        assert(abs_int(mm * dxl * 1000) <= 3_000_000_000_000_000_000_000_000int && abs_int(
            mm * dyl * 1000,
        ) <= 3_000_000_000_000_000_000_000_000int) by (nonlinear_arith)
            requires
                1_000_000 <= mm <= 1_000_000_000_000,
                -3_000_000_000 <= dxl <= 3_000_000_000,
                -3_000_000_000 <= dyl <= 3_000_000_000,
        ;
    }
    let nx: i128 = mm * dxl * 1000;
    let ny: i128 = mm * dyl * 1000;
    let tx = div_trunc_i128(nx, d3);
    let ty = div_trunc_i128(ny, d3);
    proof {
        assert(nx as int == me.mass * o.mass * delta_x(*me, *o, width as int, wrap) * SCALE
            && ny as int == me.mass * o.mass * delta_y(*me, *o, height as int, wrap) * SCALE)
            by (nonlinear_arith)
            requires
                nx == mm * dxl * 1000,
                ny == mm * dyl * 1000,
                mm == (me.mass as int) * (o.mass as int),
                dxl == delta_x(*me, *o, width as int, wrap),
                dyl == delta_y(*me, *o, height as int, wrap),
                SCALE == 1000,
        ;
    }
    (tx as i64, ty as i64)
}

impl Body {
    /// Updates the velocity of the body from the forces the other bodies
    /// apply: the elastic collision response when elastic collisions are
    /// on and some other body overlaps this one, else inverse-square
    /// gravity summed over every other body.
    pub fn update_velocity(
        &mut self,
        bodies: &[Body],
        width: i64,
        height: i64,
        wrap: bool,
        elastic: bool,
    )
        requires
            force_pass_ok(
                *old(self),
                bodies@,
                width as int,
                height as int,
                wrap,
                elastic,
            ),
        ensures
            final(self).velocity.x as int == new_velocity_x(
                *old(self),
                bodies@,
                width as int,
                height as int,
                wrap,
                elastic,
            ),
            final(self).velocity.y as int == new_velocity_y(
                *old(self),
                bodies@,
                width as int,
                height as int,
                wrap,
                elastic,
            ),
            final(self).id == old(self).id,
            final(self).position == old(self).position,
            final(self).mass == old(self).mass,
            final(self).colour == old(self).colour,
    {
        proof {
            reveal(force_pass_ok);
        }
        let ghost me = *old(self);
        let n = bodies.len();
        if elastic {
            let mut found = false;
            let mut ax: i64 = 0;
            let mut ay: i64 = 0;
            let mut k: usize = 0;
            while k < n
                invariant
                    k <= n,
                    n == bodies@.len(),
                    *self == me,
                    force_pass_ok(
                        me,
                        bodies@,
                        width as int,
                        height as int,
                        wrap,
                        elastic,
                    ),
                    found == any_overlap(me, bodies@.take(k as int)),
                    ax as int == elastic_sum_x(me, bodies@.take(k as int)),
                    ay as int == elastic_sum_y(me, bodies@.take(k as int)),
                    abs_int(ax as int) <= k * ELASTIC_TERM_MAX,
                    abs_int(ay as int) <= k * ELASTIC_TERM_MAX,
                decreases n - k,
            {
                let ghost tk = bodies@.take(k as int);
                let ghost tk1 = bodies@.take(k as int + 1);
                proof {
                    reveal(force_pass_ok);
                    assert(tk1.drop_last() =~= tk);
                    assert(tk1.last() == bodies@[k as int]);
                }
                let o = bodies[k];
                if o.id != self.id && self.collides_with(&o) {
                    found = true;
                    proof {
                        crate::collision::lemma_elastic_component_bound(
                            me.mass as int,
                            o.mass as int,
                            me.velocity.x as int,
                            o.velocity.x as int,
                        );
                        crate::collision::lemma_elastic_component_bound(
                            me.mass as int,
                            o.mass as int,
                            me.velocity.y as int,
                            o.velocity.y as int,
                        );
                    }
                    ax = ax + elastic_vel_component(
                        self.mass,
                        o.mass,
                        self.velocity.x,
                        o.velocity.x,
                    );
                    ay = ay + elastic_vel_component(
                        self.mass,
                        o.mass,
                        self.velocity.y,
                        o.velocity.y,
                    );
                    proof {
                        assert(any_overlap(me, tk1)) by {
                            assert(tk1[k as int].id != me.id && collides(me, tk1[k as int]));
                        }
                    }
                } else {
                    proof {
                        if any_overlap(me, tk1) {
                            let w = choose|i: int|
                                0 <= i < tk1.len() && tk1[i].id != me.id && collides(me, tk1[i]);
                            if w < k as int {
                                assert(tk[w] == tk1[w]);
                                assert(any_overlap(me, tk));
                            } else {
                                assert(tk1[w] == bodies@[k as int]);
                                assert(false);
                            }
                        }
                    }
                }
                k = k + 1;
            }
            proof {
                assert(bodies@.take(n as int) =~= bodies@);
            }
            if found {
                self.velocity = Vec2 { x: ax, y: ay };
                return ;
            }
        }
        let mut sx: i128 = 0;
        let mut sy: i128 = 0;
        let mut k: usize = 0;
        while k < n
            invariant
                k <= n,
                n == bodies@.len(),
                *self == me,
                force_pass_ok(
                    me,
                    bodies@,
                    width as int,
                    height as int,
                    wrap,
                    elastic,
                ),
                sep_ok(me, bodies@, width as int, height as int, wrap),
                sx as int == grav_sum_x(me, bodies@.take(k as int), width as int, height as int, wrap),
                sy as int == grav_sum_y(me, bodies@.take(k as int), width as int, height as int, wrap),
                abs_int(sx as int) <= k * GRAV_TERM_MAX,
                abs_int(sy as int) <= k * GRAV_TERM_MAX,
            decreases n - k,
        {
            let ghost tk = bodies@.take(k as int);
            let ghost tk1 = bodies@.take(k as int + 1);
            proof {
                reveal(force_pass_ok);
                assert(tk1.drop_last() =~= tk);
                assert(tk1.last() == bodies@[k as int]);
            }
            let o = bodies[k];
            if o.id != self.id {
                let t = grav_term(self, &o, width, height, wrap);
                sx = sx + (t.0 as i128);
                sy = sy + (t.1 as i128);
            }
            k = k + 1;
        }
        proof {
            assert(bodies@.take(n as int) =~= bodies@);
            lemma_new_velocity_bound(
                me,
                bodies@,
                width as int,
                height as int,
                wrap,
                elastic,
            );
            lemma_grav_sum_bound(me, bodies@, width as int, height as int, wrap);
            lemma_div_trunc_bounds(GRAV_SCALE * (sx as int), me.mass as int);
        }
        let gx: i128 = (GRAV_SCALE as i128) * sx;
        let gy: i128 = (GRAV_SCALE as i128) * sy;
        let incx = div_trunc_i128(gx, self.mass as i128);
        let incy = div_trunc_i128(gy, self.mass as i128);
        proof {
            assert(incx as int == grav_increment_x(
                me,
                bodies@,
                width as int,
                height as int,
                wrap,
            ));
            assert(incy as int == grav_increment_y(
                me,
                bodies@,
                width as int,
                height as int,
                wrap,
            ));
        }
        let vx: i64 = self.velocity.x + (incx as i64);
        let vy: i64 = self.velocity.y + (incy as i64);
        self.velocity = Vec2 { x: vx, y: vy };
    }
}

} // verus!
