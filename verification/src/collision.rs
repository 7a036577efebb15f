//! Collision detection and the elastic collision response.

use vstd::prelude::*;
use crate::body::{body_ok, body_near_ok, Body};
use crate::num::{abs_int, div_trunc, div_trunc_i128, lemma_div_trunc_bounds};
use crate::vec2::dist_sq;

verus! {

/// Two bodies collide when the distance between their centers is at most
/// the sum of their radii (each body's radius is its mass). The boundary
/// case, distance exactly equal to the radius sum, counts as a collision.
pub open spec fn collides(a: Body, b: Body) -> bool {
    dist_sq(a.position, b.position) <= (a.mass + b.mass) * (a.mass + b.mass)
}

impl Body {
    /// Returns true if this body collides with another.
    pub fn collides_with(&self, other: &Body) -> (r: bool)
        requires
            body_near_ok(*self),
            body_near_ok(*other),
        ensures
            r == collides(*self, *other),
    {
        let d = self.position.dist_sq_to(&other.position);
        let rsum: i64 = self.mass + other.mass;
        proof {
            assert((rsum as int) * (rsum as int) <= 2_000_000int * 2_000_000int && (rsum as int)
                * (rsum as int) >= 0) by (nonlinear_arith)
                requires
                    0 <= rsum as int <= 2_000_000int,
            ;
        }
        let rsq: i128 = (rsum as i128) * (rsum as i128);
        d <= rsq
    }
}

/// True if some unordered pair of distinct bodies collides.
pub open spec fn some_collision(s: Seq<Body>) -> bool {
    exists|i: int, j: int| 0 <= i < j < s.len() && collides(s[i], s[j])
}

/// Returns true if any two bodies are colliding.
pub fn has_collision(bodies: &[Body]) -> (r: bool)
    requires
        forall|k: int| 0 <= k < bodies@.len() ==> body_near_ok(#[trigger] bodies@[k]),
    ensures
        r == some_collision(bodies@),
{
    let n = bodies.len();
    let mut i: usize = 0;
    while i < n
        invariant
            i <= n,
            n == bodies@.len(),
            forall|k: int| 0 <= k < bodies@.len() ==> body_near_ok(#[trigger] bodies@[k]),
            forall|p: int, q: int|
                0 <= p < q < bodies@.len() && p < i ==> !collides(bodies@[p], bodies@[q]),
        decreases n - i,
    {
        let mut j: usize = i + 1;
        while j < n
            invariant
                i < j <= n,
                i < n,
                n == bodies@.len(),
                forall|k: int| 0 <= k < bodies@.len() ==> body_near_ok(#[trigger] bodies@[k]),
                forall|q: int| i < q < j ==> !collides(bodies@[i as int], bodies@[q]),
            decreases n - j,
        {
            if bodies[i].collides_with(&bodies[j]) {
                proof {
                    let ii = i as int;
                    let jj = j as int;
                    assert(0 <= ii < jj < bodies@.len() && collides(bodies@[ii], bodies@[jj]));
                }
                return true;
            }
            j += 1;
        }
        i += 1;
    }
    false
}

/// The 1-D elastic collision formula, applied to one velocity component:
/// v1' = ((m1 - m2) v1 + 2 m2 v2) / (m1 + m2), rounded toward zero.
pub open spec fn elastic_component(m1: int, m2: int, v1: int, v2: int) -> int {
    div_trunc((m1 - m2) * v1 + 2 * m2 * v2, m1 + m2)
}

/// For two bodies of equal mass colliding head-on, the formula hands each
/// body exactly the other's velocity: the classic equal-mass exchange.
pub proof fn lemma_elastic_equal_mass_swap(m: int, v1: int, v2: int)
    requires
        m >= 1,
    ensures
        elastic_component(m, m, v1, v2) == v2,
{
    assert((m - m) * v1 + 2 * m * v2 == (2 * m) * v2) by (nonlinear_arith);
    if v2 >= 0 {
        vstd::arithmetic::div_mod::lemma_div_multiples_vanish(v2, 2 * m);
        assert((2 * m) * v2 >= 0) by (nonlinear_arith)
            requires
                m >= 1 && v2 >= 0,
        ;
    } else {
        assert(-((2 * m) * v2) == (2 * m) * (-v2)) by (nonlinear_arith);
        assert((2 * m) * v2 < 0) by (nonlinear_arith)
            requires
                m >= 1 && v2 < 0,
        ;
        vstd::arithmetic::div_mod::lemma_div_multiples_vanish(-v2, 2 * m);
    }
}

/// Largest magnitude `elastic_component` reaches on the physics envelope.
pub const ELASTIC_TERM_MAX: i64 = 1_500_000_000_000;

/// On the physics envelope the elastic response component is bounded.
pub proof fn lemma_elastic_component_bound(m1: int, m2: int, v1: int, v2: int)
    requires
        1_000 <= m1 <= 1_000_000,
        1_000 <= m2 <= 1_000_000,
        abs_int(v1) <= 1_000_000_000,
        abs_int(v2) <= 1_000_000_000,
    ensures
        abs_int(elastic_component(m1, m2, v1, v2)) <= ELASTIC_TERM_MAX,
{
    let num = (m1 - m2) * v1 + 2 * m2 * v2;
    assert(abs_int(num) <= 3_000_000_000_000_000) by (nonlinear_arith)
        requires
            1_000 <= m1 <= 1_000_000,
            1_000 <= m2 <= 1_000_000,
            abs_int(v1) <= 1_000_000_000,
            abs_int(v2) <= 1_000_000_000,
            num == (m1 - m2) * v1 + 2 * m2 * v2,
    ;
    lemma_div_trunc_bounds(num, m1 + m2);
    vstd::arithmetic::div_mod::lemma_div_is_ordered_by_denominator(abs_int(num), 2_000, m1 + m2);
    vstd::arithmetic::div_mod::lemma_div_is_ordered(
        abs_int(num),
        3_000_000_000_000_000,
        2_000,
    );
}

/// True if some body in `others` is distinct from `me` and overlaps it.
pub open spec fn any_overlap(me: Body, others: Seq<Body>) -> bool {
    exists|k: int| 0 <= k < others.len() && others[k].id != me.id && collides(me, others[k])
}

/// The x component of the additive combination of the elastic responses
/// of `me` against every distinct body it overlaps: simultaneous overlaps
/// sum, they are not averaged.
pub open spec fn elastic_sum_x(me: Body, others: Seq<Body>) -> int
    decreases others.len(),
{
    if others.len() == 0 {
        0
    } else {
        elastic_sum_x(me, others.drop_last()) + ({
            let o = others.last();
            if o.id != me.id && collides(me, o) {
                elastic_component(
                    me.mass as int,
                    o.mass as int,
                    me.velocity.x as int,
                    o.velocity.x as int,
                )
            } else {
                0
            }
        })
    }
}

/// The y component of the additive elastic response combination.
pub open spec fn elastic_sum_y(me: Body, others: Seq<Body>) -> int
    decreases others.len(),
{
    if others.len() == 0 {
        0
    } else {
        elastic_sum_y(me, others.drop_last()) + ({
            let o = others.last();
            if o.id != me.id && collides(me, o) {
                elastic_component(
                    me.mass as int,
                    o.mass as int,
                    me.velocity.y as int,
                    o.velocity.y as int,
                )
            } else {
                0
            }
        })
    }
}

/// On the physics envelope the summed elastic response stays bounded by
/// one term bound per body.
pub proof fn lemma_elastic_sum_bound(me: Body, others: Seq<Body>)
    requires
        body_ok(me),
        forall|k: int| 0 <= k < others.len() ==> body_ok(#[trigger] others[k]),
    ensures
        abs_int(elastic_sum_x(me, others)) <= others.len() * ELASTIC_TERM_MAX,
        abs_int(elastic_sum_y(me, others)) <= others.len() * ELASTIC_TERM_MAX,
    decreases others.len(),
{
    if others.len() > 0 {
        lemma_elastic_sum_bound(me, others.drop_last());
        let o = others.last();
        if o.id != me.id && collides(me, o) {
            lemma_elastic_component_bound(
                me.mass as int,
                o.mass as int,
                me.velocity.x as int,
                o.velocity.x as int,
            );
            lemma_elastic_component_bound(
                me.mass as int,
                o.mass as int,
                me.velocity.y as int,
                o.velocity.y as int,
            );
        }
    }
}

/// Computes the elastic response for one velocity component.
pub fn elastic_vel_component(m1: i64, m2: i64, v1: i64, v2: i64) -> (r: i64)
    requires
        1_000 <= m1 <= 1_000_000,
        1_000 <= m2 <= 1_000_000,
        -1_000_000_000 <= v1 <= 1_000_000_000,
        -1_000_000_000 <= v2 <= 1_000_000_000,
    ensures
        r as int == elastic_component(m1 as int, m2 as int, v1 as int, v2 as int),
        abs_int(r as int) <= ELASTIC_TERM_MAX,
{
    let dm: i128 = (m1 as i128) - (m2 as i128);
    proof {
        assert(dm * (v1 as int) <= 1_000_000_000_000_000int && dm * (v1 as int)
            >= -1_000_000_000_000_000int) by (nonlinear_arith)
            requires
                -1_000_000 <= dm <= 1_000_000,
                -1_000_000_000 <= v1 as int <= 1_000_000_000,
        ;
        assert((2 * (m2 as int)) * (v2 as int) <= 2_000_000_000_000_000int && (2 * (m2 as int)) * (
        v2 as int) >= -2_000_000_000_000_000int) by (nonlinear_arith)
            requires
                1_000 <= m2 as int <= 1_000_000,
                -1_000_000_000 <= v2 as int <= 1_000_000_000,
        ;
    }
    let t1: i128 = dm * (v1 as i128);
    let t2: i128 = (2 * (m2 as i128)) * (v2 as i128);
    let num: i128 = t1 + t2;
    let den: i128 = (m1 + m2) as i128;
    proof {
        lemma_elastic_component_bound(m1 as int, m2 as int, v1 as int, v2 as int);
        assert(num as int == (m1 as int - m2 as int) * (v1 as int) + 2 * (m2 as int) * (
        v2 as int)) by (nonlinear_arith)
            requires
                num == dm * (v1 as int) + (2 * (m2 as int)) * (v2 as int),
                dm == m1 as int - m2 as int,
        ;
    }
    let q = div_trunc_i128(num, den);
    q as i64
}

} // verus!
