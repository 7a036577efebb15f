//! The trail buffer: a first-in-first-out history of body positions whose
//! samples fade exponentially (× 199/200 per frame) and are evicted from
//! the front once their alpha falls below the near-zero cutoff.

use vstd::prelude::*;
use std::collections::VecDeque;
use crate::body::{color_ok, Body, Color};
use crate::num::{ALPHA_CUTOFF, COLOR_ONE, DECAY_DEN, DECAY_NUM};
use crate::vec2::Vec2;
use vstd::arithmetic::power::pow;

verus! {

/// A trail left behind by a body: its position and color at one past
/// frame, the color's alpha being the fade level.
#[derive(Clone, Copy, PartialEq, Eq, Structural, Debug)]
pub struct Trail {
    pub position: Vec2,
    pub colour: Color,
}

impl Trail {
    /// Captures a body's current position and color at full fade level.
    pub fn from(body: &Body) -> (t: Trail)
        ensures
            t == sample_of(*body),
    {
        Trail { position: body.position, colour: body.colour }
    }
}

/// The sample a body leaves this frame.
pub open spec fn sample_of(b: Body) -> Trail {
    Trail { position: b.position, colour: b.colour }
}

/// The samples a whole body set leaves this frame, in body order.
pub open spec fn samples_of(bodies: Seq<Body>) -> Seq<Trail> {
    bodies.map_values(|b: Body| sample_of(b))
}

/// One frame of fade: alpha shrinks by the factor 199/200, rounded down.
pub open spec fn decay_alpha(a: int) -> int {
    a * (DECAY_NUM as int) / (DECAY_DEN as int)
}

/// A sample after one frame of fade: only the alpha changes.
pub open spec fn decayed_sample(t: Trail) -> Trail {
    Trail { colour: Color { a: decay_alpha(t.colour.a as int) as i64, ..t.colour }, ..t }
}

/// A whole buffer after one frame of fade.
pub open spec fn decayed(s: Seq<Trail>) -> Seq<Trail> {
    s.map_values(|t: Trail| decayed_sample(t))
}

/// The buffer with every leading sample fainter than the cutoff removed:
/// what the front-eviction loop leaves.
pub open spec fn drop_faded(s: Seq<Trail>) -> Seq<Trail>
    decreases s.len(),
{
    if s.len() > 0 && s[0].colour.a < ALPHA_CUTOFF {
        drop_faded(s.drop_first())
    } else {
        s
    }
}

/// The whole trail pass of one frame: every existing sample fades, each
/// body appends a fresh sample at its current position, and faded
/// samples are evicted from the front — unless fading is off, in which
/// case history accumulates unboundedly.
pub open spec fn step_trails(trails: Seq<Trail>, bodies: Seq<Body>, fade: bool) -> Seq<Trail> {
    if fade {
        drop_faded(decayed(trails) + samples_of(bodies))
    } else {
        trails + samples_of(bodies)
    }
}

/// Every sample's color is in range.
pub open spec fn trail_colors_ok(s: Seq<Trail>) -> bool {
    forall|i: int| 0 <= i < s.len() ==> color_ok(#[trigger] s[i].colour)
}

/// Fade levels never decrease from the front of the buffer to the back —
/// the oldest sample is always the faintest, which is what makes
/// front-eviction complete.
pub open spec fn alphas_sorted(s: Seq<Trail>) -> bool {
    forall|i: int, j: int| 0 <= i <= j < s.len() ==> s[i].colour.a <= s[j].colour.a
}

/// Fading keeps alpha in range and never brightens a sample.
pub proof fn lemma_decay_alpha_bounds(a: int)
    requires
        0 <= a,
    ensures
        0 <= decay_alpha(a) <= a,
{
    vstd::arithmetic::div_mod::lemma_div_basics_4(a * DECAY_NUM, DECAY_DEN as int);
    vstd::arithmetic::div_mod::lemma_div_basics_5(a * DECAY_NUM, DECAY_DEN as int);
    assert(a * DECAY_NUM == 199 * a) by (nonlinear_arith)
        requires
            DECAY_NUM == 199,
    ;
    if a > 0 {
        vstd::arithmetic::div_mod::lemma_div_multiples_vanish(a, 200);
        vstd::arithmetic::div_mod::lemma_div_is_ordered(199 * a, 200 * a, 200);
    }
}

/// Fading preserves the order of fade levels.
pub proof fn lemma_decay_alpha_monotone(a: int, b: int)
    requires
        0 <= a <= b,
    ensures
        decay_alpha(a) <= decay_alpha(b),
{
    assert(a * DECAY_NUM <= b * DECAY_NUM) by (nonlinear_arith)
        requires
            a <= b,
            DECAY_NUM == 199,
    ;
    vstd::arithmetic::div_mod::lemma_div_is_ordered(a * DECAY_NUM, b * DECAY_NUM, DECAY_DEN as int);
}

/// A fade level after n frames of fade.
pub open spec fn decay_iter(a: int, n: nat) -> int
    decreases n,
{
    if n == 0 {
        a
    } else {
        decay_alpha(decay_iter(a, (n - 1) as nat))
    }
}

/// After N frames with no new samples a fade level is the initial level
/// times (199/200)^N = 0.995^N, exactly up to the rounding the integer
/// fade accumulates: at most one unit per frame, before its own fading.
pub proof fn lemma_decay_iter_bracket(a: int, n: nat)
    requires
        0 <= a,
    ensures
        0 <= decay_iter(a, n),
        pow(200, n) * decay_iter(a, n) <= pow(199, n) * a,
        pow(200, n) * decay_iter(a, n) >= pow(199, n) * a - n * pow(200, n),
    decreases n,
{
    vstd::arithmetic::power::lemma_pow_positive(200, n);
    vstd::arithmetic::power::lemma_pow_positive(199, n);
    if n == 0 {
        vstd::arithmetic::power::lemma_pow0(200);
        vstd::arithmetic::power::lemma_pow0(199);
    } else {
        let m = (n - 1) as nat;
        lemma_decay_iter_bracket(a, m);
        vstd::arithmetic::power::lemma_pow_positive(200, m);
        vstd::arithmetic::power::lemma_pow_positive(199, m);
        let b = decay_iter(a, m);
        let d = decay_alpha(b);
        let p200 = pow(200, m);
        let p199 = pow(199, m);
        vstd::arithmetic::power::lemma_pow1(200);
        vstd::arithmetic::power::lemma_pow1(199);
        vstd::arithmetic::power::lemma_pow_adds(200, 1, m);
        vstd::arithmetic::power::lemma_pow_adds(199, 1, m);
        assert(pow(200, n) == 200 * p200);
        assert(pow(199, n) == 199 * p199);
        lemma_decay_alpha_bounds(b);
        vstd::arithmetic::div_mod::lemma_fundamental_div_mod(b * 199, 200);
        assert(b * DECAY_NUM == b * 199);
        // the one-frame bracket: 199 b - 200 < 200 d <= 199 b
        assert(200 * d <= 199 * b && 200 * d > 199 * b - 200) by (nonlinear_arith)
            requires
                b * 199 == 200 * (b * 199 / 200) + (b * 199) % 200,
                0 <= (b * 199) % 200 < 200,
                d == b * 199 / 200,
        ;
        // upper: 200^n d = p200 (200 d) <= p200 (199 b) = 199 (p200 b) <= 199 (p199 a)
        assert((200 * p200) * d <= (199 * p199) * a) by (nonlinear_arith)
            requires
                200 * d <= 199 * b,
                p200 * b <= p199 * a,
                p200 >= 1,
                p199 >= 1,
                0 <= b,
                0 <= a,
        ;
        // lower: 200^n d = p200 (200 d) > p200 (199 b - 200)
        //       = 199 (p200 b) - 200 p200 > 199 (p199 a - m p200) - 200 p200
        //       >= 199^n a - (m + 1) (200 p200)
        assert(pow(200, n) * decay_iter(a, n) >= pow(199, n) * a - n * pow(200, n))
            by (nonlinear_arith)
            requires
                pow(200, n) == 200 * p200,
                pow(199, n) == 199 * p199,
                decay_iter(a, n) == d,
                n == m + 1,
                200 * d > 199 * b - 200,
                p200 * b >= p199 * a - m * p200,
                p200 >= 1,
                p199 >= 1,
                0 <= b,
                0 <= a,
                m >= 0,
        ;
    }
}

/// In a buffer whose fade levels rise from front to back, front-eviction
/// is complete: once a sample's alpha is below the cutoff it is absent
/// from the evicted buffer.
pub proof fn lemma_drop_faded_no_faded(s: Seq<Trail>)
    requires
        alphas_sorted(s),
    ensures
        forall|i: int|
            0 <= i < drop_faded(s).len() ==> (#[trigger] drop_faded(s)[i]).colour.a
                >= ALPHA_CUTOFF,
    decreases s.len(),
{
    if s.len() > 0 && s[0].colour.a < ALPHA_CUTOFF {
        assert(alphas_sorted(s.drop_first()));
        lemma_drop_faded_no_faded(s.drop_first());
        assert(drop_faded(s) == drop_faded(s.drop_first()));
        assert forall|i: int| 0 <= i < drop_faded(s).len() implies (#[trigger] drop_faded(
            s,
        )[i]).colour.a >= ALPHA_CUTOFF by {
            assert(drop_faded(s.drop_first())[i].colour.a >= ALPHA_CUTOFF);
        }
    } else {
        assert(drop_faded(s) == s);
        assert forall|i: int| 0 <= i < drop_faded(s).len() implies (#[trigger] drop_faded(
            s,
        )[i]).colour.a >= ALPHA_CUTOFF by {
            assert(s[0].colour.a <= s[i].colour.a);
        }
    }
}

/// The full trail pass leaves no faded sample behind: the buffer's fade
/// levels rise from front to back, each body appends at full alpha, and
/// the front-eviction then removes every sample below the cutoff.
pub proof fn lemma_step_trails_no_faded(trails: Seq<Trail>, bodies: Seq<Body>)
    requires
        alphas_sorted(trails),
        trail_colors_ok(trails),
        forall|k: int| 0 <= k < bodies.len() ==> (#[trigger] bodies[k]).colour.a == COLOR_ONE,
    ensures
        forall|i: int|
            0 <= i < step_trails(trails, bodies, true).len() ==> (#[trigger] step_trails(
                trails,
                bodies,
                true,
            )[i]).colour.a >= ALPHA_CUTOFF,
{
    let combined = decayed(trails) + samples_of(bodies);
    assert forall|i: int, j: int| 0 <= i <= j < combined.len() implies combined[i].colour.a
        <= combined[j].colour.a by {
        let n = trails.len() as int;
        if j < n {
            lemma_decay_alpha_monotone(trails[i].colour.a as int, trails[j].colour.a as int);
        } else if i < n {
            lemma_decay_alpha_bounds(trails[i].colour.a as int);
        }
    }
    assert(alphas_sorted(combined));
    lemma_drop_faded_no_faded(combined);
}

/// Front-eviction keeps whatever order the buffer had: it only removes
/// a prefix.
pub proof fn lemma_drop_faded_keeps_order(s: Seq<Trail>)
    requires
        alphas_sorted(s),
    ensures
        alphas_sorted(drop_faded(s)),
    decreases s.len(),
{
    if s.len() > 0 && s[0].colour.a < ALPHA_CUTOFF {
        assert(alphas_sorted(s.drop_first()));
        lemma_drop_faded_keeps_order(s.drop_first());
    }
}

/// The whole trail pass keeps the fade levels rising from front to back,
/// so the buffer's key invariant sustains itself across frames: fading
/// preserves the order, fresh samples arrive at full alpha behind
/// everything, and eviction only removes a prefix.
pub proof fn lemma_step_trails_keeps_order(trails: Seq<Trail>, bodies: Seq<Body>)
    requires
        alphas_sorted(trails),
        trail_colors_ok(trails),
        forall|k: int| 0 <= k < bodies.len() ==> (#[trigger] bodies[k]).colour.a == COLOR_ONE,
    ensures
        alphas_sorted(step_trails(trails, bodies, true)),
{
    let combined = decayed(trails) + samples_of(bodies);
    assert forall|i: int, j: int| 0 <= i <= j < combined.len() implies combined[i].colour.a
        <= combined[j].colour.a by {
        let n = trails.len() as int;
        if j < n {
            lemma_decay_alpha_monotone(trails[i].colour.a as int, trails[j].colour.a as int);
        } else if i < n {
            lemma_decay_alpha_bounds(trails[i].colour.a as int);
        }
    }
    assert(alphas_sorted(combined));
    lemma_drop_faded_keeps_order(combined);
}

/// Computes one frame of fade for a single alpha value.
pub fn decay_alpha_exec(a: i64) -> (r: i64)
    requires
        0 <= a <= COLOR_ONE,
    ensures
        r as int == decay_alpha(a as int),
        0 <= r <= a,
{
    proof {
        lemma_decay_alpha_bounds(a as int);
    }
    (((a * DECAY_NUM) as u64) / (DECAY_DEN as u64)) as i64
}

/// Runs the whole trail pass of one frame on the buffer.
pub fn update_trails(trails: &mut VecDeque<Trail>, bodies: &[Body], fade: bool)
    requires
        trail_colors_ok(old(trails)@),
    ensures
        final(trails)@ == step_trails(old(trails)@, bodies@, fade),
{
    if fade {
        let n = trails.len();
        let mut out: VecDeque<Trail> = VecDeque::new();
        let mut i: usize = 0;
        while i < n
            invariant
                i <= n,
                n == trails@.len(),
                *trails == *old(trails),
                trail_colors_ok(trails@),
                out@.len() == i,
                forall|j: int| 0 <= j < i ==> out@[j] == decayed_sample(#[trigger] trails@[j]),
            decreases n - i,
        {
            let t = trails[i];
            let na = decay_alpha_exec(t.colour.a);
            out.push_back(Trail { position: t.position, colour: Color { a: na, ..t.colour } });
            i = i + 1;
        }
        proof {
            assert(out@ =~= decayed(trails@));
        }
        let m = bodies.len();
        let mut j: usize = 0;
        while j < m
            invariant
                j <= m,
                m == bodies@.len(),
                out@ =~= decayed(old(trails)@) + samples_of(bodies@.take(j as int)),
            decreases m - j,
        {
            out.push_back(Trail::from(&bodies[j]));
            proof {
                assert(samples_of(bodies@.take(j as int + 1)) =~= samples_of(
                    bodies@.take(j as int),
                ).push(sample_of(bodies@[j as int])));
            }
            j = j + 1;
        }
        proof {
            assert(bodies@.take(m as int) =~= bodies@);
            assert(out@ =~= decayed(old(trails)@) + samples_of(bodies@));
        }
        let ghost combined = decayed(old(trails)@) + samples_of(bodies@);
        loop
            invariant
                drop_faded(out@) == drop_faded(combined),
            ensures
                out@ == drop_faded(combined),
            decreases out@.len(),
        {
            if out.len() == 0 {
                break ;
            }
            let f = out[0];
            if f.colour.a < ALPHA_CUTOFF {
                proof {
                    assert(drop_faded(out@) == drop_faded(out@.drop_first()));
                }
                out.pop_front();
            } else {
                break ;
            }
        }
        *trails = out;
    } else {
        let m = bodies.len();
        let mut j: usize = 0;
        while j < m
            invariant
                j <= m,
                m == bodies@.len(),
                trails@ =~= old(trails)@ + samples_of(bodies@.take(j as int)),
            decreases m - j,
        {
            trails.push_back(Trail::from(&bodies[j]));
            proof {
                assert(samples_of(bodies@.take(j as int + 1)) =~= samples_of(
                    bodies@.take(j as int),
                ).push(sample_of(bodies@[j as int])));
            }
            j = j + 1;
        }
        proof {
            assert(bodies@.take(m as int) =~= bodies@);
            assert(trails@ =~= old(trails)@ + samples_of(bodies@));
        }
    }
}

} // verus!
