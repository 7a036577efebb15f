//! Fixed-point scalar arithmetic: scales, truncating division and an
//! integer square root, with the lemmas the physics contracts build on.

use vstd::prelude::*;

verus! {

/// Fixed-point units per screen pixel: positions, velocities, masses and
/// screen dimensions are all stored as multiples of 1/SCALE pixel.
pub const SCALE: i64 = 1000;

/// The gravitational strength knob (9.81, an arbitrary tuning constant),
/// expressed in SCALE units.
pub const GRAV_SCALE: i64 = 9810;

/// Full intensity of one color channel (1.0 in unit terms).
pub const COLOR_ONE: i64 = 1_000_000;

/// Trail samples whose alpha falls below this (0.01 in unit terms) are
/// evicted from the front of the trail buffer.
pub const ALPHA_CUTOFF: i64 = 10_000;

/// Numerator of the per-frame trail fade factor 199/200 (= 0.995).
pub const DECAY_NUM: i64 = 199;

/// Denominator of the per-frame trail fade factor 199/200.
pub const DECAY_DEN: i64 = 200;

/// Absolute value over the mathematical integers.
pub open spec fn abs_int(a: int) -> int {
    if a >= 0 {
        a
    } else {
        -a
    }
}

/// Division rounding toward zero, the rounding every fixed-point division
/// of this crate uses. Meaningful for b > 0.
pub open spec fn div_trunc(a: int, b: int) -> int {
    if a >= 0 {
        a / b
    } else {
        -((-a) / b)
    }
}

/// Truncating division never grows the magnitude of the dividend.
pub proof fn lemma_div_trunc_bounds(a: int, b: int)
    requires
        b >= 1,
    ensures
        abs_int(div_trunc(a, b)) <= abs_int(a) / b,
        abs_int(a) / b <= abs_int(a),
{
    if a >= 0 {
        vstd::arithmetic::div_mod::lemma_div_is_ordered_by_denominator(a, 1, b);
        vstd::arithmetic::div_mod::lemma_div_basics_5(a, b);
        vstd::arithmetic::div_mod::lemma_div_basics_4(a, b);
    } else {
        vstd::arithmetic::div_mod::lemma_div_is_ordered_by_denominator(-a, 1, b);
        vstd::arithmetic::div_mod::lemma_div_basics_5(-a, b);
        vstd::arithmetic::div_mod::lemma_div_basics_4(-a, b);
    }
}

/// Truncating division of `i128` values, computed over unsigned magnitudes
/// so that the machine rounding is exactly `div_trunc`.
pub fn div_trunc_i128(a: i128, b: i128) -> (q: i128)
    requires
        1 <= b,
        a > i128::MIN,
    ensures
        q as int == div_trunc(a as int, b as int),
        abs_int(q as int) <= abs_int(a as int),
{
    proof {
        lemma_div_trunc_bounds(a as int, b as int);
    }
    if a >= 0 {
        ((a as u128) / (b as u128)) as i128
    } else {
        let m: u128 = (-a) as u128;
        -((m / (b as u128)) as i128)
    }
}

/// The floor of the square root: the unique r >= 0 with r² <= n < (r+1)².
pub open spec fn sqrt_floor(n: int) -> int
    decreases n,
{
    if n <= 0 {
        0
    } else {
        let r = sqrt_floor(n - 1);
        if (r + 1) * (r + 1) <= n {
            r + 1
        } else {
            r
        }
    }
}

/// `sqrt_floor` satisfies its defining bracket.
pub proof fn lemma_sqrt_floor_bounds(n: int)
    requires
        n >= 0,
    ensures
        0 <= sqrt_floor(n),
        sqrt_floor(n) * sqrt_floor(n) <= n,
        n < (sqrt_floor(n) + 1) * (sqrt_floor(n) + 1),
    decreases n,
{
    if n > 0 {
        lemma_sqrt_floor_bounds(n - 1);
        let r = sqrt_floor(n - 1);
        if (r + 1) * (r + 1) <= n {
            assert(n - 1 < (r + 1) * (r + 1));
            assert(n == (r + 1) * (r + 1));
            assert((r + 1 + 1) * (r + 1 + 1) > (r + 1) * (r + 1)) by (nonlinear_arith)
                requires
                    r >= 0,
            ;
        }
    }
}

/// Any r inside the defining bracket is `sqrt_floor(n)`.
pub proof fn lemma_sqrt_floor_unique(n: int, r: int)
    requires
        n >= 0,
        r >= 0,
        r * r <= n,
        n < (r + 1) * (r + 1),
    ensures
        r == sqrt_floor(n),
{
    lemma_sqrt_floor_bounds(n);
    let s = sqrt_floor(n);
    if r < s {
        assert((r + 1) * (r + 1) <= s * s) by (nonlinear_arith)
            requires
                0 <= r,
                r + 1 <= s,
        ;
        assert(false);
    }
    if s < r {
        assert((s + 1) * (s + 1) <= r * r) by (nonlinear_arith)
            requires
                0 <= s,
                s + 1 <= r,
        ;
        assert(false);
    }
}

/// `sqrt_floor` grows with its argument.
pub proof fn lemma_sqrt_floor_ordered(m: int, n: int)
    requires
        0 <= m <= n,
    ensures
        sqrt_floor(m) <= sqrt_floor(n),
{
    lemma_sqrt_floor_bounds(m);
    lemma_sqrt_floor_bounds(n);
    let a = sqrt_floor(m);
    let b = sqrt_floor(n);
    if b < a {
        assert((b + 1) * (b + 1) <= a * a) by (nonlinear_arith)
            requires
                0 <= b,
                b + 1 <= a,
        ;
        assert(false);
    }
}

/// Integer square root by bisection.
pub fn isqrt_u128(n: u128) -> (r: u128)
    requires
        n <= 1_000_000_000_000_000_000_000_000_000_000u128,
    ensures
        r as int == sqrt_floor(n as int),
        r <= 1_000_000_000_000_000u128,
{
    let mut lo: u128 = 0;
    let mut hi: u128 = 1_000_000_000_000_001;
    while lo + 1 < hi
        invariant
            lo < hi,
            hi <= 1_000_000_000_000_001,
            (lo * lo) as int <= n as int,
            (n as int) < (hi as int) * (hi as int),
        decreases hi - lo,
    {
        let mid = lo + (hi - lo) / 2;
        proof {
            assert((mid as int) * (mid as int) <= 1_000_000_000_000_000int
                * 1_000_000_000_000_000int) by (nonlinear_arith)
                requires
                    0 <= mid as int <= 1_000_000_000_000_000int,
            ;
        }
        if mid * mid <= n {
            lo = mid;
        } else {
            hi = mid;
        }
    }
    proof {
        lemma_sqrt_floor_unique(n as int, lo as int);
    }
    lo
}

} // verus!
