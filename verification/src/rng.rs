//! The one source of randomness: the global pseudo-random generator of the
//! `quad_rand` crate, drawn from only when bodies are (re)initialized. The
//! presentation layer seeds it once at process start.

use vstd::prelude::*;

verus! {

/// Relies on quad_rand::gen_range::<i64>: it computes
/// `low + (high - low) * r` with `r` drawn uniformly from [0, 1) in an `f64`
/// and truncates the result toward zero, so for integer bounds of moderate
/// magnitude the result lies between `low` and `high` inclusive.
#[verifier::external_body]
pub(crate) fn gen_range_i64(low: i64, high: i64) -> (r: i64)
    requires
        -1_000_000_000_000 <= low,
        low <= high,
        high <= 1_000_000_000_000,
    ensures
        low <= r <= high,
{
    quad_rand::gen_range(low, high)
}

} // verus!
