//! Randomness for the simulation, drawn from the `quad_rand` generator —
//! the same global generator the game's windowing layer re-exports as its
//! `rand` module.  Nothing is assumed of a drawn value beyond its range.

use vstd::prelude::*;

verus! {

use crate::DIR_SCALE;

/// Relies on `quad_rand::gen_range::<usize>`: the result is
/// `low + (high - low) * r` truncated, with `r` drawn in `[0, 1)`, so for
/// `0 < n` it falls in `[0, n)`.  The bound on `n` keeps the `f64`
/// arithmetic inside that source exact.
#[verifier::external_body]
pub(crate) fn rand_index(n: usize) -> (r: usize)
    requires
        0 < n <= 1_000_000,
    ensures
        r < n,
{
    quad_rand::gen_range(0usize, n)
}

/// Relies on `quad_rand::gen_range::<i64>`: the result is
/// `low + (high - low) * r` truncated toward zero, with `r` drawn in
/// `[0, 1)`, so it stays within the closed range of the two small bounds.
#[verifier::external_body]
pub(crate) fn rand_dir() -> (d: i64)
    ensures
        -DIR_SCALE <= d <= DIR_SCALE,
{
    quad_rand::gen_range(-DIR_SCALE, DIR_SCALE)
}

} // verus!
