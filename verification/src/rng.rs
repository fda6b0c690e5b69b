//! The simulation's source of chance.

use vstd::prelude::*;

verus! {

/// A draw from `macroquad::rand::gen_range` on `i32`, the global quad-rand
/// generator. Its source scales a 32-bit draw `k` to `low + (high - low) * k / 2^32`
/// in `f64` and truncates toward zero; for bounds of this magnitude with
/// `high >= 1` that lands in `low..high`. Which value comes back is chance and
/// is not stated.
#[verifier::external_body]
pub(crate) fn gen_range(low: i32, high: i32) -> (r: i32)
    requires
        -65536 <= low < high <= 65536,
        1 <= high,
    ensures
        low <= r < high,
{
    macroquad::rand::gen_range(low, high)
}

/// True roughly one time in `n`: a draw from `0..n` that came out zero,
/// so certain when `n` is one.
pub(crate) fn chance(n: i32) -> (b: bool)
    requires
        1 <= n <= 65536,
    ensures
        n == 1 ==> b,
{
    gen_range(0, n) == 0
}

} // verus!
