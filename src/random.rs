//! Random draws, from macroquad's generator.
use vstd::prelude::*;
use crate::world::MAX_CELLS;

verus! {

/// Relies on `macroquad::rand::gen_range` (quad-rand's global generator) for an
/// index drawn below `n`: it scales a random `u32` by `n / 2^32` in `f64` and
/// truncates, so for `0 < n <= 2^32` the result is at least 0 and below `n`.
#[verifier::external_body]
pub(crate) fn random_below(n: usize) -> (r: usize)
    requires
        0 < n <= MAX_CELLS,
    ensures
        r < n,
{
    macroquad::rand::gen_range(0, n)
}

} // verus!
