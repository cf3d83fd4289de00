use vstd::prelude::*;

verus! {

/// Relies on `macroquad::rand::gen_range` (quad_rand's integer
/// `RandomRange`): the result is `low + (high - low) * r` for a
/// pseudo-random `f64` fraction `r` in `[0, 1)`, truncated toward zero. For
/// arguments of this magnitude the endpoint casts are exact and every
/// intermediate value stays within `[low, high]`; rounding of the final sum
/// can reach the upper endpoint, so the bound is closed on both sides.
#[verifier::external_body]
pub(crate) fn gen_range_i64(low: i64, high: i64) -> (r: i64)
    requires
        -1_000_000_000_000_000 <= low <= high <= 1_000_000_000_000_000,
    ensures
        low <= r <= high,
{
    macroquad::rand::gen_range(low, high)
}

} // verus!
