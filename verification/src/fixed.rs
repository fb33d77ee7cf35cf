//! Fixed-point positions with twelve fraction bits, as the resampling
//! blitters step through a source.

use vstd::prelude::*;

verus! {

/// The number of fraction bits of a fixed-point position.
pub const FX_BITS_12: u32 = 12;

/// One whole pixel in fixed point.
pub const FX_UNIT_12: i32 = 4096;

/// The whole pixel that a fixed-point position lies in: the position
/// divided by 4096 and rounded down, for negative positions too.
pub open spec fn fx_floor(v: int) -> int {
    v / 4096
}

/// The fixed-point position `k` steps of `step` after `origin`.
pub open spec fn fx_walk(origin: int, step: int, k: int) -> int {
    origin + k * step
}

/// Walking on moves the position by one more step.
pub proof fn lemma_fx_walk_next(origin: int, step: int, k: int)
    ensures
        fx_walk(origin, step, k + 1) == fx_walk(origin, step, k) + step,
        fx_walk(origin, step, 0) == origin,
{
    assert((k + 1) * step == k * step + step) by (nonlinear_arith);
}

/// Walking `a` steps and then `b` more is walking `a + b` steps.
pub proof fn lemma_fx_walk_add(origin: int, step: int, a: int, b: int)
    ensures
        fx_walk(fx_walk(origin, step, a), step, b) == fx_walk(origin, step, a + b),
{
    assert((a + b) * step == a * step + b * step) by (nonlinear_arith);
}

/// A walk of at most `n` steps stays within `n` times the step size of its
/// origin.
pub proof fn lemma_fx_walk_bound(origin: int, step: int, k: int, n: int, s: int)
    requires
        0 <= k <= n,
        -s <= step <= s,
    ensures
        origin - n * s <= fx_walk(origin, step, k) <= origin + n * s,
{
    assert(-(n * s) <= k * step <= n * s) by (nonlinear_arith)
        requires
            0 <= k <= n,
            -s <= step <= s,
    ;
}

/// A walk moves in one direction only: the pixel it is in after `k` steps
/// lies between the pixels it is in after `a` and after `b` steps, for
/// `a <= k <= b`.
pub proof fn lemma_fx_walk_between(origin: int, step: int, a: int, k: int, b: int)
    requires
        a <= k <= b,
    ensures
        fx_floor(fx_walk(origin, step, a)) <= fx_floor(fx_walk(origin, step, k)) <= fx_floor(
            fx_walk(origin, step, b),
        ) || fx_floor(fx_walk(origin, step, b)) <= fx_floor(fx_walk(origin, step, k))
            <= fx_floor(fx_walk(origin, step, a)),
{
    if step >= 0 {
        assert(a * step <= k * step <= b * step) by (nonlinear_arith)
            requires
                a <= k <= b,
                step >= 0,
        ;
    } else {
        assert(b * step <= k * step <= a * step) by (nonlinear_arith)
            requires
                a <= k <= b,
                step < 0,
        ;
    }
}

/// The whole pixel of a fixed-point position.
pub fn fx_pixel(v: i64) -> (p: i64)
    ensures
        p == fx_floor(v as int),
{
    assert(v >> 12 == v as int / 4096) by (bit_vector);
    v >> FX_BITS_12
}

/// The whole pixel of a fixed-point position held in 128 bits.
pub fn fx_pixel_wide(v: i128) -> (p: i128)
    ensures
        p == fx_floor(v as int),
{
    assert(v >> 12 == v as int / 4096) by (bit_vector);
    v >> FX_BITS_12
}

} // verus!
