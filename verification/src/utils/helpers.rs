//! Angle conversion and scalar sampling.
use super::constants::PI_RAW;
use crate::fixed::{
    clamp, fx_add, fx_mul, fx_sub, in_range, lemma_floor_div_monotonic, lemma_mul_bounds,
    magnitude, rdiv, wide_mul, wide_rdiv, Fixed, LIMIT, SCALE,
};
use crate::sampler::{drawn_word, next_seed, Sampler};
use vstd::prelude::*;

verus! {

/// `degrees * pi / 180`, rounded once.
pub open spec fn radians(degrees: int) -> int {
    clamp(rdiv(degrees * PI_RAW, 180 * SCALE))
}

/// The scalar in `[0, 1)` that a generator at `seed` draws: its word scaled
/// from `[0, 2^32)` to `[0, SCALE)`.
pub open spec fn unit_draw(seed: u64) -> int {
    (drawn_word(seed) * SCALE) / 0x1_0000_0000
}

/// The scalar between `min` and `max` that a generator at `seed` draws:
/// `min` plus the unit draw times the width of the range.
pub open spec fn range_draw(min: int, max: int, seed: u64) -> int {
    fx_add(min, fx_mul(fx_sub(max, min), unit_draw(seed)))
}

/// A draw from a range lies in the range.
pub proof fn lemma_range_draw_range(min: int, max: int, seed: u64)
    requires
        in_range(min),
        in_range(max),
        min <= max,
    ensures
        min <= range_draw(min, max, seed) <= max,
{
    let width = max - min;
    let u = unit_draw(seed);
    assert(0 <= width * u <= width * 100_000 && width * 100_000 + 50_000 == 100_000 * width
        + 50_000) by (nonlinear_arith)
        requires
            0 <= width,
            0 <= u < 100_000,
    ;
    assert(magnitude(width * u) == width * u);
    assert(magnitude(SCALE as int) / 2 == 50_000);
    lemma_floor_div_monotonic(width * u + 50_000, width * 100_000 + 50_000, 100_000);
    assert((100_000 * width + 50_000) / 100_000 == width);
}

/// An angle in radians, from degrees.
pub fn degress_to_radians(degress: Fixed) -> (r: Fixed)
    ensures
        r@ == radians(degress@),
{
    let n = wide_mul(degress.raw() as i64, PI_RAW as i64);
    proof {
        lemma_mul_bounds(degress@, PI_RAW as int, LIMIT as int, PI_RAW as int);
    }
    Fixed::saturating(wide_rdiv(n, 18_000_000))
}

/// Draws a scalar uniformly from `[0, 1)`.
pub fn random_f32(rng: &mut Sampler) -> (r: Fixed)
    ensures
        r@ == unit_draw(old(rng)@),
        0 <= r@ < SCALE,
        final(rng)@ == next_seed(old(rng)@),
{
    let word = rng.next_word();
    Fixed::saturating(((word as u64 * 100_000) / 0x1_0000_0000) as i128)
}

/// Draws a scalar uniformly from between `min` and `max`.
pub fn random_f32_with_range(min: Fixed, max: Fixed, rng: &mut Sampler) -> (r: Fixed)
    ensures
        r@ == range_draw(min@, max@, old(rng)@),
        min@ <= max@ ==> min@ <= r@ <= max@,
        final(rng)@ == next_seed(old(rng)@),
{
    let (lo, hi) = (min.raw(), max.raw());
    proof {
        if lo <= hi {
            lemma_range_draw_range(min@, max@, old(rng)@);
        }
    }
    min + (max - min) * random_f32(rng)
}

} // verus!
