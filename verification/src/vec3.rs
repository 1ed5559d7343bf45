//! Three-component vectors of fixed-point scalars.
//!
//! The model of a [`Vec3`] is a [`V3`], the triple of its raw counts; the
//! `v3_*` functions give the algebra on models.
use crate::fixed::{
    clamp, fx_add, fx_div, fx_min, fx_mul, fx_sqrt, fx_sub, in_range, isqrt,
    lemma_floor_div_monotonic, lemma_fx_mul_commutes, lemma_isqrt, lemma_mul_bounds,
    lemma_mul_sum3, lemma_quotient_square, lemma_square_monotonic, magnitude, rdiv, wide_dot, wide_isqrt,
    wide_mul, wide_rdiv, Fixed, LIMIT, SCALE,
};
use crate::sampler::{next_seed, Sampler};
use crate::utils::constants::EPSILON_RAW;
use crate::utils::helpers::{random_f32, random_f32_with_range, range_draw, unit_draw};
use core::cmp::Ordering;
use vstd::prelude::*;

verus! {

/// Model of a vector: three raw counts.
pub struct V3 {
    pub x: int,
    pub y: int,
    pub z: int,
}

/// Component-wise sum.
pub open spec fn v3_add(a: V3, b: V3) -> V3 {
    V3 { x: fx_add(a.x, b.x), y: fx_add(a.y, b.y), z: fx_add(a.z, b.z) }
}

/// Component-wise difference.
pub open spec fn v3_sub(a: V3, b: V3) -> V3 {
    V3 { x: fx_sub(a.x, b.x), y: fx_sub(a.y, b.y), z: fx_sub(a.z, b.z) }
}

/// Component-wise product.
pub open spec fn v3_mul(a: V3, b: V3) -> V3 {
    V3 { x: fx_mul(a.x, b.x), y: fx_mul(a.y, b.y), z: fx_mul(a.z, b.z) }
}

/// The vector times a scalar.
pub open spec fn v3_scale(a: V3, k: int) -> V3 {
    V3 { x: fx_mul(a.x, k), y: fx_mul(a.y, k), z: fx_mul(a.z, k) }
}

/// The vector divided by a scalar other than zero.
pub open spec fn v3_div(a: V3, k: int) -> V3
    recommends
        k != 0,
{
    V3 { x: fx_div(a.x, k), y: fx_div(a.y, k), z: fx_div(a.z, k) }
}

/// The vector divided by a whole number other than zero, each component
/// rounded once. The components of `a` need not be scalars.
pub open spec fn v3_over(a: V3, n: int) -> V3
    recommends
        n != 0,
{
    V3 { x: clamp(rdiv(a.x, n)), y: clamp(rdiv(a.y, n)), z: clamp(rdiv(a.z, n)) }
}

/// `k / SCALE` of the `n`-th part of a vector, each component rounded once:
/// the way along `a` to the `k / SCALE`-th of `n` equal steps.
pub open spec fn v3_stepped(a: V3, k: int, n: int) -> V3
    recommends
        n > 0,
{
    V3 {
        x: clamp(rdiv(a.x * k, SCALE * n)),
        y: clamp(rdiv(a.y * k, SCALE * n)),
        z: clamp(rdiv(a.z * k, SCALE * n)),
    }
}

/// The opposite vector.
pub open spec fn v3_neg(a: V3) -> V3 {
    V3 { x: -a.x, y: -a.y, z: -a.z }
}

/// The dot product of the raw counts, exact; its unit is the square of a raw
/// unit.
pub open spec fn dot_exact(a: V3, b: V3) -> int {
    a.x * b.x + a.y * b.y + a.z * b.z
}

/// The dot product as a scalar: rounded once and saturated.
pub open spec fn v3_dot(a: V3, b: V3) -> int {
    clamp(rdiv(dot_exact(a, b), SCALE as int))
}

/// The cross product, each component rounded once and saturated.
pub open spec fn v3_cross(a: V3, b: V3) -> V3 {
    V3 {
        x: clamp(rdiv(a.y * b.z - a.z * b.y, SCALE as int)),
        y: clamp(rdiv(a.z * b.x - a.x * b.z, SCALE as int)),
        z: clamp(rdiv(a.x * b.y - a.y * b.x, SCALE as int)),
    }
}

/// The squared length as a scalar.
pub open spec fn v3_length_squared(a: V3) -> int {
    v3_dot(a, a)
}

/// Euclidean length, rounded down.
pub open spec fn v3_length(a: V3) -> int {
    clamp(isqrt(dot_exact(a, a)))
}

/// The vector scaled to unit length; the zero vector stays zero.
pub open spec fn v3_unit(a: V3) -> V3 {
    let len = isqrt(dot_exact(a, a));
    if len == 0 {
        a
    } else {
        V3 {
            x: clamp(rdiv(a.x * SCALE, len)),
            y: clamp(rdiv(a.y * SCALE, len)),
            z: clamp(rdiv(a.z * SCALE, len)),
        }
    }
}

/// Mirror image of `v` about the plane with normal `n`: `v - 2 (v . n) n`.
pub open spec fn v3_reflect(v: V3, n: V3) -> V3 {
    v3_sub(v, v3_scale(n, fx_mul(2 * SCALE, v3_dot(v, n))))
}

/// The direction of a ray bent at a surface with unit normal `n`, passing
/// from a medium of index `n_src` into one of index `n_dst`: the component
/// across the normal is scaled by the ratio of the indices, the component
/// along it restores unit length.
pub open spec fn v3_refract(uv: V3, n: V3, n_src: int, n_dst: int) -> V3
    recommends
        n_dst != 0,
{
    let cos_theta = fx_min(v3_dot(v3_neg(uv), n), SCALE as int);
    let across = v3_scale(v3_add(uv, v3_scale(n, cos_theta)), fx_div(n_src, n_dst));
    let along = v3_scale(n, -fx_sqrt(magnitude(fx_sub(SCALE as int, v3_length_squared(across)))));
    v3_add(across, along)
}

/// Whether two vectors differ by less than the smallest scalar in every
/// component.
pub open spec fn v3_close(a: V3, b: V3) -> bool {
    magnitude(a.x - b.x) < EPSILON_RAW && magnitude(a.y - b.y) < EPSILON_RAW && magnitude(
        a.z - b.z,
    ) < EPSILON_RAW
}

/// The seed after three draws.
pub open spec fn next_seed3(seed: u64) -> u64 {
    next_seed(next_seed(next_seed(seed)))
}

/// The vector whose components a generator at `seed` draws from `[0, 1)`.
pub open spec fn v3_random(seed: u64) -> V3 {
    V3 {
        x: unit_draw(seed),
        y: unit_draw(next_seed(seed)),
        z: unit_draw(next_seed(next_seed(seed))),
    }
}

/// The vector whose components a generator at `seed` draws from `[min, max)`.
pub open spec fn v3_random_range(min: int, max: int, seed: u64) -> V3 {
    V3 {
        x: range_draw(min, max, seed),
        y: range_draw(min, max, next_seed(seed)),
        z: range_draw(min, max, next_seed(next_seed(seed))),
    }
}

/// Whether a candidate from the cube lies in the unit ball and is not zero.
pub open spec fn in_unit_ball(c: V3) -> bool {
    0 < dot_exact(c, c) <= SCALE * SCALE
}

/// The unit vector that rejection sampling finds from `seed` within
/// `attempts` candidates, and the seed it leaves. Each candidate is drawn
/// from the cube `[-1, 1)^3` and accepted if it lies in the unit ball; when
/// every candidate is rejected the result is the first axis.
pub open spec fn unit_vector_draw(seed: u64, attempts: nat) -> (V3, u64)
    decreases attempts,
{
    if attempts == 0 {
        (V3 { x: SCALE as int, y: 0, z: 0 }, seed)
    } else {
        let c = v3_random_range(-SCALE, SCALE as int, seed);
        if in_unit_ball(c) {
            (v3_unit(c), next_seed3(seed))
        } else {
            unit_vector_draw(next_seed3(seed), (attempts - 1) as nat)
        }
    }
}

/// `v`, turned to the side of `normal` if it points away from it.
pub open spec fn v3_toward(v: V3, normal: V3) -> V3 {
    if dot_exact(v, normal) < 0 {
        v3_neg(v)
    } else {
        v
    }
}

/// The candidate point of the square `[-1, 1)^2` drawn at `seed`.
pub open spec fn disk_candidate(seed: u64) -> V3 {
    V3 {
        x: range_draw(-SCALE, SCALE as int, seed),
        y: range_draw(-SCALE, SCALE as int, next_seed(seed)),
        z: 0,
    }
}

/// The point of the open unit disk that rejection sampling finds from
/// `seed` within `attempts` candidates, and the seed it leaves; when every
/// candidate is rejected the result is the centre.
pub open spec fn unit_disk_draw(seed: u64, attempts: nat) -> (V3, u64)
    decreases attempts,
{
    if attempts == 0 {
        (V3 { x: 0, y: 0, z: 0 }, seed)
    } else {
        let c = disk_candidate(seed);
        if dot_exact(c, c) < SCALE * SCALE {
            (c, next_seed(next_seed(seed)))
        } else {
            unit_disk_draw(next_seed(next_seed(seed)), (attempts - 1) as nat)
        }
    }
}

/// Candidates that rejection sampling draws before it gives up.
pub const MAX_ATTEMPTS: u32 = 128;

/// A component of a vector is no longer than the vector: its magnitude is
/// at most the integer square root of the squared length.
pub proof fn lemma_component_bounded(x: int, rest: int)
    requires
        rest >= 0,
    ensures
        magnitude(x) <= isqrt(x * x + rest),
{
    let m = magnitude(x);
    assert(m * m == x * x) by (nonlinear_arith)
        requires
            m == magnitude(x),
    ;
    lemma_isqrt(x * x + rest);
    let len = isqrt(x * x + rest);
    if m > len {
        lemma_square_monotonic(len + 1, m);
    }
}

/// A component of magnitude at most `len` scales to one of magnitude at
/// most one.
pub proof fn lemma_scaled_component(x: int, len: int)
    requires
        len > 0,
        magnitude(x) <= len,
    ensures
        -SCALE <= rdiv(x * SCALE, len) <= SCALE,
        clamp(rdiv(x * SCALE, len)) == rdiv(x * SCALE, len),
{
    let m = magnitude(x);
    assert(magnitude(x * SCALE) == m * 100_000) by (nonlinear_arith)
        requires
            m == magnitude(x),
            SCALE == 100_000,
    ;
    vstd::arithmetic::div_mod::lemma_fundamental_div_mod_converse(
        len * 100_000 + len / 2,
        len,
        100_000,
        len / 2,
    );
    lemma_floor_div_monotonic(m * 100_000 + len / 2, len * 100_000 + len / 2, len);
}

/// No component of a unit vector exceeds one in magnitude.
pub proof fn lemma_unit_bounded(a: V3)
    ensures
        -SCALE <= v3_unit(a).x <= SCALE,
        -SCALE <= v3_unit(a).y <= SCALE,
        -SCALE <= v3_unit(a).z <= SCALE,
{
    assert(a.x * a.x >= 0 && a.y * a.y >= 0 && a.z * a.z >= 0) by (nonlinear_arith);
    let len = isqrt(dot_exact(a, a));
    lemma_isqrt(dot_exact(a, a));
    lemma_component_bounded(a.x, a.y * a.y + a.z * a.z);
    lemma_component_bounded(a.y, a.x * a.x + a.z * a.z);
    lemma_component_bounded(a.z, a.x * a.x + a.y * a.y);
    if len > 0 {
        lemma_scaled_component(a.x, len);
        lemma_scaled_component(a.y, len);
        lemma_scaled_component(a.z, len);
    }
}

/// A unit vector has unit length up to rounding. With `len` the length of
/// `a` in raw units, rounded down, the squared length of `v3_unit(a)` is at
/// least `1 - 0.00003` and at most `1 + 0.00003 + 2 / len`, in squares of
/// raw units: for a vector of length one or more that is within `0.00005`
/// of one.
pub proof fn lemma_unit_length(a: V3)
    requires
        isqrt(dot_exact(a, a)) > 0,
    ensures
        dot_exact(v3_unit(a), v3_unit(a)) >= 9_999_700_000,
        isqrt(dot_exact(a, a)) * (dot_exact(v3_unit(a), v3_unit(a)) - 10_000_300_001)
            <= 20_000_000_000,
{
    assert(a.x * a.x >= 0 && a.y * a.y >= 0 && a.z * a.z >= 0) by (nonlinear_arith);
    let n = dot_exact(a, a);
    let len = isqrt(n);
    lemma_isqrt(n);
    lemma_component_bounded(a.x, a.y * a.y + a.z * a.z);
    lemma_component_bounded(a.y, a.x * a.x + a.z * a.z);
    lemma_component_bounded(a.z, a.x * a.x + a.y * a.y);
    lemma_scaled_component(a.x, len);
    lemma_scaled_component(a.y, len);
    lemma_scaled_component(a.z, len);
    lemma_quotient_square(a.x, len);
    lemma_quotient_square(a.y, len);
    lemma_quotient_square(a.z, len);
    let u = v3_unit(a);
    let sq = dot_exact(u, u);
    let l2 = len * len;
    let (mx, my, mz) = (magnitude(a.x), magnitude(a.y), magnitude(a.z));
    assert(4 * SCALE * mx * len <= 400_000 * l2 && 4 * SCALE * my * len <= 400_000 * l2 && 4
        * SCALE * mz * len <= 400_000 * l2) by (nonlinear_arith)
        requires
            SCALE == 100_000,
            0 <= mx <= len,
            0 <= my <= len,
            0 <= mz <= len,
            l2 == len * len,
    ;
    assert(sq * l2 == (u.x * u.x) * l2 + (u.y * u.y) * l2 + (u.z * u.z) * l2) by (nonlinear_arith)
        requires
            sq == u.x * u.x + u.y * u.y + u.z * u.z,
    ;
    let s2: int = 10_000_000_000;
    assert((SCALE * SCALE) * (a.x * a.x) + (SCALE * SCALE) * (a.y * a.y) + (SCALE * SCALE) * (a.z
        * a.z) == s2 * n) by (nonlinear_arith)
        requires
            SCALE == 100_000,
            s2 == 10_000_000_000,
            n == a.x * a.x + a.y * a.y + a.z * a.z,
    ;
    // 4 (sq len^2 - S^2 n) lies within 12 S len^2 + 3 len^2 of zero
    let miss = 4 * (sq * l2 - s2 * n);
    assert(-(1_200_003 * l2) <= miss <= 1_200_003 * l2);
    assert(l2 <= n <= l2 + 2 * len) by (nonlinear_arith)
        requires
            l2 == len * len,
            len * len <= n < (len + 1) * (len + 1),
    ;
    assert(s2 * l2 <= s2 * n <= s2 * l2 + 2 * (s2 * len)) by (nonlinear_arith)
        requires
            s2 == 10_000_000_000,
            l2 <= n <= l2 + 2 * len,
    ;
    assert(sq >= 9_999_700_000) by (nonlinear_arith)
        requires
            4 * (sq * l2) >= 4 * (s2 * l2) - 1_200_003 * l2,
            s2 == 10_000_000_000,
            l2 == len * len,
            len > 0,
    ;
    assert(len * (sq - 10_000_300_001) <= 20_000_000_000) by (nonlinear_arith)
        requires
            4 * (sq * l2) <= 4 * (s2 * l2) + 8 * (s2 * len) + 1_200_003 * l2,
            s2 == 10_000_000_000,
            l2 == len * len,
            len > 0,
    ;
}

/// Only the zero vector has no length: a vector whose unit vector is not
/// zero has a length of at least one raw unit.
pub proof fn lemma_unit_of_nonzero(a: V3)
    requires
        v3_unit(a) != (V3 { x: 0, y: 0, z: 0 }),
    ensures
        isqrt(dot_exact(a, a)) > 0,
{
    assert(a.x * a.x >= 0 && a.y * a.y >= 0 && a.z * a.z >= 0) by (nonlinear_arith);
    lemma_isqrt(dot_exact(a, a));
    if isqrt(dot_exact(a, a)) == 0 {
        assert((0 + 1) * (0 + 1) == 1int);
        assert(dot_exact(a, a) < 1);
        assert(a.x == 0 && a.y == 0 && a.z == 0) by (nonlinear_arith)
            requires
                a.x * a.x + a.y * a.y + a.z * a.z < 1,
        ;
    }
}

/// The sum of the magnitudes of the components.
pub open spec fn l1_norm(a: V3) -> int {
    magnitude(a.x) + magnitude(a.y) + magnitude(a.z)
}

/// Whether the quotient of a vector by a scalar is not saturated.
pub open spec fn quotient_in_range(a: V3, r: int) -> bool {
    in_range(rdiv(a.x * SCALE, r)) && in_range(rdiv(a.y * SCALE, r)) && in_range(
        rdiv(a.z * SCALE, r),
    )
}

/// A vector divided by a positive scalar `r` is as long as the vector is
/// long in units of `r`, up to rounding: with `n` the quotient, `|n|^2 r^2`
/// differs from `SCALE^2 |a|^2` by at most `SCALE r (|a.x| + |a.y| + |a.z|)
/// + 3 r^2 / 4`, unless the quotient is saturated.
pub proof fn lemma_quotient_length(a: V3, r: int)
    requires
        r > 0,
        quotient_in_range(a, r),
    ensures
        ({
            let n = v3_div(a, r);
            let miss = 4 * (dot_exact(n, n) * (r * r) - (SCALE * SCALE) * dot_exact(a, a));
            let bound = 4 * SCALE * l1_norm(a) * r + 3 * (r * r);
            -bound <= miss <= bound
        }),
{
    lemma_quotient_square(a.x, r);
    lemma_quotient_square(a.y, r);
    lemma_quotient_square(a.z, r);
    let n = v3_div(a, r);
    lemma_mul_sum3(r * r, n.x * n.x, n.y * n.y, n.z * n.z);
    lemma_mul_sum3(SCALE * SCALE, a.x * a.x, a.y * a.y, a.z * a.z);
    let (mx, my, mz) = (magnitude(a.x), magnitude(a.y), magnitude(a.z));
    lemma_mul_sum3(4 * SCALE, mx, my, mz);
    lemma_mul_sum3(r, 4 * SCALE * mx, 4 * SCALE * my, 4 * SCALE * mz);
}

/// A point drawn from the unit disk lies in the open unit disk of the plane
/// `z = 0`.
pub proof fn lemma_unit_disk_draw(seed: u64, attempts: nat)
    ensures
        dot_exact(unit_disk_draw(seed, attempts).0, unit_disk_draw(seed, attempts).0) < SCALE
            * SCALE,
        unit_disk_draw(seed, attempts).0.z == 0,
    decreases attempts,
{
    if attempts > 0 {
        lemma_unit_disk_draw(next_seed(next_seed(seed)), (attempts - 1) as nat);
    }
}

/// No component of a vector drawn from the unit sphere exceeds one in
/// magnitude.
pub proof fn lemma_unit_vector_draw(seed: u64, attempts: nat)
    ensures
        -SCALE <= unit_vector_draw(seed, attempts).0.x <= SCALE,
        -SCALE <= unit_vector_draw(seed, attempts).0.y <= SCALE,
        -SCALE <= unit_vector_draw(seed, attempts).0.z <= SCALE,
    decreases attempts,
{
    if attempts > 0 {
        lemma_unit_bounded(v3_random_range(-SCALE, SCALE as int, seed));
        lemma_unit_vector_draw(next_seed3(seed), (attempts - 1) as nat);
    }
}

/// A vector, a point or a colour.
#[derive(Clone, Copy, Debug)]
pub struct Vec3 {
    pub x: Fixed,
    pub y: Fixed,
    pub z: Fixed,
}

/// A vector used as a position.
pub type Point3 = Vec3;

impl View for Vec3 {
    type V = V3;

    open spec fn view(&self) -> V3 {
        V3 { x: self.x@, y: self.y@, z: self.z@ }
    }
}

impl Vec3 {
    /// The vector with model `m`, for `m` in range.
    pub open spec fn of(m: V3) -> Vec3 {
        Vec3 { x: Fixed::of(m.x), y: Fixed::of(m.y), z: Fixed::of(m.z) }
    }

    /// Every vector is the vector of its own model.
    pub proof fn lemma_of_view(v: Vec3)
        ensures
            Vec3::of(v@) == v,
    {
        Fixed::lemma_of_view(v.x);
        Fixed::lemma_of_view(v.y);
        Fixed::lemma_of_view(v.z);
    }

    /// Vectors with the same model are the same vector.
    pub proof fn lemma_view_injective(a: Vec3, b: Vec3)
        requires
            a@ == b@,
        ensures
            a == b,
    {
        Fixed::lemma_view_injective(a.x, b.x);
        Fixed::lemma_view_injective(a.y, b.y);
        Fixed::lemma_view_injective(a.z, b.z);
    }

    #[inline(always)]
    pub fn new(x: Fixed, y: Fixed, z: Fixed) -> (r: Vec3)
        ensures
            r.x == x,
            r.y == y,
            r.z == z,
    {
        Vec3 { x, y, z }
    }

    /// The vector with whole-number components, each saturated.
    #[inline]
    pub fn fromi(x: i32, y: i32, z: i32) -> (r: Vec3)
        ensures
            r@ == (V3 { x: clamp(x * SCALE), y: clamp(y * SCALE), z: clamp(z * SCALE) }),
    {
        Vec3 { x: Fixed::from_int(x), y: Fixed::from_int(y), z: Fixed::from_int(z) }
    }

    #[inline]
    pub fn from(&self) -> (r: Vec3)
        ensures
            r == *self,
    {
        Vec3 { x: self.x, y: self.y, z: self.z }
    }

    /// The exact dot product of the raw counts.
    pub fn dot_wide(lhs: Vec3, rhs: Vec3) -> (r: i128)
        ensures
            r == dot_exact(lhs@, rhs@),
            -3_000_000_000_000_000_000 <= r <= 3_000_000_000_000_000_000,
    {
        let (ax, ay, az) = (lhs.x.raw(), lhs.y.raw(), lhs.z.raw());
        let (bx, by, bz) = (rhs.x.raw(), rhs.y.raw(), rhs.z.raw());
        proof {
            lemma_mul_bounds(ax as int, bx as int, LIMIT as int, LIMIT as int);
            lemma_mul_bounds(ay as int, by as int, LIMIT as int, LIMIT as int);
            lemma_mul_bounds(az as int, bz as int, LIMIT as int, LIMIT as int);
        }
        wide_dot(ax as i64, ay as i64, az as i64, bx as i64, by as i64, bz as i64)
    }

    #[inline(always)]
    pub fn length(&self) -> (r: Fixed)
        ensures
            r@ == v3_length(self@),
    {
        let n = Vec3::dot_wide(*self, *self);
        proof {
            assert(self.x@ * self.x@ >= 0) by (nonlinear_arith);
            assert(self.y@ * self.y@ >= 0) by (nonlinear_arith);
            assert(self.z@ * self.z@ >= 0) by (nonlinear_arith);
        }
        Fixed::saturating(wide_isqrt(n as u128) as i128)
    }

    #[inline(always)]
    pub fn length_squared(&self) -> (r: Fixed)
        ensures
            r@ == v3_length_squared(self@),
    {
        Vec3::dot_product(*self, *self)
    }

    #[inline(always)]
    pub fn normalize(&self) -> (r: Vec3)
        ensures
            r@ == v3_unit(self@),
    {
        Vec3::unit(*self)
    }

    #[inline(always)]
    pub fn dot_product(lhs: Vec3, rhs: Vec3) -> (r: Fixed)
        ensures
            r@ == v3_dot(lhs@, rhs@),
    {
        Fixed::saturating(wide_rdiv(Vec3::dot_wide(lhs, rhs), SCALE as i128))
    }

    #[inline(always)]
    pub fn cross_product(lhs: Vec3, rhs: Vec3) -> (r: Vec3)
        ensures
            r@ == v3_cross(lhs@, rhs@),
    {
        let (ax, ay, az) = (lhs.x.raw() as i64, lhs.y.raw() as i64, lhs.z.raw() as i64);
        let (bx, by, bz) = (rhs.x.raw() as i64, rhs.y.raw() as i64, rhs.z.raw() as i64);
        proof {
            lemma_mul_bounds(ay as int, bz as int, LIMIT as int, LIMIT as int);
            lemma_mul_bounds(az as int, by as int, LIMIT as int, LIMIT as int);
            lemma_mul_bounds(az as int, bx as int, LIMIT as int, LIMIT as int);
            lemma_mul_bounds(ax as int, bz as int, LIMIT as int, LIMIT as int);
            lemma_mul_bounds(ax as int, by as int, LIMIT as int, LIMIT as int);
            lemma_mul_bounds(ay as int, bx as int, LIMIT as int, LIMIT as int);
        }
        let cx = wide_mul(ay, bz) - wide_mul(az, by);
        let cy = wide_mul(az, bx) - wide_mul(ax, bz);
        let cz = wide_mul(ax, by) - wide_mul(ay, bx);
        Vec3 {
            x: Fixed::saturating(wide_rdiv(cx, SCALE as i128)),
            y: Fixed::saturating(wide_rdiv(cy, SCALE as i128)),
            z: Fixed::saturating(wide_rdiv(cz, SCALE as i128)),
        }
    }

    /// The vector divided by a count other than zero.
    pub fn over_count(self, n: u64) -> (r: Vec3)
        requires
            n > 0,
        ensures
            r@ == v3_over(self@, n as int),
    {
        Vec3 {
            x: Fixed::saturating(wide_rdiv(self.x.raw() as i128, n as i128)),
            y: Fixed::saturating(wide_rdiv(self.y.raw() as i128, n as i128)),
            z: Fixed::saturating(wide_rdiv(self.z.raw() as i128, n as i128)),
        }
    }

    /// `k / SCALE` of the `n`-th part of the vector: the way along it to
    /// the `k / SCALE`-th of `n` equal steps, rounded once.
    pub fn stepped(self, k: i64, n: u32) -> (r: Vec3)
        requires
            n > 0,
        ensures
            r@ == v3_stepped(self@, k as int, n as int),
    {
        let (x, y, z) = (self.x.raw() as i64, self.y.raw() as i64, self.z.raw() as i64);
        let d = wide_mul(100_000, n as i64);
        proof {
            lemma_mul_bounds(x as int, k as int, LIMIT as int, 0x8000_0000_0000_0000);
            lemma_mul_bounds(y as int, k as int, LIMIT as int, 0x8000_0000_0000_0000);
            lemma_mul_bounds(z as int, k as int, LIMIT as int, 0x8000_0000_0000_0000);
        }
        Vec3 {
            x: Fixed::saturating(wide_rdiv(wide_mul(x, k), d)),
            y: Fixed::saturating(wide_rdiv(wide_mul(y, k), d)),
            z: Fixed::saturating(wide_rdiv(wide_mul(z, k), d)),
        }
    }

    /// The opposite vector.
    pub fn negated(self) -> (r: Vec3)
        ensures
            r@ == v3_neg(self@),
    {
        Vec3 { x: self.x.negated(), y: self.y.negated(), z: self.z.negated() }
    }

    #[inline(always)]
    pub fn reflect(v: Vec3, n: Vec3) -> (r: Vec3)
        ensures
            r@ == v3_reflect(v@, n@),
    {
        v - n * (Fixed::from_int(2) * Vec3::dot_product(v, n))
    }

    #[inline]
    pub fn refract(
        uv: Vec3,
        n: Vec3,
        source_medium_ref_index: Fixed,
        dest_medium_ref_index: Fixed,
    ) -> (r: Vec3)
        requires
            dest_medium_ref_index@ != 0,
        ensures
            r@ == v3_refract(uv@, n@, source_medium_ref_index@, dest_medium_ref_index@),
    {
        let cos_theta = Vec3::dot_product(uv.negated(), n).min(Fixed::one());
        let across = (uv + n * cos_theta) * (source_medium_ref_index / dest_medium_ref_index);
        let along = n * (Fixed::one() - across.length_squared()).abs().sqrt().negated();
        across + along
    }

    /// Draws each component from `[0, 1)`.
    #[inline]
    pub fn random(rng: &mut Sampler) -> (r: Vec3)
        ensures
            r@ == v3_random(old(rng)@),
            final(rng)@ == next_seed3(old(rng)@),
    {
        let x = random_f32(rng);
        let y = random_f32(rng);
        let z = random_f32(rng);
        Vec3 { x, y, z }
    }

    /// Draws each component from `[min, max)`.
    #[inline]
    pub fn random_range(min: Fixed, max: Fixed, rng: &mut Sampler) -> (r: Vec3)
        ensures
            r@ == v3_random_range(min@, max@, old(rng)@),
            final(rng)@ == next_seed3(old(rng)@),
    {
        let x = random_f32_with_range(min, max, rng);
        let y = random_f32_with_range(min, max, rng);
        let z = random_f32_with_range(min, max, rng);
        Vec3 { x, y, z }
    }

    /// Draws a direction uniformly from the unit sphere, by rejection.
    #[inline]
    pub fn random_unit_vector(rng: &mut Sampler) -> (r: Vec3)
        ensures
            r@ == unit_vector_draw(old(rng)@, MAX_ATTEMPTS as nat).0,
            final(rng)@ == unit_vector_draw(old(rng)@, MAX_ATTEMPTS as nat).1,
            -SCALE <= r@.x <= SCALE,
            -SCALE <= r@.y <= SCALE,
            -SCALE <= r@.z <= SCALE,
    {
        let mut attempts: u32 = 0;
        while attempts < MAX_ATTEMPTS
            invariant
                attempts <= MAX_ATTEMPTS,
                unit_vector_draw(old(rng)@, MAX_ATTEMPTS as nat) == unit_vector_draw(
                    rng@,
                    (MAX_ATTEMPTS - attempts) as nat,
                ),
            decreases MAX_ATTEMPTS - attempts,
        {
            let candidate = Vec3::random_range(Fixed::one().negated(), Fixed::one(), rng);
            let lensq = Vec3::dot_wide(candidate, candidate);
            if 0 < lensq && lensq <= 10_000_000_000 {
                proof {
                    lemma_unit_bounded(candidate@);
                }
                return Vec3::unit(candidate);
            }
            attempts += 1;
        }
        Vec3 { x: Fixed::one(), y: Fixed::zero(), z: Fixed::zero() }
    }

    /// Draws a direction uniformly from the hemisphere around `normal`.
    #[inline]
    pub fn random_unit_vector_on_hemisphere(normal: Vec3, rng: &mut Sampler) -> (r: Vec3)
        ensures
            r@ == v3_toward(unit_vector_draw(old(rng)@, MAX_ATTEMPTS as nat).0, normal@),
            final(rng)@ == unit_vector_draw(old(rng)@, MAX_ATTEMPTS as nat).1,
    {
        let v = Vec3::random_unit_vector(rng);
        if Vec3::dot_wide(v, normal) < 0 {
            v.negated()
        } else {
            v
        }
    }

    /// Draws a point uniformly from the open unit disk in the plane `z = 0`,
    /// by rejection.
    #[inline]
    pub fn random_in_unit_disk(rng: &mut Sampler) -> (r: Vec3)
        ensures
            r@ == unit_disk_draw(old(rng)@, MAX_ATTEMPTS as nat).0,
            final(rng)@ == unit_disk_draw(old(rng)@, MAX_ATTEMPTS as nat).1,
            dot_exact(r@, r@) < SCALE * SCALE,
            r@.z == 0,
    {
        let mut attempts: u32 = 0;
        while attempts < MAX_ATTEMPTS
            invariant
                attempts <= MAX_ATTEMPTS,
                unit_disk_draw(old(rng)@, MAX_ATTEMPTS as nat) == unit_disk_draw(
                    rng@,
                    (MAX_ATTEMPTS - attempts) as nat,
                ),
            decreases MAX_ATTEMPTS - attempts,
        {
            let x = random_f32_with_range(Fixed::one().negated(), Fixed::one(), rng);
            let y = random_f32_with_range(Fixed::one().negated(), Fixed::one(), rng);
            let p = Vec3::new(x, y, Fixed::zero());
            if Vec3::dot_wide(p, p) < 10_000_000_000 {
                return p;
            }
            attempts += 1;
        }
        proof {
            lemma_unit_disk_draw(rng@, 0);
        }
        Vec3 { x: Fixed::zero(), y: Fixed::zero(), z: Fixed::zero() }
    }

    #[inline(always)]
    pub fn unit(v: Vec3) -> (r: Vec3)
        ensures
            r@ == v3_unit(v@),
    {
        let n = Vec3::dot_wide(v, v);
        proof {
            assert(v.x@ * v.x@ >= 0) by (nonlinear_arith);
            assert(v.y@ * v.y@ >= 0) by (nonlinear_arith);
            assert(v.z@ * v.z@ >= 0) by (nonlinear_arith);
        }
        let len = wide_isqrt(n as u128) as i128;
        if len == 0 {
            v
        } else {
            let (x, y, z) = (v.x.raw() as i64, v.y.raw() as i64, v.z.raw() as i64);
            proof {
                lemma_mul_bounds(x as int, SCALE as int, LIMIT as int, SCALE as int);
                lemma_mul_bounds(y as int, SCALE as int, LIMIT as int, SCALE as int);
                lemma_mul_bounds(z as int, SCALE as int, LIMIT as int, SCALE as int);
            }
            Vec3 {
                x: Fixed::saturating(wide_rdiv(wide_mul(x, SCALE as i64), len)),
                y: Fixed::saturating(wide_rdiv(wide_mul(y, SCALE as i64), len)),
                z: Fixed::saturating(wide_rdiv(wide_mul(z, SCALE as i64), len)),
            }
        }
    }
}

impl core::ops::Add for Vec3 {
    type Output = Vec3;

    #[inline(always)]
    fn add(self, rhs: Vec3) -> (r: Vec3)
        ensures
            r@ == v3_add(self@, rhs@),
    {
        let r = Vec3 { x: self.x + rhs.x, y: self.y + rhs.y, z: self.z + rhs.z };
        proof {
            Vec3::lemma_of_view(r);
        }
        r
    }
}

impl vstd::std_specs::ops::AddSpecImpl for Vec3 {
    open spec fn obeys_add_spec() -> bool {
        true
    }

    open spec fn add_req(self, rhs: Vec3) -> bool {
        true
    }

    open spec fn add_spec(self, rhs: Vec3) -> Vec3 {
        Vec3::of(v3_add(self@, rhs@))
    }
}

impl core::ops::Sub for Vec3 {
    type Output = Vec3;

    #[inline(always)]
    fn sub(self, rhs: Vec3) -> (r: Vec3)
        ensures
            r@ == v3_sub(self@, rhs@),
    {
        let r = Vec3 { x: self.x - rhs.x, y: self.y - rhs.y, z: self.z - rhs.z };
        proof {
            Vec3::lemma_of_view(r);
        }
        r
    }
}

impl vstd::std_specs::ops::SubSpecImpl for Vec3 {
    open spec fn obeys_sub_spec() -> bool {
        true
    }

    open spec fn sub_req(self, rhs: Vec3) -> bool {
        true
    }

    open spec fn sub_spec(self, rhs: Vec3) -> Vec3 {
        Vec3::of(v3_sub(self@, rhs@))
    }
}

impl core::ops::Mul for Vec3 {
    type Output = Vec3;

    #[inline(always)]
    fn mul(self, rhs: Vec3) -> (r: Vec3)
        ensures
            r@ == v3_mul(self@, rhs@),
    {
        let r = Vec3 { x: self.x * rhs.x, y: self.y * rhs.y, z: self.z * rhs.z };
        proof {
            Vec3::lemma_of_view(r);
        }
        r
    }
}

impl vstd::std_specs::ops::MulSpecImpl for Vec3 {
    open spec fn obeys_mul_spec() -> bool {
        true
    }

    open spec fn mul_req(self, rhs: Vec3) -> bool {
        true
    }

    open spec fn mul_spec(self, rhs: Vec3) -> Vec3 {
        Vec3::of(v3_mul(self@, rhs@))
    }
}

impl core::ops::Mul<Fixed> for Vec3 {
    type Output = Vec3;

    #[inline(always)]
    fn mul(self, rhs: Fixed) -> (r: Vec3)
        ensures
            r@ == v3_scale(self@, rhs@),
    {
        let r = Vec3 { x: self.x * rhs, y: self.y * rhs, z: self.z * rhs };
        proof {
            Vec3::lemma_of_view(r);
        }
        r
    }
}

impl vstd::std_specs::ops::MulSpecImpl<Fixed> for Vec3 {
    open spec fn obeys_mul_spec() -> bool {
        true
    }

    open spec fn mul_req(self, rhs: Fixed) -> bool {
        true
    }

    open spec fn mul_spec(self, rhs: Fixed) -> Vec3 {
        Vec3::of(v3_scale(self@, rhs@))
    }
}

impl core::ops::Mul<Vec3> for Fixed {
    type Output = Vec3;

    #[inline(always)]
    fn mul(self, rhs: Vec3) -> (r: Vec3)
        ensures
            r@ == v3_scale(rhs@, self@),
    {
        let r = Vec3 { x: self * rhs.x, y: self * rhs.y, z: self * rhs.z };
        proof {
            lemma_fx_mul_commutes(self@, rhs.x@);
            lemma_fx_mul_commutes(self@, rhs.y@);
            lemma_fx_mul_commutes(self@, rhs.z@);
            Vec3::lemma_of_view(r);
        }
        r
    }
}

impl vstd::std_specs::ops::MulSpecImpl<Vec3> for Fixed {
    open spec fn obeys_mul_spec() -> bool {
        true
    }

    open spec fn mul_req(self, rhs: Vec3) -> bool {
        true
    }

    open spec fn mul_spec(self, rhs: Vec3) -> Vec3 {
        Vec3::of(v3_scale(rhs@, self@))
    }
}

impl core::ops::Div<Fixed> for Vec3 {
    type Output = Vec3;

    #[inline(always)]
    fn div(self, rhs: Fixed) -> (r: Vec3)
        ensures
            r@ == v3_div(self@, rhs@),
    {
        let r = Vec3 { x: self.x / rhs, y: self.y / rhs, z: self.z / rhs };
        proof {
            Vec3::lemma_of_view(r);
        }
        r
    }
}

impl vstd::std_specs::ops::DivSpecImpl<Fixed> for Vec3 {
    open spec fn obeys_div_spec() -> bool {
        true
    }

    open spec fn div_req(self, rhs: Fixed) -> bool {
        rhs@ != 0
    }

    open spec fn div_spec(self, rhs: Fixed) -> Vec3 {
        Vec3::of(v3_div(self@, rhs@))
    }
}

impl core::ops::Neg for Vec3 {
    type Output = Vec3;

    #[inline(always)]
    fn neg(self) -> (r: Vec3)
        ensures
            r@ == v3_neg(self@),
    {
        let r = self.negated();
        proof {
            Vec3::lemma_of_view(r);
        }
        r
    }
}

impl vstd::std_specs::ops::NegSpecImpl for Vec3 {
    open spec fn obeys_neg_spec() -> bool {
        true
    }

    open spec fn neg_req(self) -> bool {
        true
    }

    open spec fn neg_spec(self) -> Vec3 {
        Vec3::of(v3_neg(self@))
    }
}

impl core::ops::AddAssign for Vec3 {
    #[inline(always)]
    fn add_assign(&mut self, rhs: Vec3)
        ensures
            final(self)@ == v3_add(old(self)@, rhs@),
    {
        self.x = self.x + rhs.x;
        self.y = self.y + rhs.y;
        self.z = self.z + rhs.z;
    }
}

impl core::ops::SubAssign for Vec3 {
    #[inline(always)]
    fn sub_assign(&mut self, rhs: Vec3)
        ensures
            final(self)@ == v3_sub(old(self)@, rhs@),
    {
        self.x = self.x - rhs.x;
        self.y = self.y - rhs.y;
        self.z = self.z - rhs.z;
    }
}

impl core::ops::MulAssign<Fixed> for Vec3 {
    #[inline(always)]
    fn mul_assign(&mut self, rhs: Fixed)
        ensures
            final(self)@ == v3_scale(old(self)@, rhs@),
    {
        self.x = self.x * rhs;
        self.y = self.y * rhs;
        self.z = self.z * rhs;
    }
}

impl core::ops::DivAssign<Fixed> for Vec3 {
    #[inline(always)]
    fn div_assign(&mut self, rhs: Fixed)
        requires
            rhs@ != 0,
        ensures
            final(self)@ == v3_div(old(self)@, rhs@),
    {
        self.x = self.x / rhs;
        self.y = self.y / rhs;
        self.z = self.z / rhs;
    }
}

impl Default for Vec3 {
    fn default() -> (r: Vec3)
        ensures
            r@ == (V3 { x: 0, y: 0, z: 0 }),
    {
        Vec3 { x: Fixed::zero(), y: Fixed::zero(), z: Fixed::zero() }
    }
}

impl PartialEq for Vec3 {
    #[inline]
    fn eq(&self, other: &Self) -> (r: bool) {
        let dx = self.x.raw() as i64 - other.x.raw() as i64;
        let dy = self.y.raw() as i64 - other.y.raw() as i64;
        let dz = self.z.raw() as i64 - other.z.raw() as i64;
        let x_equal = -(EPSILON_RAW as i64) < dx && dx < EPSILON_RAW as i64;
        let y_equal = -(EPSILON_RAW as i64) < dy && dy < EPSILON_RAW as i64;
        let z_equal = -(EPSILON_RAW as i64) < dz && dz < EPSILON_RAW as i64;

        x_equal && y_equal && z_equal
    }
}

impl vstd::std_specs::cmp::PartialEqSpecImpl for Vec3 {
    open spec fn obeys_eq_spec() -> bool {
        true
    }

    open spec fn eq_spec(&self, other: &Vec3) -> bool {
        v3_close(self@, other@)
    }
}

/// The order of two raw counts.
pub open spec fn raw_order(a: int, b: int) -> Ordering {
    if a < b {
        Ordering::Less
    } else if a > b {
        Ordering::Greater
    } else {
        Ordering::Equal
    }
}

/// The order of two vectors: that of their first components that differ.
pub open spec fn v3_order(a: V3, b: V3) -> Ordering {
    if a.x != b.x {
        raw_order(a.x, b.x)
    } else if a.y != b.y {
        raw_order(a.y, b.y)
    } else {
        raw_order(a.z, b.z)
    }
}

impl PartialOrd for Vec3 {
    /// Vectors are ordered by their components, the first before the
    /// second before the third.
    fn partial_cmp(&self, other: &Vec3) -> (r: Option<Ordering>) {
        let (x, y, z) = (self.x.raw(), self.y.raw(), self.z.raw());
        let (ox, oy, oz) = (other.x.raw(), other.y.raw(), other.z.raw());
        if x < ox {
            Some(Ordering::Less)
        } else if x > ox {
            Some(Ordering::Greater)
        } else if y < oy {
            Some(Ordering::Less)
        } else if y > oy {
            Some(Ordering::Greater)
        } else if z < oz {
            Some(Ordering::Less)
        } else if z > oz {
            Some(Ordering::Greater)
        } else {
            Some(Ordering::Equal)
        }
    }
}

impl vstd::std_specs::cmp::PartialOrdSpecImpl for Vec3 {
    open spec fn obeys_partial_cmp_spec() -> bool {
        true
    }

    open spec fn partial_cmp_spec(&self, other: &Vec3) -> Option<Ordering> {
        Some(v3_order(self@, other@))
    }
}

/// With the smallest scalar as tolerance, vectors are close exactly when
/// they are the same.
pub proof fn lemma_close_is_equal(a: Vec3, b: Vec3)
    ensures
        v3_close(a@, b@) <==> a == b,
{
    if v3_close(a@, b@) {
        Vec3::lemma_view_injective(a, b);
    }
}

} // verus!
