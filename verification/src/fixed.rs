//! Decimal fixed-point scalars.
//!
//! A [`Fixed`] stores a number as a count of hundred-thousandths, so `1.0` is
//! `100_000` raw units and the decimal literals a scene is written in (`0.5`,
//! `0.001`, `1.5`) are exact. Magnitudes stop at `10_000.0`; every operation
//! is computed exactly in wide integers, rounded once to the nearest unit
//! (halves away from zero) and saturated to that bound, so no operation
//! overflows and negation is always exact.
//!
//! The model of a scalar is its raw count, an `int`; the `fx_*` functions give
//! the arithmetic on models.
use vstd::prelude::*;

verus! {

/// Raw units in `1.0`.
pub const SCALE: i32 = 100_000;

/// Largest raw magnitude of a scalar: `10_000.0`.
pub const LIMIT: i32 = 1_000_000_000;

/// Whether `v` is the raw count of some scalar.
pub open spec fn in_range(v: int) -> bool {
    -LIMIT <= v <= LIMIT
}

/// `v` saturated to the raw range.
pub open spec fn clamp(v: int) -> int {
    if v < -LIMIT {
        -(LIMIT as int)
    } else if v > LIMIT {
        LIMIT as int
    } else {
        v
    }
}

/// Magnitude of `v`.
pub open spec fn magnitude(v: int) -> int {
    if v < 0 {
        -v
    } else {
        v
    }
}

/// `n / d` rounded to the nearest integer, halves away from zero.
pub open spec fn rdiv(n: int, d: int) -> int
    recommends
        d != 0,
{
    let q = (magnitude(n) + magnitude(d) / 2) / magnitude(d);
    if (n < 0) == (d < 0) {
        q
    } else {
        -q
    }
}

/// Whether `r` is the integer square root of `n`.
pub open spec fn is_isqrt(n: int, r: int) -> bool {
    0 <= r && r * r <= n < (r + 1) * (r + 1)
}

/// The integer square root: the largest `r` with `r * r <= n`.
pub open spec fn isqrt(n: int) -> int
    recommends
        n >= 0,
{
    choose|r: int| is_isqrt(n, r)
}

/// Sum of two scalars, saturated.
pub open spec fn fx_add(a: int, b: int) -> int {
    clamp(a + b)
}

/// Difference of two scalars, saturated.
pub open spec fn fx_sub(a: int, b: int) -> int {
    clamp(a - b)
}

/// Product of two scalars, rounded and saturated.
pub open spec fn fx_mul(a: int, b: int) -> int {
    clamp(rdiv(a * b, SCALE as int))
}

/// Quotient of two scalars, rounded and saturated.
pub open spec fn fx_div(a: int, b: int) -> int
    recommends
        b != 0,
{
    clamp(rdiv(a * SCALE, b))
}

/// Square root of a scalar, rounded down; the root of a negative scalar is
/// zero.
pub open spec fn fx_sqrt(a: int) -> int {
    if a < 0 {
        0
    } else {
        isqrt(a * SCALE)
    }
}

/// The smaller of two scalars.
pub open spec fn fx_min(a: int, b: int) -> int {
    if a <= b {
        a
    } else {
        b
    }
}

/// The larger of two scalars.
pub open spec fn fx_max(a: int, b: int) -> int {
    if a >= b {
        a
    } else {
        b
    }
}

/// A product is bounded by the product of the bounds of its factors.
pub proof fn lemma_mul_bounds(a: int, b: int, ba: int, bb: int)
    by (nonlinear_arith)
    requires
        -ba <= a <= ba,
        -bb <= b <= bb,
    ensures
        -(ba * bb) <= a * b <= ba * bb,
{
}

/// Squaring is monotonic on non-negative integers.
pub proof fn lemma_square_monotonic(a: int, b: int)
    by (nonlinear_arith)
    requires
        0 <= a <= b,
    ensures
        a * a <= b * b,
{
}

/// Some integer square root exists for every non-negative integer.
pub proof fn lemma_isqrt_exists(n: int) -> (r: int)
    requires
        n >= 0,
    ensures
        is_isqrt(n, r),
    decreases n,
{
    if n == 0 {
        0
    } else {
        let p = lemma_isqrt_exists(n - 1);
        let q = p + 1;
        assert((q + 1) * (q + 1) > q * q) by (nonlinear_arith)
            requires
                q >= 0,
        ;
        if q * q <= n {
            q
        } else {
            p
        }
    }
}

/// The integer square root is unique, so `isqrt` is the one value with the
/// defining property.
pub proof fn lemma_isqrt_unique(n: int, r: int)
    requires
        is_isqrt(n, r),
    ensures
        isqrt(n) == r,
{
    let s = isqrt(n);
    assert(is_isqrt(n, s));
    if s < r {
        lemma_square_monotonic(s + 1, r);
    } else if r < s {
        lemma_square_monotonic(r + 1, s);
    }
}

/// `isqrt(n)` has the defining property for every non-negative `n`.
pub proof fn lemma_isqrt(n: int)
    requires
        n >= 0,
    ensures
        is_isqrt(n, isqrt(n)),
{
    let r = lemma_isqrt_exists(n);
    lemma_isqrt_unique(n, r);
}

/// A rounded quotient, multiplied back, misses the numerator by at most
/// half the divisor.
pub proof fn lemma_rdiv_error(x: int, d: int)
    requires
        d > 0,
    ensures
        -d <= 2 * (rdiv(x, d) * d - x) <= d,
{
    let m = magnitude(x);
    let q = (m + d / 2) / d;
    let r = (m + d / 2) % d;
    vstd::arithmetic::div_mod::lemma_fundamental_div_mod(m + d / 2, d);
    vstd::arithmetic::div_mod::lemma_mod_pos_bound(m + d / 2, d);
    assert(d * q == q * d && (-q) * d == -(q * d)) by (nonlinear_arith);
}

/// The square of a rounded quotient, multiplied back, misses the square of
/// the numerator by little: with `n` the rounded quotient of `v * SCALE`
/// by `r`, the square of `n * r` differs from that of `v * SCALE` by at
/// most `SCALE * |v| * r + r * r / 4`.
pub proof fn lemma_quotient_square(v: int, r: int)
    requires
        r > 0,
    ensures
        ({
            let n = rdiv(v * SCALE, r);
            let miss = 4 * ((n * n) * (r * r) - (SCALE * SCALE) * (v * v));
            let bound = 4 * SCALE * magnitude(v) * r + r * r;
            -bound <= miss <= bound
        }),
{
    let n = rdiv(v * SCALE, r);
    let s = v * 100_000;
    let e = n * r - s;
    let m = magnitude(v);
    lemma_rdiv_error(s, r);
    assert((n * n) * (r * r) == (s + e) * (s + e)) by (nonlinear_arith)
        requires
            e == n * r - s,
    ;
    assert((s + e) * (s + e) == s * s + 2 * (s * e) + e * e) by (nonlinear_arith);
    assert(s * s == (100_000 * 100_000) * (v * v)) by (nonlinear_arith)
        requires
            s == v * 100_000,
    ;
    assert(-(100_000 * m * r) <= 2 * (s * e) <= 100_000 * m * r) by (nonlinear_arith)
        requires
            s == v * 100_000,
            m == magnitude(v),
            -r <= 2 * e <= r,
            r > 0,
    ;
    assert(0 <= 4 * (e * e) <= r * r) by (nonlinear_arith)
        requires
            -r <= 2 * e <= r,
            r > 0,
    ;
    assert(4 * SCALE * m * r == 4 * (100_000 * m * r)) by (nonlinear_arith)
        requires
            SCALE == 100_000,
    ;
}

/// The square of a rounded number differs little from the square of the
/// number: with `e` the rounding error, at most half of `s`, the square of
/// `x + e` differs from that of `x` by at most `s |x| + s * s / 4`.
pub proof fn lemma_rounded_square(x: int, e: int, s: int)
    requires
        s > 0,
        -s <= 2 * e <= s,
    ensures
        ({
            let miss = 4 * ((x + e) * (x + e) - x * x);
            let bound = 4 * (s * magnitude(x)) + s * s;
            -bound <= miss <= bound
        }),
{
    let m = magnitude(x);
    assert((x + e) * (x + e) == x * x + 2 * (x * e) + e * e) by (nonlinear_arith);
    assert(-(s * m) <= 2 * (x * e) <= s * m) by (nonlinear_arith)
        requires
            m == magnitude(x),
            -s <= 2 * e <= s,
            s > 0,
    ;
    assert(0 <= 4 * (e * e) <= s * s) by (nonlinear_arith)
        requires
            -s <= 2 * e <= s,
            s > 0,
    ;
}

/// Multiplication distributes over a sum of three.
pub proof fn lemma_mul_sum3(k: int, a: int, b: int, c: int)
    by (nonlinear_arith)
    ensures
        k * (a + b + c) == k * a + k * b + k * c,
        (a + b + c) * k == a * k + b * k + c * k,
{
}

/// The integer square root is monotonic.
pub proof fn lemma_isqrt_monotonic(a: int, b: int)
    requires
        0 <= a <= b,
    ensures
        isqrt(a) <= isqrt(b),
{
    lemma_isqrt(a);
    lemma_isqrt(b);
    if isqrt(a) > isqrt(b) {
        lemma_square_monotonic(isqrt(b) + 1, isqrt(a));
    }
}

/// A multiple of a positive integer, divided by it, is the other factor.
pub proof fn lemma_rdiv_multiple(k: int, n: int)
    requires
        k >= 0,
        n > 0,
    ensures
        rdiv(n * k, n) == k,
{
    assert(n * k >= 0 && n * k == k * n) by (nonlinear_arith)
        requires
            k >= 0,
            n > 0,
    ;
    vstd::arithmetic::div_mod::lemma_fundamental_div_mod_converse(n * k + n / 2, n, k, n / 2);
}

/// Multiplication of scalars commutes.
pub proof fn lemma_fx_mul_commutes(a: int, b: int)
    ensures
        fx_mul(a, b) == fx_mul(b, a),
{
    assert(a * b == b * a) by (nonlinear_arith);
}

/// Multiplying by one changes nothing.
pub proof fn lemma_fx_mul_one(a: int)
    requires
        in_range(a),
    ensures
        fx_mul(SCALE as int, a) == a,
        fx_mul(a, SCALE as int) == a,
{
    let m = magnitude(a);
    assert(SCALE * a == a * SCALE) by (nonlinear_arith);
    assert(magnitude(SCALE * a) == m * 100_000) by (nonlinear_arith)
        requires
            m == magnitude(a),
            SCALE == 100_000,
    ;
    assert((m * 100_000 + 50_000) / 100_000 == m);
}

/// Multiplying by zero gives zero.
pub proof fn lemma_fx_mul_zero(a: int)
    ensures
        fx_mul(a, 0) == 0,
        fx_mul(0, a) == 0,
{
    assert(a * 0 == 0 && 0 * a == 0) by (nonlinear_arith);
    assert(magnitude(100_000) / 2 == 50_000);
    assert((0 + 50_000int) / 100_000 == 0);
    assert(rdiv(0, 100_000) == 0);
}

/// Zero divided by anything but zero is zero.
pub proof fn lemma_fx_div_zero(b: int)
    requires
        b != 0,
    ensures
        fx_div(0, b) == 0,
{
    let m = magnitude(b);
    vstd::arithmetic::div_mod::lemma_basic_div(m / 2, m);
    assert(0 * SCALE == 0);
}

/// Rounded division by a positive divisor is monotonic in the numerator.
pub proof fn lemma_rdiv_monotonic(a: int, b: int, d: int)
    requires
        d > 0,
        a <= b,
    ensures
        rdiv(a, d) <= rdiv(b, d),
{
    let h = d / 2;
    if a >= 0 {
        lemma_floor_div_monotonic(a + h, b + h, d);
    } else if b < 0 {
        lemma_floor_div_monotonic(-b + h, -a + h, d);
    } else {
        lemma_floor_div_monotonic(0, -a + h, d);
        lemma_floor_div_monotonic(0, b + h, d);
    }
}

/// Division of non-negative integers by a positive divisor is monotonic
/// in the numerator.
pub proof fn lemma_floor_div_monotonic(a: int, b: int, d: int)
    requires
        d > 0,
        0 <= a <= b,
    ensures
        0 <= a / d <= b / d,
{
    vstd::arithmetic::div_mod::lemma_basic_div(0, d);
    vstd::arithmetic::div_mod::lemma_div_is_ordered(0, a, d);
    vstd::arithmetic::div_mod::lemma_div_is_ordered(a, b, d);
}

/// Product of two 64-bit integers, which always fits in 128 bits.
pub fn wide_mul(a: i64, b: i64) -> (r: i128)
    ensures
        r == a * b,
{
    proof {
        lemma_mul_bounds(a as int, b as int, 0x8000_0000_0000_0000, 0x8000_0000_0000_0000);
    }
    (a as i128) * (b as i128)
}

/// Exact dot product of two triples of raw counts or of their differences.
pub fn wide_dot(ax: i64, ay: i64, az: i64, bx: i64, by: i64, bz: i64) -> (r: i128)
    requires
        -0x1_0000_0000 <= ax <= 0x1_0000_0000,
        -0x1_0000_0000 <= ay <= 0x1_0000_0000,
        -0x1_0000_0000 <= az <= 0x1_0000_0000,
        -0x1_0000_0000 <= bx <= 0x1_0000_0000,
        -0x1_0000_0000 <= by <= 0x1_0000_0000,
        -0x1_0000_0000 <= bz <= 0x1_0000_0000,
    ensures
        r == ax * bx + ay * by + az * bz,
{
    proof {
        lemma_mul_bounds(ax as int, bx as int, 0x1_0000_0000, 0x1_0000_0000);
        lemma_mul_bounds(ay as int, by as int, 0x1_0000_0000, 0x1_0000_0000);
        lemma_mul_bounds(az as int, bz as int, 0x1_0000_0000, 0x1_0000_0000);
    }
    wide_mul(ax, bx) + wide_mul(ay, by) + wide_mul(az, bz)
}

/// Magnitude of a 128-bit integer above `i128::MIN`.
pub fn wide_magnitude(v: i128) -> (r: u128)
    requires
        v > i128::MIN,
    ensures
        r == magnitude(v as int),
{
    if v < 0 {
        (-v) as u128
    } else {
        v as u128
    }
}

/// Largest magnitude of the operands of a wide division: `2^126`.
pub const WIDE_LIMIT: i128 = 0x4000_0000_0000_0000_0000_0000_0000_0000;

/// Rounded division of wide integers.
pub fn wide_rdiv(n: i128, d: i128) -> (r: i128)
    requires
        d != 0,
        magnitude(n as int) <= WIDE_LIMIT,
        magnitude(d as int) <= WIDE_LIMIT,
    ensures
        r == rdiv(n as int, d as int),
        magnitude(r as int) <= magnitude(n as int),
{
    let un: u128 = wide_magnitude(n);
    let ud: u128 = wide_magnitude(d);
    let q: u128 = (un + ud / 2) / ud;
    proof {
        lemma_rdiv_quotient_bound(un as int, ud as int);
    }
    if (n < 0) == (d < 0) {
        q as i128
    } else {
        -(q as i128)
    }
}

/// A rounded quotient of a non-negative integer is not above it.
pub proof fn lemma_rdiv_quotient_bound(n: int, d: int)
    by (nonlinear_arith)
    requires
        n >= 0,
        d > 0,
    ensures
        0 <= (n + d / 2) / d <= n,
{
    if d == 1 {
        assert(d / 2 == 0);
    } else {
        assert(n + d / 2 < n * d + d);
        assert((n + d / 2) / d <= n);
    }
}

/// Integer square root of a 128-bit unsigned integer, by bisection.
pub fn wide_isqrt(n: u128) -> (r: u128)
    ensures
        r == isqrt(n as int),
        is_isqrt(n as int, r as int),
        r < 0x1_0000_0000_0000_0000,
{
    let mut lo: u128 = 0;
    let mut hi: u128 = 0x1_0000_0000_0000_0000;
    assert(hi * hi > n) by (nonlinear_arith)
        requires
            hi == 0x1_0000_0000_0000_0000,
            n <= u128::MAX,
    ;
    while hi - lo > 1
        invariant
            lo < hi <= 0x1_0000_0000_0000_0000,
            lo * lo <= n < hi * hi,
        decreases hi - lo,
    {
        let mid: u128 = lo + (hi - lo) / 2;
        assert(mid * mid <= u128::MAX) by (nonlinear_arith)
            requires
                0 <= mid < 0x1_0000_0000_0000_0000,
        ;
        let sq: u128 = mid * mid;
        if sq <= n {
            lo = mid;
        } else {
            hi = mid;
        }
    }
    proof {
        assert(hi == lo + 1);
        lemma_isqrt_unique(n as int, lo as int);
    }
    lo
}

/// A decimal fixed-point scalar with five fractional digits and magnitude
/// at most `10_000.0`.
#[derive(Clone, Copy, Debug, PartialEq, Eq, Structural)]
pub struct Fixed {
    raw: i32,
}

impl View for Fixed {
    type V = int;

    /// The raw count of hundred-thousandths.
    closed spec fn view(&self) -> int {
        self.raw as int
    }
}

impl Fixed {
    #[verifier::type_invariant]
    spec fn within_limit(self) -> bool {
        -LIMIT <= self.raw <= LIMIT
    }

    /// Scalars with the same raw count are the same scalar.
    pub proof fn lemma_view_injective(a: Fixed, b: Fixed)
        requires
            a@ == b@,
        ensures
            a == b,
    {
    }

    /// The raw count, which the type keeps within `LIMIT`.
    pub fn raw(self) -> (r: i32)
        ensures
            r == self@,
            in_range(self@),
    {
        proof {
            use_type_invariant(&self);
        }
        self.raw
    }

    /// The scalar with the given raw count, or `None` if it is out of range.
    pub fn from_raw(raw: i32) -> (r: Option<Fixed>)
        ensures
            r.is_some() == in_range(raw as int),
            r matches Some(f) ==> f@ == raw,
    {
        if -LIMIT <= raw && raw <= LIMIT {
            Some(Fixed { raw })
        } else {
            None
        }
    }

    /// The scalar nearest to a wide raw count.
    pub fn saturating(v: i128) -> (r: Fixed)
        ensures
            r@ == clamp(v as int),
    {
        if v < -(LIMIT as i128) {
            Fixed { raw: -LIMIT }
        } else if v > LIMIT as i128 {
            Fixed { raw: LIMIT }
        } else {
            Fixed { raw: v as i32 }
        }
    }

    /// The scalar for a count, saturated.
    pub fn from_count(n: u32) -> (r: Fixed)
        ensures
            r@ == clamp(n * SCALE),
    {
        Fixed::saturating(wide_mul(n as i64, SCALE as i64))
    }

    /// The scalar for a whole number, saturated.
    pub fn from_int(n: i32) -> (r: Fixed)
        ensures
            r@ == clamp(n * SCALE),
    {
        Fixed::saturating(wide_mul(n as i64, SCALE as i64))
    }

    /// The scalar `0`.
    pub fn zero() -> (r: Fixed)
        ensures
            r@ == 0,
    {
        Fixed { raw: 0 }
    }

    /// The scalar `1`.
    pub fn one() -> (r: Fixed)
        ensures
            r@ == SCALE,
    {
        Fixed { raw: SCALE }
    }

    /// The scalar `0.5`.
    pub fn half() -> (r: Fixed)
        ensures
            r@ == SCALE / 2,
    {
        Fixed { raw: 50_000 }
    }

    /// The magnitude.
    pub fn abs(self) -> (r: Fixed)
        ensures
            r@ == magnitude(self@),
    {
        let v = self.raw();
        if v < 0 {
            Fixed { raw: -v }
        } else {
            self
        }
    }

    /// The smaller of two scalars.
    pub fn min(self, other: Fixed) -> (r: Fixed)
        ensures
            r@ == fx_min(self@, other@),
    {
        if self.raw() <= other.raw() {
            self
        } else {
            other
        }
    }

    /// The larger of two scalars.
    pub fn max(self, other: Fixed) -> (r: Fixed)
        ensures
            r@ == fx_max(self@, other@),
    {
        if self.raw() >= other.raw() {
            self
        } else {
            other
        }
    }

    /// Square root, rounded down; the root of a negative scalar is zero.
    pub fn sqrt(self) -> (r: Fixed)
        ensures
            r@ == fx_sqrt(self@),
    {
        let v = self.raw();
        if v < 0 {
            Fixed::zero()
        } else {
            let n: u128 = (v as u128) * 100_000;
            let root = wide_isqrt(n);
            proof {
                // root * root <= n <= LIMIT * SCALE, so root stays in range
                if root > LIMIT {
                    lemma_square_monotonic(LIMIT as int, root as int);
                }
            }
            Fixed { raw: root as i32 }
        }
    }

    /// The sum, saturated.
    pub fn plus(self, rhs: Fixed) -> (r: Fixed)
        ensures
            r@ == fx_add(self@, rhs@),
    {
        Fixed::saturating(self.raw() as i128 + rhs.raw() as i128)
    }

    /// The difference, saturated.
    pub fn minus(self, rhs: Fixed) -> (r: Fixed)
        ensures
            r@ == fx_sub(self@, rhs@),
    {
        Fixed::saturating(self.raw() as i128 - rhs.raw() as i128)
    }

    /// The product, rounded and saturated.
    pub fn times(self, rhs: Fixed) -> (r: Fixed)
        ensures
            r@ == fx_mul(self@, rhs@),
    {
        let p = wide_mul(self.raw() as i64, rhs.raw() as i64);
        proof {
            lemma_mul_bounds(self@, rhs@, LIMIT as int, LIMIT as int);
        }
        Fixed::saturating(wide_rdiv(p, SCALE as i128))
    }

    /// The quotient by a scalar other than zero, rounded and saturated.
    pub fn over(self, rhs: Fixed) -> (r: Fixed)
        requires
            rhs@ != 0,
        ensures
            r@ == fx_div(self@, rhs@),
    {
        let n = wide_mul(self.raw() as i64, SCALE as i64);
        proof {
            lemma_mul_bounds(self@, SCALE as int, LIMIT as int, SCALE as int);
        }
        Fixed::saturating(wide_rdiv(n, rhs.raw() as i128))
    }

    /// The negation, which is exact.
    pub fn negated(self) -> (r: Fixed)
        ensures
            r@ == -self@,
    {
        Fixed { raw: -self.raw() }
    }
}

impl Fixed {
    /// The scalar with raw count `v`, for `v` in range.
    pub closed spec fn of(v: int) -> Fixed {
        Fixed { raw: v as i32 }
    }

    /// Every scalar is the scalar of its own raw count.
    pub proof fn lemma_of_view(f: Fixed)
        ensures
            Fixed::of(f@) == f,
    {
    }
}

impl Default for Fixed {
    fn default() -> (r: Fixed)
        ensures
            r@ == 0,
    {
        Fixed::zero()
    }
}

impl core::ops::Add for Fixed {
    type Output = Fixed;

    fn add(self, rhs: Fixed) -> (r: Fixed)
        ensures
            r@ == fx_add(self@, rhs@),
    {
        self.plus(rhs)
    }
}

impl vstd::std_specs::ops::AddSpecImpl for Fixed {
    open spec fn obeys_add_spec() -> bool {
        true
    }

    open spec fn add_req(self, rhs: Fixed) -> bool {
        true
    }

    open spec fn add_spec(self, rhs: Fixed) -> Fixed {
        Fixed::of(fx_add(self@, rhs@))
    }
}

impl core::ops::Sub for Fixed {
    type Output = Fixed;

    fn sub(self, rhs: Fixed) -> (r: Fixed)
        ensures
            r@ == fx_sub(self@, rhs@),
    {
        self.minus(rhs)
    }
}

impl vstd::std_specs::ops::SubSpecImpl for Fixed {
    open spec fn obeys_sub_spec() -> bool {
        true
    }

    open spec fn sub_req(self, rhs: Fixed) -> bool {
        true
    }

    open spec fn sub_spec(self, rhs: Fixed) -> Fixed {
        Fixed::of(fx_sub(self@, rhs@))
    }
}

impl core::ops::Mul for Fixed {
    type Output = Fixed;

    fn mul(self, rhs: Fixed) -> (r: Fixed)
        ensures
            r@ == fx_mul(self@, rhs@),
    {
        self.times(rhs)
    }
}

impl vstd::std_specs::ops::MulSpecImpl for Fixed {
    open spec fn obeys_mul_spec() -> bool {
        true
    }

    open spec fn mul_req(self, rhs: Fixed) -> bool {
        true
    }

    open spec fn mul_spec(self, rhs: Fixed) -> Fixed {
        Fixed::of(fx_mul(self@, rhs@))
    }
}

impl core::ops::Div for Fixed {
    type Output = Fixed;

    fn div(self, rhs: Fixed) -> (r: Fixed)
        ensures
            r@ == fx_div(self@, rhs@),
    {
        self.over(rhs)
    }
}

impl vstd::std_specs::ops::DivSpecImpl for Fixed {
    open spec fn obeys_div_spec() -> bool {
        true
    }

    open spec fn div_req(self, rhs: Fixed) -> bool {
        rhs@ != 0
    }

    open spec fn div_spec(self, rhs: Fixed) -> Fixed {
        Fixed::of(fx_div(self@, rhs@))
    }
}

impl core::ops::Neg for Fixed {
    type Output = Fixed;

    fn neg(self) -> (r: Fixed)
        ensures
            r@ == -self@,
    {
        self.negated()
    }
}

impl vstd::std_specs::ops::NegSpecImpl for Fixed {
    open spec fn obeys_neg_spec() -> bool {
        true
    }

    open spec fn neg_req(self) -> bool {
        true
    }

    open spec fn neg_spec(self) -> Fixed {
        Fixed::of(-self@)
    }
}

} // verus!
