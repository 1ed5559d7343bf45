//! The primitives of a scene and their intersection with a ray.
//!
//! Both primitives reduce to a quadratic `a t^2 - 2 h t + c = 0` in the ray
//! parameter. Its coefficients and its discriminant are computed exactly, so
//! whether a ray meets a primitive is decided without rounding; only the
//! roots themselves are rounded to scalars.
use crate::fixed::{
    fx_add, fx_div, fx_mul, fx_sub, in_range, isqrt, lemma_fx_div_zero, lemma_isqrt,
    lemma_mul_bounds, lemma_mul_sum3,
    lemma_rdiv_error, lemma_rdiv_monotonic, lemma_rounded_square, lemma_square_monotonic,
    magnitude, rdiv, wide_dot, wide_isqrt, wide_mul, wide_rdiv, Fixed, LIMIT, SCALE,
};
use crate::ray::{ray_at, Ray, RayModel};
use crate::utils::interval::{interval_surrounds, Interval};
use crate::vec3::{
    dot_exact, l1_norm, lemma_quotient_length, quotient_in_range, v3_div, v3_sub, Point3, Vec3, V3,
};
use crate::world::hit_record::{
    face_normal, faces_front, lemma_face_normal_opposes, HitModel, HitRecord,
};
use crate::world::material::{material_wf, Material, MaterialModel};
use std::sync::Arc;
use vstd::prelude::*;

verus! {

/// Model of a primitive.
pub enum ObjectModel {
    Sphere { radius: int, center: V3, material: MaterialModel },
    Cylinder { radius: int, center: V3, height: int, material: MaterialModel },
}

/// Whether a primitive is well formed: its radius and height are positive
/// and its material is well formed.
pub open spec fn object_wf(o: ObjectModel) -> bool {
    match o {
        ObjectModel::Sphere { radius, center, material } => radius > 0 && material_wf(material),
        ObjectModel::Cylinder { radius, center, height, material } => radius > 0 && height > 0
            && material_wf(material),
    }
}

/// Coefficients of `a t^2 - 2 h t + c = 0`, in squares of raw units.
pub struct Quadratic {
    pub a: int,
    pub h: int,
    pub c: int,
}

/// A quarter of the usual discriminant: `h^2 - a c`.
pub open spec fn discriminant(q: Quadratic) -> int {
    q.h * q.h - q.a * q.c
}

/// Whether the quadratic has real roots: it is of second degree and its
/// discriminant is not negative.
pub open spec fn solvable(q: Quadratic) -> bool {
    q.a != 0 && discriminant(q) >= 0
}

/// The smaller root `(h - sqrt(disc)) / a`, as the raw count of a scalar.
pub open spec fn near_root(q: Quadratic) -> int {
    rdiv(SCALE * (q.h - isqrt(discriminant(q))), q.a)
}

/// The larger root `(h + sqrt(disc)) / a`, as the raw count of a scalar.
pub open spec fn far_root(q: Quadratic) -> int {
    rdiv(SCALE * (q.h + isqrt(discriminant(q))), q.a)
}

/// The vector from `origin` to `center`, exact.
pub open spec fn offset(center: V3, origin: V3) -> V3 {
    V3 { x: center.x - origin.x, y: center.y - origin.y, z: center.z - origin.z }
}

/// The projection of `v` onto the plane `y = 0`.
pub open spec fn flat(v: V3) -> V3 {
    V3 { x: v.x, y: 0, z: v.z }
}

/// The quadratic for the points at distance `radius` from a centre, where
/// `d` is the direction of the ray and `oc` leads from its origin to the
/// centre.
pub open spec fn quadratic_of(d: V3, oc: V3, radius: int) -> Quadratic {
    Quadratic { a: dot_exact(d, d), h: dot_exact(d, oc), c: dot_exact(oc, oc) - radius * radius }
}

/// The quadratic of a ray and a sphere.
pub open spec fn sphere_quadratic(radius: int, center: V3, ray: RayModel) -> Quadratic {
    quadratic_of(ray.direction, offset(center, ray.origin), radius)
}

/// The quadratic of a ray and an upright cylinder of unbounded height: that
/// of their projections onto the plane `y = 0`.
pub open spec fn cylinder_quadratic(radius: int, center: V3, ray: RayModel) -> Quadratic {
    quadratic_of(flat(ray.direction), flat(offset(center, ray.origin)), radius)
}

/// The parameter at which a ray meets a sphere within `[lo, hi]`: the
/// smaller root if the interval accepts it, else the larger one if the
/// interval accepts that.
pub open spec fn sphere_root(radius: int, center: V3, ray: RayModel, lo: int, hi: int) -> Option<
    int,
> {
    let q = sphere_quadratic(radius, center, ray);
    if !solvable(q) {
        None
    } else if !interval_surrounds(lo, hi, near_root(q)) {
        Some(near_root(q))
    } else if !interval_surrounds(lo, hi, far_root(q)) {
        Some(far_root(q))
    } else {
        None
    }
}

/// Half the height of a cylinder.
pub open spec fn half_of(height: int) -> int {
    fx_div(height, 2 * SCALE)
}

/// Whether the point of the ray at `t` lies within the height of the
/// cylinder.
pub open spec fn in_band(center: V3, height: int, ray: RayModel, t: int) -> bool {
    fx_sub(center.y, half_of(height)) <= ray_at(ray, t).y <= fx_add(center.y, half_of(height))
}

/// Whether a root is a hit of the side of a cylinder: the interval accepts
/// it and the point lies within the height.
pub open spec fn cylinder_accepts(
    center: V3,
    height: int,
    ray: RayModel,
    lo: int,
    hi: int,
    t: int,
) -> bool {
    !interval_surrounds(lo, hi, t) && in_band(center, height, ray, t)
}

/// The parameter at which a ray meets the side of a cylinder within
/// `[lo, hi]`: the smaller root if it is a hit, else the larger one if that
/// is a hit.
pub open spec fn cylinder_root(
    radius: int,
    center: V3,
    height: int,
    ray: RayModel,
    lo: int,
    hi: int,
) -> Option<int> {
    let q = cylinder_quadratic(radius, center, ray);
    if !solvable(q) {
        None
    } else if cylinder_accepts(center, height, ray, lo, hi, near_root(q)) {
        Some(near_root(q))
    } else if cylinder_accepts(center, height, ray, lo, hi, far_root(q)) {
        Some(far_root(q))
    } else {
        None
    }
}

/// The outward normal of a sphere at `p`: `(p - center) / radius`.
pub open spec fn sphere_normal(radius: int, center: V3, p: V3) -> V3 {
    v3_div(v3_sub(p, center), radius)
}

/// The outward normal of the side of a cylinder at `p`; it is horizontal.
pub open spec fn cylinder_normal(radius: int, center: V3, p: V3) -> V3 {
    V3 {
        x: fx_div(fx_sub(p.x, center.x), radius),
        y: 0,
        z: fx_div(fx_sub(p.z, center.z), radius),
    }
}

/// The record of a hit at parameter `t` on a surface with the given
/// outward normal.
pub open spec fn hit_at(
    ray: RayModel,
    t: int,
    outward_normal: V3,
    material: MaterialModel,
) -> HitModel {
    HitModel {
        p: ray_at(ray, t),
        normal: face_normal(ray.direction, outward_normal),
        t,
        front_face: faces_front(ray.direction, outward_normal),
        material,
    }
}

/// The intersection of a ray with a sphere within `[lo, hi]`.
pub open spec fn sphere_hit(
    radius: int,
    center: V3,
    material: MaterialModel,
    ray: RayModel,
    lo: int,
    hi: int,
) -> Option<HitModel> {
    match sphere_root(radius, center, ray, lo, hi) {
        Some(t) => Some(hit_at(ray, t, sphere_normal(radius, center, ray_at(ray, t)), material)),
        None => None,
    }
}

/// The intersection of a ray with the side of a cylinder within `[lo, hi]`.
pub open spec fn cylinder_hit(
    radius: int,
    center: V3,
    height: int,
    material: MaterialModel,
    ray: RayModel,
    lo: int,
    hi: int,
) -> Option<HitModel> {
    match cylinder_root(radius, center, height, ray, lo, hi) {
        Some(t) => Some(hit_at(ray, t, cylinder_normal(radius, center, ray_at(ray, t)), material)),
        None => None,
    }
}

/// The intersection of a ray with a primitive within `[lo, hi]`.
pub open spec fn object_hit(o: ObjectModel, ray: RayModel, lo: int, hi: int) -> Option<HitModel> {
    match o {
        ObjectModel::Sphere { radius, center, material } => sphere_hit(
            radius,
            center,
            material,
            ray,
            lo,
            hi,
        ),
        ObjectModel::Cylinder { radius, center, height, material } => cylinder_hit(
            radius,
            center,
            height,
            material,
            ray,
            lo,
            hi,
        ),
    }
}

/// Every hit lies in the interval that was searched, and its normal never
/// points along the ray.
pub proof fn lemma_hit_opposes(o: ObjectModel, ray: RayModel, lo: int, hi: int)
    ensures
        object_hit(o, ray, lo, hi) matches Some(h) ==> lo <= h.t <= hi && dot_exact(
            ray.direction,
            h.normal,
        ) <= 0,
{
    match o {
        ObjectModel::Sphere { radius, center, material } => {
            if let Some(t) = sphere_root(radius, center, ray, lo, hi) {
                lemma_face_normal_opposes(
                    ray.direction,
                    sphere_normal(radius, center, ray_at(ray, t)),
                );
            }
        },
        ObjectModel::Cylinder { radius, center, height, material } => {
            if let Some(t) = cylinder_root(radius, center, height, ray, lo, hi) {
                lemma_face_normal_opposes(
                    ray.direction,
                    cylinder_normal(radius, center, ray_at(ray, t)),
                );
            }
        },
    }
}

/// The cross product of the raw counts, exact.
pub open spec fn cross_exact(a: V3, b: V3) -> V3 {
    V3 { x: a.y * b.z - a.z * b.y, y: a.z * b.x - a.x * b.z, z: a.x * b.y - a.y * b.x }
}

/// Lagrange's identity: `|a x b|^2 = |a|^2 |b|^2 - (a . b)^2`.
pub proof fn lemma_lagrange(a: V3, b: V3)
    ensures
        dot_exact(cross_exact(a, b), cross_exact(a, b)) == dot_exact(a, a) * dot_exact(b, b)
            - dot_exact(a, b) * dot_exact(a, b),
{
    lemma_cross_term(a.y, a.z, b.y, b.z);
    lemma_cross_term(a.z, a.x, b.z, b.x);
    lemma_cross_term(a.x, a.y, b.x, b.y);
    lemma_square_term(a.x, b.x);
    lemma_square_term(a.y, b.y);
    lemma_square_term(a.z, b.z);
    let (p, q, r) = (a.x * a.x, a.y * a.y, a.z * a.z);
    let (u, v, w) = (b.x * b.x, b.y * b.y, b.z * b.z);
    assert((p + q + r) * (u + v + w) == p * u + p * v + p * w + q * u + q * v + q * w + r * u + r
        * v + r * w) by (nonlinear_arith);
    let (e, f, g) = (a.x * b.x, a.y * b.y, a.z * b.z);
    assert((e + f + g) * (e + f + g) == e * e + f * f + g * g + 2 * (e * f) + 2 * (f * g) + 2 * (g
        * e)) by (nonlinear_arith);
}

/// One component of Lagrange's identity:
/// `(a1 b2 - a2 b1)^2 = a1^2 b2^2 + a2^2 b1^2 - 2 (a1 b1) (a2 b2)`.
proof fn lemma_cross_term(a1: int, a2: int, b1: int, b2: int)
    ensures
        (a1 * b2 - a2 * b1) * (a1 * b2 - a2 * b1) == (a1 * a1) * (b2 * b2) + (a2 * a2) * (b1 * b1)
            - 2 * ((a1 * b1) * (a2 * b2)),
{
    let p = a1 * b2;
    let q = a2 * b1;
    assert((p - q) * (p - q) == p * p + q * q - 2 * (p * q)) by (nonlinear_arith);
    lemma_square_term(a1, b2);
    lemma_square_term(a2, b1);
    lemma_swap_term(a1, b2, a2, b1);
}

/// `(a b) (c d) = (a d) (c b)`.
proof fn lemma_swap_term(a: int, b: int, c: int, d: int)
    ensures
        (a * b) * (c * d) == (a * d) * (c * b),
{
    let cd = c * d;
    let cb = c * b;
    assert((a * b) * cd == a * (b * cd)) by (nonlinear_arith);
    assert(b * cd == d * cb) by (nonlinear_arith)
        requires
            cd == c * d,
            cb == c * b,
    ;
    assert(a * (d * cb) == (a * d) * cb) by (nonlinear_arith);
}

/// `(a b)^2 = a^2 b^2`.
proof fn lemma_square_term(a: int, b: int)
    by (nonlinear_arith)
    ensures
        (a * b) * (a * b) == (a * a) * (b * b),
{
}

/// The discriminant of a ray and a sphere measures how far the line of the
/// ray passes from the centre: `disc = |d|^2 r^2 - |d x oc|^2`.
pub proof fn lemma_discriminant(d: V3, oc: V3, radius: int)
    ensures
        discriminant(quadratic_of(d, oc, radius)) == dot_exact(d, d) * (radius * radius)
            - dot_exact(cross_exact(d, oc), cross_exact(d, oc)),
{
    lemma_lagrange(d, oc);
    let a = dot_exact(d, d);
    let h = dot_exact(d, oc);
    let n = dot_exact(oc, oc);
    let rr = radius * radius;
    assert(h * h - a * (n - rr) == a * rr - (a * n - h * h)) by (nonlinear_arith);
}

/// A ray whose line passes the centre of a sphere at more than the radius
/// does not hit it, in whatever interval: the distance of the line from the
/// centre is `|d x oc| / |d|`.
pub proof fn lemma_sphere_missed(
    radius: int,
    center: V3,
    material: MaterialModel,
    ray: RayModel,
    lo: int,
    hi: int,
)
    requires
        ({
            let across = cross_exact(ray.direction, offset(center, ray.origin));
            dot_exact(across, across) > radius * radius * dot_exact(ray.direction, ray.direction)
        }),
    ensures
        sphere_hit(radius, center, material, ray, lo, hi) is None,
{
    let d = ray.direction;
    lemma_discriminant(d, offset(center, ray.origin), radius);
    assert(dot_exact(d, d) * (radius * radius) == radius * radius * dot_exact(d, d))
        by (nonlinear_arith);
}

/// A ray that starts outside a sphere and is aimed at its centre meets it
/// in two distinct points, and the hit is the nearer one whenever the
/// interval accepts it. Its discriminant is `a r^2`, so by
/// `lemma_root_faces` the hit strikes the sphere from outside unless the
/// sphere is tiny.
pub proof fn lemma_sphere_aimed(
    radius: int,
    center: V3,
    material: MaterialModel,
    ray: RayModel,
    lo: int,
    hi: int,
)
    requires
        radius > 0,
        cross_exact(ray.direction, offset(center, ray.origin)) == (V3 { x: 0, y: 0, z: 0 }),
        dot_exact(ray.direction, offset(center, ray.origin)) > 0,
        dot_exact(offset(center, ray.origin), offset(center, ray.origin)) > radius * radius,
    ensures
        solvable(sphere_quadratic(radius, center, ray)),
        discriminant(sphere_quadratic(radius, center, ray)) > 0,
        discriminant(sphere_quadratic(radius, center, ray)) == sphere_quadratic(
            radius,
            center,
            ray,
        ).a * (radius * radius),
        0 <= near_root(sphere_quadratic(radius, center, ray)) <= far_root(
            sphere_quadratic(radius, center, ray),
        ),
        lo <= near_root(sphere_quadratic(radius, center, ray)) <= hi ==> sphere_root(
            radius,
            center,
            ray,
            lo,
            hi,
        ) == Some(near_root(sphere_quadratic(radius, center, ray))),
{
    let d = ray.direction;
    let oc = offset(center, ray.origin);
    lemma_discriminant(d, oc, radius);
    let a = dot_exact(d, d);
    assert(d.x * d.x >= 0 && d.y * d.y >= 0 && d.z * d.z >= 0) by (nonlinear_arith);
    if a == 0 {
        assert(d.x == 0 && d.y == 0 && d.z == 0) by (nonlinear_arith)
            requires
                d.x * d.x + d.y * d.y + d.z * d.z == 0,
        ;
        assert(dot_exact(d, oc) == 0) by (nonlinear_arith)
            requires
                d.x == 0 && d.y == 0 && d.z == 0,
                dot_exact(d, oc) == d.x * oc.x + d.y * oc.y + d.z * oc.z,
        ;
    }
    assert(a * (radius * radius) > 0) by (nonlinear_arith)
        requires
            a > 0,
            radius > 0,
    ;
    lemma_roots_ordered(d, oc, radius);
    // the root of the discriminant is below h, so the nearer root lies ahead
    let q = quadratic_of(d, oc, radius);
    let root = isqrt(discriminant(q));
    lemma_isqrt(discriminant(q));
    assert(q.a * q.c > 0) by (nonlinear_arith)
        requires
            q.a > 0,
            q.c > 0,
    ;
    if root >= q.h {
        lemma_square_monotonic(q.h, root);
    }
    assert(SCALE * (q.h - root) >= 0) by (nonlinear_arith)
        requires
            q.h - root >= 0,
            SCALE > 0,
    ;
    lemma_rdiv_monotonic(0, SCALE * (q.h - root), q.a);
    assert(rdiv(0, q.a) == 0) by {
        vstd::arithmetic::div_mod::lemma_basic_div(magnitude(q.a) / 2, magnitude(q.a));
    }
}

/// A ray whose line passes the axis of a cylinder at more than the radius
/// does not hit its side, whatever the height and the interval.
pub proof fn lemma_cylinder_missed(
    radius: int,
    center: V3,
    height: int,
    material: MaterialModel,
    ray: RayModel,
    lo: int,
    hi: int,
)
    requires
        ({
            let across = cross_exact(flat(ray.direction), flat(offset(center, ray.origin)));
            dot_exact(across, across) > radius * radius * dot_exact(
                flat(ray.direction),
                flat(ray.direction),
            )
        }),
    ensures
        cylinder_hit(radius, center, height, material, ray, lo, hi) is None,
{
    let d = flat(ray.direction);
    lemma_discriminant(d, flat(offset(center, ray.origin)), radius);
    assert(dot_exact(d, d) * (radius * radius) == radius * radius * dot_exact(d, d))
        by (nonlinear_arith);
}

/// A ray parallel to the axis of a cylinder never hits its side, whatever
/// the height and the interval.
pub proof fn lemma_cylinder_parallel(
    radius: int,
    center: V3,
    height: int,
    material: MaterialModel,
    ray: RayModel,
    lo: int,
    hi: int,
)
    requires
        ray.direction.x == 0,
        ray.direction.z == 0,
    ensures
        cylinder_hit(radius, center, height, material, ray, lo, hi) is None,
{
    assert(dot_exact(flat(ray.direction), flat(ray.direction)) == 0) by (nonlinear_arith)
        requires
            flat(ray.direction).x == 0,
            flat(ray.direction).y == 0,
            flat(ray.direction).z == 0,
            dot_exact(flat(ray.direction), flat(ray.direction)) == flat(ray.direction).x * flat(
                ray.direction,
            ).x + flat(ray.direction).y * flat(ray.direction).y + flat(ray.direction).z * flat(
                ray.direction,
            ).z,
    ;
}

/// When the nearer root of a cylinder is no hit, the farther one is tried:
/// it is the hit if the interval accepts it and its point lies within the
/// height, and there is no hit otherwise.
pub proof fn lemma_cylinder_falls_through(
    radius: int,
    center: V3,
    height: int,
    ray: RayModel,
    lo: int,
    hi: int,
)
    requires
        solvable(cylinder_quadratic(radius, center, ray)),
        !cylinder_accepts(
            center,
            height,
            ray,
            lo,
            hi,
            near_root(cylinder_quadratic(radius, center, ray)),
        ),
    ensures
        cylinder_root(radius, center, height, ray, lo, hi) == if cylinder_accepts(
            center,
            height,
            ray,
            lo,
            hi,
            far_root(cylinder_quadratic(radius, center, ray)),
        ) {
            Some(far_root(cylinder_quadratic(radius, center, ray)))
        } else {
            None
        },
{
}

/// `SCALE` times the vector from the centre to the exact point of the ray
/// at the raw parameter `t`, where `oc` leads from the origin of the ray to
/// the centre and `d` is its direction.
pub open spec fn reach(d: V3, oc: V3, t: int) -> V3 {
    V3 { x: t * d.x - SCALE * oc.x, y: t * d.y - SCALE * oc.y, z: t * d.z - SCALE * oc.z }
}

/// The squared distance of a point of the ray from the centre is the
/// quadratic in its parameter, plus the squared radius.
pub proof fn lemma_reach(d: V3, oc: V3, radius: int, t: int)
    ensures
        ({
            let q = quadratic_of(d, oc, radius);
            dot_exact(reach(d, oc, t), reach(d, oc, t)) - (SCALE * SCALE) * (radius * radius) == (t
                * t) * q.a - 2 * ((SCALE * t) * q.h) + (SCALE * SCALE) * q.c
        }),
{
    let s = SCALE as int;
    lemma_reach_term(d.x, oc.x, t, s);
    lemma_reach_term(d.y, oc.y, t, s);
    lemma_reach_term(d.z, oc.z, t, s);
    let q = quadratic_of(d, oc, radius);
    let (tt, st, ss) = (t * t, s * t, s * s);
    assert(tt * q.a == tt * (d.x * d.x) + tt * (d.y * d.y) + tt * (d.z * d.z)) by (nonlinear_arith)
        requires
            q.a == d.x * d.x + d.y * d.y + d.z * d.z,
    ;
    assert(st * q.h == st * (d.x * oc.x) + st * (d.y * oc.y) + st * (d.z * oc.z))
        by (nonlinear_arith)
        requires
            q.h == d.x * oc.x + d.y * oc.y + d.z * oc.z,
    ;
    assert(ss * q.c == ss * (oc.x * oc.x) + ss * (oc.y * oc.y) + ss * (oc.z * oc.z) - ss * (radius
        * radius)) by (nonlinear_arith)
        requires
            q.c == oc.x * oc.x + oc.y * oc.y + oc.z * oc.z - radius * radius,
    ;
}

/// `(t d - s c)^2 = t^2 d^2 - 2 (s t) (d c) + s^2 c^2`.
proof fn lemma_reach_term(d: int, c: int, t: int, s: int)
    ensures
        (t * d - s * c) * (t * d - s * c) == (t * t) * (d * d) - 2 * ((s * t) * (d * c)) + (s * s)
            * (c * c),
{
    let p = t * d;
    let q = s * c;
    assert((p - q) * (p - q) == p * p - 2 * (p * q) + q * q) by (nonlinear_arith);
    lemma_square_term(t, d);
    lemma_square_term(s, c);
    let dc = d * c;
    assert(d * q == s * dc) by (nonlinear_arith)
        requires
            q == s * c,
            dc == d * c,
    ;
    assert(p * q == t * (d * q)) by (nonlinear_arith)
        requires
            p == t * d,
    ;
    assert(t * (s * dc) == (s * t) * dc) by (nonlinear_arith);
}

/// The point of the ray at a rounded root lies on the sphere up to
/// rounding. With `x` the reach of that point, `disc` the discriminant and
/// `root` its integer square root, `a (|x|^2 - SCALE^2 r^2)` lies between
/// `-(a SCALE root + SCALE^2 (2 root + 1))` and `a^2 / 4 + a SCALE root`.
/// For a direction of length one and a radius of `r` raw units the squared
/// distance is that of the radius within a part in `r`.
pub proof fn lemma_root_on_sphere(d: V3, oc: V3, radius: int, far: bool)
    requires
        solvable(quadratic_of(d, oc, radius)),
    ensures
        ({
            let q = quadratic_of(d, oc, radius);
            let t = if far {
                far_root(q)
            } else {
                near_root(q)
            };
            let root = isqrt(discriminant(q));
            let x = reach(d, oc, t);
            let gap = q.a * (dot_exact(x, x) - (SCALE * SCALE) * (radius * radius));
            &&& q.a > 0
            &&& root >= 0
            &&& -(q.a * (SCALE * root) + (SCALE * SCALE) * (2 * root + 1)) <= gap
            &&& 4 * gap <= q.a * q.a + 4 * (q.a * (SCALE * root))
        }),
{
    let q = quadratic_of(d, oc, radius);
    let s = SCALE as int;
    assert(d.x * d.x >= 0 && d.y * d.y >= 0 && d.z * d.z >= 0) by (nonlinear_arith);
    let disc = discriminant(q);
    lemma_isqrt(disc);
    let root = isqrt(disc);
    let t = if far {
        far_root(q)
    } else {
        near_root(q)
    };
    let aim = if far {
        s * (q.h + root)
    } else {
        s * (q.h - root)
    };
    lemma_rdiv_error(aim, q.a);
    let e = t * q.a - aim;
    let sr = s * root;
    let sh = s * q.h;
    assert(aim == if far {
        sh + sr
    } else {
        sh - sr
    }) by (nonlinear_arith)
        requires
            aim == if far {
                s * (q.h + root)
            } else {
                s * (q.h - root)
            },
            sr == s * root,
            sh == s * q.h,
    ;
    // g = a t - s h is e plus or minus s root
    let g = t * q.a - sh;
    lemma_reach(d, oc, radius, t);
    let x = reach(d, oc, t);
    let gap = q.a * (dot_exact(x, x) - (s * s) * (radius * radius));
    assert(gap == g * g - (s * s) * disc) by {
        lemma_gap(q.a, q.h, q.c, t, s);
    }
    if far {
        assert(g * g == e * e + 2 * (e * sr) + sr * sr) by (nonlinear_arith)
            requires
                g == e + sr,
        ;
    } else {
        assert(g * g == e * e - 2 * (e * sr) + sr * sr) by (nonlinear_arith)
            requires
                g == e - sr,
        ;
    }
    assert(sr * sr == (s * s) * (root * root)) by (nonlinear_arith)
        requires
            sr == s * root,
    ;
    assert(0 <= 4 * (e * e) <= q.a * q.a) by (nonlinear_arith)
        requires
            -q.a <= 2 * e <= q.a,
            q.a > 0,
    ;
    assert(-(q.a * sr) <= 2 * (e * sr) <= q.a * sr) by (nonlinear_arith)
        requires
            -q.a <= 2 * e <= q.a,
            q.a > 0,
            sr >= 0,
    ;
    assert(sr >= 0) by (nonlinear_arith)
        requires
            sr == s * root,
            s > 0,
            root >= 0,
    ;
    assert(-((s * s) * (2 * root + 1)) <= (s * s) * (root * root) - (s * s) * disc <= 0)
        by (nonlinear_arith)
        requires
            root * root <= disc < (root + 1) * (root + 1),
            s > 0,
    ;
}

/// `a (t^2 a - 2 s t h + s^2 c) = (t a - s h)^2 - s^2 (h^2 - a c)`.
proof fn lemma_gap(a: int, h: int, c: int, t: int, s: int)
    ensures
        a * ((t * t) * a - 2 * ((s * t) * h) + (s * s) * c) == (t * a - s * h) * (t * a - s * h)
            - (s * s) * (h * h - a * c),
{
    let ta = t * a;
    let sh = s * h;
    assert((ta - sh) * (ta - sh) == ta * ta - 2 * (ta * sh) + sh * sh) by (nonlinear_arith);
    assert(ta * ta == a * ((t * t) * a)) by (nonlinear_arith)
        requires
            ta == t * a,
    ;
    assert(ta * sh == a * ((s * t) * h)) by (nonlinear_arith)
        requires
            ta == t * a,
            sh == s * h,
    ;
    assert(sh * sh == (s * s) * (h * h)) by (nonlinear_arith)
        requires
            sh == s * h,
    ;
    assert((s * s) * (h * h - a * c) == (s * s) * (h * h) - a * ((s * s) * c))
        by (nonlinear_arith);
    assert(a * ((t * t) * a - 2 * ((s * t) * h) + (s * s) * c) == a * ((t * t) * a) - 2 * (a * ((s
        * t) * h)) + a * ((s * s) * c)) by (nonlinear_arith);
}

/// Whether the point of the ray at `t` and its offset from `center` are
/// not saturated.
pub open spec fn point_in_range(ray: RayModel, center: V3, t: int) -> bool {
    let d = ray.direction;
    let o = ray.origin;
    &&& in_range(rdiv(d.x * t, SCALE as int)) && in_range(o.x + rdiv(d.x * t, SCALE as int))
    &&& in_range(rdiv(d.y * t, SCALE as int)) && in_range(o.y + rdiv(d.y * t, SCALE as int))
    &&& in_range(rdiv(d.z * t, SCALE as int)) && in_range(o.z + rdiv(d.z * t, SCALE as int))
    &&& in_range(ray_at(ray, t).x - center.x)
    &&& in_range(ray_at(ray, t).y - center.y)
    &&& in_range(ray_at(ray, t).z - center.z)
}

/// The hit point is the exact point of the ray up to rounding: with `x`
/// the reach of the exact point and `v` the offset of the hit point from
/// the centre, `SCALE^2 |v|^2` differs from `|x|^2` by at most
/// `SCALE (|x.x| + |x.y| + |x.z|) + 3 SCALE^2 / 4`, unless the point is
/// saturated.
pub proof fn lemma_point_rounding(ray: RayModel, center: V3, t: int)
    requires
        point_in_range(ray, center, t),
    ensures
        ({
            let v = v3_sub(ray_at(ray, t), center);
            let x = reach(ray.direction, offset(center, ray.origin), t);
            let miss = 4 * ((SCALE * SCALE) * dot_exact(v, v) - dot_exact(x, x));
            let bound = 4 * (SCALE * l1_norm(x)) + 3 * (SCALE * SCALE);
            -bound <= miss <= bound
        }),
{
    let d = ray.direction;
    let o = ray.origin;
    let s = SCALE as int;
    let v = v3_sub(ray_at(ray, t), center);
    let x = reach(d, offset(center, o), t);
    lemma_point_term(d.x, o.x, center.x, t);
    lemma_point_term(d.y, o.y, center.y, t);
    lemma_point_term(d.z, o.z, center.z, t);
    lemma_square_term(s, v.x);
    lemma_square_term(s, v.y);
    lemma_square_term(s, v.z);
    lemma_mul_sum3(s * s, v.x * v.x, v.y * v.y, v.z * v.z);
    lemma_mul_sum3(s, magnitude(x.x), magnitude(x.y), magnitude(x.z));
}

/// One component of the rounding of the hit point.
proof fn lemma_point_term(d: int, o: int, c: int, t: int)
    requires
        in_range(rdiv(d * t, SCALE as int)),
        in_range(o + rdiv(d * t, SCALE as int)),
        in_range(o + rdiv(d * t, SCALE as int) - c),
    ensures
        ({
            let v = fx_sub(fx_add(o, fx_mul(d, t)), c);
            let x = t * d - SCALE * (c - o);
            let miss = 4 * ((SCALE * v) * (SCALE * v) - x * x);
            let bound = 4 * (SCALE * magnitude(x)) + SCALE * SCALE;
            -bound <= miss <= bound
        }),
{
    let s = SCALE as int;
    let step = rdiv(d * t, s);
    let v = o + step - c;
    let x = t * d - s * (c - o);
    lemma_rdiv_error(d * t, s);
    let e = step * s - d * t;
    assert(s * v == x + e) by (nonlinear_arith)
        requires
            v == o + step - c,
            x == t * d - s * (c - o),
            e == step * s - d * t,
    ;
    lemma_rounded_square(x, e, s);
}

/// The stored normal of a sphere is as long as the hit point is far from
/// the centre, in radii, up to rounding: with `n` the outward normal at `p`
/// and `v` the offset of `p` from the centre, `|n|^2 r^2` differs from
/// `SCALE^2 |v|^2` by at most `SCALE r (|v.x| + |v.y| + |v.z|) + 3 r^2 / 4`,
/// unless the normal is saturated. With `lemma_point_rounding` and
/// `lemma_root_on_sphere` this bounds how far the normal is from unit
/// length; the bound grows as the radius shrinks.
pub proof fn lemma_sphere_normal_length(radius: int, center: V3, p: V3)
    requires
        radius > 0,
        quotient_in_range(v3_sub(p, center), radius),
    ensures
        ({
            let n = sphere_normal(radius, center, p);
            let v = v3_sub(p, center);
            let miss = 4 * (dot_exact(n, n) * (radius * radius) - (SCALE * SCALE) * dot_exact(v, v));
            let bound = 4 * SCALE * l1_norm(v) * radius + 3 * (radius * radius);
            -bound <= miss <= bound
        }),
{
    lemma_quotient_length(v3_sub(p, center), radius);
}

/// The stored normal of a cylinder is as long as the hit point is far from
/// the axis, in radii, up to rounding; see `lemma_sphere_normal_length`.
pub proof fn lemma_cylinder_normal_length(radius: int, center: V3, p: V3)
    requires
        radius > 0,
        quotient_in_range(flat(v3_sub(p, center)), radius),
    ensures
        ({
            let n = cylinder_normal(radius, center, p);
            let v = flat(v3_sub(p, center));
            let miss = 4 * (dot_exact(n, n) * (radius * radius) - (SCALE * SCALE) * dot_exact(v, v));
            let bound = 4 * SCALE * l1_norm(v) * radius + 3 * (radius * radius);
            -bound <= miss <= bound
        }),
{
    let v = flat(v3_sub(p, center));
    lemma_quotient_length(v, radius);
    lemma_fx_div_zero(radius);
    assert(cylinder_normal(radius, center, p) == v3_div(v, radius));
}

/// One component of the stored normal against the direction of the ray:
/// with `n` the component of the normal, `d (n r)` differs from `d` times
/// the component of the reach by at most `|d| (SCALE + r) / 2`.
proof fn lemma_face_term(d: int, o: int, c: int, t: int, r: int)
    requires
        r > 0,
        in_range(rdiv(d * t, SCALE as int)),
        in_range(o + rdiv(d * t, SCALE as int)),
        in_range(o + rdiv(d * t, SCALE as int) - c),
        in_range(rdiv((o + rdiv(d * t, SCALE as int) - c) * SCALE, r)),
    ensures
        ({
            let n = fx_div(fx_sub(fx_add(o, fx_mul(d, t)), c), r);
            let x = t * d - SCALE * (c - o);
            let miss = 2 * (d * (n * r) - d * x);
            let bound = magnitude(d) * (SCALE + r);
            -bound <= miss <= bound
        }),
{
    let s = SCALE as int;
    let step = rdiv(d * t, s);
    let v = o + step - c;
    let n = rdiv(v * s, r);
    let x = t * d - s * (c - o);
    lemma_rdiv_error(d * t, s);
    lemma_rdiv_error(v * s, r);
    let f = step * s - d * t;
    let e = n * r - v * s;
    assert(n * r == x + (f + e)) by (nonlinear_arith)
        requires
            v == o + step - c,
            x == t * d - s * (c - o),
            f == step * s - d * t,
            e == n * r - v * s,
    ;
    let g = f + e;
    let m = magnitude(d);
    assert(d * (n * r) - d * x == d * g) by (nonlinear_arith)
        requires
            n * r == x + g,
    ;
    assert(-(m * (s + r)) <= 2 * (d * g) <= m * (s + r)) by (nonlinear_arith)
        requires
            m == magnitude(d),
            -(s + r) <= 2 * g <= s + r,
    ;
}

/// `d (n r) = r (d n)` and `d (t d - s c) = t (d d) - s (d c)`.
proof fn lemma_facing_term(d: int, n: int, c: int, t: int, r: int, s: int)
    by (nonlinear_arith)
    ensures
        d * (n * r) == r * (d * n),
        d * (t * d - s * c) == t * (d * d) - s * (d * c),
{
}

/// Whether the hit of a sphere at the raw parameter `t` is computed
/// without saturation.
pub open spec fn hit_in_range(radius: int, center: V3, ray: RayModel, t: int) -> bool {
    point_in_range(ray, center, t) && quotient_in_range(
        v3_sub(ray_at(ray, t), center),
        radius,
    )
}

/// The direction of the ray against the stored outward normal of a sphere
/// at the raw parameter `t`: `r (d . n)` differs from `t a - SCALE h` by at
/// most `(SCALE + r) (|d.x| + |d.y| + |d.z|) / 2`.
pub proof fn lemma_facing(radius: int, center: V3, ray: RayModel, t: int)
    requires
        radius > 0,
        hit_in_range(radius, center, ray, t),
    ensures
        ({
            let q = sphere_quadratic(radius, center, ray);
            let n = sphere_normal(radius, center, ray_at(ray, t));
            let miss = 2 * (radius * dot_exact(ray.direction, n) - (t * q.a - SCALE * q.h));
            let bound = (SCALE + radius) * l1_norm(ray.direction);
            -bound <= miss <= bound
        }),
{
    let d = ray.direction;
    let o = ray.origin;
    let s = SCALE as int;
    let r = radius;
    let q = sphere_quadratic(radius, center, ray);
    let n = sphere_normal(radius, center, ray_at(ray, t));
    let oc = offset(center, o);
    lemma_face_term(d.x, o.x, center.x, t, r);
    lemma_face_term(d.y, o.y, center.y, t, r);
    lemma_face_term(d.z, o.z, center.z, t, r);
    lemma_facing_term(d.x, n.x, oc.x, t, r, s);
    lemma_facing_term(d.y, n.y, oc.y, t, r, s);
    lemma_facing_term(d.z, n.z, oc.z, t, r, s);
    lemma_mul_sum3(r, d.x * n.x, d.y * n.y, d.z * n.z);
    lemma_mul_sum3(t, d.x * d.x, d.y * d.y, d.z * d.z);
    lemma_mul_sum3(s, d.x * oc.x, d.y * oc.y, d.z * oc.z);
    lemma_mul_sum3(s + r, magnitude(d.x), magnitude(d.y), magnitude(d.z));
    assert((s + r) * magnitude(d.x) == magnitude(d.x) * (s + r) && (s + r) * magnitude(d.y)
        == magnitude(d.y) * (s + r) && (s + r) * magnitude(d.z) == magnitude(d.z) * (s + r))
        by (nonlinear_arith);
}

/// A hit at the nearer root strikes the sphere from outside, and one at
/// the farther root from inside, unless the ray only grazes the sphere:
/// the root of the discriminant must exceed what rounding can change.
pub proof fn lemma_root_faces(radius: int, center: V3, ray: RayModel, far: bool)
    requires
        radius > 0,
        solvable(sphere_quadratic(radius, center, ray)),
        hit_in_range(
            radius,
            center,
            ray,
            if far {
                far_root(sphere_quadratic(radius, center, ray))
            } else {
                near_root(sphere_quadratic(radius, center, ray))
            },
        ),
        2 * (SCALE * isqrt(discriminant(sphere_quadratic(radius, center, ray))))
            > sphere_quadratic(radius, center, ray).a + (SCALE + radius) * l1_norm(ray.direction),
    ensures
        ({
            let q = sphere_quadratic(radius, center, ray);
            let t = if far {
                far_root(q)
            } else {
                near_root(q)
            };
            faces_front(ray.direction, sphere_normal(radius, center, ray_at(ray, t))) == !far
        }),
{
    let q = sphere_quadratic(radius, center, ray);
    let s = SCALE as int;
    let d = ray.direction;
    assert(d.x * d.x >= 0 && d.y * d.y >= 0 && d.z * d.z >= 0) by (nonlinear_arith);
    let root = isqrt(discriminant(q));
    let t = if far {
        far_root(q)
    } else {
        near_root(q)
    };
    let aim = if far {
        s * (q.h + root)
    } else {
        s * (q.h - root)
    };
    lemma_rdiv_error(aim, q.a);
    lemma_facing(radius, center, ray, t);
    let sr = s * root;
    assert(aim == if far {
        s * q.h + sr
    } else {
        s * q.h - sr
    }) by (nonlinear_arith)
        requires
            aim == if far {
                s * (q.h + root)
            } else {
                s * (q.h - root)
            },
            sr == s * root,
    ;
    let n = sphere_normal(radius, center, ray_at(ray, t));
    let facing = dot_exact(d, n);
    if far {
        assert(facing > 0) by (nonlinear_arith)
            requires
                2 * (radius * facing) > 0,
                radius > 0,
        ;
    } else {
        assert(facing < 0) by (nonlinear_arith)
            requires
                2 * (radius * facing) < 0,
                radius > 0,
        ;
    }
}

/// The smaller root is not above the larger one.
pub proof fn lemma_roots_ordered(d: V3, oc: V3, radius: int)
    requires
        solvable(quadratic_of(d, oc, radius)),
    ensures
        near_root(quadratic_of(d, oc, radius)) <= far_root(quadratic_of(d, oc, radius)),
{
    let q = quadratic_of(d, oc, radius);
    assert(d.x * d.x >= 0 && d.y * d.y >= 0 && d.z * d.z >= 0) by (nonlinear_arith);
    lemma_isqrt(discriminant(q));
    let sq = isqrt(discriminant(q));
    lemma_rdiv_monotonic(SCALE * (q.h - sq), SCALE * (q.h + sq), q.a);
}

/// What is left of the hit `full` when the search stops at `hi`: the same
/// hit if it lies within the bound, none otherwise.
pub open spec fn within(full: Option<HitModel>, hi: int) -> Option<HitModel> {
    match full {
        Some(h) => if h.t <= hi {
            Some(h)
        } else {
            None
        },
        None => None,
    }
}

/// Searching a shorter interval finds the hit of the longer one if it lies
/// in the shorter one, and nothing otherwise.
pub proof fn lemma_shorter_search(o: ObjectModel, ray: RayModel, lo: int, hi: int, shorter: int)
    requires
        shorter <= hi,
    ensures
        object_hit(o, ray, lo, shorter) == within(object_hit(o, ray, lo, hi), shorter),
{
    match o {
        ObjectModel::Sphere { radius, center, material } => {
            if solvable(sphere_quadratic(radius, center, ray)) {
                lemma_roots_ordered(ray.direction, offset(center, ray.origin), radius);
            }
        },
        ObjectModel::Cylinder { radius, center, height, material } => {
            if solvable(cylinder_quadratic(radius, center, ray)) {
                lemma_roots_ordered(flat(ray.direction), flat(offset(center, ray.origin)), radius);
            }
        },
    }
}

/// The model of an optional hit record.
pub open spec fn hit_model(r: Option<HitRecord>) -> Option<HitModel> {
    match r {
        Some(rec) => Some(rec@),
        None => None,
    }
}

/// Another handle to the same material.
///
/// Calls `Arc::clone`, which makes a new pointer to the same allocation and
/// so to the same value.
#[verifier::external_body]
fn share(material: &Arc<Material>) -> (r: Arc<Material>)
    ensures
        r == *material,
{
    Arc::clone(material)
}

/// The two roots of a quadratic, as wide raw counts.
struct Roots {
    near: i128,
    far: i128,
}

/// Solves the quadratic of a ray with direction `d` and a centre at `oc`
/// from its origin.
fn solve(d: (i64, i64, i64), oc: (i64, i64, i64), radius: i64) -> (r: Option<Roots>)
    requires
        -LIMIT <= d.0 <= LIMIT,
        -LIMIT <= d.1 <= LIMIT,
        -LIMIT <= d.2 <= LIMIT,
        -2 * LIMIT <= oc.0 <= 2 * LIMIT,
        -2 * LIMIT <= oc.1 <= 2 * LIMIT,
        -2 * LIMIT <= oc.2 <= 2 * LIMIT,
        0 <= radius <= LIMIT,
    ensures
        ({
            let q = quadratic_of(
                V3 { x: d.0 as int, y: d.1 as int, z: d.2 as int },
                V3 { x: oc.0 as int, y: oc.1 as int, z: oc.2 as int },
                radius as int,
            );
            match r {
                Some(roots) => solvable(q) && roots.near == near_root(q) && roots.far == far_root(
                    q,
                ),
                None => !solvable(q),
            }
        }),
{
    proof {
        lemma_mul_bounds(d.0 as int, d.0 as int, 1_000_000_000, 1_000_000_000);
        lemma_mul_bounds(d.1 as int, d.1 as int, 1_000_000_000, 1_000_000_000);
        lemma_mul_bounds(d.2 as int, d.2 as int, 1_000_000_000, 1_000_000_000);
        lemma_mul_bounds(d.0 as int, oc.0 as int, 1_000_000_000, 2_000_000_000);
        lemma_mul_bounds(d.1 as int, oc.1 as int, 1_000_000_000, 2_000_000_000);
        lemma_mul_bounds(d.2 as int, oc.2 as int, 1_000_000_000, 2_000_000_000);
        lemma_mul_bounds(oc.0 as int, oc.0 as int, 2_000_000_000, 2_000_000_000);
        lemma_mul_bounds(oc.1 as int, oc.1 as int, 2_000_000_000, 2_000_000_000);
        lemma_mul_bounds(oc.2 as int, oc.2 as int, 2_000_000_000, 2_000_000_000);
        lemma_mul_bounds(radius as int, radius as int, 1_000_000_000, 1_000_000_000);
    }
    let a = wide_dot(d.0, d.1, d.2, d.0, d.1, d.2);
    let h = wide_dot(d.0, d.1, d.2, oc.0, oc.1, oc.2);
    let c = wide_dot(oc.0, oc.1, oc.2, oc.0, oc.1, oc.2) - wide_mul(radius, radius);
    proof {
        lemma_mul_bounds(
            h as int,
            h as int,
            6_000_000_000_000_000_000,
            6_000_000_000_000_000_000,
        );
        lemma_mul_bounds(
            a as int,
            c as int,
            3_000_000_000_000_000_000,
            13_000_000_000_000_000_000,
        );
    }
    let disc = wide_mul(h as i64, h as i64) - a * c;
    if a == 0 || disc < 0 {
        return None;
    }
    let sqrtd = wide_isqrt(disc as u128) as i128;
    let near = wide_rdiv(100_000 * (h - sqrtd), a);
    let far = wide_rdiv(100_000 * (h + sqrtd), a);
    Some(Roots { near, far })
}

/// The closed set of primitives: a sphere, and the side of an upright
/// cylinder without its end caps.
#[derive(Debug, Clone)]
pub enum SceneObject {
    Sphere { radius: Fixed, center: Point3, material: Arc<Material> },
    Cylinder { radius: Fixed, center: Point3, height: Fixed, material: Arc<Material> },
}

impl View for SceneObject {
    type V = ObjectModel;

    open spec fn view(&self) -> ObjectModel {
        match *self {
            SceneObject::Sphere { radius, center, material } => ObjectModel::Sphere {
                radius: radius@,
                center: center@,
                material: material@,
            },
            SceneObject::Cylinder { radius, center, height, material } => ObjectModel::Cylinder {
                radius: radius@,
                center: center@,
                height: height@,
                material: material@,
            },
        }
    }
}

/// The raw counts of a vector, widened.
fn widened(v: Vec3) -> (r: (i64, i64, i64))
    ensures
        r.0 == v@.x,
        r.1 == v@.y,
        r.2 == v@.z,
        -LIMIT <= r.0 <= LIMIT,
        -LIMIT <= r.1 <= LIMIT,
        -LIMIT <= r.2 <= LIMIT,
{
    (v.x.raw() as i64, v.y.raw() as i64, v.z.raw() as i64)
}

impl SceneObject {
    /// Whether the primitive is well formed.
    pub fn is_valid(&self) -> (r: bool)
        ensures
            r == object_wf(self@),
    {
        match self {
            SceneObject::Sphere { radius, center, material } => radius.raw() > 0
                && material.is_valid(),
            SceneObject::Cylinder { radius, center, height, material } => radius.raw() > 0
                && height.raw() > 0 && material.is_valid(),
        }
    }

    #[inline]
    fn hit_sphere(radius: Fixed, center: Point3, ray: &Ray, ray_t: Interval, material: &Arc<
        Material,
    >) -> (r: Option<HitRecord>)
        requires
            radius@ > 0,
        ensures
            hit_model(r) == sphere_hit(radius@, center@, material@, ray@, ray_t.min@, ray_t.max@),
    {
        let d = widened(ray.direction());
        let o = widened(ray.origin());
        let c = widened(center);
        let roots = match solve(d, (c.0 - o.0, c.1 - o.1, c.2 - o.2), radius.raw() as i64) {
            Some(roots) => roots,
            None => { return None; },
        };

        let mut root = roots.near;
        if ray_t.surrounds_wide(root) {
            root = roots.far;
            if ray_t.surrounds_wide(root) {
                return None;
            }
        }
        let t = Fixed::saturating(root);
        let p = ray.at(t);
        let outward_normal = (p - center) / radius;
        let mut rec = HitRecord {
            p,
            normal: outward_normal,
            t,
            front_face: false,
            material: share(material),
        };
        rec.set_face_normal(ray, outward_normal);
        Some(rec)
    }

    #[inline]
    fn hit_cylinder(
        radius: Fixed,
        center: Point3,
        height: Fixed,
        ray: &Ray,
        ray_t: Interval,
        material: &Arc<Material>,
    ) -> (r: Option<HitRecord>)
        requires
            radius@ > 0,
        ensures
            hit_model(r) == cylinder_hit(
                radius@,
                center@,
                height@,
                material@,
                ray@,
                ray_t.min@,
                ray_t.max@,
            ),
    {
        let d = widened(ray.direction());
        let o = widened(ray.origin());
        let c = widened(center);
        let roots = match solve((d.0, 0, d.2), (c.0 - o.0, 0, c.2 - o.2), radius.raw() as i64) {
            Some(roots) => roots,
            None => { return None; },
        };

        let half_height = height / Fixed::from_int(2);
        let y_min = center.y - half_height;
        let y_max = center.y + half_height;

        let mut root = roots.near;
        let mut found: Option<(Fixed, Point3)> = None;
        if !ray_t.surrounds_wide(root) {
            let t = Fixed::saturating(root);
            let hit_point = ray.at(t);
            if hit_point.y.raw() >= y_min.raw() && hit_point.y.raw() <= y_max.raw() {
                found = Some((t, hit_point));
            }
        }
        if found.is_none() {
            root = roots.far;
            if !ray_t.surrounds_wide(root) {
                let t = Fixed::saturating(root);
                let hit_point = ray.at(t);
                if hit_point.y.raw() >= y_min.raw() && hit_point.y.raw() <= y_max.raw() {
                    found = Some((t, hit_point));
                }
            }
        }
        let (t, p) = match found {
            Some(hit) => hit,
            None => { return None; },
        };

        let outward_normal = Vec3::new(
            (p.x - center.x) / radius,
            Fixed::zero(),
            (p.z - center.z) / radius,
        );
        let mut rec = HitRecord {
            p,
            normal: outward_normal,
            t,
            front_face: false,
            material: share(material),
        };
        rec.set_face_normal(ray, outward_normal);
        Some(rec)
    }

    /// The intersection of `r` with the primitive at a parameter that
    /// `interval` accepts, or `None` if there is none.
    #[inline]
    pub fn hit(&self, r: &Ray, interval: Interval) -> (rec: Option<HitRecord>)
        requires
            object_wf(self@),
        ensures
            hit_model(rec) == object_hit(self@, r@, interval.min@, interval.max@),
            rec matches Some(h) ==> dot_exact(r@.direction, h@.normal) <= 0,
            rec matches Some(h) ==> interval.min@ <= h@.t <= interval.max@,
    {
        let rec = match self {
            SceneObject::Sphere { radius, center, material } => {
                SceneObject::hit_sphere(*radius, *center, r, interval, material)
            },
            SceneObject::Cylinder { radius, center, height, material } => {
                SceneObject::hit_cylinder(*radius, *center, *height, r, interval, material)
            },
        };
        proof {
            lemma_hit_opposes(self@, r@, interval.min@, interval.max@);
        }
        rec
    }
}

} // verus!
