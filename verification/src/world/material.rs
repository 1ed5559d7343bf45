//! Materials: how a surface scatters the light that strikes it.
use crate::color3::Color3;
use crate::fixed::{
    fx_add, fx_div, fx_min, fx_mul, fx_sqrt, fx_sub, lemma_fx_div_zero, lemma_fx_mul_one,
    lemma_fx_mul_zero, lemma_isqrt_unique, Fixed, SCALE,
};
use crate::ray::{Ray, RayModel};
use crate::sampler::{next_seed, Sampler};
use crate::utils::helpers::{random_f32, unit_draw};
use crate::vec3::{
    unit_vector_draw, v3_add, v3_dot, v3_neg, v3_reflect, v3_refract, v3_scale, v3_unit, Vec3,
    MAX_ATTEMPTS, V3,
};
use crate::world::hit_record::{HitModel, HitRecord};
use vstd::prelude::*;

verus! {

/// Model of a material.
pub enum MaterialModel {
    Lambertian { albedo: V3 },
    Metal { albedo: V3, fuzz: int },
    Dielectric { refraction_index: int },
}

/// Whether every channel lies in `[0, 1]`.
pub open spec fn is_color(c: V3) -> bool {
    0 <= c.x <= SCALE && 0 <= c.y <= SCALE && 0 <= c.z <= SCALE
}

/// Whether a material is well formed: an albedo is a colour, a fuzz lies in
/// `[0, 1)`, a refraction index is positive.
pub open spec fn material_wf(m: MaterialModel) -> bool {
    match m {
        MaterialModel::Lambertian { albedo } => is_color(albedo),
        MaterialModel::Metal { albedo, fuzz } => is_color(albedo) && 0 <= fuzz < SCALE,
        MaterialModel::Dielectric { refraction_index } => refraction_index > 0,
    }
}

/// Model of a scattering: the colour factor and the outgoing ray.
pub struct Scattering {
    pub attenuation: V3,
    pub ray: RayModel,
}

/// Diffuse scattering: the outgoing ray leaves the hit point along the
/// normal plus a random unit vector. With the ray, the seed left.
pub open spec fn lambertian_ray(hit: HitModel, seed: u64) -> (RayModel, u64) {
    let (u, after) = unit_vector_draw(seed, MAX_ATTEMPTS as nat);
    (RayModel { origin: hit.p, direction: v3_add(hit.normal, u) }, after)
}

/// Reflective scattering: the outgoing ray leaves the hit point in the
/// mirror direction, perturbed by `fuzz` times a random unit vector. With
/// the ray, the seed left.
pub open spec fn metal_ray(fuzz: int, ray: RayModel, hit: HitModel, seed: u64) -> (RayModel, u64) {
    let (u, after) = unit_vector_draw(seed, MAX_ATTEMPTS as nat);
    (
        RayModel {
            origin: hit.p,
            direction: v3_add(v3_reflect(ray.direction, hit.normal), v3_scale(u, fuzz)),
        },
        after,
    )
}

/// Reflectance at normal incidence between media of indices `n1` and `n2`:
/// `((n1 - n2) / (n1 + n2))^2`.
pub open spec fn schlick_r0(n1: int, n2: int) -> int {
    let q = fx_div(fx_sub(n1, n2), fx_add(n1, n2));
    fx_mul(q, q)
}

/// Fifth power of a scalar.
pub open spec fn fx_pow5(x: int) -> int {
    let x2 = fx_mul(x, x);
    fx_mul(fx_mul(x2, x2), x)
}

/// Schlick's approximation of the reflectance at an incidence of cosine
/// `cos_theta`: `r0 + (1 - r0) (1 - cos_theta)^5`.
pub open spec fn reflectance(n1: int, n2: int, cos_theta: int) -> int {
    let r0 = schlick_r0(n1, n2);
    fx_add(r0, fx_mul(fx_sub(SCALE as int, r0), fx_pow5(fx_sub(SCALE as int, cos_theta))))
}

/// Sine of the angle whose cosine is `cos_theta`.
pub open spec fn sine_of(cos_theta: int) -> int {
    fx_sqrt(fx_sub(SCALE as int, fx_mul(cos_theta, cos_theta)))
}

/// Total internal reflection: Snell's law has no solution when
/// `(n1 / n2) sin(theta) > 1`.
pub open spec fn cannot_refract(n1: int, n2: int, cos_theta: int) -> bool {
    fx_div(fx_mul(sine_of(cos_theta), n1), n2) > SCALE
}

/// Index of the medium that a ray leaves at a hit.
pub open spec fn source_index(refraction_index: int, front_face: bool) -> int {
    if front_face {
        SCALE as int
    } else {
        refraction_index
    }
}

/// Index of the medium that a ray enters at a hit.
pub open spec fn dest_index(refraction_index: int, front_face: bool) -> int {
    if front_face {
        refraction_index
    } else {
        SCALE as int
    }
}

/// Cosine of the angle of incidence, capped at one.
pub open spec fn incidence_cosine(direction: V3, normal: V3) -> int {
    fx_min(v3_dot(v3_neg(v3_unit(direction)), normal), SCALE as int)
}

/// Refractive scattering: the ray is reflected if it cannot refract or if
/// the reflectance exceeds a uniform draw, and refracted otherwise. The draw
/// is made only when the ray can refract. With the ray, the seed left.
pub open spec fn dielectric_ray(refraction_index: int, ray: RayModel, hit: HitModel, seed: u64) -> (
    RayModel,
    u64,
) {
    let n1 = source_index(refraction_index, hit.front_face);
    let n2 = dest_index(refraction_index, hit.front_face);
    let unit = v3_unit(ray.direction);
    let cos_theta = incidence_cosine(ray.direction, hit.normal);
    if cannot_refract(n1, n2, cos_theta) {
        (RayModel { origin: hit.p, direction: v3_reflect(unit, hit.normal) }, seed)
    } else if reflectance(n1, n2, cos_theta) > unit_draw(seed) {
        (RayModel { origin: hit.p, direction: v3_reflect(unit, hit.normal) }, next_seed(seed))
    } else {
        (
            RayModel { origin: hit.p, direction: v3_refract(unit, hit.normal, n1, n2) },
            next_seed(seed),
        )
    }
}

/// What a material makes of a ray that hit it, and the seed left after the
/// draws that it took. A diffuse or reflective surface tints the light by
/// its albedo; a refractive one lets all of it pass.
pub open spec fn scatter_model(m: MaterialModel, ray: RayModel, hit: HitModel, seed: u64) -> (
    Scattering,
    u64,
) {
    match m {
        MaterialModel::Lambertian { albedo } => (
            Scattering { attenuation: albedo, ray: lambertian_ray(hit, seed).0 },
            lambertian_ray(hit, seed).1,
        ),
        MaterialModel::Metal { albedo, fuzz } => (
            Scattering { attenuation: albedo, ray: metal_ray(fuzz, ray, hit, seed).0 },
            metal_ray(fuzz, ray, hit, seed).1,
        ),
        MaterialModel::Dielectric { refraction_index } => (
            Scattering {
                attenuation: V3 { x: SCALE as int, y: SCALE as int, z: SCALE as int },
                ray: dielectric_ray(refraction_index, ray, hit, seed).0,
            },
            dielectric_ray(refraction_index, ray, hit, seed).1,
        ),
    }
}

/// At normal incidence nothing is reflected totally, and Schlick's
/// approximation is the reflectance at normal incidence itself.
pub proof fn lemma_normal_incidence(n1: int, n2: int)
    requires
        n2 != 0,
    ensures
        !cannot_refract(n1, n2, SCALE as int),
        reflectance(n1, n2, SCALE as int) == schlick_r0(n1, n2),
{
    lemma_fx_mul_one(SCALE as int);
    lemma_isqrt_unique(0, 0);
    assert(0 * SCALE == 0);
    assert(sine_of(SCALE as int) == 0);
    lemma_fx_mul_zero(n1);
    lemma_fx_div_zero(n2);
    lemma_fx_mul_zero(0);
    lemma_fx_mul_zero(fx_sub(SCALE as int, schlick_r0(n1, n2)));
    assert(fx_pow5(0) == 0);
}

/// A diffuse surface always scatters: it tints the light by its albedo and
/// sends it on from the hit point.
pub proof fn lemma_lambertian_scatters(albedo: V3, ray: RayModel, hit: HitModel, seed: u64)
    ensures
        scatter_model(MaterialModel::Lambertian { albedo }, ray, hit, seed).0.attenuation == albedo,
        scatter_model(MaterialModel::Lambertian { albedo }, ray, hit, seed).0.ray.origin == hit.p,
{
}

/// The closed set of materials: diffuse, reflective with fuzz, refractive.
#[derive(Debug, Clone, Copy)]
pub enum Material {
    Lambertian { albedo: Color3 },
    Metal { albedo: Color3, fuzz: Fixed },
    Dielectric { refraction_index: Fixed },
}

impl View for Material {
    type V = MaterialModel;

    open spec fn view(&self) -> MaterialModel {
        match *self {
            Material::Lambertian { albedo } => MaterialModel::Lambertian { albedo: albedo@ },
            Material::Metal { albedo, fuzz } => MaterialModel::Metal {
                albedo: albedo@,
                fuzz: fuzz@,
            },
            Material::Dielectric { refraction_index } => MaterialModel::Dielectric {
                refraction_index: refraction_index@,
            },
        }
    }
}

/// Model of the outcome of `Material::scatter`.
pub open spec fn scattering_of(r: (Color3, Ray)) -> Scattering {
    Scattering { attenuation: r.0@, ray: r.1@ }
}

impl Material {
    /// Whether the material is well formed.
    pub fn is_valid(&self) -> (r: bool)
        ensures
            r == material_wf(self@),
    {
        match *self {
            Material::Lambertian { albedo } => Material::channel_ok(albedo),
            Material::Metal { albedo, fuzz } => Material::channel_ok(albedo) && 0 <= fuzz.raw()
                && fuzz.raw() < SCALE,
            Material::Dielectric { refraction_index } => refraction_index.raw() > 0,
        }
    }

    fn channel_ok(c: Color3) -> (r: bool)
        ensures
            r == is_color(c@),
    {
        0 <= c.x.raw() && c.x.raw() <= SCALE && 0 <= c.y.raw() && c.y.raw() <= SCALE && 0
            <= c.z.raw() && c.z.raw() <= SCALE
    }

    /// Scatters `ray` at the hit `hit_rec`: the colour factor and the
    /// outgoing ray, or `None` if the ray is absorbed. None of the three
    /// materials absorbs.
    #[inline]
    pub fn scatter(&self, ray: &Ray, hit_rec: &HitRecord, rng: &mut Sampler) -> (r: Option<
        (Color3, Ray),
    >)
        requires
            material_wf(self@),
        ensures
            r matches Some(out) && scattering_of(out) == scatter_model(
                self@,
                ray@,
                hit_rec@,
                old(rng)@,
            ).0,
            final(rng)@ == scatter_model(self@, ray@, hit_rec@, old(rng)@).1,
    {
        match *self {
            Material::Lambertian { albedo } => {
                let scattered = Material::scatter_lambertian(hit_rec, rng);
                Some((albedo, scattered))
            },
            Material::Metal { albedo, fuzz } => {
                let scattered = Material::scatter_metal(ray, hit_rec, fuzz, rng);
                Some((albedo, scattered))
            },
            Material::Dielectric { refraction_index } => {
                let scattered = Material::scatter_dielectric(ray, hit_rec, refraction_index, rng);
                Some((Color3::new(Fixed::one(), Fixed::one(), Fixed::one()), scattered))
            },
        }
    }

    #[inline]
    fn scatter_lambertian(hit_rec: &HitRecord, rng: &mut Sampler) -> (r: Ray)
        ensures
            r@ == lambertian_ray(hit_rec@, old(rng)@).0,
            final(rng)@ == lambertian_ray(hit_rec@, old(rng)@).1,
    {
        let dir = hit_rec.normal + Vec3::random_unit_vector(rng);
        Ray::new(hit_rec.p, dir)
    }

    #[inline]
    fn scatter_metal(ray: &Ray, hit_rec: &HitRecord, fuzz: Fixed, rng: &mut Sampler) -> (r: Ray)
        ensures
            r@ == metal_ray(fuzz@, ray@, hit_rec@, old(rng)@).0,
            final(rng)@ == metal_ray(fuzz@, ray@, hit_rec@, old(rng)@).1,
    {
        let mut dir = Vec3::reflect(ray.direction(), hit_rec.normal);
        dir = dir + (fuzz * Vec3::random_unit_vector(rng));
        Ray::new(hit_rec.p, dir)
    }

    /// Schlick's approximation of the reflectance.
    pub fn reflectance(n1: Fixed, n2: Fixed, cos_theta: Fixed) -> (r: Fixed)
        requires
            fx_add(n1@, n2@) != 0,
        ensures
            r@ == reflectance(n1@, n2@, cos_theta@),
    {
        let q = (n1 - n2) / (n1 + n2);
        let r0 = q * q;
        let x = Fixed::one() - cos_theta;
        let x2 = x * x;
        r0 + (Fixed::one() - r0) * (x2 * x2 * x)
    }

    #[inline]
    fn scatter_dielectric(
        ray: &Ray,
        hit_rec: &HitRecord,
        refraction_index: Fixed,
        rng: &mut Sampler,
    ) -> (r: Ray)
        requires
            refraction_index@ > 0,
        ensures
            r@ == dielectric_ray(refraction_index@, ray@, hit_rec@, old(rng)@).0,
            final(rng)@ == dielectric_ray(refraction_index@, ray@, hit_rec@, old(rng)@).1,
    {
        let source_medium_ref_index = if hit_rec.front_face {
            Fixed::one()
        } else {
            refraction_index
        };
        let dest_medium_ref_index = if hit_rec.front_face {
            refraction_index
        } else {
            Fixed::one()
        };

        let unit_vector = Vec3::unit(ray.direction());
        let cos_theta = Vec3::dot_product(unit_vector.negated(), hit_rec.normal).min(Fixed::one());
        let sin_theta = (Fixed::one() - cos_theta * cos_theta).sqrt();
        let cannot_refract = (sin_theta * source_medium_ref_index / dest_medium_ref_index).raw()
            > SCALE;

        let direction = if cannot_refract || Material::reflectance(
            source_medium_ref_index,
            dest_medium_ref_index,
            cos_theta,
        ).raw() > random_f32(rng).raw() {
            Vec3::reflect(unit_vector, hit_rec.normal)
        } else {
            Vec3::refract(
                unit_vector,
                hit_rec.normal,
                source_medium_ref_index,
                dest_medium_ref_index,
            )
        };
        Ray::new(hit_rec.p, direction)
    }
}

impl Default for Material {
    /// A diffuse surface that reflects nothing.
    fn default() -> (r: Material)
        ensures
            r@ == (MaterialModel::Lambertian { albedo: V3 { x: 0, y: 0, z: 0 } }),
    {
        Material::Lambertian { albedo: Color3::new(Fixed::zero(), Fixed::zero(), Fixed::zero()) }
    }
}

} // verus!
