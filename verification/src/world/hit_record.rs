//! The record of an intersection.
use crate::fixed::Fixed;
use crate::ray::Ray;
use crate::vec3::{dot_exact, v3_neg, Point3, Vec3, V3};
use crate::world::material::{Material, MaterialModel};
use std::sync::Arc;
use vstd::prelude::*;

verus! {

/// Model of a hit record.
pub struct HitModel {
    pub p: V3,
    pub normal: V3,
    pub t: int,
    pub front_face: bool,
    pub material: MaterialModel,
}

/// Whether a ray with this direction strikes a surface with this outward
/// normal from outside.
pub open spec fn faces_front(direction: V3, outward_normal: V3) -> bool {
    dot_exact(direction, outward_normal) < 0
}

/// The outward normal, turned against the ray.
pub open spec fn face_normal(direction: V3, outward_normal: V3) -> V3 {
    if faces_front(direction, outward_normal) {
        outward_normal
    } else {
        v3_neg(outward_normal)
    }
}

/// The stored normal never points along the ray.
pub proof fn lemma_face_normal_opposes(direction: V3, outward_normal: V3)
    ensures
        dot_exact(direction, face_normal(direction, outward_normal)) <= 0,
{
    let n = outward_normal;
    assert(direction.x * (-n.x) + direction.y * (-n.y) + direction.z * (-n.z) == -(direction.x
        * n.x + direction.y * n.y + direction.z * n.z)) by (nonlinear_arith);
}

/// Where a ray met a surface: the point, the unit normal turned against
/// the ray, the ray parameter, the side that was struck, and a handle to
/// the material of the surface.
#[derive(Debug, Clone)]
pub struct HitRecord {
    pub p: Point3,
    pub normal: Vec3,
    pub t: Fixed,
    pub front_face: bool,
    pub material: Arc<Material>,
}

impl View for HitRecord {
    type V = HitModel;

    open spec fn view(&self) -> HitModel {
        HitModel {
            p: self.p@,
            normal: self.normal@,
            t: self.t@,
            front_face: self.front_face,
            material: self.material@,
        }
    }
}

impl Default for HitRecord {
    /// A record of no hit: at the origin, at parameter zero, with no
    /// normal, on a surface that reflects nothing.
    fn default() -> (r: HitRecord)
        ensures
            r.p@ == (V3 { x: 0, y: 0, z: 0 }),
            r.normal@ == (V3 { x: 0, y: 0, z: 0 }),
            r.t@ == 0,
            !r.front_face,
            r.material@ == (MaterialModel::Lambertian { albedo: V3 { x: 0, y: 0, z: 0 } }),
    {
        HitRecord {
            p: Point3::default(),
            normal: Vec3::default(),
            t: Fixed::zero(),
            front_face: false,
            material: Arc::new(Material::default()),
        }
    }
}

impl HitRecord {
    /// Records the side that `ray` struck and stores the normal turned
    /// against it.
    pub fn set_face_normal(&mut self, ray: &Ray, outward_normal: Vec3)
        ensures
            final(self).front_face == faces_front(ray@.direction, outward_normal@),
            final(self).normal@ == face_normal(ray@.direction, outward_normal@),
            dot_exact(ray@.direction, final(self).normal@) <= 0,
            final(self).p == old(self).p,
            final(self).t == old(self).t,
            final(self).material == old(self).material,
    {
        self.front_face = Vec3::dot_wide(ray.direction(), outward_normal) < 0;
        self.normal = if self.front_face {
            outward_normal
        } else {
            outward_normal.negated()
        };
        proof {
            lemma_face_normal_opposes(ray@.direction, outward_normal@);
        }
    }
}

} // verus!
