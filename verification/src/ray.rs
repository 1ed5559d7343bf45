//! Rays: a point of origin and a direction.
use crate::fixed::Fixed;
use crate::vec3::{v3_add, v3_scale, Point3, V3};
use vstd::prelude::*;

verus! {

/// Model of a ray.
pub struct RayModel {
    pub origin: V3,
    pub direction: V3,
}

/// The point of the ray at parameter `t`: `origin + t * direction`.
pub open spec fn ray_at(ray: RayModel, t: int) -> V3 {
    v3_add(ray.origin, v3_scale(ray.direction, t))
}

/// The half-line `origin + t * direction`.
#[derive(Debug, Clone, Copy)]
pub struct Ray {
    origin: Point3,
    direction: Point3,
}

impl View for Ray {
    type V = RayModel;

    closed spec fn view(&self) -> RayModel {
        RayModel { origin: self.origin@, direction: self.direction@ }
    }
}

impl Ray {
    pub fn new(ori: Point3, dir: Point3) -> (r: Ray)
        ensures
            r@ == (RayModel { origin: ori@, direction: dir@ }),
    {
        Ray { origin: ori, direction: dir }
    }

    pub fn at(&self, t: Fixed) -> (r: Point3)
        ensures
            r@ == ray_at(self@, t@),
    {
        self.origin + t * self.direction
    }

    pub fn origin(&self) -> (r: Point3)
        ensures
            r@ == self@.origin,
    {
        self.origin
    }

    pub fn direction(&self) -> (r: Point3)
        ensures
            r@ == self@.direction,
    {
        self.direction
    }
}

impl Default for Ray {
    /// The ray from the origin with no direction.
    fn default() -> (r: Ray)
        ensures
            r@.origin == (V3 { x: 0, y: 0, z: 0 }),
            r@.direction == (V3 { x: 0, y: 0, z: 0 }),
    {
        Ray { origin: Point3::default(), direction: Point3::default() }
    }
}

} // verus!
