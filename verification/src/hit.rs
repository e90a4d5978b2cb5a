use vstd::prelude::*;

use crate::material::Material;
use crate::ray::{dot, Ray};
use crate::vector3d::{dot_spec, in_range, neg_spec, Point, Vector3D, VEC_MUL_BOUND};

verus! {

/// One ray-geometry intersection: produced by a hittable object and consumed
/// immediately by the integrator.
#[derive(Clone, Copy, Debug)]
pub struct HitRecord {
    pub point: Point,
    pub normal: Vector3D,
    pub material: Material,
    pub t: i128,
    pub front_face: bool,
}

impl HitRecord {
    /// Orients the stored normal against the incoming ray and records on
    /// which side the ray arrived.
    pub fn set_face_normal(&mut self, ray: &Ray, outward_normal: Vector3D)
        requires
            in_range(ray.direction, VEC_MUL_BOUND as int),
            in_range(outward_normal, VEC_MUL_BOUND as int),
        ensures
            final(self).front_face == (dot_spec(ray.direction, outward_normal) < 0),
            final(self).normal == if dot_spec(ray.direction, outward_normal) < 0 {
                outward_normal
            } else {
                neg_spec(outward_normal)
            },
            final(self).point == old(self).point,
            final(self).material == old(self).material,
            final(self).t == old(self).t,
    {
        self.front_face = dot(ray.direction, outward_normal) < 0;
        if self.front_face {
            self.normal = outward_normal;
        } else {
            self.normal = outward_normal.neg();
        }
    }
}

} // verus!
