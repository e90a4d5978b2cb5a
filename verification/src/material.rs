use vstd::prelude::*;

use crate::fixed::{div_trunc, div_trunc_spec, DIR_BOUND, NORM_BOUND, SCALE};
use crate::hit::HitRecord;
use crate::ray::{dot, Ray};
use crate::vector3d::{
    add_spec, dot_spec, in_range, len_sq_spec, mul_s_spec, sub_spec, unit_spec, unit_vector,
    Color, Vector3D, VEC_MUL_BOUND,
};

verus! {

/// A scattering policy: diffuse Lambertian reflection or specular Metal
/// reflection, each carrying its albedo. Materials are small immutable
/// values, freely shared by copy among the spheres that use them.
#[derive(Clone, Copy, Debug)]
pub enum Material {
    Lambert { albedo: Color },
    Metal { albedo: Color },
}

pub open spec fn albedo_of(m: Material) -> Color {
    match m {
        Material::Lambert { albedo } => albedo,
        Material::Metal { albedo } => albedo,
    }
}

/// Albedo channels lie in [0, 1]: no bounce gains energy.
pub open spec fn material_wf(m: Material) -> bool {
    &&& 0 <= albedo_of(m).x <= SCALE
    &&& 0 <= albedo_of(m).y <= SCALE
    &&& 0 <= albedo_of(m).z <= SCALE
}

/// The mirror image of a vector about a normal:
/// vector - 2 * dot(vector, normal) * normal.
pub open spec fn reflect_spec(vector: Vector3D, normal: Vector3D) -> Vector3D {
    sub_spec(
        vector,
        mul_s_spec(normal, div_trunc_spec(2 * dot_spec(vector, normal), SCALE as int)),
    )
}

pub fn reflect(vector: Vector3D, normal: Vector3D) -> (r: Vector3D)
    requires
        in_range(vector, 2_000_000),
        in_range(normal, NORM_BOUND as int),
    ensures
        r == reflect_spec(vector, normal),
        in_range(r, 5_000_000_000),
{
    proof {
        crate::fixed::lemma_abs_mul_le(vector.x as int, normal.x as int, 2_000_000, NORM_BOUND as int);
        crate::fixed::lemma_abs_mul_le(vector.y as int, normal.y as int, 2_000_000, NORM_BOUND as int);
        crate::fixed::lemma_abs_mul_le(vector.z as int, normal.z as int, 2_000_000, NORM_BOUND as int);
    }
    let d = dot(vector, normal);
    proof {
        crate::fixed::lemma_div_trunc_quot_le(2 * (d as int), SCALE as int, 201_326_592);
    }
    let s = div_trunc(2 * d, SCALE);
    proof {
        crate::fixed::lemma_abs_mul_le(normal.x as int, s as int, NORM_BOUND as int, 201_326_592);
        crate::fixed::lemma_abs_mul_le(normal.y as int, s as int, NORM_BOUND as int, 201_326_592);
        crate::fixed::lemma_abs_mul_le(normal.z as int, s as int, NORM_BOUND as int, 201_326_592);
        crate::fixed::lemma_div_trunc_quot_le(normal.x * s, SCALE as int, 4_000_000_000);
        crate::fixed::lemma_div_trunc_quot_le(normal.y * s, SCALE as int, 4_000_000_000);
        crate::fixed::lemma_div_trunc_quot_le(normal.z * s, SCALE as int, 4_000_000_000);
    }
    vector.sub(normal.mul_s(s))
}

/// The scattering decision: what ray leaves a hit, with what attenuation,
/// given the sampled unit noise vector that diffuse scattering adds to the
/// surface normal. Lambertian surfaces always scatter; Metal absorbs the ray
/// when its reflection would not point away from the surface.
pub open spec fn scatter_spec(
    m: Material,
    ray: Ray,
    hit: HitRecord,
    noise: Vector3D,
) -> Option<(Color, Ray)> {
    match m {
        Material::Lambert { albedo } => {
            let d = add_spec(hit.normal, noise);
            let dir = if d.x == 0 && d.y == 0 && d.z == 0 {
                hit.normal
            } else {
                d
            };
            Some((albedo, Ray { origin: hit.point, direction: dir }))
        },
        Material::Metal { albedo } => {
            let refl = reflect_spec(unit_spec(ray.direction), hit.normal);
            if dot_spec(refl, hit.normal) > 0 {
                Some((albedo, Ray { origin: hit.point, direction: refl }))
            } else {
                None
            }
        },
    }
}

impl Material {
    /// Scatters an incoming ray at a hit, or absorbs it. The caller supplies
    /// the random unit vector used by diffuse scattering, so the decision
    /// itself is an exact function of its arguments.
    pub fn scatter(&self, ray: &Ray, hit_record: &HitRecord, noise: Vector3D) -> (res: Option<
        (Color, Ray),
    >)
        requires
            in_range(ray.direction, DIR_BOUND as int),
            len_sq_spec(ray.direction) > 0,
            in_range(hit_record.normal, NORM_BOUND as int),
            in_range(noise, SCALE as int),
        ensures
            res == scatter_spec(*self, *ray, *hit_record, noise),
    {
        match self {
            Material::Lambert { albedo } => {
                let mut scatter_direction = hit_record.normal.add(noise);
                if scatter_direction.is_near_zero() {
                    scatter_direction = hit_record.normal;
                }
                Some((*albedo, Ray { origin: hit_record.point, direction: scatter_direction }))
            },
            Material::Metal { albedo } => {
                let reflected = reflect(unit_vector(ray.direction), hit_record.normal);
                let scattered = Ray { origin: hit_record.point, direction: reflected };
                if dot(scattered.direction, hit_record.normal) > 0 {
                    Some((*albedo, scattered))
                } else {
                    None
                }
            },
        }
    }
}

/// Law: a Lambertian material never absorbs a ray.
pub proof fn lemma_lambert_always_scatters(m: Material, ray: Ray, hit: HitRecord, noise: Vector3D)
    requires
        m matches Material::Lambert { .. },
    ensures
        scatter_spec(m, ray, hit, noise) is Some,
{
}

/// Law: a Metal material absorbs a ray exactly when the reflection of its
/// unit direction does not point away from the surface.
pub proof fn lemma_metal_absorbs_iff(m: Material, ray: Ray, hit: HitRecord, noise: Vector3D)
    requires
        m matches Material::Metal { .. },
    ensures
        (scatter_spec(m, ray, hit, noise) is None) <==> dot_spec(
            reflect_spec(unit_spec(ray.direction), hit.normal),
            hit.normal,
        ) <= 0,
{
}

} // verus!
