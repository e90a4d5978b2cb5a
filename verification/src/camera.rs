use vstd::prelude::*;

use crate::fixed::{div_trunc, lemma_abs_mul_le, lemma_div_trunc_quot_le, SCALE};
use crate::ray::Ray;
use crate::sphere::ray_wf;
use crate::vector3d::{add_spec, in_range, mul_s_spec, sub_spec, Point, Vector3D};

verus! {

/// A fixed pinhole camera at the origin looking down -Z, with a 16:9
/// viewport of height 2 at focal distance 1.
pub struct Camera {
    pub aspect_ratio: i128,
    pub viewport_height: i128,
    pub viewport_width: i128,
    pub focal_length: i128,
    pub origin: Point,
    pub lower_left_corner: Point,
    pub horizontal: Vector3D,
    pub vertical: Vector3D,
}

/// The view-defining fields are small enough that any generated ray fits the
/// world's direction bound.
pub open spec fn camera_wf(c: Camera) -> bool {
    &&& in_range(c.origin, 4_000_000)
    &&& in_range(c.lower_left_corner, 4_000_000)
    &&& in_range(c.horizontal, 4_000_000)
    &&& in_range(c.vertical, 4_000_000)
}

impl Camera {
    pub fn new() -> (r: Self)
        ensures
            camera_wf(r),
            r.aspect_ratio == 1_777_777,
            r.viewport_height == 2_000_000,
            r.viewport_width == 3_555_554,
            r.focal_length == 1_000_000,
            r.origin == (Vector3D { x: 0, y: 0, z: 0 }),
            r.horizontal == (Vector3D { x: 3_555_554, y: 0, z: 0 }),
            r.vertical == (Vector3D { x: 0, y: 2_000_000, z: 0 }),
            r.lower_left_corner == (Vector3D { x: -1_777_777i128, y: -1_000_000i128, z: -1_000_000i128 }),
    {
        let aspect_ratio = div_trunc(16 * SCALE, 9);
        let viewport_height: i128 = 2 * SCALE;
        let viewport_width = div_trunc(aspect_ratio * viewport_height, SCALE);
        let focal_length: i128 = SCALE;
        let origin = Vector3D { x: 0, y: 0, z: 0 };
        let horizontal = Vector3D { x: viewport_width, y: 0, z: 0 };
        let vertical = Vector3D { x: 0, y: viewport_height, z: 0 };
        let lower_left_corner = origin.sub(horizontal.div_s(2 * SCALE)).sub(
            vertical.div_s(2 * SCALE),
        ).sub(Vector3D { x: 0, y: 0, z: focal_length });

        Self {
            aspect_ratio,
            viewport_height,
            viewport_width,
            focal_length,
            origin,
            horizontal,
            vertical,
            lower_left_corner,
        }
    }

    /// The ray from the eye through viewport coordinates (u, v), both in
    /// fixed-point units of the viewport's width and height.
    pub fn get_ray(&self, u: i128, v: i128) -> (r: Ray)
        requires
            camera_wf(*self),
            0 <= u <= 2 * SCALE,
            0 <= v <= 2 * SCALE,
        ensures
            r.origin == self.origin,
            r.direction == sub_spec(
                add_spec(
                    add_spec(self.lower_left_corner, mul_s_spec(self.horizontal, u as int)),
                    mul_s_spec(self.vertical, v as int),
                ),
                self.origin,
            ),
            ray_wf(r),
    {
        proof {
            lemma_abs_mul_le(self.horizontal.x as int, u as int, 4_000_000, 2_000_000);
            lemma_abs_mul_le(self.horizontal.y as int, u as int, 4_000_000, 2_000_000);
            lemma_abs_mul_le(self.horizontal.z as int, u as int, 4_000_000, 2_000_000);
            lemma_abs_mul_le(self.vertical.x as int, v as int, 4_000_000, 2_000_000);
            lemma_abs_mul_le(self.vertical.y as int, v as int, 4_000_000, 2_000_000);
            lemma_abs_mul_le(self.vertical.z as int, v as int, 4_000_000, 2_000_000);
            lemma_div_trunc_quot_le(self.horizontal.x * u, SCALE as int, 8_000_000);
            lemma_div_trunc_quot_le(self.horizontal.y * u, SCALE as int, 8_000_000);
            lemma_div_trunc_quot_le(self.horizontal.z * u, SCALE as int, 8_000_000);
            lemma_div_trunc_quot_le(self.vertical.x * v, SCALE as int, 8_000_000);
            lemma_div_trunc_quot_le(self.vertical.y * v, SCALE as int, 8_000_000);
            lemma_div_trunc_quot_le(self.vertical.z * v, SCALE as int, 8_000_000);
        }
        Ray {
            origin: self.origin,
            direction: self.lower_left_corner.add(self.horizontal.mul_s(u)).add(
                self.vertical.mul_s(v),
            ).sub(self.origin),
        }
    }
}

} // verus!
