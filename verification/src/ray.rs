use vstd::prelude::*;

use crate::fixed::{div_trunc_spec, SCALE};
use crate::vector3d::{
    add_spec, dot_spec, in_range, lemma_component_le_len, mul_s_spec, v3, Point, Vector3D,
    VEC_ADD_BOUND, VEC_MUL_BOUND,
};

verus! {

/// A half-line from an origin along a direction; the direction need not have
/// unit length.
#[derive(Clone, Copy, Debug)]
pub struct Ray {
    pub origin: Point,
    pub direction: Vector3D,
}

/// The point a ray reaches at parameter t: origin + direction * t.
pub open spec fn at_spec(ray: Ray, t: int) -> Point {
    add_spec(ray.origin, mul_s_spec(ray.direction, t))
}

impl Ray {
    pub fn at(&self, t: i128) -> (r: Point)
        requires
            in_range(self.origin, VEC_ADD_BOUND as int),
            in_range(self.direction, VEC_MUL_BOUND as int),
            -VEC_MUL_BOUND <= t <= VEC_MUL_BOUND,
        ensures
            r == at_spec(*self, t as int),
            r.x == self.origin.x + div_trunc_spec(self.direction.x * t, SCALE as int),
            r.y == self.origin.y + div_trunc_spec(self.direction.y * t, SCALE as int),
            r.z == self.origin.z + div_trunc_spec(self.direction.z * t, SCALE as int),
    {
        proof {
            crate::fixed::lemma_abs_mul_le(
                self.direction.x as int,
                t as int,
                VEC_MUL_BOUND as int,
                VEC_MUL_BOUND as int,
            );
            crate::fixed::lemma_abs_mul_le(
                self.direction.y as int,
                t as int,
                VEC_MUL_BOUND as int,
                VEC_MUL_BOUND as int,
            );
            crate::fixed::lemma_abs_mul_le(
                self.direction.z as int,
                t as int,
                VEC_MUL_BOUND as int,
                VEC_MUL_BOUND as int,
            );
            crate::fixed::lemma_div_trunc_quot_le(
                self.direction.x * t,
                SCALE as int,
                1_000_000_000_000_000_000_000_000_000_000int,
            );
            crate::fixed::lemma_div_trunc_quot_le(
                self.direction.y * t,
                SCALE as int,
                1_000_000_000_000_000_000_000_000_000_000int,
            );
            crate::fixed::lemma_div_trunc_quot_le(
                self.direction.z * t,
                SCALE as int,
                1_000_000_000_000_000_000_000_000_000_000int,
            );
        }
        self.origin.add(self.direction.mul_s(t))
    }
}

/// The dot product of two vectors, in squared fixed-point units.
pub fn dot(first: Vector3D, second: Vector3D) -> (r: i128)
    requires
        in_range(first, VEC_MUL_BOUND as int),
        in_range(second, VEC_MUL_BOUND as int),
    ensures
        r == dot_spec(first, second),
{
    proof {
        crate::fixed::lemma_abs_mul_le(
            first.x as int,
            second.x as int,
            VEC_MUL_BOUND as int,
            VEC_MUL_BOUND as int,
        );
        crate::fixed::lemma_abs_mul_le(
            first.y as int,
            second.y as int,
            VEC_MUL_BOUND as int,
            VEC_MUL_BOUND as int,
        );
        crate::fixed::lemma_abs_mul_le(
            first.z as int,
            second.z as int,
            VEC_MUL_BOUND as int,
            VEC_MUL_BOUND as int,
        );
    }
    first.x * second.x + first.y * second.y + first.z * second.z
}

} // verus!
