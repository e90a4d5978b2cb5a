use vstd::prelude::*;

use crate::fixed::{
    div_trunc, div_trunc_spec, is_sqrt, isqrt, lemma_abs_mul_le, lemma_div_trunc_abs_le,
    lemma_div_trunc_quot_le, sqrt_floor, DIR_BOUND, GEOM_BOUND, POS_BOUND, SCALE, T_MAX,
};
use crate::hit::HitRecord;
use crate::material::{material_wf, Material};
use crate::ray::{at_spec, dot, Ray};
use crate::vector3d::{
    dot_spec, in_range, len_sq_spec, lemma_dot_bound, neg_spec, sub_spec, v3, Point, Vector3D,
    VEC_MUL_BOUND,
};

verus! {

/// A sphere with a shared material.
#[derive(Clone, Copy, Debug)]
pub struct Sphere {
    pub center: Point,
    pub radius: i128,
    pub material: Material,
}

/// The sphere sits inside the world box, with a positive radius and a
/// well-formed material.
pub open spec fn sphere_wf(s: Sphere) -> bool {
    &&& in_range(s.center, GEOM_BOUND as int)
    &&& 0 < s.radius <= GEOM_BOUND
    &&& material_wf(s.material)
}

/// A ray fit to be intersected against the world.
pub open spec fn ray_wf(ray: Ray) -> bool {
    &&& in_range(ray.origin, POS_BOUND as int)
    &&& in_range(ray.direction, DIR_BOUND as int)
}

/// The quadratic coefficient a = |direction|^2 of the intersection equation.
pub open spec fn sphere_a(s: Sphere, ray: Ray) -> int {
    len_sq_spec(ray.direction)
}

/// Half the linear coefficient: dot(origin - center, direction).
pub open spec fn sphere_half_b(s: Sphere, ray: Ray) -> int {
    dot_spec(sub_spec(ray.origin, s.center), ray.direction)
}

/// The constant coefficient: |origin - center|^2 - radius^2.
pub open spec fn sphere_c(s: Sphere, ray: Ray) -> int {
    len_sq_spec(sub_spec(ray.origin, s.center)) - s.radius * s.radius
}

/// The quarter discriminant of the intersection equation.
pub open spec fn sphere_disc(s: Sphere, ray: Ray) -> int {
    sphere_half_b(s, ray) * sphere_half_b(s, ray) - sphere_a(s, ray) * sphere_c(s, ray)
}

/// The nearer quadratic root, as a fixed-point ray parameter.
pub open spec fn sphere_root_near(s: Sphere, ray: Ray) -> int {
    div_trunc_spec(
        (-sphere_half_b(s, ray) - sqrt_floor(sphere_disc(s, ray))) * SCALE,
        sphere_a(s, ray),
    )
}

/// The farther quadratic root, as a fixed-point ray parameter.
pub open spec fn sphere_root_far(s: Sphere, ray: Ray) -> int {
    div_trunc_spec(
        (-sphere_half_b(s, ray) + sqrt_floor(sphere_disc(s, ray))) * SCALE,
        sphere_a(s, ray),
    )
}

/// The accepted ray parameter, if any: the nearer root when it lies within
/// [t_min, t_max], else the farther root when it does, else none. A ray with
/// a zero direction hits nothing.
pub open spec fn sphere_hit_t(s: Sphere, ray: Ray, t_min: int, t_max: int) -> Option<int> {
    if sphere_a(s, ray) == 0 {
        None
    } else if sphere_disc(s, ray) < 0 {
        None
    } else {
        let near = sphere_root_near(s, ray);
        if t_min <= near <= t_max {
            Some(near)
        } else {
            let far = sphere_root_far(s, ray);
            if t_min <= far <= t_max {
                Some(far)
            } else {
                None
            }
        }
    }
}

/// The record produced for an accepted root: the reached point, the outward
/// normal (point - center) / radius oriented against the ray, the sphere's
/// material, and the root itself.
pub open spec fn sphere_hit_rec(s: Sphere, ray: Ray, root: int) -> HitRecord {
    let point = at_spec(ray, root);
    let outward = v3(
        div_trunc_spec((point.x - s.center.x) * SCALE, s.radius as int),
        div_trunc_spec((point.y - s.center.y) * SCALE, s.radius as int),
        div_trunc_spec((point.z - s.center.z) * SCALE, s.radius as int),
    );
    let ff = dot_spec(ray.direction, outward) < 0;
    HitRecord {
        point,
        normal: if ff {
            outward
        } else {
            neg_spec(outward)
        },
        material: s.material,
        t: root as i128,
        front_face: ff,
    }
}

/// What Sphere::hit returns.
pub open spec fn sphere_hit_spec(s: Sphere, ray: Ray, t_min: int, t_max: int) -> Option<
    HitRecord,
> {
    match sphere_hit_t(s, ray, t_min, t_max) {
        None => None,
        Some(root) => Some(sphere_hit_rec(s, ray, root)),
    }
}

/// Bounds on every intermediate quantity of the intersection computation,
/// wide enough that nothing below overflows an i128.
pub proof fn lemma_sphere_quantity_bounds(s: Sphere, ray: Ray)
    requires
        sphere_wf(s),
        ray_wf(ray),
    ensures
        0 <= sphere_a(s, ray) <= 3_377_699_720_527_872,
        -4_026_531_840_000_000_000 <= sphere_half_b(s, ray) <= 4_026_531_840_000_000_000,
        -4_900_000_000_000_000_000_000 <= sphere_c(s, ray) <= 4_900_000_000_000_000_000_000,
        -34_000_000_000_000_000_000_000_000_000_000_000_000 <= sphere_disc(s, ray)
            <= 34_000_000_000_000_000_000_000_000_000_000_000_000,
        sphere_disc(s, ray) >= 0 ==> 0 <= sqrt_floor(sphere_disc(s, ray))
            <= 6_000_000_000_000_000_000,
        in_range(sub_spec(ray.origin, s.center), 40_000_000_000),
{
    let oc = sub_spec(ray.origin, s.center);
    assert(in_range(oc, 40_000_000_000));
    lemma_dot_bound(ray.direction, ray.direction, DIR_BOUND as int, DIR_BOUND as int);
    assert(sphere_a(s, ray) >= 0) by {
        crate::vector3d::lemma_component_le_len(ray.direction);
    }
    lemma_dot_bound(oc, ray.direction, 40_000_000_000, DIR_BOUND as int);
    lemma_dot_bound(oc, oc, 40_000_000_000, 40_000_000_000);
    lemma_abs_mul_le(s.radius as int, s.radius as int, GEOM_BOUND as int, GEOM_BOUND as int);
    lemma_abs_mul_le(
        sphere_half_b(s, ray),
        sphere_half_b(s, ray),
        4_026_531_840_000_000_000,
        4_026_531_840_000_000_000,
    );
    lemma_abs_mul_le(
        sphere_a(s, ray),
        sphere_c(s, ray),
        3_377_699_720_527_872,
        4_900_000_000_000_000_000_000,
    );
    if sphere_disc(s, ray) >= 0 {
        crate::fixed::lemma_sqrt_exists(sphere_disc(s, ray));
        let sd = sqrt_floor(sphere_disc(s, ray));
        assert(sd <= 6_000_000_000_000_000_000) by (nonlinear_arith)
            requires
                is_sqrt(sphere_disc(s, ray), sd),
                sphere_disc(s, ray) <= 34_000_000_000_000_000_000_000_000_000_000_000_000,
        ;
    }
}

/// Bounds on the fields of an accepted hit record.
pub proof fn lemma_sphere_hit_rec_bounds(s: Sphere, ray: Ray, t_min: int, t_max: int)
    requires
        sphere_wf(s),
        ray_wf(ray),
        0 <= t_min <= t_max <= T_MAX,
    ensures
        sphere_hit_spec(s, ray, t_min, t_max) matches Some(h) ==> {
            &&& t_min <= h.t <= t_max
            &&& h.material == s.material
            &&& in_range(h.point, 200_000_000_000)
            &&& in_range(h.normal, VEC_MUL_BOUND as int)
            &&& len_sq_spec(ray.direction) > 0
        },
{
    if sphere_hit_spec(s, ray, t_min, t_max) matches Some(h) {
        let root = sphere_hit_t(s, ray, t_min, t_max)->Some_0;
        assert(t_min <= root <= t_max);
        lemma_point_normal_bounds(s, ray, root);
        crate::vector3d::lemma_component_le_len(ray.direction);
    }
}

/// Bounds on the point reached at an in-range root and on its outward normal.
proof fn lemma_point_normal_bounds(s: Sphere, ray: Ray, root: int)
    requires
        sphere_wf(s),
        ray_wf(ray),
        0 <= root <= T_MAX,
    ensures
        in_range(at_spec(ray, root), 200_000_000_000),
        ({
            let point = at_spec(ray, root);
            let outward = v3(
                div_trunc_spec((point.x - s.center.x) * SCALE, s.radius as int),
                div_trunc_spec((point.y - s.center.y) * SCALE, s.radius as int),
                div_trunc_spec((point.z - s.center.z) * SCALE, s.radius as int),
            );
            in_range(outward, VEC_MUL_BOUND as int) && in_range(neg_spec(outward), VEC_MUL_BOUND as int)
        }),
{
    lemma_abs_mul_le(ray.direction.x as int, root, DIR_BOUND as int, T_MAX as int);
    lemma_abs_mul_le(ray.direction.y as int, root, DIR_BOUND as int, T_MAX as int);
    lemma_abs_mul_le(ray.direction.z as int, root, DIR_BOUND as int, T_MAX as int);
    lemma_div_trunc_quot_le(ray.direction.x * root, SCALE as int, 150_000_000_000);
    lemma_div_trunc_quot_le(ray.direction.y * root, SCALE as int, 150_000_000_000);
    lemma_div_trunc_quot_le(ray.direction.z * root, SCALE as int, 150_000_000_000);
    let point = at_spec(ray, root);
    assert(in_range(point, 200_000_000_000));
    lemma_abs_mul_le(point.x - s.center.x, SCALE as int, 201_073_741_824, SCALE as int);
    lemma_abs_mul_le(point.y - s.center.y, SCALE as int, 201_073_741_824, SCALE as int);
    lemma_abs_mul_le(point.z - s.center.z, SCALE as int, 201_073_741_824, SCALE as int);
    lemma_div_trunc_abs_le(
        (point.x - s.center.x) * SCALE,
        s.radius as int,
        201_073_741_824 * SCALE as int,
    );
    lemma_div_trunc_abs_le(
        (point.y - s.center.y) * SCALE,
        s.radius as int,
        201_073_741_824 * SCALE as int,
    );
    lemma_div_trunc_abs_le(
        (point.z - s.center.z) * SCALE,
        s.radius as int,
        201_073_741_824 * SCALE as int,
    );
}

/// The nearer root never exceeds the farther root.
proof fn lemma_sphere_roots_ordered(s: Sphere, ray: Ray)
    requires
        sphere_wf(s),
        ray_wf(ray),
        sphere_a(s, ray) >= 1,
        sphere_disc(s, ray) >= 0,
    ensures
        sphere_root_near(s, ray) <= sphere_root_far(s, ray),
{
    lemma_sphere_quantity_bounds(s, ray);
    crate::fixed::lemma_sqrt_exists(sphere_disc(s, ray));
    let hb = sphere_half_b(s, ray);
    let sd = sqrt_floor(sphere_disc(s, ray));
    assert((-hb - sd) * SCALE <= (-hb + sd) * SCALE) by (nonlinear_arith)
        requires
            sd >= 0,
    ;
    crate::fixed::lemma_div_trunc_monotone(
        (-hb - sd) * SCALE,
        (-hb + sd) * SCALE,
        sphere_a(s, ray),
    );
}

/// Law: shrinking the search range's upper bound never changes which root a
/// sphere reports, except to drop hits past the new bound — the
/// nearest-valid-hit tie-break policy of the quadratic.
pub proof fn lemma_sphere_hit_t_narrow(s: Sphere, ray: Ray, t_min: int, t1: int, t2: int)
    requires
        sphere_wf(s),
        ray_wf(ray),
        0 <= t_min <= t1 <= t2 <= T_MAX,
    ensures
        sphere_hit_t(s, ray, t_min, t1) matches Some(t) ==> sphere_hit_t(s, ray, t_min, t2)
            == Some(t),
        sphere_hit_t(s, ray, t_min, t2) matches Some(t) ==> (t <= t1 ==> sphere_hit_t(
            s,
            ray,
            t_min,
            t1,
        ) == Some(t)),
        sphere_hit_t(s, ray, t_min, t2) matches Some(t) ==> (sphere_hit_t(s, ray, t_min, t1)
            is None ==> t > t1),
{
    if sphere_a(s, ray) != 0 && sphere_disc(s, ray) >= 0 {
        crate::vector3d::lemma_component_le_len(ray.direction);
        lemma_sphere_roots_ordered(s, ray);
    }
}

/// Law: a ray of unit direction aimed straight at the sphere's center from
/// outside hits at parameter distance - radius, exactly. That the center lies
/// m fixed-point units along the ray is stated by S * (center - origin)
/// == m * direction, so m is the distance from origin to center.
#[verifier::rlimit(50)]
pub proof fn lemma_aimed_at_center_hit(s: Sphere, ray: Ray, t_min: int, t_max: int, m: int)
    requires
        sphere_wf(s),
        ray_wf(ray),
        0 <= t_min <= t_max <= T_MAX,
        len_sq_spec(ray.direction) == SCALE * SCALE,
        (s.center.x - ray.origin.x) * SCALE == m * ray.direction.x,
        (s.center.y - ray.origin.y) * SCALE == m * ray.direction.y,
        (s.center.z - ray.origin.z) * SCALE == m * ray.direction.z,
        s.radius < m,
        t_min <= m - s.radius <= t_max,
    ensures
        sphere_hit_t(s, ray, t_min, t_max) == Some(m - s.radius),
{
    let oc = sub_spec(ray.origin, s.center);
    assert(oc.x == ray.origin.x - s.center.x);
    assert(oc.y == ray.origin.y - s.center.y);
    assert(oc.z == ray.origin.z - s.center.z);
    let d = ray.direction;
    let hb = sphere_half_b(s, ray);
    let a = sphere_a(s, ray);
    let c = sphere_c(s, ray);
    assert(a == SCALE * SCALE);
    assert(SCALE * (oc.x * d.x) == -(m * (d.x * d.x))) by (nonlinear_arith)
        requires
            oc.x * SCALE == -(m * d.x),
    ;
    assert(SCALE * (oc.y * d.y) == -(m * (d.y * d.y))) by (nonlinear_arith)
        requires
            oc.y * SCALE == -(m * d.y),
    ;
    assert(SCALE * (oc.z * d.z) == -(m * (d.z * d.z))) by (nonlinear_arith)
        requires
            oc.z * SCALE == -(m * d.z),
    ;
    assert(SCALE * hb == -(m * (d.x * d.x)) + -(m * (d.y * d.y)) + -(m * (d.z * d.z)))
        by (nonlinear_arith)
        requires
            hb == oc.x * d.x + oc.y * d.y + oc.z * d.z,
            SCALE * (oc.x * d.x) == -(m * (d.x * d.x)),
            SCALE * (oc.y * d.y) == -(m * (d.y * d.y)),
            SCALE * (oc.z * d.z) == -(m * (d.z * d.z)),
    ;
    assert(m * (d.x * d.x) + m * (d.y * d.y) + m * (d.z * d.z) == m * (SCALE * SCALE))
        by (nonlinear_arith)
        requires
            d.x * d.x + d.y * d.y + d.z * d.z == SCALE * SCALE,
    ;
    assert(SCALE * hb == -(m * (SCALE * SCALE)));
    assert(hb == -(m * SCALE)) by (nonlinear_arith)
        requires
            SCALE * hb == -(m * (SCALE * SCALE)),
            SCALE == 1_000_000int,
    ;
    assert((SCALE * SCALE) * (oc.x * oc.x) == m * m * (d.x * d.x)) by (nonlinear_arith)
        requires
            oc.x * SCALE == -(m * d.x),
    ;
    assert((SCALE * SCALE) * (oc.y * oc.y) == m * m * (d.y * d.y)) by (nonlinear_arith)
        requires
            oc.y * SCALE == -(m * d.y),
    ;
    assert((SCALE * SCALE) * (oc.z * oc.z) == m * m * (d.z * d.z)) by (nonlinear_arith)
        requires
            oc.z * SCALE == -(m * d.z),
    ;
    assert(m * m * (d.x * d.x) + m * m * (d.y * d.y) + m * m * (d.z * d.z) == (m * m) * (SCALE
        * SCALE)) by (nonlinear_arith)
        requires
            d.x * d.x + d.y * d.y + d.z * d.z == SCALE * SCALE,
    ;
    assert((SCALE * SCALE) * len_sq_spec(oc) == (m * m) * (SCALE * SCALE)) by (nonlinear_arith)
        requires
            len_sq_spec(oc) == oc.x * oc.x + oc.y * oc.y + oc.z * oc.z,
            (SCALE * SCALE) * (oc.x * oc.x) == m * m * (d.x * d.x),
            (SCALE * SCALE) * (oc.y * oc.y) == m * m * (d.y * d.y),
            (SCALE * SCALE) * (oc.z * oc.z) == m * m * (d.z * d.z),
            m * m * (d.x * d.x) + m * m * (d.y * d.y) + m * m * (d.z * d.z) == (m * m) * (SCALE
                * SCALE),
    ;
    assert(len_sq_spec(oc) == m * m) by (nonlinear_arith)
        requires
            (SCALE * SCALE) * len_sq_spec(oc) == (m * m) * (SCALE * SCALE),
            SCALE == 1_000_000int,
    ;
    assert(c == m * m - s.radius * s.radius);
    let disc = sphere_disc(s, ray);
    assert(disc == (SCALE * SCALE) * (s.radius * s.radius)) by (nonlinear_arith)
        requires
            disc == hb * hb - a * c,
            hb == -(m * SCALE),
            a == SCALE * SCALE,
            c == m * m - s.radius * s.radius,
    ;
    let sr = SCALE * (s.radius as int);
    assert(is_sqrt(disc, sr)) by (nonlinear_arith)
        requires
            disc == (SCALE * SCALE) * (s.radius * s.radius),
            sr == SCALE * (s.radius as int),
            0 < s.radius,
            SCALE == 1_000_000int,
    ;
    crate::fixed::lemma_sqrt_exists(disc);
    crate::fixed::lemma_sqrt_unique(disc, sr, sqrt_floor(disc));
    assert((-hb - sr) * SCALE == (m - s.radius) * (SCALE * SCALE)) by (nonlinear_arith)
        requires
            hb == -(m * SCALE),
            sr == SCALE * (s.radius as int),
    ;
    crate::fixed::lemma_div_trunc_exact(m - s.radius, SCALE * SCALE);
    assert(sphere_root_near(s, ray) == m - s.radius);
}

/// Law: a ray whose closest approach to the center is its own origin, lying
/// farther out than the radius, misses the sphere.
pub proof fn lemma_offset_miss(s: Sphere, ray: Ray, t_min: int, t_max: int)
    requires
        sphere_wf(s),
        ray_wf(ray),
        sphere_half_b(s, ray) == 0,
        sphere_c(s, ray) > 0,
    ensures
        sphere_hit_t(s, ray, t_min, t_max) is None,
{
    if sphere_a(s, ray) != 0 {
        crate::vector3d::lemma_component_le_len(ray.direction);
        assert(sphere_disc(s, ray) < 0) by (nonlinear_arith)
            requires
                sphere_half_b(s, ray) == 0,
                sphere_c(s, ray) > 0,
                sphere_a(s, ray) >= 1,
                sphere_disc(s, ray) == sphere_half_b(s, ray) * sphere_half_b(s, ray)
                    - sphere_a(s, ray) * sphere_c(s, ray),
        ;
    }
}

/// Law: from an origin strictly inside the sphere, only the farther root can
/// be reported: the nearer root lies at or behind the origin.
pub proof fn lemma_inside_takes_far_root(s: Sphere, ray: Ray, t_min: int, t_max: int)
    requires
        sphere_wf(s),
        ray_wf(ray),
        0 < t_min <= t_max <= T_MAX,
        sphere_a(s, ray) >= 1,
        sphere_c(s, ray) < 0,
    ensures
        sphere_disc(s, ray) > 0,
        sphere_hit_t(s, ray, t_min, t_max) == (if t_min <= sphere_root_far(s, ray) <= t_max {
            Some(sphere_root_far(s, ray))
        } else {
            None::<int>
        }),
{
    let hb = sphere_half_b(s, ray);
    let a = sphere_a(s, ray);
    let c = sphere_c(s, ray);
    let disc = sphere_disc(s, ray);
    assert(disc > hb * hb) by (nonlinear_arith)
        requires
            disc == hb * hb - a * c,
            a >= 1,
            c < 0,
    ;
    assert(hb * hb >= 0) by (nonlinear_arith);
    let habs = if hb >= 0 { hb } else { -hb };
    assert(is_sqrt(hb * hb, habs)) by (nonlinear_arith)
        requires
            habs == if hb >= 0 { hb } else { -hb },
    ;
    crate::fixed::lemma_sqrt_exists(hb * hb);
    crate::fixed::lemma_sqrt_unique(hb * hb, habs, sqrt_floor(hb * hb));
    crate::fixed::lemma_sqrt_le(hb * hb, disc);
    let sd = sqrt_floor(disc);
    assert(sd >= habs);
    assert((-hb - sd) * SCALE <= 0) by (nonlinear_arith)
        requires
            sd >= habs,
            habs == if hb >= 0 { hb } else { -hb },
            SCALE == 1_000_000int,
    ;
    crate::fixed::lemma_div_trunc_monotone((-hb - sd) * SCALE, 0, a);
    assert(div_trunc_spec(0, a) == 0) by {
        vstd::arithmetic::div_mod::lemma_div_multiples_vanish(0, a);
        assert(a * 0 == 0) by (nonlinear_arith);
    }
    assert(sphere_root_near(s, ray) <= 0);
}

impl Sphere {
    /// The nearest intersection of the ray with this sphere whose parameter
    /// lies within [t_min, t_max], if any: the nearer quadratic root is
    /// preferred, and the farther one considered only when the nearer is out
    /// of range.
    pub fn hit(&self, ray: &Ray, t_min: i128, t_max: i128) -> (res: Option<HitRecord>)
        requires
            sphere_wf(*self),
            ray_wf(*ray),
            0 <= t_min <= t_max <= T_MAX,
        ensures
            res == sphere_hit_spec(*self, *ray, t_min as int, t_max as int),
    {
        proof {
            lemma_sphere_quantity_bounds(*self, *ray);
        }
        let object_center = ray.origin.sub(self.center);
        let a = ray.direction.length_squared();
        if a == 0 {
            return None;
        }
        let half_b = dot(object_center, ray.direction);
        proof {
            lemma_abs_mul_le(
                self.radius as int,
                self.radius as int,
                GEOM_BOUND as int,
                GEOM_BOUND as int,
            );
        }
        let c = object_center.length_squared() - self.radius * self.radius;
        proof {
            lemma_abs_mul_le(half_b as int, half_b as int, 4_026_531_840_000_000_000, 4_026_531_840_000_000_000);
            lemma_abs_mul_le(a as int, c as int, 3_377_699_720_527_872, 4_900_000_000_000_000_000_000);
        }
        let discriminant = half_b * half_b - a * c;
        if discriminant < 0 {
            return None;
        }
        let sd_u = isqrt(discriminant as u128);
        proof {
            assert(sd_u <= 6_000_000_000_000_000_000) by (nonlinear_arith)
                requires
                    is_sqrt(discriminant as int, sd_u as int),
                    discriminant <= 34_000_000_000_000_000_000_000_000_000_000_000_000,
            ;
        }
        let discriminant_sqrt = sd_u as i128;
        proof {
            lemma_abs_mul_le(
                -(half_b as int) - discriminant_sqrt,
                SCALE as int,
                11_000_000_000_000_000_000,
                SCALE as int,
            );
            lemma_abs_mul_le(
                -(half_b as int) + discriminant_sqrt,
                SCALE as int,
                11_000_000_000_000_000_000,
                SCALE as int,
            );
        }
        let mut root = div_trunc((-half_b - discriminant_sqrt) * SCALE, a);
        if root < t_min || t_max < root {
            root = div_trunc((-half_b + discriminant_sqrt) * SCALE, a);
            if root < t_min || t_max < root {
                return None;
            }
        }
        proof {
            lemma_point_normal_bounds(*self, *ray, root as int);
            lemma_abs_mul_le(ray.direction.x as int, root as int, DIR_BOUND as int, T_MAX as int);
            lemma_abs_mul_le(ray.direction.y as int, root as int, DIR_BOUND as int, T_MAX as int);
            lemma_abs_mul_le(ray.direction.z as int, root as int, DIR_BOUND as int, T_MAX as int);
        }
        let root_ray = ray.at(root);
        proof {
            lemma_abs_mul_le(root_ray.x - self.center.x, SCALE as int, 201_073_741_824, SCALE as int);
            lemma_abs_mul_le(root_ray.y - self.center.y, SCALE as int, 201_073_741_824, SCALE as int);
            lemma_abs_mul_le(root_ray.z - self.center.z, SCALE as int, 201_073_741_824, SCALE as int);
        }
        let outward_normal = Vector3D {
            x: div_trunc((root_ray.x - self.center.x) * SCALE, self.radius),
            y: div_trunc((root_ray.y - self.center.y) * SCALE, self.radius),
            z: div_trunc((root_ray.z - self.center.z) * SCALE, self.radius),
        };
        let mut hit_record = HitRecord {
            point: root_ray,
            normal: outward_normal,
            material: self.material,
            t: root,
            front_face: false,
        };
        hit_record.set_face_normal(ray, outward_normal);
        proof {
            assert(hit_record == sphere_hit_rec(*self, *ray, root as int));
        }
        Some(hit_record)
    }
}

} // verus!
