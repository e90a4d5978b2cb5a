use vstd::prelude::*;
use vstd::string::StringExecFns;

use crate::fixed::{
    div_trunc, div_trunc_spec, is_sqrt, isqrt, lemma_abs_mul_le, lemma_div_trunc_exact,
    lemma_div_trunc_ge, lemma_div_trunc_lt, lemma_div_trunc_nonneg, lemma_div_trunc_quot_le,
    sqrt_floor, DIR_BOUND, NORM_BOUND, POS_BOUND, SCALE, T_MAX, T_MIN_HIT,
};
use crate::material::scatter_spec;
use crate::ray::Ray;
use crate::sphere::ray_wf;
use crate::text::{dec_rep, push_decimal};
use crate::vector3d::{
    add_spec, in_range, len_sq_spec, mul_s_spec, mul_spec, scalar_mul, unit_spec, unit_vector,
    Color, Vector3D,
};
use crate::world::{scene_hit_spec, world_wf, Hittable, HittableList};

verus! {

pub open spec fn black() -> Color {
    Vector3D { x: 0, y: 0, z: 0 }
}

pub open spec fn white() -> Color {
    Vector3D { x: 1_000_000, y: 1_000_000, z: 1_000_000 }
}

pub open spec fn sky_blue() -> Color {
    Vector3D { x: 500_000, y: 700_000, z: 1_000_000 }
}

/// The sky gradient a missed ray sees: white at the horizon blending to blue
/// at the zenith, keyed by the unit direction's height.
pub open spec fn sky_color(ray: Ray) -> Color {
    let u = unit_spec(ray.direction);
    let t = div_trunc_spec(u.y + SCALE, 2);
    add_spec(mul_s_spec(white(), SCALE - t), mul_s_spec(sky_blue(), t))
}

/// The color the recursive integrator computes for a ray when the noise
/// vector drawn at bounce k is noises[k] (a missing entry stands for a zero
/// offset). Black at depth exhaustion, for a degenerate ray, at absorption,
/// and when a bounce leaves the world's coordinate bounds; the sky gradient
/// at a miss; and otherwise the scattering attenuation multiplied
/// componentwise with the color of the bounced ray, one bounce deeper.
pub open spec fn rc_eval(ray: Ray, objs: Seq<Hittable>, depth: nat, noises: Seq<Vector3D>) -> Color
    decreases depth,
{
    if depth == 0 {
        black()
    } else if len_sq_spec(ray.direction) == 0 {
        black()
    } else {
        match scene_hit_spec(objs, ray, T_MIN_HIT as int, T_MAX as int) {
            None => sky_color(ray),
            Some(h) => {
                if in_range(h.normal, NORM_BOUND as int) && in_range(h.point, POS_BOUND as int) {
                    let noise = if noises.len() > 0 {
                        noises[0]
                    } else {
                        black()
                    };
                    let rest = if noises.len() > 0 {
                        noises.subrange(1, noises.len() as int)
                    } else {
                        noises
                    };
                    match scatter_spec(h.material, ray, h, noise) {
                        Some(pair) => {
                            if in_range(pair.1.origin, POS_BOUND as int) && in_range(
                                pair.1.direction,
                                DIR_BOUND as int,
                            ) {
                                mul_spec(pair.0, rc_eval(pair.1, objs, (depth - 1) as nat, rest))
                            } else {
                                black()
                            }
                        },
                        None => black(),
                    }
                } else {
                    black()
                }
            },
        }
    }
}

/// Law: at depth zero the integrator returns exactly black, whatever the
/// ray, the scene and the drawn noise.
pub proof fn lemma_depth_zero_black(ray: Ray, objs: Seq<Hittable>, noises: Seq<Vector3D>)
    ensures
        rc_eval(ray, objs, 0, noises) == black(),
{
}

/// Law: across a scattering bounce, attenuation composes multiplicatively —
/// when the hit and its material admit the bounce, the color at this depth
/// is the attenuation times, componentwise, the color the scattered ray
/// gathers one bounce deeper from the remaining noise.
pub proof fn lemma_attenuation_composes(
    ray: Ray,
    objs: Seq<Hittable>,
    depth: nat,
    noises: Seq<Vector3D>,
)
    requires
        depth >= 1,
        noises.len() > 0,
        len_sq_spec(ray.direction) != 0,
        scene_hit_spec(objs, ray, T_MIN_HIT as int, T_MAX as int) is Some,
        ({
            let h = scene_hit_spec(objs, ray, T_MIN_HIT as int, T_MAX as int)->Some_0;
            &&& in_range(h.normal, NORM_BOUND as int)
            &&& in_range(h.point, POS_BOUND as int)
            &&& scatter_spec(h.material, ray, h, noises[0]) is Some
            &&& in_range(
                scatter_spec(h.material, ray, h, noises[0])->Some_0.1.origin,
                POS_BOUND as int,
            )
            &&& in_range(
                scatter_spec(h.material, ray, h, noises[0])->Some_0.1.direction,
                DIR_BOUND as int,
            )
        }),
    ensures
        ({
            let h = scene_hit_spec(objs, ray, T_MIN_HIT as int, T_MAX as int)->Some_0;
            let pair = scatter_spec(h.material, ray, h, noises[0])->Some_0;
            rc_eval(ray, objs, depth, noises) == mul_spec(
                pair.0,
                rc_eval(pair.1, objs, (depth - 1) as nat, noises.subrange(1, noises.len() as int)),
            )
        }),
{
}

/// The componentwise product of two colors in [0, 1] stays in [0, 1].
pub proof fn lemma_color_mul_bounds(a: Color, b: Color)
    requires
        0 <= a.x <= SCALE,
        0 <= a.y <= SCALE,
        0 <= a.z <= SCALE,
        0 <= b.x <= SCALE,
        0 <= b.y <= SCALE,
        0 <= b.z <= SCALE,
    ensures
        0 <= mul_spec(a, b).x <= SCALE,
        0 <= mul_spec(a, b).y <= SCALE,
        0 <= mul_spec(a, b).z <= SCALE,
{
    assert(0 <= a.x * b.x <= SCALE * (SCALE as int)) by (nonlinear_arith)
        requires
            0 <= a.x <= SCALE,
            0 <= b.x <= SCALE,
    ;
    assert(0 <= a.y * b.y <= SCALE * (SCALE as int)) by (nonlinear_arith)
        requires
            0 <= a.y <= SCALE,
            0 <= b.y <= SCALE,
    ;
    assert(0 <= a.z * b.z <= SCALE * (SCALE as int)) by (nonlinear_arith)
        requires
            0 <= a.z <= SCALE,
            0 <= b.z <= SCALE,
    ;
    lemma_div_trunc_quot_le(a.x * b.x, SCALE as int, SCALE as int);
    lemma_div_trunc_quot_le(a.y * b.y, SCALE as int, SCALE as int);
    lemma_div_trunc_quot_le(a.z * b.z, SCALE as int, SCALE as int);
    lemma_div_trunc_nonneg(a.x * b.x, SCALE as int);
    lemma_div_trunc_nonneg(a.y * b.y, SCALE as int);
    lemma_div_trunc_nonneg(a.z * b.z, SCALE as int);
}

/// The sky gradient's channels lie in [0, 1].
pub proof fn lemma_sky_bounds(ray: Ray)
    requires
        in_range(unit_spec(ray.direction), SCALE as int),
    ensures
        0 <= sky_color(ray).x <= SCALE,
        0 <= sky_color(ray).y <= SCALE,
        0 <= sky_color(ray).z <= SCALE,
{
    let u = unit_spec(ray.direction);
    lemma_div_trunc_nonneg(u.y + SCALE, 2);
    lemma_div_trunc_quot_le(u.y + SCALE, 2, SCALE as int);
    let t = div_trunc_spec(u.y + SCALE, 2);
    assert((SCALE - t) * (SCALE as int) == SCALE * (SCALE - t)) by (nonlinear_arith);
    lemma_div_trunc_exact(SCALE - t, SCALE as int);
    assert(0 <= 500_000 * t <= SCALE * t && 0 <= 700_000 * t <= SCALE * t && 0 <= 1_000_000 * t
        <= SCALE * t) by (nonlinear_arith)
        requires
            0 <= t,
    ;
    assert(t * (SCALE as int) == SCALE * t) by (nonlinear_arith);
    lemma_div_trunc_exact(t, SCALE as int);
    lemma_div_trunc_quot_le(500_000 * t, SCALE as int, t);
    lemma_div_trunc_quot_le(700_000 * t, SCALE as int, t);
    lemma_div_trunc_nonneg(500_000 * t, SCALE as int);
    lemma_div_trunc_nonneg(700_000 * t, SCALE as int);
}

/// Exhibits the empty noise sequence as witness in the branches where the
/// integrator's result does not depend on the drawn noise.
proof fn witness_constant(ray: Ray, objs: Seq<Hittable>, depth: nat, out: Color)
    requires
        out == rc_eval(ray, objs, depth, Seq::<Vector3D>::empty()),
    ensures
        exists|ns: Seq<Vector3D>|
            #![trigger rc_eval(ray, objs, depth, ns)]
            (forall|i: int| 0 <= i < ns.len() ==> in_range(#[trigger] ns[i], SCALE as int)) && out
                == rc_eval(ray, objs, depth, ns),
{
    let ns = Seq::<Vector3D>::empty();
    assert((forall|i: int| 0 <= i < ns.len() ==> in_range(#[trigger] ns[i], SCALE as int)) && out
        == rc_eval(ray, objs, depth, ns));
}

/// The recursive integrator: gathers the color a ray sees in the scene. The
/// noise drawn at each diffuse bounce is random, so the contract promises a
/// color that rc_eval yields for some admissible noise sequence, with every
/// channel inside [0, 1].
pub fn ray_color(ray: &Ray, world: &HittableList, depth: i32) -> (out: Color)
    requires
        world_wf(world.objects@),
        ray_wf(*ray),
    ensures
        0 <= out.x <= SCALE,
        0 <= out.y <= SCALE,
        0 <= out.z <= SCALE,
        depth <= 0 ==> out == black(),
        depth >= 0 ==> exists|ns: Seq<Vector3D>|
            #![trigger rc_eval(*ray, world.objects@, depth as nat, ns)]
            (forall|i: int| 0 <= i < ns.len() ==> in_range(#[trigger] ns[i], SCALE as int)) && out
                == rc_eval(*ray, world.objects@, depth as nat, ns),
    decreases
            (if depth <= 0 {
                0int
            } else {
                depth as int
            }),
{
    let ghost objs = world.objects@;
    if depth <= 0 {
        let out = Vector3D { x: 0, y: 0, z: 0 };
        proof {
            if depth == 0 {
                witness_constant(*ray, objs, depth as nat, out);
            }
        }
        return out;
    }
    let a = ray.direction.length_squared();
    if a == 0 {
        let out = Vector3D { x: 0, y: 0, z: 0 };
        proof {
            witness_constant(*ray, objs, depth as nat, out);
        }
        return out;
    }
    proof {
        crate::world::lemma_scene_hit_bounds(objs, *ray, T_MIN_HIT as int, T_MAX as int);
    }
    match world.hit(ray, T_MIN_HIT, T_MAX) {
        Some(hit_record) => {
            if !(hit_record.normal.check_in_range(NORM_BOUND) && hit_record.point.check_in_range(
                POS_BOUND,
            )) {
                let out = Vector3D { x: 0, y: 0, z: 0 };
                proof {
                    witness_constant(*ray, objs, depth as nat, out);
                }
                return out;
            }
            let noise = crate::vector3d::random_unit_vector();
            match hit_record.material.scatter(ray, &hit_record, noise) {
                Some((attenuation, scattered)) => {
                    if scattered.origin.check_in_range(POS_BOUND) && scattered.direction.check_in_range(
                        DIR_BOUND,
                    ) {
                        let sub = ray_color(&scattered, world, depth - 1);
                        proof {
                            lemma_color_mul_bounds(attenuation, sub);
                        }
                        let out = attenuation.mul(sub);
                        proof {
                            let ns_sub = choose|ns: Seq<Vector3D>|
                                #![trigger rc_eval(scattered, objs, (depth - 1) as nat, ns)]
                                (forall|i: int|
                                    0 <= i < ns.len() ==> in_range(#[trigger] ns[i], SCALE as int))
                                    && sub == rc_eval(scattered, objs, (depth - 1) as nat, ns);
                            let ns = seq![noise] + ns_sub;
                            assert(ns[0] == noise);
                            assert(ns.subrange(1, ns.len() as int) =~= ns_sub);
                            assert(forall|i: int|
                                0 <= i < ns.len() ==> in_range(#[trigger] ns[i], SCALE as int));
                            assert(out == rc_eval(*ray, objs, depth as nat, ns));
                        }
                        out
                    } else {
                        let out = Vector3D { x: 0, y: 0, z: 0 };
                        proof {
                            witness_constant(*ray, objs, depth as nat, out);
                        }
                        out
                    }
                },
                None => {
                    let out = Vector3D { x: 0, y: 0, z: 0 };
                    proof {
                        witness_constant(*ray, objs, depth as nat, out);
                    }
                    out
                },
            }
        },
        None => {
            let u = unit_vector(ray.direction);
            proof {
                lemma_div_trunc_nonneg(u.y + SCALE, 2);
                lemma_div_trunc_quot_le(u.y + SCALE, 2, SCALE as int);
            }
            let t = div_trunc(u.y + SCALE, 2);
            let white_c = Vector3D { x: SCALE, y: SCALE, z: SCALE };
            let blue_c = Vector3D { x: 500_000, y: 700_000, z: SCALE };
            let out = scalar_mul(SCALE - t, white_c).add(scalar_mul(t, blue_c));
            proof {
                lemma_sky_bounds(*ray);
                assert(out == sky_color(*ray));
                witness_constant(*ray, objs, depth as nat, out);
            }
            out
        },
    }
}

/// One gamma-corrected, quantized 8-bit channel: the accumulated channel is
/// averaged over the sample count, square-rooted (gamma 2), clamped to just
/// under one, and scaled to [0, 255].
pub open spec fn gamma_channel(c: int, samples: int) -> int {
    let avg = div_trunc_spec(c, samples);
    let g = sqrt_floor(avg * SCALE);
    let clamped = if g > 999_000 {
        999_000int
    } else {
        g
    };
    div_trunc_spec(256 * clamped, SCALE as int)
}

/// The output line for one pixel: three space-separated channels and a
/// newline.
pub open spec fn color_line(c: Color, samples: int) -> Seq<char> {
    dec_rep(gamma_channel(c.x as int, samples)) + seq![' '] + dec_rep(
        gamma_channel(c.y as int, samples),
    ) + seq![' '] + dec_rep(gamma_channel(c.z as int, samples)) + seq!['\n']
}

/// Law: a channel accumulated fully white over any sample count quantizes to
/// 255, and an all-black channel to 0.
pub proof fn lemma_gamma_extremes(samples: int)
    requires
        samples >= 1,
    ensures
        gamma_channel(SCALE * samples, samples) == 255,
        gamma_channel(0, samples) == 0,
{
    assert((SCALE as int) * samples == samples * (SCALE as int)) by (nonlinear_arith);
    lemma_div_trunc_exact(SCALE as int, samples);
    assert(div_trunc_spec(SCALE * samples, samples) == SCALE as int);
    assert(is_sqrt(SCALE * (SCALE as int), SCALE as int)) by (nonlinear_arith);
    crate::fixed::lemma_sqrt_exists(SCALE * (SCALE as int));
    crate::fixed::lemma_sqrt_unique(
        SCALE * (SCALE as int),
        SCALE as int,
        sqrt_floor(SCALE * (SCALE as int)),
    );
    lemma_div_trunc_ge(256int * 999_000, SCALE as int, 255);
    lemma_div_trunc_lt(256int * 999_000, SCALE as int, 255);
    lemma_div_trunc_exact(0, samples);
    assert(0 * samples == 0) by (nonlinear_arith);
    assert(is_sqrt(0, 0));
    crate::fixed::lemma_sqrt_exists(0);
    crate::fixed::lemma_sqrt_unique(0, 0, sqrt_floor(0));
    lemma_div_trunc_exact(0, SCALE as int);
    assert(0 * (SCALE as int) == 0) by (nonlinear_arith);
}

/// A quantized channel of a sane accumulation lies in [0, 255].
pub proof fn lemma_gamma_channel_range(c: int, samples: int)
    requires
        samples >= 1,
        0 <= c <= samples * SCALE,
    ensures
        0 <= gamma_channel(c, samples) <= 255,
{
    lemma_div_trunc_nonneg(c, samples);
    assert(samples * (SCALE as int) == (SCALE as int) * samples) by (nonlinear_arith);
    lemma_div_trunc_quot_le(c, samples, SCALE as int);
    let avg = div_trunc_spec(c, samples);
    assert(avg * SCALE >= 0) by (nonlinear_arith)
        requires
            avg >= 0,
    ;
    crate::fixed::lemma_sqrt_exists(avg * SCALE);
    let g = sqrt_floor(avg * SCALE);
    let clamped = if g > 999_000 {
        999_000int
    } else {
        g
    };
    assert(0 <= clamped <= 999_000);
    lemma_div_trunc_nonneg(256 * clamped, SCALE as int);
    lemma_div_trunc_lt(256 * clamped, SCALE as int, 255);
}

fn gamma_quantize(c: i128, samples: i128) -> (r: u32)
    requires
        samples >= 1,
        0 <= c <= samples * SCALE,
    ensures
        r == gamma_channel(c as int, samples as int),
        r <= 255,
{
    proof {
        lemma_gamma_channel_range(c as int, samples as int);
        lemma_div_trunc_nonneg(c as int, samples as int);
        assert(samples * (SCALE as int) == (SCALE as int) * samples) by (nonlinear_arith);
        lemma_div_trunc_quot_le(c as int, samples as int, SCALE as int);
    }
    let avg = div_trunc(c, samples);
    proof {
        lemma_abs_mul_le(avg as int, SCALE as int, SCALE as int, SCALE as int);
        crate::fixed::lemma_sqrt_exists(avg * (SCALE as int));
    }
    let g_u = isqrt((avg * SCALE) as u128);
    proof {
        assert(g_u <= 1_000_000) by (nonlinear_arith)
            requires
                is_sqrt((avg * SCALE) as int, g_u as int),
                (avg * SCALE) as int <= 1_000_000_000_000,
        ;
    }
    let g = g_u as i128;
    let clamped: i128 = if g > 999_000 {
        999_000
    } else {
        g
    };
    let q = div_trunc(256 * clamped, SCALE);
    q as u32
}

/// Writes one pixel's accumulated color as its output line, averaging over
/// the sample count with gamma correction and quantization.
pub fn write_color(pixel_color: &Color, samples: i32) -> (r: String)
    requires
        samples >= 1,
        0 <= pixel_color.x <= samples * SCALE,
        0 <= pixel_color.y <= samples * SCALE,
        0 <= pixel_color.z <= samples * SCALE,
    ensures
        r@ == color_line(*pixel_color, samples as int),
{
    let s = samples as i128;
    let ir = gamma_quantize(pixel_color.x, s);
    let ig = gamma_quantize(pixel_color.y, s);
    let ib = gamma_quantize(pixel_color.z, s);
    let mut out = String::new();
    push_decimal(&mut out, ir);
    out.append(" ");
    push_decimal(&mut out, ig);
    out.append(" ");
    push_decimal(&mut out, ib);
    out.append("\n");
    proof {
        reveal_strlit(" ");
        reveal_strlit("\n");
        assert(" "@ =~= seq![' ']);
        assert("\n"@ =~= seq!['\n']);
        assert(out@ =~= color_line(*pixel_color, samples as int));
    }
    out
}

} // verus!
