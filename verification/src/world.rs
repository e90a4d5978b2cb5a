use vstd::prelude::*;

use crate::fixed::{T_MAX};
use crate::hit::HitRecord;
use crate::material::material_wf;
use crate::ray::Ray;
use crate::sphere::{
    lemma_sphere_hit_rec_bounds, lemma_sphere_hit_t_narrow, ray_wf, sphere_hit_rec,
    sphere_hit_spec, sphere_hit_t, sphere_wf, Sphere,
};
use crate::vector3d::{in_range, len_sq_spec, VEC_MUL_BOUND};

verus! {

/// The closed set of geometry kinds a scene can hold.
#[derive(Clone, Copy, Debug)]
pub enum Hittable {
    Sphere(Sphere),
}

pub open spec fn hittable_wf(h: Hittable) -> bool {
    match h {
        Hittable::Sphere(s) => sphere_wf(s),
    }
}

/// What Hittable::hit returns.
pub open spec fn hittable_hit_spec(h: Hittable, ray: Ray, t_min: int, t_max: int) -> Option<
    HitRecord,
> {
    match h {
        Hittable::Sphere(s) => sphere_hit_spec(s, ray, t_min, t_max),
    }
}

impl Hittable {
    pub fn hit(&self, ray: &Ray, t_min: i128, t_max: i128) -> (res: Option<HitRecord>)
        requires
            hittable_wf(*self),
            ray_wf(*ray),
            0 <= t_min <= t_max <= T_MAX,
        ensures
            res == hittable_hit_spec(*self, *ray, t_min as int, t_max as int),
    {
        match self {
            Hittable::Sphere(s) => s.hit(ray, t_min, t_max),
        }
    }
}

/// Every object of the scene is well-formed.
pub open spec fn world_wf(objs: Seq<Hittable>) -> bool {
    forall|i: int| 0 <= i < objs.len() ==> hittable_wf(#[trigger] objs[i])
}

/// What HittableList::hit returns: the objects are consulted in order, each
/// against an upper bound shrunk to the best parameter found so far, which
/// yields the globally nearest hit.
pub open spec fn scene_hit_spec(objs: Seq<Hittable>, ray: Ray, t_min: int, t_max: int) -> Option<
    HitRecord,
>
    decreases objs.len(),
{
    if objs.len() == 0 {
        None
    } else {
        match hittable_hit_spec(objs[0], ray, t_min, t_max) {
            None => scene_hit_spec(objs.subrange(1, objs.len() as int), ray, t_min, t_max),
            Some(h) => match scene_hit_spec(
                objs.subrange(1, objs.len() as int),
                ray,
                t_min,
                h.t as int,
            ) {
                Some(h2) => Some(h2),
                None => Some(h),
            },
        }
    }
}

/// Bounds carried by any record a well-formed scene reports.
pub proof fn lemma_scene_hit_bounds(objs: Seq<Hittable>, ray: Ray, t_min: int, t_max: int)
    requires
        world_wf(objs),
        ray_wf(ray),
        0 <= t_min <= t_max <= T_MAX,
    ensures
        scene_hit_spec(objs, ray, t_min, t_max) matches Some(h) ==> {
            &&& t_min <= h.t <= t_max
            &&& material_wf(h.material)
            &&& in_range(h.point, 200_000_000_000)
            &&& in_range(h.normal, VEC_MUL_BOUND as int)
            &&& len_sq_spec(ray.direction) > 0
        },
    decreases objs.len(),
{
    if objs.len() > 0 {
        let rest = objs.subrange(1, objs.len() as int);
        assert(world_wf(rest)) by {
            assert(forall|i: int|
                0 <= i < rest.len() ==> rest[i] == objs[i + 1] && hittable_wf(#[trigger] rest[i]));
        }
        match objs[0] {
            Hittable::Sphere(s) => {
                lemma_sphere_hit_rec_bounds(s, ray, t_min, t_max);
            },
        }
        match hittable_hit_spec(objs[0], ray, t_min, t_max) {
            None => {
                lemma_scene_hit_bounds(rest, ray, t_min, t_max);
            },
            Some(h) => {
                lemma_scene_hit_bounds(rest, ray, t_min, h.t as int);
            },
        }
    }
}

/// Appending a well-formed object keeps a scene well-formed.
pub proof fn lemma_world_wf_push(objs: Seq<Hittable>, obj: Hittable)
    requires
        world_wf(objs),
        hittable_wf(obj),
    ensures
        world_wf(objs.push(obj)),
{
    let objs2 = objs.push(obj);
    assert forall|i: int| 0 <= i < objs2.len() implies hittable_wf(#[trigger] objs2[i]) by {
        if i < objs.len() {
            assert(objs2[i] == objs[i]);
        } else {
            assert(objs2[i] == obj);
        }
    }
}

/// An ordered collection of scene objects.
pub struct HittableList {
    pub objects: Vec<Hittable>,
}

impl HittableList {
    /// An empty scene.
    pub fn new() -> (r: Self)
        ensures
            r.objects@.len() == 0,
    {
        Self { objects: Vec::new() }
    }

    /// Appends an object; it will be consulted after all earlier ones.
    pub fn add(&mut self, object: Hittable)
        ensures
            final(self).objects@ == old(self).objects@.push(object),
    {
        self.objects.push(object);
    }

    /// Empties the scene.
    pub fn clear(&mut self)
        ensures
            final(self).objects@.len() == 0,
    {
        self.objects = Vec::new();
    }

    /// The nearest hit across all objects within [t_min, t_max], or none.
    pub fn hit(&self, ray: &Ray, t_min: i128, t_max: i128) -> (res: Option<HitRecord>)
        requires
            world_wf(self.objects@),
            ray_wf(*ray),
            0 <= t_min <= t_max <= T_MAX,
        ensures
            res == scene_hit_spec(self.objects@, *ray, t_min as int, t_max as int),
    {
        let objs = &self.objects;
        let ghost full = self.objects@;
        proof {
            assert(full.subrange(0, full.len() as int) =~= full);
        }
        let mut temp_record: Option<HitRecord> = None;
        let mut closest_so_far: i128 = t_max;
        let mut i: usize = 0;
        while i < objs.len()
            invariant
                0 <= i <= full.len(),
                objs@ == full,
                world_wf(full),
                ray_wf(*ray),
                0 <= t_min <= t_max <= T_MAX,
                match temp_record {
                    None => closest_so_far == t_max && scene_hit_spec(
                        full,
                        *ray,
                        t_min as int,
                        t_max as int,
                    ) == scene_hit_spec(
                        full.subrange(i as int, full.len() as int),
                        *ray,
                        t_min as int,
                        t_max as int,
                    ),
                    Some(b) => {
                        &&& closest_so_far == b.t
                        &&& t_min <= b.t <= t_max
                        &&& scene_hit_spec(full, *ray, t_min as int, t_max as int) == match
                            scene_hit_spec(
                            full.subrange(i as int, full.len() as int),
                            *ray,
                            t_min as int,
                            b.t as int,
                        ) {
                            Some(h2) => Some(h2),
                            None => Some(b),
                        }
                    },
                },
            decreases objs.len() - i,
        {
            let ghost pre = full.subrange(i as int, full.len() as int);
            let ghost rest = full.subrange(i as int + 1, full.len() as int);
            proof {
                assert(pre.len() > 0);
                assert(pre[0] == full[i as int]);
                assert(pre.subrange(1, pre.len() as int) =~= rest);
                match full[i as int] {
                    Hittable::Sphere(s) => {
                        lemma_sphere_hit_rec_bounds(s, *ray, t_min as int, closest_so_far as int);
                    },
                }
            }
            if let Some(record) = objs[i].hit(ray, t_min, closest_so_far) {
                closest_so_far = record.t;
                temp_record = Some(record);
            }
            i = i + 1;
        }
        proof {
            assert(full.subrange(full.len() as int, full.len() as int).len() == 0);
        }
        temp_record
    }
}

/// Law: when two objects both intersect a ray over the full range, the scene
/// reports the record with the smaller parameter, never the farther one.
pub proof fn lemma_scene_two_spheres_nearest(
    a: Sphere,
    b: Sphere,
    ray: Ray,
    t_min: int,
    t_max: int,
)
    requires
        sphere_wf(a),
        sphere_wf(b),
        ray_wf(ray),
        0 <= t_min <= t_max <= T_MAX,
        sphere_hit_spec(a, ray, t_min, t_max) is Some,
        sphere_hit_spec(b, ray, t_min, t_max) is Some,
    ensures
        ({
            let ha = sphere_hit_spec(a, ray, t_min, t_max)->Some_0;
            let hb = sphere_hit_spec(b, ray, t_min, t_max)->Some_0;
            let res = scene_hit_spec(
                seq![Hittable::Sphere(a), Hittable::Sphere(b)],
                ray,
                t_min,
                t_max,
            );
            res == Some(if hb.t <= ha.t { hb } else { ha }) && res->Some_0.t <= ha.t
                && res->Some_0.t <= hb.t
        }),
{
    let objs = seq![Hittable::Sphere(a), Hittable::Sphere(b)];
    let ta = sphere_hit_t(a, ray, t_min, t_max)->Some_0;
    let tb = sphere_hit_t(b, ray, t_min, t_max)->Some_0;
    let ha = sphere_hit_spec(a, ray, t_min, t_max)->Some_0;
    let hb = sphere_hit_spec(b, ray, t_min, t_max)->Some_0;
    assert(ha == sphere_hit_rec(a, ray, ta));
    assert(hb == sphere_hit_rec(b, ray, tb));
    assert(t_min <= ta <= t_max);
    assert(t_min <= tb <= t_max);
    assert(ha.t == ta && hb.t == tb);
    let tail = objs.subrange(1, 2);
    assert(tail[0] == Hittable::Sphere(b));
    assert(tail.subrange(1, 1).len() == 0);
    lemma_sphere_hit_t_narrow(b, ray, t_min, ta, t_max);
    if tb <= ta {
        assert(sphere_hit_t(b, ray, t_min, ta) == Some(tb));
        assert(sphere_hit_spec(b, ray, t_min, ta) == Some(hb));
        assert(scene_hit_spec(tail.subrange(1, 1), ray, t_min, tb) is None);
        assert(scene_hit_spec(tail, ray, t_min, ta) == Some(hb));
    } else {
        assert(sphere_hit_t(b, ray, t_min, ta) is None) by {
            if sphere_hit_t(b, ray, t_min, ta) is Some {
                let t = sphere_hit_t(b, ray, t_min, ta)->Some_0;
                assert(sphere_hit_t(b, ray, t_min, t_max) == Some(t));
                assert(t == tb && t <= ta);
                assert(false);
            }
        }
        assert(scene_hit_spec(tail.subrange(1, 1), ray, t_min, ta) is None);
        assert(scene_hit_spec(tail, ray, t_min, ta) is None);
    }
}

} // verus!
