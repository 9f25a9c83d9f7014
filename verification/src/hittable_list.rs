//! An insertion-ordered collection of spheres; intersection is
//! nearest-hit-wins across members.
//!
//! `spec_list_hit` mirrors the executable scan, which shrinks the upper
//! bound to the closest parameter seen so far. `lemma_list_hit_nearest`
//! proves that this equals intersecting every member independently over
//! the whole interval and keeping the minimum-parameter hit.

use vstd::prelude::*;

use crate::hit::HitRecord;
use crate::ray::Ray;
use crate::sphere::{
    lemma_sphere_hit_narrow, lemma_sphere_hit_properties, lemma_sphere_hit_widen, spec_sphere_hit,
    wf_interval, wf_ray, wf_sphere, Sphere,
};
use crate::vec3::{bounded, spec_dot};

verus! {

#[derive(Clone, Debug)]
pub struct HittableList {
    pub objects: Vec<Sphere>,
}

/// Every member's geometry is within the fixed-point world bounds.
pub open spec fn wf_scene(obs: Seq<Sphere>) -> bool {
    forall|i: int| 0 <= i < obs.len() ==> wf_sphere(#[trigger] obs[i])
}

/// The scan over the first `n` members, shrinking the upper bound to the
/// best parameter found so far.
pub open spec fn spec_list_hit_prefix(
    obs: Seq<Sphere>,
    r: Ray,
    t_min: int,
    t_max: int,
    n: int,
) -> Option<HitRecord>
    decreases n,
{
    if n <= 0 {
        None
    } else {
        let prev = spec_list_hit_prefix(obs, r, t_min, t_max, n - 1);
        let cur_max = match prev {
            Some(h) => h.t as int,
            None => t_max,
        };
        match spec_sphere_hit(obs[n - 1], r, t_min, cur_max) {
            Some(h) => Some(h),
            None => prev,
        }
    }
}

/// What intersecting the whole scene returns.
pub open spec fn spec_list_hit(obs: Seq<Sphere>, r: Ray, t_min: int, t_max: int) -> Option<
    HitRecord,
> {
    spec_list_hit_prefix(obs, r, t_min, t_max, obs.len() as int)
}

/// Intersecting the first `n` members independently, each over the whole
/// interval, keeping the strictly-smaller parameter (first wins ties).
pub open spec fn spec_best_hit(obs: Seq<Sphere>, r: Ray, t_min: int, t_max: int, n: int) -> Option<
    HitRecord,
>
    decreases n,
{
    if n <= 0 {
        None
    } else {
        let prev = spec_best_hit(obs, r, t_min, t_max, n - 1);
        match spec_sphere_hit(obs[n - 1], r, t_min, t_max) {
            Some(h) => match prev {
                Some(hp) => if (h.t as int) < hp.t as int {
                    Some(h)
                } else {
                    Some(hp)
                },
                None => Some(h),
            },
            None => prev,
        }
    }
}

impl HittableList {
    pub fn new() -> (r: HittableList)
        ensures
            r.objects@ =~= Seq::<Sphere>::empty(),
    {
        HittableList { objects: Vec::new() }
    }

    pub fn clear(&mut self)
        ensures
            final(self).objects@ =~= Seq::<Sphere>::empty(),
    {
        self.objects.clear()
    }

    pub fn add(&mut self, object: Sphere)
        ensures
            final(self).objects@ =~= old(self).objects@.push(object),
    {
        self.objects.push(object);
    }

    /// Nearest intersection across all members, strictly inside
    /// `(t_min, t_max)`.
    pub fn hit(&self, ray: &Ray, t_min: i64, t_max: i64) -> (r: Option<HitRecord>)
        requires
            wf_scene(self.objects@),
            wf_ray(*ray),
            wf_interval(t_min as int, t_max as int),
        ensures
            r == spec_list_hit(self.objects@, *ray, t_min as int, t_max as int),
    {
        let mut hit_record: Option<HitRecord> = None;
        let mut closest_so_far: i64 = t_max;
        let n = self.objects.len();
        for i in 0..n
            invariant
                n == self.objects@.len(),
                wf_scene(self.objects@),
                wf_ray(*ray),
                wf_interval(t_min as int, t_max as int),
                hit_record == spec_list_hit_prefix(
                    self.objects@,
                    *ray,
                    t_min as int,
                    t_max as int,
                    i as int,
                ),
                closest_so_far as int == match hit_record {
                    Some(h) => h.t as int,
                    None => t_max as int,
                },
                match hit_record {
                    Some(h) => t_min < h.t && h.t < t_max,
                    None => true,
                },
        {
            let object = self.objects[i];
            match object.hit(ray, t_min, closest_so_far) {
                Some(rec) => {
                    proof {
                        lemma_sphere_hit_properties(
                            object,
                            *ray,
                            t_min as int,
                            closest_so_far as int,
                        );
                    }
                    closest_so_far = rec.t;
                    hit_record = Some(rec);
                },
                None => {},
            }
        }
        hit_record
    }
}

/// Every hit reported by the scan lies strictly inside the interval, and
/// its normal opposes the ray and is componentwise bounded.
pub proof fn lemma_list_hit_properties(obs: Seq<Sphere>, r: Ray, t_min: int, t_max: int, n: int)
    requires
        wf_scene(obs),
        wf_ray(r),
        wf_interval(t_min, t_max),
        0 <= n <= obs.len(),
    ensures
        match spec_list_hit_prefix(obs, r, t_min, t_max, n) {
            Some(h) => t_min < h.t as int && (h.t as int) < t_max && spec_dot(r.direction, h.normal)
                <= 0 && bounded(h.normal, 0x2000000) && crate::material::wf_material(h.material),
            None => true,
        },
    decreases n,
{
    if n > 0 {
        lemma_list_hit_properties(obs, r, t_min, t_max, n - 1);
        let prev = spec_list_hit_prefix(obs, r, t_min, t_max, n - 1);
        let cur_max = match prev {
            Some(h) => h.t as int,
            None => t_max,
        };
        lemma_sphere_hit_properties(obs[n - 1], r, t_min, cur_max);
    }
}

/// The shrinking scan equals the independent minimum: the scene's hit is
/// the smallest-parameter hit among all members queried over the same,
/// whole interval (earlier members win ties).
pub proof fn lemma_list_hit_nearest(obs: Seq<Sphere>, r: Ray, t_min: int, t_max: int, n: int)
    requires
        wf_scene(obs),
        wf_ray(r),
        wf_interval(t_min, t_max),
        0 <= n <= obs.len(),
    ensures
        spec_list_hit_prefix(obs, r, t_min, t_max, n) == spec_best_hit(obs, r, t_min, t_max, n),
    decreases n,
{
    if n > 0 {
        lemma_list_hit_nearest(obs, r, t_min, t_max, n - 1);
        lemma_list_hit_properties(obs, r, t_min, t_max, n - 1);
        let prev = spec_list_hit_prefix(obs, r, t_min, t_max, n - 1);
        let s = obs[n - 1];
        lemma_sphere_hit_properties(s, r, t_min, t_max);
        match prev {
            Some(hp) => {
                let cur_max = hp.t as int;
                match spec_sphere_hit(s, r, t_min, t_max) {
                    Some(h) => {
                        if (h.t as int) < hp.t as int {
                            lemma_sphere_hit_narrow(s, r, t_min, t_max, cur_max, h);
                        } else {
                            // A hit inside the narrowed interval would have
                            // to be the same hit, with a smaller parameter:
                            // impossible, so the scan keeps the previous one.
                            match spec_sphere_hit(s, r, t_min, cur_max) {
                                Some(hn) => {
                                    lemma_sphere_hit_properties(s, r, t_min, cur_max);
                                    lemma_sphere_hit_widen(s, r, t_min, cur_max, t_max, hn);
                                    assert(false);
                                },
                                None => {},
                            }
                        }
                    },
                    None => {
                        // No hit over the whole interval: none over the
                        // narrowed one either.
                        match spec_sphere_hit(s, r, t_min, cur_max) {
                            Some(hn) => {
                                lemma_sphere_hit_widen(s, r, t_min, cur_max, t_max, hn);
                                assert(false);
                            },
                            None => {},
                        }
                    },
                }
            },
            None => {},
        }
    }
}

} // verus!
