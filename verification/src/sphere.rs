//! The one primitive: a sphere, intersected by the quadratic formula.
//!
//! `spec_sphere_hit` states the returned record as a closed fixed-point
//! formula; `hit` computes exactly that. A negative radius models a hollow
//! surface: it flips the outward normal.

use vstd::prelude::*;

use crate::fx::{
    fx_div, fx_div_spec, fx_mul, fx_mul_spec, fx_sqrt, fx_sqrt_spec, lemma_sqrt_floor,
    lemma_tdiv_mag, mag,
};
use crate::hit::{set_face_normal, spec_face_normal, spec_front_face, HitRecord};
use crate::material::{wf_material, Material};
use crate::ray::{spec_at, Ray};
use crate::vec3::{
    bounded, lemma_dot_fits, lemma_fx_mul_mag, lemma_len_sq_nonneg, lemma_scale_fits, spec_dot,
    spec_len, spec_len_sq, spec_neg, spec_normalize, spec_sub, Point3, Vec3,
};

verus! {

#[derive(Clone, Copy, Debug)]
pub struct Sphere {
    pub center: Point3,
    pub radius: i64,
    pub material: Material,
}

/// Scene geometry keeps coordinates and radii within 1024 in real terms,
/// so every intermediate of the intersection arithmetic fits; the
/// material's parameters are physically meaningful.
pub open spec fn wf_sphere(s: Sphere) -> bool {
    bounded(s.center, 0x4000000) && mag(s.radius as int) <= 0x4000000 && wf_material(s.material)
}

/// Rays handed to intersection queries are bounded the same way.
pub open spec fn wf_ray(r: Ray) -> bool {
    bounded(r.origin, 0x4000000) && bounded(r.direction, 0x4000000)
}

/// Admissible query interval: positive, ordered, and at most 2048 in real
/// terms, the horizon of this fixed-point world.
pub open spec fn wf_interval(t_min: int, t_max: int) -> bool {
    0 < t_min && t_min <= t_max && t_max <= 0x8000000
}

/// Offset from sphere center to ray origin.
pub open spec fn spec_oc(s: Sphere, r: Ray) -> Vec3 {
    spec_sub(r.origin, s.center)
}

pub open spec fn spec_half_b(s: Sphere, r: Ray) -> int {
    spec_dot(spec_oc(s, r), r.direction)
}

pub open spec fn spec_c(s: Sphere, r: Ray) -> int {
    spec_len_sq(spec_oc(s, r)) - fx_mul_spec(s.radius as int, s.radius as int)
}

/// The quadratic's discriminant, in fixed point: `half_b^2 - a c`.
pub open spec fn spec_disc(s: Sphere, r: Ray) -> int {
    fx_mul_spec(spec_half_b(s, r), spec_half_b(s, r)) - fx_mul_spec(
        spec_len_sq(r.direction),
        spec_c(s, r),
    )
}

/// The outward surface direction at `p`: the normalized offset from the
/// center, flipped for a negative (hollow) radius.
pub open spec fn spec_outward(s: Sphere, p: Point3) -> Vec3 {
    if s.radius < 0 {
        spec_neg(spec_normalize(spec_sub(p, s.center)))
    } else {
        spec_normalize(spec_sub(p, s.center))
    }
}

/// The hit record reported for root `t`.
pub open spec fn spec_make_hit(s: Sphere, r: Ray, root: int) -> HitRecord {
    let p = spec_at(r, root);
    let outward = spec_outward(s, p);
    HitRecord {
        p,
        normal: spec_face_normal(r, outward),
        t: root as i64,
        front_face: spec_front_face(r, outward),
        material: s.material,
    }
}

/// Ray-sphere intersection: no real root, a degenerate direction, or a
/// zero radius yield no hit; otherwise the smaller root strictly inside
/// `(t_min, t_max)` wins, then the larger, else no hit.
pub open spec fn spec_sphere_hit(s: Sphere, r: Ray, t_min: int, t_max: int) -> Option<HitRecord> {
    if s.radius == 0 {
        None
    } else {
        let a = spec_len_sq(r.direction);
        let half_b = spec_half_b(s, r);
        let disc = spec_disc(s, r);
        if a == 0 || disc < 0 {
            None
        } else {
            let sqrtd = fx_sqrt_spec(disc);
            let root1 = fx_div_spec(-half_b - sqrtd, a);
            let root2 = fx_div_spec(-half_b + sqrtd, a);
            if t_min < root1 && root1 < t_max {
                Some(spec_make_hit(s, r, root1))
            } else if t_min < root2 && root2 < t_max {
                Some(spec_make_hit(s, r, root2))
            } else {
                None
            }
        }
    }
}

/// Bounds on the discriminant pipeline under well-formedness, and
/// nonnegativity of the square-root operand.
proof fn lemma_quadratic_bounds(s: Sphere, r: Ray)
    requires
        wf_sphere(s),
        wf_ray(r),
    ensures
        0 <= spec_len_sq(r.direction) <= 0x3000000000,
        mag(spec_half_b(s, r)) <= 0x6000000000,
        mag(spec_c(s, r)) <= 0xd000000000,
        mag(spec_disc(s, r)) <= 0x7fffffffffffffff,
        spec_disc(s, r) >= 0 ==> 0 <= fx_sqrt_spec(spec_disc(s, r)) < 0x10000000000,
{
    lemma_dot_fits(r.direction, r.direction, 0x4000000, 0x4000000);
    lemma_dot_fits(spec_oc(s, r), r.direction, 0x8000000, 0x4000000);
    lemma_dot_fits(spec_oc(s, r), spec_oc(s, r), 0x8000000, 0x8000000);
    lemma_len_sq_nonneg(r.direction);
    lemma_len_sq_nonneg(spec_oc(s, r));
    lemma_fx_mul_mag(s.radius as int, s.radius as int, 0x4000000, 0x4000000);
    lemma_fx_mul_mag(spec_half_b(s, r), spec_half_b(s, r), 0x6000000000, 0x6000000000);
    lemma_fx_mul_mag(spec_len_sq(r.direction), spec_c(s, r), 0x3000000000, 0xd000000000);
    if spec_disc(s, r) >= 0 {
        let d = spec_disc(s, r);
        lemma_sqrt_floor(d * 65536);
        assert(fx_sqrt_spec(d) < 0x10000000000) by (nonlinear_arith)
            requires
                0 <= fx_sqrt_spec(d),
                fx_sqrt_spec(d) * fx_sqrt_spec(d) <= d * 65536,
                d <= 0x7fffffffffffffff;
    }
}

/// The two quadratic roots come ordered: the first candidate never lies
/// beyond the second.
proof fn lemma_roots_ordered(s: Sphere, r: Ray)
    requires
        wf_sphere(s),
        wf_ray(r),
        spec_len_sq(r.direction) != 0,
        spec_disc(s, r) >= 0,
    ensures
        fx_div_spec(-spec_half_b(s, r) - fx_sqrt_spec(spec_disc(s, r)), spec_len_sq(r.direction))
            <= fx_div_spec(
            -spec_half_b(s, r) + fx_sqrt_spec(spec_disc(s, r)),
            spec_len_sq(r.direction),
        ),
{
    lemma_quadratic_bounds(s, r);
    let hb = spec_half_b(s, r);
    let sq = fx_sqrt_spec(spec_disc(s, r));
    let a = spec_len_sq(r.direction);
    crate::fx::lemma_tdiv_mono((-hb - sq) * 65536, (-hb + sq) * 65536, a);
    assert((-hb - sq) * 65536 <= (-hb + sq) * 65536) by (nonlinear_arith)
        requires sq >= 0;
}

/// Every reported hit lies strictly inside the queried interval, and its
/// stored normal opposes the incoming ray and is componentwise bounded.
/// Whenever the hit point sits at least an eighth of a unit from the
/// center (the case for every scene radius down to 0.2, up to rounding),
/// the stored normal's squared length is within a small bracket of one.
pub proof fn lemma_sphere_hit_properties(s: Sphere, r: Ray, t_min: int, t_max: int)
    requires
        wf_sphere(s),
        wf_ray(r),
        wf_interval(t_min, t_max),
    ensures
        match spec_sphere_hit(s, r, t_min, t_max) {
            Some(h) => t_min < h.t as int && (h.t as int) < t_max && spec_dot(r.direction, h.normal)
                <= 0 && bounded(h.normal, 0x2000000) && wf_material(h.material) && (spec_len(
                spec_sub(h.p, s.center),
            ) >= 8192 ==> 65529 <= crate::vec3::spec_len_sq(h.normal) <= 65616),
            None => true,
        },
{
    match spec_sphere_hit(s, r, t_min, t_max) {
        Some(h) => {
            lemma_quadratic_bounds(s, r);
            let a = spec_len_sq(r.direction);
            let hb = spec_half_b(s, r);
            let sq = fx_sqrt_spec(spec_disc(s, r));
            let root1 = fx_div_spec(-hb - sq, a);
            let root2 = fx_div_spec(-hb + sq, a);
            let root = if t_min < root1 && root1 < t_max {
                root1
            } else {
                root2
            };
            assert(h == spec_make_hit(s, r, root));
            assert(t_min < root < t_max);
            lemma_make_hit_properties(s, r, root);
        },
        None => {},
    }
}

/// The record built for an in-range root has an opposing, bounded normal,
/// near-unit whenever the hit point keeps an eighth of a unit of distance
/// from the center.
proof fn lemma_make_hit_properties(s: Sphere, r: Ray, root: int)
    requires
        wf_sphere(s),
        wf_ray(r),
        0 < root <= 0x8000000,
    ensures
        spec_make_hit(s, r, root).t as int == root,
        spec_dot(r.direction, spec_make_hit(s, r, root).normal) <= 0,
        bounded(spec_make_hit(s, r, root).normal, 0x2000000),
        spec_len(spec_sub(spec_at(r, root), s.center)) >= 8192 ==> 65529
            <= crate::vec3::spec_len_sq(spec_make_hit(s, r, root).normal) <= 65616,
{
    let p = spec_at(r, root);
    lemma_scale_fits(r.direction, root, 0x4000000, 0x8000000);
    assert(bounded(p, 0x2004000000));
    let diff = spec_sub(p, s.center);
    assert(bounded(diff, 0x2008000000));
    crate::vec3::lemma_normalize_bounded(diff);
    let outward = spec_outward(s, p);
    assert(bounded(outward, 0x2000000));
    crate::hit::lemma_face_normal_opposes(r, outward);
    if spec_len(diff) >= 8192 {
        crate::vec3::lemma_normalize_near_unit(diff);
        let unit = spec_normalize(diff);
        if s.radius < 0 {
            crate::vec3::lemma_len_sq_neg(unit);
        }
        if !crate::hit::spec_front_face(r, outward) {
            crate::vec3::lemma_len_sq_neg(outward);
        }
    }
}

/// Narrowing the query interval past a known hit keeps exactly that hit:
/// root selection does not change while the upper bound still allows it.
pub proof fn lemma_sphere_hit_narrow(s: Sphere, r: Ray, t_min: int, t1: int, t2: int, h: HitRecord)
    requires
        wf_sphere(s),
        wf_ray(r),
        wf_interval(t_min, t1),
        wf_interval(t_min, t2),
        t2 <= t1,
        spec_sphere_hit(s, r, t_min, t1) == Some(h),
        (h.t as int) < t2,
    ensures
        spec_sphere_hit(s, r, t_min, t2) == Some(h),
{
    lemma_quadratic_bounds(s, r);
    lemma_roots_ordered(s, r);
    lemma_sphere_hit_properties(s, r, t_min, t1);
    let a = spec_len_sq(r.direction);
    let hb = spec_half_b(s, r);
    let sq = fx_sqrt_spec(spec_disc(s, r));
    let root1 = fx_div_spec(-hb - sq, a);
    let root2 = fx_div_spec(-hb + sq, a);
    if t_min < root1 && root1 < t1 {
        lemma_make_hit_properties(s, r, root1);
        assert(root1 < t2);
    } else {
        lemma_make_hit_properties(s, r, root2);
        assert(root1 <= t_min);
        assert(root2 < t2);
    }
}

/// Widening the query interval keeps a reported hit unchanged.
pub proof fn lemma_sphere_hit_widen(s: Sphere, r: Ray, t_min: int, t2: int, t1: int, h: HitRecord)
    requires
        wf_sphere(s),
        wf_ray(r),
        wf_interval(t_min, t1),
        wf_interval(t_min, t2),
        t2 <= t1,
        spec_sphere_hit(s, r, t_min, t2) == Some(h),
    ensures
        spec_sphere_hit(s, r, t_min, t1) == Some(h),
{
    lemma_quadratic_bounds(s, r);
    lemma_roots_ordered(s, r);
    lemma_sphere_hit_properties(s, r, t_min, t2);
    let a = spec_len_sq(r.direction);
    let hb = spec_half_b(s, r);
    let sq = fx_sqrt_spec(spec_disc(s, r));
    let root1 = fx_div_spec(-hb - sq, a);
    let root2 = fx_div_spec(-hb + sq, a);
    if t_min < root1 && root1 < t2 {
        lemma_make_hit_properties(s, r, root1);
    } else {
        lemma_make_hit_properties(s, r, root2);
        assert(root1 <= t_min);
    }
}

impl Sphere {
    pub fn new(center: Point3, radius: i64, material: Material) -> (r: Sphere)
        ensures
            r == (Sphere { center, radius, material }),
    {
        Sphere { center, radius, material }
    }

    /// Reports the nearest intersection with parameter strictly inside
    /// `(t_min, t_max)`, exactly as `spec_sphere_hit` states it.
    pub fn hit(&self, ray: &Ray, t_min: i64, t_max: i64) -> (r: Option<HitRecord>)
        requires
            wf_sphere(*self),
            wf_ray(*ray),
            wf_interval(t_min as int, t_max as int),
        ensures
            r == spec_sphere_hit(*self, *ray, t_min as int, t_max as int),
    {
        if self.radius == 0 {
            return None;
        }
        let oc = ray.origin.sub(self.center);
        proof {
            lemma_dot_fits(ray.direction, ray.direction, 0x4000000, 0x4000000);
            lemma_dot_fits(oc, ray.direction, 0x8000000, 0x4000000);
            lemma_dot_fits(oc, oc, 0x8000000, 0x8000000);
            lemma_len_sq_nonneg(ray.direction);
            lemma_len_sq_nonneg(oc);
            lemma_fx_mul_mag(self.radius as int, self.radius as int, 0x4000000, 0x4000000);
        }
        let a = ray.direction.length_squared();
        let half_b = oc.dot(ray.direction);
        let c = oc.length_squared() - fx_mul(self.radius, self.radius);
        proof {
            lemma_fx_mul_mag(
                spec_half_b(*self, *ray),
                spec_half_b(*self, *ray),
                0x6000000000,
                0x6000000000,
            );
            lemma_fx_mul_mag(spec_len_sq(ray.direction), spec_c(*self, *ray), 0x3000000000, 0xd000000000);
        }
        let discriminant = fx_mul(half_b, half_b) - fx_mul(a, c);
        if a == 0 || discriminant < 0 {
            return None;
        }
        let sqrtd = fx_sqrt(discriminant);
        proof {
            assert(sqrtd < 0x10000000000) by (nonlinear_arith)
                requires
                    0 <= sqrtd,
                    (sqrtd as int) * (sqrtd as int) <= (discriminant as int) * 65536,
                    discriminant as int <= 0x7fffffffffffffff;
            lemma_tdiv_mag((-(half_b as int) - sqrtd) * 65536, a as int);
            lemma_tdiv_mag((-(half_b as int) + sqrtd) * 65536, a as int);
        }
        let root1 = fx_div(-half_b - sqrtd, a);
        if t_min < root1 && root1 < t_max {
            Some(self.make_hit(ray, root1))
        } else {
            let root2 = fx_div(-half_b + sqrtd, a);
            if t_min < root2 && root2 < t_max {
                Some(self.make_hit(ray, root2))
            } else {
                None
            }
        }
    }

    /// Builds the record for an in-range root.
    fn make_hit(&self, ray: &Ray, root: i64) -> (r: HitRecord)
        requires
            wf_sphere(*self),
            wf_ray(*ray),
            self.radius != 0,
            0 < root <= 0x8000000,
        ensures
            r == spec_make_hit(*self, *ray, root as int),
    {
        proof {
            lemma_scale_fits(ray.direction, root as int, 0x4000000, 0x8000000);
        }
        let p = ray.at(root);
        proof {
            assert(bounded(p, 0x2004000000int));
        }
        let diff = p.sub(self.center);
        let unit = diff.normalize();
        let outward = if self.radius < 0 {
            unit.neg()
        } else {
            unit
        };
        let (front_face, normal) = set_face_normal(ray, outward);
        HitRecord { p, normal, t: root, front_face, material: self.material }
    }
}

} // verus!
