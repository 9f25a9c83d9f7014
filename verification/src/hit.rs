//! Hit records and front-face resolution.
//!
//! The stored normal always opposes the incoming ray's direction;
//! `lemma_face_normal_opposes` is the proof.

use vstd::prelude::*;

use crate::fx::{mag, tdiv, FX_ONE};
use crate::material::Material;
use crate::ray::Ray;
use crate::vec3::{bounded, spec_dot, spec_dot_raw, spec_neg, Point3, Vec3};

verus! {

/// A surface intersection: position, opposing normal, ray parameter,
/// which face was struck, and the material there.
#[derive(Clone, Copy, Debug)]
pub struct HitRecord {
    pub p: Point3,
    pub normal: Vec3,
    pub t: i64,
    pub front_face: bool,
    pub material: Material,
}

/// Whether the ray strikes the front face: the outward normal points
/// against the ray's direction.
pub open spec fn spec_front_face(ray: Ray, outward_normal: Vec3) -> bool {
    spec_dot(ray.direction, outward_normal) < 0
}

/// The stored normal: the outward normal, flipped when the back face
/// was struck, so that it always opposes the ray.
pub open spec fn spec_face_normal(ray: Ray, outward_normal: Vec3) -> Vec3 {
    if spec_front_face(ray, outward_normal) {
        outward_normal
    } else {
        spec_neg(outward_normal)
    }
}

/// Resolves the stored normal and the front-face flag from the outward
/// normal. The dot product is taken in 128-bit arithmetic, so only
/// loose component bounds are needed.
pub fn set_face_normal(ray: &Ray, outward_normal: Vec3) -> (r: (bool, Vec3))
    requires
        bounded(ray.direction, 0x4000000000000000),
        bounded(outward_normal, 0x4000000000000000),
    ensures
        r.0 == spec_front_face(*ray, outward_normal),
        r.1 == spec_face_normal(*ray, outward_normal),
{
    let d = ray.direction;
    let n = outward_normal;
    proof {
        crate::vec3::lemma_mag_mul(d.x as int, n.x as int, 0x4000000000000000, 0x4000000000000000);
        crate::vec3::lemma_mag_mul(d.y as int, n.y as int, 0x4000000000000000, 0x4000000000000000);
        crate::vec3::lemma_mag_mul(d.z as int, n.z as int, 0x4000000000000000, 0x4000000000000000);
    }
    let s: i128 = (d.x as i128) * (n.x as i128) + (d.y as i128) * (n.y as i128) + (d.z as i128)
        * (n.z as i128);
    // The fixed-point dot product is negative exactly when the raw sum of
    // products reaches one whole negative quantum.
    let front_face = s <= -65536;
    proof {
        lemma_raw_sign(s as int);
        assert(s as int == spec_dot_raw(d, n));
    }
    let normal = if front_face {
        outward_normal
    } else {
        outward_normal.neg()
    };
    (front_face, normal)
}

/// The truncating rescale of a raw dot product is negative exactly when
/// the raw value is at most one negative quantum.
proof fn lemma_raw_sign(s: int)
    ensures
        (tdiv(s, FX_ONE as int) < 0) == (s <= -65536),
{
    if s <= -65536 {
        assert(mag(s) >= 65536);
        assert(mag(s) / 65536 >= 1) by (nonlinear_arith)
            requires mag(s) >= 65536;
    } else if s < 0 {
        assert(mag(s) < 65536);
        assert(mag(s) / 65536 == 0) by (nonlinear_arith)
            requires 0 <= mag(s) < 65536;
    } else {
        assert(mag(s) / 65536 >= 0) by (nonlinear_arith)
            requires mag(s) >= 0;
    }
}

/// The resolved normal never points with the incoming ray: its dot
/// product with the ray's direction is at most zero.
pub proof fn lemma_face_normal_opposes(ray: Ray, outward_normal: Vec3)
    requires
        bounded(ray.direction, 0x7fffffffffffffff),
        bounded(outward_normal, 0x7fffffffffffffff),
    ensures
        spec_dot(ray.direction, spec_face_normal(ray, outward_normal)) <= 0,
{
    if !spec_front_face(ray, outward_normal) {
        crate::vec3::lemma_dot_neg(ray.direction, outward_normal);
    }
}

} // verus!
