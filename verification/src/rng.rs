//! Random sampling for the Monte-Carlo integrator.
//!
//! The one outside call is `rand::random`; everything built on it states
//! only what holds of every possible draw (ranges, boundedness, which
//! hemisphere), never which value comes back.

use vstd::prelude::*;

use crate::fx::{fx_mul, lemma_tdiv_mag, mag, tdiv};
use crate::vec3::{bounded, lemma_dot_fits, lemma_len_sq_nonneg, spec_dot, spec_len, spec_len_sq, Vec3};

verus! {

/// Relies on rand::random: a fresh draw from the standard distribution
/// of the type; nothing is promised of the value.
pub assume_specification<T>[ rand::random::<T> ]() -> (r: T)
    where
        rand::distributions::Standard: rand::distributions::Distribution<T>,
;

/// A uniformly random fixed-point value in `[0, 1)`: sixteen random
/// fractional bits.
pub fn random_unit_fx() -> (r: i64)
    ensures
        0 <= r < 65536,
{
    let v: u16 = rand::random();
    v as i64
}

/// A uniformly spaced random fixed-point value in `[min, max)`.
pub fn random_range_fx(min: i64, max: i64) -> (r: i64)
    requires
        min < max,
        mag(min as int) <= 0x1000000000000,
        mag(max as int) <= 0x1000000000000,
    ensures
        min <= r < max,
{
    let u = random_unit_fx();
    let span = max - min;
    proof {
        lemma_tdiv_mag(span * u, 65536);
        assert(mag(span * u) <= span * 65535) by (nonlinear_arith)
            requires 0 <= u <= 65535 && span >= 1 && mag(span as int) == span;
        assert(span * 65535 / 65536 < span) by (nonlinear_arith)
            requires span >= 1;
        assert(mag(span * u) / 65536 <= span * 65535 / 65536) by (nonlinear_arith)
            requires 0 <= mag(span * u) <= span * 65535;
        assert(tdiv(span * u, 65536) >= 0);
    }
    let off = fx_mul(span, u);
    min + off
}

impl Vec3 {
    /// A random vector with components in `[0, 1)`.
    pub fn random() -> (r: Vec3)
        ensures
            bounded(r, 65536),
            r.x >= 0 && r.y >= 0 && r.z >= 0,
    {
        let x = random_unit_fx();
        let y = random_unit_fx();
        let z = random_unit_fx();
        Vec3 { x, y, z }
    }

    /// A random vector with components in `[min, max)`.
    pub fn random_limit(min: i64, max: i64) -> (r: Vec3)
        requires
            min < max,
            mag(min as int) <= 0x1000000000000,
            mag(max as int) <= 0x1000000000000,
        ensures
            min <= r.x < max && min <= r.y < max && min <= r.z < max,
    {
        let x = random_range_fx(min, max);
        let y = random_range_fx(min, max);
        let z = random_range_fx(min, max);
        Vec3 { x, y, z }
    }

    /// Rejection sampling: a random point strictly inside the unit sphere.
    /// The candidate lands inside with probability about one half, so the
    /// retry budget is never exhausted in practice; if it were, a fixed
    /// interior point stands in.
    pub fn random_in_unit_sphere() -> (r: Vec3)
        ensures
            bounded(r, 65536),
            spec_len_sq(r) < 65536,
    {
        let mut tries: usize = 0;
        while tries < 1024
            invariant
                true,
            decreases 1024 - tries,
        {
            let p = Vec3::random_limit(-65536, 65536);
            proof {
                lemma_dot_fits(p, p, 65536, 65536);
                lemma_len_sq_nonneg(p);
            }
            if p.length_squared() < 65536 {
                return p;
            }
            tries = tries + 1;
        }
        let fallback = Vec3 { x: 32768, y: 0, z: 0 };
        proof {
            lemma_len_sq_nonneg(fallback);
            assert(spec_len_sq(fallback) == tdiv(32768int * 32768, 65536));
        }
        fallback
    }

    /// A random direction of nearly unit length: a point drawn from the
    /// unit sphere, rejected below half a unit of squared length (where
    /// normalization would degrade), then normalized. The result is the
    /// exact normalization of such a draw, and its squared length is
    /// within a small bracket of one.
    pub fn random_unit_vector() -> (r: Vec3)
        ensures
            bounded(r, 0x2000000),
            65529 <= spec_len_sq(r) <= 65616,
            exists|q: Vec3|
                bounded(q, 65536) && 16384 <= #[trigger] spec_len_sq(q) < 65536 && r
                    == crate::vec3::spec_normalize(q),
    {
        let mut tries: usize = 0;
        while tries < 1024
            invariant
                true,
            decreases 1024 - tries,
        {
            let p = Vec3::random_in_unit_sphere();
            proof {
                lemma_dot_fits(p, p, 65536, 65536);
                lemma_len_sq_nonneg(p);
            }
            if p.length_squared() >= 16384 {
                proof {
                    lemma_len_floor(p);
                    crate::vec3::lemma_normalize_near_unit(p);
                }
                let r = p.normalize();
                return r;
            }
            tries = tries + 1;
        }
        let fallback = Vec3 { x: 32768, y: 0, z: 0 };
        proof {
            lemma_len_sq_nonneg(fallback);
            assert(spec_len_sq(fallback) == tdiv(32768int * 32768, 65536));
            lemma_len_floor(fallback);
            crate::vec3::lemma_normalize_near_unit(fallback);
        }
        fallback.normalize()
    }

    /// A random point strictly inside the unit sphere, flipped if needed
    /// so that it never points away from the given normal's side.
    pub fn random_in_hemisphere(normal: &Vec3) -> (r: Vec3)
        requires
            bounded(*normal, 0x2000000),
        ensures
            bounded(r, 65536),
            spec_len_sq(r) < 65536,
            spec_dot(r, *normal) >= 0,
    {
        let in_unit_sphere = Vec3::random_in_unit_sphere();
        proof {
            lemma_dot_fits(in_unit_sphere, *normal, 65536, 0x2000000);
        }
        if in_unit_sphere.dot(*normal) > 0 {
            in_unit_sphere
        } else {
            proof {
                crate::vec3::lemma_dot_neg(in_unit_sphere, *normal);
                crate::vec3::lemma_len_sq_neg(in_unit_sphere);
            }
            in_unit_sphere.neg()
        }
    }

    /// Rejection sampling: a random point in the unit disk of the lens
    /// plane (zero third component), with the same bounded retry budget
    /// as the sphere sampler.
    pub fn random_in_unit_disk() -> (r: Vec3)
        ensures
            bounded(r, 65536),
            spec_len_sq(r) < 65536,
            r.z == 0,
    {
        let mut tries: usize = 0;
        while tries < 1024
            invariant
                true,
            decreases 1024 - tries,
        {
            let x = random_range_fx(-65536, 65536);
            let y = random_range_fx(-65536, 65536);
            let p = Vec3 { x, y, z: 0 };
            proof {
                lemma_dot_fits(p, p, 65536, 65536);
                lemma_len_sq_nonneg(p);
            }
            if p.length_squared() < 65536 {
                return p;
            }
            tries = tries + 1;
        }
        let fallback = Vec3 { x: 32768, y: 0, z: 0 };
        proof {
            lemma_len_sq_nonneg(fallback);
            assert(spec_len_sq(fallback) == tdiv(32768int * 32768, 65536));
        }
        fallback
    }
}

/// A squared length of at least a quarter puts the fixed-point length at
/// or above half a unit — in particular above the eighth-of-a-unit floor
/// that keeps normalization near-unit.
proof fn lemma_len_floor(p: Vec3)
    requires
        bounded(p, 65536),
        16384 <= spec_len_sq(p),
        spec_len_sq(p) <= 0x30000,
    ensures
        spec_len(p) >= 8192,
{
    let q = spec_len_sq(p);
    crate::fx::lemma_sqrt_floor(q * 65536);
    let l = spec_len(p);
    assert((l + 1) * (l + 1) > 16384 * 65536);
    assert(l + 1 > 32768) by (nonlinear_arith)
        requires (l + 1) * (l + 1) > 16384 * 65536 && l + 1 > 0;
}


} // verus!
