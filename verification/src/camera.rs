//! The camera: maps normalized viewport coordinates (plus an optional
//! lens-aperture jitter for depth of field) to world-space rays.
//!
//! The vertical field of view goes through a small odd/even polynomial
//! tangent. Two total-function guards keep the arithmetic meaningful for
//! any input: a nonpositive cosine falls back to one, and the viewport
//! half-height is clamped into `[0, 16]` (far beyond any sensible field
//! of view, so the clamp never binds in practice).

use vstd::prelude::*;

use crate::fx::{fx_div, fx_div_spec, fx_mul, fx_mul_spec, lemma_tdiv_mag, mag, tdiv};
use crate::ray::Ray;
use crate::vec3::{
    bounded, lemma_fx_mul_mag, lemma_scale_bound, lemma_scale_fits, spec_add, spec_cross,
    spec_normalize, spec_scale, spec_sub, Point3, Vec3,
};

verus! {

#[derive(Clone, Copy, Debug)]
pub struct Camera {
    pub origin: Point3,
    pub lower_left_corner: Point3,
    pub horizontal: Vec3,
    pub vertical: Vec3,
    pub u: Vec3,
    pub v: Vec3,
    pub w: Vec3,
    pub lens_radius: i64,
}

/// Degrees to radians: multiply by pi, divide by 180 (both in fixed point).
pub open spec fn spec_deg_to_rad(d: int) -> int {
    fx_div_spec(fx_mul_spec(d, 205887), 11796480)
}

/// Odd polynomial for the sine: `x - x^3/6 + x^5/120 - x^7/5040`.
pub open spec fn spec_sin_poly(x: int) -> int {
    let x2 = fx_mul_spec(x, x);
    let x3 = fx_mul_spec(x2, x);
    let x5 = fx_mul_spec(x3, x2);
    let x7 = fx_mul_spec(x5, x2);
    x - x3 / 6 + x5 / 120 - x7 / 5040
}

/// Even polynomial for the cosine: `1 - x^2/2 + x^4/24 - x^6/720`.
pub open spec fn spec_cos_poly(x: int) -> int {
    let x2 = fx_mul_spec(x, x);
    let x4 = fx_mul_spec(x2, x2);
    let x6 = fx_mul_spec(x4, x2);
    65536 - x2 / 2 + x4 / 24 - x6 / 720
}

/// The viewport half-height for a vertical field of view in degrees:
/// the tangent of half the angle, guarded into `[0, 16]`.
pub open spec fn spec_half_tan(vfov_deg: int) -> int {
    let x = fx_mul_spec(spec_deg_to_rad(vfov_deg), 32768);
    let s = spec_sin_poly(x);
    let c = spec_cos_poly(x);
    let t = if c <= 0 {
        s
    } else {
        fx_div_spec(s, c)
    };
    if t < 0 {
        0
    } else if t > 0x100000 {
        0x100000
    } else {
        t
    }
}

/// Everything `Camera::new` derives, as one closed formula.
pub open spec fn spec_camera_new(
    lookfrom: Point3,
    lookat: Point3,
    vup: Vec3,
    vfov_deg: int,
    aspect_ratio: int,
    aperture: int,
    focus_dist: int,
) -> Camera {
    let h = spec_half_tan(vfov_deg);
    let viewport_height = 2 * h;
    let viewport_width = fx_mul_spec(aspect_ratio, viewport_height);
    let w = spec_normalize(spec_sub(lookfrom, lookat));
    let u = spec_normalize(spec_cross(vup, w));
    let v = spec_cross(w, u);
    let horizontal = spec_scale(u, fx_mul_spec(focus_dist, viewport_width));
    let vertical = spec_scale(v, fx_mul_spec(focus_dist, viewport_height));
    let lower_left_corner = spec_sub(
        spec_sub(spec_sub(lookfrom, spec_scale(horizontal, 32768)), spec_scale(vertical, 32768)),
        spec_scale(w, focus_dist),
    );
    Camera {
        origin: lookfrom,
        lower_left_corner,
        horizontal,
        vertical,
        u,
        v,
        w,
        lens_radius: fx_mul_spec(aperture, 32768) as i64,
    }
}

/// The bounds every camera built by `Camera::new` satisfies; `get_ray`'s
/// arithmetic fits within them.
pub open spec fn wf_camera(c: Camera) -> bool {
    bounded(c.origin, 0x4000000) && bounded(c.u, 0x2000000) && bounded(c.w, 0x2000000) && bounded(
        c.v,
        0x800000000,
    ) && bounded(c.horizontal, 0x40000000000) && bounded(c.vertical, 0x4000000000000) && bounded(
        c.lower_left_corner,
        0x8000000000000,
    ) && 0 <= c.lens_radius <= 0x100000
}

/// The lens offset a disk draw produces: the draw scaled by the lens
/// radius, mapped through the camera's right and up basis vectors.
pub open spec fn spec_lens_offset(c: Camera, p: Vec3) -> Vec3 {
    let rd = spec_scale(p, c.lens_radius as int);
    spec_add(spec_scale(c.u, rd.x as int), spec_scale(c.v, rd.y as int))
}

/// Everything `get_ray` promises, whatever the lens draw was: the ray is
/// the stated formula for the offset of some point strictly inside the
/// unit lens disk, its components are bounded, and with a closed aperture
/// the offset is exactly zero.
pub open spec fn spec_ray_post(c: Camera, s: int, t: int, r: Ray) -> bool {
    &&& bounded(r.origin, 0x10000000000)
    &&& bounded(r.direction, 0x40000000000000)
    &&& exists|p: Vec3|
        bounded(p, 65536) && crate::vec3::spec_len_sq(p) < 65536 && p.z == 0 && r == spec_get_ray(
            c,
            s,
            t,
            #[trigger] spec_lens_offset(c, p),
        )
    &&& c.lens_radius == 0 ==> r == spec_get_ray(c, s, t, crate::vec3::spec_zero())
}

/// The ray for viewport coordinates `(s, t)` when the lens offset is the
/// given disk point scaled by the lens radius.
pub open spec fn spec_get_ray(c: Camera, s: int, t: int, offset: Vec3) -> Ray {
    Ray {
        origin: spec_add(c.origin, offset),
        direction: spec_sub(
            spec_sub(
                spec_add(
                    spec_add(c.lower_left_corner, spec_scale(c.horizontal, s)),
                    spec_scale(c.vertical, t),
                ),
                c.origin,
            ),
            offset,
        ),
    }
}

/// The tangent of half the field of view, clamped; nonnegative and at
/// most 16.
fn half_tan(vfov_deg: i64) -> (r: i64)
    requires
        0 < vfov_deg <= 0x780000,
    ensures
        r as int == spec_half_tan(vfov_deg as int),
        0 <= r <= 0x100000,
{
    proof {
        lemma_fx_mul_mag(vfov_deg as int, 205887, 0x780000, 205887);
        lemma_nonneg_fx(vfov_deg as int, 205887);
    }
    let scaled = fx_mul(vfov_deg, 205887);
    proof {
        lemma_tdiv_mag(scaled as int * 65536, 11796480);
        lemma_nonneg_div(scaled as int * 65536, 11796480);
    }
    let theta = fx_div(scaled, 11796480);
    proof {
        assert(mag(theta as int) <= 0x40000) by (nonlinear_arith)
            requires
                mag(theta as int) == mag(scaled as int * 65536) / 11796480,
                mag(scaled as int * 65536) == mag(scaled as int) * 65536,
                mag(scaled as int) <= 0x780000 * 205887 / 65536;
        lemma_fx_mul_mag(theta as int, 32768, 0x40000, 32768);
        lemma_nonneg_fx(theta as int, 32768);
    }
    let x = fx_mul(theta, 32768);
    proof {
        lemma_powers(x as int);
    }
    let x2 = fx_mul(x, x);
    let x3 = fx_mul(x2, x);
    let x4 = fx_mul(x2, x2);
    let x5 = fx_mul(x3, x2);
    let x6 = fx_mul(x4, x2);
    let x7 = fx_mul(x5, x2);
    let s3 = ((x3 as u64) / 6) as i64;
    let s5 = ((x5 as u64) / 120) as i64;
    let s7 = ((x7 as u64) / 5040) as i64;
    let c2 = ((x2 as u64) / 2) as i64;
    let c4 = ((x4 as u64) / 24) as i64;
    let c6 = ((x6 as u64) / 720) as i64;
    let s = x - s3 + s5 - s7;
    let c = 65536 - c2 + c4 - c6;
    let t = if c <= 0 {
        s
    } else {
        proof {
            lemma_tdiv_mag(s as int * 65536, c as int);
        }
        fx_div(s, c)
    };
    if t < 0 {
        0
    } else if t > 0x100000 {
        0x100000
    } else {
        t
    }
}

/// A product of nonnegative fixed-point values is nonnegative.
proof fn lemma_nonneg_fx(a: int, b: int)
    requires
        a >= 0,
        b >= 0,
    ensures
        fx_mul_spec(a, b) >= 0,
{
    assert(a * b >= 0) by (nonlinear_arith)
        requires a >= 0 && b >= 0;
    lemma_nonneg_div(a * b, 65536);
}

/// A nonnegative value divided (truncating) by a positive one stays
/// nonnegative.
proof fn lemma_nonneg_div(a: int, b: int)
    requires
        a >= 0,
        b >= 1,
    ensures
        tdiv(a, b) >= 0,
        tdiv(a, b) == a / b,
{
    assert(a / b >= 0) by (nonlinear_arith)
        requires a >= 0 && b >= 1;
}

/// Power bounds for the polynomial argument.
proof fn lemma_powers(x: int)
    requires
        0 <= x <= 0x20000,
    ensures
        0 <= fx_mul_spec(x, x) <= 0x40000,
        0 <= fx_mul_spec(fx_mul_spec(x, x), x) <= 0x80000,
        0 <= fx_mul_spec(fx_mul_spec(x, x), fx_mul_spec(x, x)) <= 0x100000,
        0 <= fx_mul_spec(fx_mul_spec(fx_mul_spec(x, x), x), fx_mul_spec(x, x)) <= 0x200000,
        0 <= fx_mul_spec(fx_mul_spec(fx_mul_spec(x, x), fx_mul_spec(x, x)), fx_mul_spec(x, x))
            <= 0x400000,
        0 <= fx_mul_spec(
            fx_mul_spec(fx_mul_spec(fx_mul_spec(x, x), x), fx_mul_spec(x, x)),
            fx_mul_spec(x, x),
        ) <= 0x800000,
{
    lemma_nonneg_fx(x, x);
    lemma_fx_mul_mag(x, x, 0x20000, 0x20000);
    let x2 = fx_mul_spec(x, x);
    lemma_nonneg_fx(x2, x);
    lemma_fx_mul_mag(x2, x, 0x40000, 0x20000);
    let x3 = fx_mul_spec(x2, x);
    lemma_nonneg_fx(x2, x2);
    lemma_fx_mul_mag(x2, x2, 0x40000, 0x40000);
    let x4 = fx_mul_spec(x2, x2);
    lemma_nonneg_fx(x3, x2);
    lemma_fx_mul_mag(x3, x2, 0x80000, 0x40000);
    let x5 = fx_mul_spec(x3, x2);
    lemma_nonneg_fx(x4, x2);
    lemma_fx_mul_mag(x4, x2, 0x100000, 0x40000);
    lemma_nonneg_fx(x5, x2);
    lemma_fx_mul_mag(x5, x2, 0x200000, 0x40000);
}

impl Camera {
    /// Builds the viewing basis and viewport geometry from look-from and
    /// look-at points, the up vector, a vertical field of view in degrees,
    /// the aspect ratio, the lens aperture, and the focus distance —
    /// exactly as `spec_camera_new` states.
    #[verifier::rlimit(100)]
    pub fn new(
        lookfrom: Point3,
        lookat: Point3,
        vup: Vec3,
        vfov_deg: i64,
        aspect_ratio: i64,
        aperture: i64,
        focus_dist: i64,
    ) -> (r: Camera)
        requires
            bounded(lookfrom, 0x4000000),
            bounded(lookat, 0x4000000),
            bounded(vup, 0x4000000),
            0 < vfov_deg <= 0x780000,
            0 < aspect_ratio <= 0x40000,
            0 <= aperture <= 0x200000,
            0 < focus_dist <= 0x4000000,
        ensures
            r == spec_camera_new(
                lookfrom,
                lookat,
                vup,
                vfov_deg as int,
                aspect_ratio as int,
                aperture as int,
                focus_dist as int,
            ),
            wf_camera(r),
            r.origin == lookfrom,
    {
        let h = half_tan(vfov_deg);
        let viewport_height: i64 = 2 * h;
        proof {
            lemma_fx_mul_mag(aspect_ratio as int, viewport_height as int, 0x40000, 0x200000);
        }
        let viewport_width = fx_mul(aspect_ratio, viewport_height);
        let w = lookfrom.sub(lookat).normalize();
        proof {
            lemma_cross_fits(vup, w, 0x4000000, 0x2000000);
        }
        let cu = vup.cross(w);
        let u = cu.normalize();
        proof {
            lemma_cross_fits(w, u, 0x2000000, 0x2000000);
        }
        let v = w.cross(u);
        proof {
            lemma_fx_mul_mag(focus_dist as int, viewport_width as int, 0x4000000, 0x800000);
            lemma_fx_mul_mag(focus_dist as int, viewport_height as int, 0x4000000, 0x200000);
        }
        let fw = fx_mul(focus_dist, viewport_width);
        let fh = fx_mul(focus_dist, viewport_height);
        proof {
            lemma_scale_fits(u, fw as int, 0x2000000, 0x200000000);
            lemma_scale_bound(u, fw as int, 0x2000000, 0x200000000);
            lemma_scale_fits(v, fh as int, 0x800000000, 0x80000000);
            lemma_scale_bound(v, fh as int, 0x800000000, 0x80000000);
        }
        let horizontal = u.scale(fw);
        let vertical = v.scale(fh);
        proof {
            lemma_scale_fits(horizontal, 32768, 0x40000000000, 32768);
            lemma_scale_bound(horizontal, 32768, 0x40000000000, 32768);
            lemma_scale_fits(vertical, 32768, 0x4000000000000, 32768);
            lemma_scale_bound(vertical, 32768, 0x4000000000000, 32768);
            lemma_scale_fits(w, focus_dist as int, 0x2000000, 0x4000000);
            lemma_scale_bound(w, focus_dist as int, 0x2000000, 0x4000000);
        }
        let half_h = horizontal.scale(32768);
        let half_v = vertical.scale(32768);
        let fwv = w.scale(focus_dist);
        let lower_left_corner = lookfrom.sub(half_h).sub(half_v).sub(fwv);
        proof {
            lemma_fx_mul_mag(aperture as int, 32768, 0x200000, 32768);
            lemma_nonneg_fx(aperture as int, 32768);
        }
        let lens_radius = fx_mul(aperture, 32768);
        Camera { origin: lookfrom, lower_left_corner, horizontal, vertical, u, v, w, lens_radius }
    }

    /// The ray through viewport coordinates `(s, t)`, jittered on the
    /// lens disk when the aperture is open. With a closed aperture
    /// (zero lens radius) the ray is exactly the stated formula with a
    /// zero offset.
    #[verifier::rlimit(100)]
    pub fn get_ray(&self, s: i64, t: i64) -> (r: Ray)
        requires
            wf_camera(*self),
            0 <= s <= 0x20000,
            0 <= t <= 0x20000,
        ensures
            spec_ray_post(*self, s as int, t as int, r),
    {
        let rd_raw = Vec3::random_in_unit_disk();
        proof {
            lemma_scale_fits(rd_raw, self.lens_radius as int, 65536, 0x100000);
            lemma_scale_bound(rd_raw, self.lens_radius as int, 65536, 0x100000);
        }
        let rd = rd_raw.scale(self.lens_radius);
        proof {
            lemma_scale_fits(self.u, rd.x as int, 0x2000000, 0x100000);
            lemma_scale_bound(self.u, rd.x as int, 0x2000000, 0x100000);
            lemma_scale_fits(self.v, rd.y as int, 0x800000000, 0x100000);
            lemma_scale_bound(self.v, rd.y as int, 0x800000000, 0x100000);
        }
        let offset = self.u.scale(rd.x).add(self.v.scale(rd.y));
        proof {
            lemma_scale_fits(self.horizontal, s as int, 0x40000000000, 0x20000);
            lemma_scale_bound(self.horizontal, s as int, 0x40000000000, 0x20000);
            lemma_scale_fits(self.vertical, t as int, 0x4000000000000, 0x20000);
            lemma_scale_bound(self.vertical, t as int, 0x4000000000000, 0x20000);
        }
        let sh = self.horizontal.scale(s);
        let tv = self.vertical.scale(t);
        let direction = self.lower_left_corner.add(sh).add(tv).sub(self.origin).sub(offset);
        let origin = self.origin.add(offset);
        proof {
            assert(offset == spec_lens_offset(*self, rd_raw));
            assert((Ray { origin, direction }) == spec_get_ray(
                *self,
                s as int,
                t as int,
                spec_lens_offset(*self, rd_raw),
            ));
            if self.lens_radius == 0 {
                assert(rd == spec_scale(rd_raw, 0));
                lemma_scale_zero(rd_raw);
                lemma_scale_zero(self.u);
                lemma_scale_zero(self.v);
            }
        }
        Ray { origin, direction }
    }
}

/// Scaling by a zero scalar gives the zero vector.
proof fn lemma_scale_zero(a: Vec3)
    ensures
        spec_scale(a, 0) == crate::vec3::spec_zero(),
{
    assert((a.x as int) * 0 == 0) by (nonlinear_arith);
    assert((a.y as int) * 0 == 0) by (nonlinear_arith);
    assert((a.z as int) * 0 == 0) by (nonlinear_arith);
}

/// The cross product's preconditions hold under componentwise bounds, and
/// its result is componentwise bounded by twice the rescaled product.
pub proof fn lemma_cross_fits(a: Vec3, b: Vec3, ba: int, bb: int)
    requires
        bounded(a, ba),
        bounded(b, bb),
        0 <= ba,
        0 <= bb,
        ba * bb / 65536 <= 0x3fffffffffffffff,
    ensures
        mag(fx_mul_spec(a.y as int, b.z as int)) <= ba * bb / 65536,
        mag(fx_mul_spec(a.z as int, b.y as int)) <= ba * bb / 65536,
        mag(fx_mul_spec(a.z as int, b.x as int)) <= ba * bb / 65536,
        mag(fx_mul_spec(a.x as int, b.z as int)) <= ba * bb / 65536,
        mag(fx_mul_spec(a.x as int, b.y as int)) <= ba * bb / 65536,
        mag(fx_mul_spec(a.y as int, b.x as int)) <= ba * bb / 65536,
        bounded(spec_cross(a, b), 2 * (ba * bb / 65536)),
{
    lemma_fx_mul_mag(a.y as int, b.z as int, ba, bb);
    lemma_fx_mul_mag(a.z as int, b.y as int, ba, bb);
    lemma_fx_mul_mag(a.z as int, b.x as int, ba, bb);
    lemma_fx_mul_mag(a.x as int, b.z as int, ba, bb);
    lemma_fx_mul_mag(a.x as int, b.y as int, ba, bb);
    lemma_fx_mul_mag(a.y as int, b.x as int, ba, bb);
}

} // verus!
