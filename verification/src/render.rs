//! The path integrator (ray to color) and the per-pixel sampler.
//!
//! The integrator recurses with a bounce budget, terminating exactly in
//! the stated order: an exhausted budget gives black; a ray outside the
//! fixed-point world gives black; a miss gives the two-color sky
//! gradient; an absorbed scatter gives black; otherwise the attenuated
//! color of the scattered ray.

use vstd::prelude::*;

use crate::fx::{fx_mul, fx_mul_spec, fx_sqrt_spec, mag, tdiv};
use crate::hittable_list::{lemma_list_hit_properties, spec_list_hit, HittableList};
use crate::material::{spec_black, spec_white, Color, Scatter};
use crate::ray::Ray;
use crate::sphere::{wf_ray, Sphere};
use crate::vec3::{bounded, lemma_fx_mul_mag, spec_add, spec_mul, spec_normalize, spec_scale, Vec3};

verus! {

/// The minimum ray parameter: slightly above zero (about 0.001) to
/// suppress self-intersection from rounding at the previous bounce.
pub const T_MIN: i64 = 66;

/// The far horizon of intersection queries, 2048 in real terms: the
/// fixed-point stand-in for an unbounded interval.
pub const T_MAX: i64 = 0x8000000;

/// The sky gradient for a missed ray: blend white toward sky blue by
/// `t = (unit_direction.y + 1) / 2`.
pub open spec fn spec_sky(dir: Vec3) -> Color {
    let t = fx_mul_spec(32768, spec_normalize(dir).y + 65536);
    spec_add(
        spec_scale(spec_white(), 65536 - t),
        spec_scale(Vec3 { x: 32768, y: 45875, z: 65536 }, t),
    )
}

/// The sky gradient, computed exactly as `spec_sky` states.
pub fn sky(dir: Vec3) -> (r: Color)
    requires
        bounded(dir, 0x4000000),
    ensures
        r == spec_sky(dir),
        mag(r.x as int) <= 0x8000000 && mag(r.y as int) <= 0x8000000 && mag(r.z as int)
            <= 0x8000000,
{
    let u = dir.normalize();
    proof {
        lemma_fx_mul_mag(32768, u.y as int + 65536, 32768, 0x2010000);
    }
    let t = fx_mul(32768, u.y + 65536);
    let white = Vec3 { x: 65536, y: 65536, z: 65536 };
    let blue = Vec3 { x: 32768, y: 45875, z: 65536 };
    proof {
        crate::vec3::lemma_scale_fits(white, 65536 - t as int, 65536, 0x1010000);
        crate::vec3::lemma_scale_bound(white, 65536 - t as int, 65536, 0x1010000);
        crate::vec3::lemma_scale_fits(blue, t as int, 65536, 0x1008000);
        crate::vec3::lemma_scale_bound(blue, t as int, 65536, 0x1008000);
    }
    let a = white.scale(65536 - t);
    let b = blue.scale(t);
    a.add(b)
}

/// Whether a ray lies within the fixed-point world bounds, checked at
/// run time before each bounce.
fn ray_in_world(r: &Ray) -> (b: bool)
    ensures
        b == wf_ray(*r),
{
    -0x4000000 <= r.origin.x && r.origin.x <= 0x4000000 && -0x4000000 <= r.origin.y && r.origin.y
        <= 0x4000000 && -0x4000000 <= r.origin.z && r.origin.z <= 0x4000000 && -0x4000000
        <= r.direction.x && r.direction.x <= 0x4000000 && -0x4000000 <= r.direction.y
        && r.direction.y <= 0x4000000 && -0x4000000 <= r.direction.z && r.direction.z <= 0x4000000
}

/// A color the integrator may hand back: channels within the stated
/// magnitude bound.
pub open spec fn color_bounded(c: Color) -> bool {
    mag(c.x as int) <= 0x8000000 && mag(c.y as int) <= 0x8000000 && mag(c.z as int) <= 0x8000000
}

/// Everything the integrator promises of its result, whatever the draws
/// inside the scatters were: black on an exhausted budget; black for a
/// ray outside the fixed-point world; the exact sky gradient on a miss;
/// and on a hit either black (absorption) or the attenuation of some
/// scatter admissible for the hit material, multiplied componentwise into
/// a deeper color that satisfies this same predicate for that scatter's
/// own ray, with one less bounce.
pub open spec fn spec_color_post(obs: Seq<Sphere>, ray: Ray, bounce: int, c: Color) -> bool
    decreases bounce,
{
    &&& color_bounded(c)
    &&& bounce == 0 ==> c == spec_black()
    &&& (bounce > 0 && !wf_ray(ray)) ==> c == spec_black()
    &&& if bounce > 0 && wf_ray(ray) {
        match spec_list_hit(obs, ray, T_MIN as int, T_MAX as int) {
            None => c == spec_sky(ray.direction),
            Some(h) => c == spec_black() || exists|sc: Scatter, cc: Color|
                crate::material::spec_scatter_post(h.material, h, Some(sc)) && spec_color_post(
                    obs,
                    sc.ray,
                    bounce - 1,
                    cc,
                ) && #[trigger] spec_mul(sc.attenuation, cc) == c,
        }
    } else {
        true
    }
}

impl Ray {
    /// The color carried by this ray: black when the bounce budget is
    /// exhausted (first), black for a ray outside the world, the exact
    /// sky gradient on a miss, black on absorption, and otherwise the
    /// scattered color attenuated componentwise — all stated by
    /// `spec_color_post`.
    pub fn color(&self, world: &HittableList, ray_bounce: usize) -> (r: Color)
        requires
            crate::hittable_list::wf_scene(world.objects@),
        ensures
            spec_color_post(world.objects@, *self, ray_bounce as int, r),
        decreases ray_bounce,
    {
        if ray_bounce == 0 {
            return Vec3::zero();
        }
        if !ray_in_world(self) {
            return Vec3::zero();
        }
        match world.hit(self, T_MIN, T_MAX) {
            Some(rec) => {
                proof {
                    lemma_list_hit_properties(
                        world.objects@,
                        *self,
                        T_MIN as int,
                        T_MAX as int,
                        world.objects@.len() as int,
                    );
                }
                match rec.material.scatter(self, &rec) {
                    Some(sc) => {
                        let c = sc.ray.color(world, ray_bounce - 1);
                        proof {
                            lemma_fx_mul_mag(
                                sc.attenuation.x as int,
                                c.x as int,
                                65536,
                                0x8000000,
                            );
                            lemma_fx_mul_mag(
                                sc.attenuation.y as int,
                                c.y as int,
                                65536,
                                0x8000000,
                            );
                            lemma_fx_mul_mag(
                                sc.attenuation.z as int,
                                c.z as int,
                                65536,
                                0x8000000,
                            );
                        }
                        let out = sc.attenuation.mul(c);
                        proof {
                            assert(crate::material::spec_scatter_post(
                                rec.material,
                                rec,
                                Some(sc),
                            ));
                            assert(spec_color_post(
                                world.objects@,
                                sc.ray,
                                ray_bounce as int - 1,
                                c,
                            ));
                            assert(spec_mul(sc.attenuation, c) == out);
                        }
                        out
                    },
                    None => Vec3::zero(),
                }
            },
            None => sky(self.direction),
        }
    }
}

/// The jittered viewport coordinate in fixed point:
/// `(index + xi) / (extent - 1)` with `xi` the subpixel jitter.
pub open spec fn spec_viewport_coord(index: int, xi: int, extent: int) -> int {
    tdiv((index * 65536 + xi) * 65536, (extent - 1) * 65536)
}

/// What one sample of pixel `(i, j)` can contribute: the integrator's
/// admissible color for an admissible camera ray through the jittered
/// viewport coordinates of that pixel, for some pair of subpixel jitters.
pub open spec fn spec_sample_post(
    obs: Seq<Sphere>,
    cam: crate::camera::Camera,
    i: int,
    j: int,
    width: int,
    height: int,
    bounce: int,
    c: Color,
) -> bool {
    exists|xu: int, xv: int, ray: Ray|
        0 <= xu < 65536 && 0 <= xv < 65536 && #[trigger] crate::camera::spec_ray_post(
            cam,
            spec_viewport_coord(i, xu, width),
            spec_viewport_coord(j, xv, height),
            ray,
        ) && spec_color_post(obs, ray, bounce, c)
}

/// Componentwise sum of the first `n` sampled colors.
pub open spec fn spec_color_sum(cs: Seq<Color>, n: int) -> (int, int, int)
    decreases n,
{
    if n <= 0 {
        (0, 0, 0)
    } else {
        let p = spec_color_sum(cs, n - 1);
        (p.0 + cs[n - 1].x, p.1 + cs[n - 1].y, p.2 + cs[n - 1].z)
    }
}

/// One output channel: the truncated average over the sample count,
/// negatives clamped to zero, then gamma-2 corrected.
pub open spec fn spec_gamma_channel(sum: int, samples: int) -> int {
    fx_sqrt_spec(
        if sum < 0 {
            0
        } else {
            sum / samples
        },
    )
}

/// Everything `render_pixel` promises: the result is the gamma-corrected
/// clamped average of `samples` per-sample colors, each an admissible
/// integrator color for a camera ray of pixel `(i, j)`; its channels are
/// nonnegative and bounded.
pub open spec fn spec_pixel_post(
    obs: Seq<Sphere>,
    cam: crate::camera::Camera,
    i: int,
    j: int,
    width: int,
    height: int,
    samples: int,
    bounce: int,
    c: Color,
) -> bool {
    &&& 0 <= c.x <= 0x4000000 && 0 <= c.y <= 0x4000000 && 0 <= c.z <= 0x4000000
    &&& exists|cs: Seq<Color>|
        {
            let sums = #[trigger] spec_color_sum(cs, samples);
            cs.len() == samples && (forall|k: int|
                0 <= k < samples ==> spec_sample_post(
                    obs,
                    cam,
                    i,
                    j,
                    width,
                    height,
                    bounce,
                    #[trigger] cs[k],
                )) && c == (Vec3 {
                x: spec_gamma_channel(sums.0, samples) as i64,
                y: spec_gamma_channel(sums.1, samples) as i64,
                z: spec_gamma_channel(sums.2, samples) as i64,
            })
        }
}

/// Appending a color leaves the sum of any earlier prefix unchanged.
proof fn lemma_color_sum_push(cs: Seq<Color>, d: Color, n: int)
    requires
        0 <= n <= cs.len(),
    ensures
        spec_color_sum(cs.push(d), n) == spec_color_sum(cs, n),
    decreases n,
{
    if n > 0 {
        lemma_color_sum_push(cs, d, n - 1);
        assert(cs.push(d)[n - 1] == cs[n - 1]);
    }
}

/// The gamma-corrected average color of one pixel over the given number
/// of stochastic samples, exactly as `spec_pixel_post` states.
pub fn render_pixel(
    world: &HittableList,
    cam: &crate::camera::Camera,
    i: usize,
    j: usize,
    width: usize,
    height: usize,
    samples: usize,
    max_bounce: usize,
) -> (r: Color)
    requires
        crate::hittable_list::wf_scene(world.objects@),
        crate::camera::wf_camera(*cam),
        2 <= width <= 0x10000,
        2 <= height <= 0x10000,
        i < width,
        j < height,
        1 <= samples <= 0x10000,
    ensures
        spec_pixel_post(
            world.objects@,
            *cam,
            i as int,
            j as int,
            width as int,
            height as int,
            samples as int,
            max_bounce as int,
            r,
        ),
{
    let mut sum = Vec3::zero();
    let ghost mut cs: Seq<Color> = Seq::empty();
    let mut k: usize = 0;
    while k < samples
        invariant
            crate::hittable_list::wf_scene(world.objects@),
            crate::camera::wf_camera(*cam),
            2 <= width <= 0x10000,
            2 <= height <= 0x10000,
            i < width,
            j < height,
            1 <= samples <= 0x10000,
            0 <= k <= samples,
            mag(sum.x as int) <= k * 0x8000000,
            mag(sum.y as int) <= k * 0x8000000,
            mag(sum.z as int) <= k * 0x8000000,
            cs.len() == k,
            sum.x as int == spec_color_sum(cs, k as int).0,
            sum.y as int == spec_color_sum(cs, k as int).1,
            sum.z as int == spec_color_sum(cs, k as int).2,
            forall|m: int|
                0 <= m < k ==> spec_sample_post(
                    world.objects@,
                    *cam,
                    i as int,
                    j as int,
                    width as int,
                    height as int,
                    max_bounce as int,
                    #[trigger] cs[m],
                ),
        decreases samples - k,
    {
        let xi_u = crate::rng::random_unit_fx();
        let xi_v = crate::rng::random_unit_fx();
        let su = viewport_coord(i, xi_u, width);
        let sv = viewport_coord(j, xi_v, height);
        let ray = cam.get_ray(su, sv);
        let c = ray.color(world, max_bounce);
        proof {
            assert((k + 1) * 0x8000000 == k * 0x8000000 + 0x8000000) by (nonlinear_arith);
            assert(crate::camera::spec_ray_post(
                *cam,
                spec_viewport_coord(i as int, xi_u as int, width as int),
                spec_viewport_coord(j as int, xi_v as int, height as int),
                ray,
            ));
            assert(spec_sample_post(
                world.objects@,
                *cam,
                i as int,
                j as int,
                width as int,
                height as int,
                max_bounce as int,
                c,
            ));
            lemma_color_sum_push(cs, c, k as int);
            cs = cs.push(c);
        }
        sum = sum.add(c);
        k = k + 1;
    }
    // Average over the sample count, clamp negatives to zero, and apply
    // gamma-2 correction (componentwise square root).
    let avg = Vec3 {
        x: div_clamped(sum.x, samples),
        y: div_clamped(sum.y, samples),
        z: div_clamped(sum.z, samples),
    };
    proof {
        lemma_avg_bound(sum.x as int, samples as int);
        lemma_avg_bound(sum.y as int, samples as int);
        lemma_avg_bound(sum.z as int, samples as int);
    }
    let g = avg.sqrt();
    proof {
        lemma_gamma_bound(avg.x as int);
        lemma_gamma_bound(avg.y as int);
        lemma_gamma_bound(avg.z as int);
        let sums = spec_color_sum(cs, samples as int);
        assert(g == (Vec3 {
            x: spec_gamma_channel(sums.0, samples as int) as i64,
            y: spec_gamma_channel(sums.1, samples as int) as i64,
            z: spec_gamma_channel(sums.2, samples as int) as i64,
        }));
    }
    g
}

/// An average of channel values bounded by the per-sample bound is itself
/// bounded by it.
proof fn lemma_avg_bound(sum: int, samples: int)
    requires
        samples >= 1,
        mag(sum) <= samples * 0x8000000,
    ensures
        (if sum < 0 {
            0int
        } else {
            sum / samples
        }) <= 0x8000000,
{
    if sum >= 0 {
        assert(sum / samples <= 0x8000000) by (nonlinear_arith)
            requires samples >= 1 && 0 <= sum <= samples * 0x8000000;
    }
}

/// The gamma-corrected channel of a bounded nonnegative average stays
/// comfortably within the world bound.
proof fn lemma_gamma_bound(v: int)
    requires
        0 <= v <= 0x8000000,
    ensures
        0 <= crate::fx::fx_sqrt_spec(v) <= 0x4000000,
{
    crate::fx::lemma_sqrt_floor(v * 65536);
    assert(crate::fx::fx_sqrt_spec(v) <= 0x4000000) by (nonlinear_arith)
        requires
            0 <= crate::fx::fx_sqrt_spec(v),
            crate::fx::fx_sqrt_spec(v) * crate::fx::fx_sqrt_spec(v) <= v * 65536,
            v <= 0x8000000;
}

/// The jittered viewport coordinate `(index + xi) / (extent - 1)`,
/// in fixed point, exactly as `spec_viewport_coord` states; at most 2
/// whatever the rounding does.
fn viewport_coord(index: usize, xi: i64, extent: usize) -> (r: i64)
    requires
        2 <= extent <= 0x10000,
        index < extent,
        0 <= xi < 65536,
    ensures
        r as int == spec_viewport_coord(index as int, xi as int, extent as int),
        0 <= r <= 0x20000,
{
    let num: u64 = (index as u64) * 65536 + (xi as u64);
    let den: u64 = (extent as u64 - 1) * 65536;
    let q: u64 = num * 65536 / den;
    proof {
        assert((num as int) * 65536 >= 0) by (nonlinear_arith)
            requires num >= 0;
        assert((num as int) * 65536 / (den as int) <= 0x20000) by (nonlinear_arith)
            requires
                den as int == (extent as int - 1) * 65536,
                2 <= extent <= 0x10000,
                num as int <= (extent as int - 1) * 65536 + 65535,
                num >= 0;
        assert(tdiv((num as int) * 65536, den as int) == (num as int) * 65536 / (den as int));
    }
    q as i64
}

/// Truncating division of a channel sum by the sample count, with
/// negative light clamped to zero.
fn div_clamped(sum: i64, samples: usize) -> (r: i64)
    requires
        1 <= samples,
    ensures
        0 <= r,
        r as int == if sum < 0 {
            0
        } else {
            (sum as int) / (samples as int)
        },
{
    if sum < 0 {
        0
    } else {
        proof {
            assert((sum as int) / (samples as int) <= sum as int) by (nonlinear_arith)
                requires sum >= 0 && samples >= 1;
            assert((sum as int) / (samples as int) >= 0) by (nonlinear_arith)
                requires sum >= 0 && samples >= 1;
        }
        ((sum as u64) / (samples as u64)) as i64
    }
}

/// What each element of the rendered image satisfies: it is the
/// quantization of some admissible pixel color for the pixel the
/// row-major index (top row first) names.
pub open spec fn spec_image_entry(
    obs: Seq<Sphere>,
    cam: crate::camera::Camera,
    width: int,
    height: int,
    samples: int,
    bounce: int,
    idx: int,
    e: (u8, u8, u8),
) -> bool {
    exists|c: Color|
        #[trigger] spec_pixel_post(
            obs,
            cam,
            idx % width,
            height - 1 - idx / width,
            width,
            height,
            samples,
            bounce,
            c,
        ) && e == ((
            crate::color::spec_quantize(c.x as int) as u8,
            crate::color::spec_quantize(c.y as int) as u8,
            crate::color::spec_quantize(c.z as int) as u8,
        ))
}

/// Renders the whole image, top row first: `width * height` quantized
/// color triples, row-major, each one an admissible pixel color of the
/// pixel its index names.
pub fn render(
    world: &HittableList,
    cam: &crate::camera::Camera,
    width: usize,
    height: usize,
    samples: usize,
    max_bounce: usize,
) -> (r: Vec<(u8, u8, u8)>)
    requires
        crate::hittable_list::wf_scene(world.objects@),
        crate::camera::wf_camera(*cam),
        2 <= width <= 0x10000,
        2 <= height <= 0x10000,
        1 <= samples <= 0x10000,
        width * height <= 0x100000000,
    ensures
        r@.len() == width * height,
        forall|idx: int|
            0 <= idx < r@.len() ==> spec_image_entry(
                world.objects@,
                *cam,
                width as int,
                height as int,
                samples as int,
                max_bounce as int,
                idx,
                #[trigger] r@[idx],
            ),
{
    let mut pixels: Vec<(u8, u8, u8)> = Vec::new();
    let mut j: usize = height;
    while j > 0
        invariant
            crate::hittable_list::wf_scene(world.objects@),
            crate::camera::wf_camera(*cam),
            2 <= width <= 0x10000,
            2 <= height <= 0x10000,
            1 <= samples <= 0x10000,
            width * height <= 0x100000000,
            0 <= j <= height,
            pixels@.len() == (height - j) * width,
            forall|idx: int|
                0 <= idx < pixels@.len() ==> spec_image_entry(
                    world.objects@,
                    *cam,
                    width as int,
                    height as int,
                    samples as int,
                    max_bounce as int,
                    idx,
                    #[trigger] pixels@[idx],
                ),
        decreases j,
    {
        j = j - 1;
        let mut i: usize = 0;
        while i < width
            invariant
                crate::hittable_list::wf_scene(world.objects@),
                crate::camera::wf_camera(*cam),
                2 <= width <= 0x10000,
                2 <= height <= 0x10000,
                1 <= samples <= 0x10000,
                width * height <= 0x100000000,
                0 <= j < height,
                0 <= i <= width,
                pixels@.len() == (height - 1 - j) * width + i,
                forall|idx: int|
                    0 <= idx < pixels@.len() ==> spec_image_entry(
                        world.objects@,
                        *cam,
                        width as int,
                        height as int,
                        samples as int,
                        max_bounce as int,
                        idx,
                        #[trigger] pixels@[idx],
                    ),
            decreases width - i,
        {
            let c = render_pixel(world, cam, i, j, width, height, samples, max_bounce);
            proof {
                let idx0 = pixels@.len() as int;
                vstd::arithmetic::div_mod::lemma_fundamental_div_mod_converse(
                    idx0,
                    width as int,
                    (height - 1 - j) as int,
                    i as int,
                );
                assert(spec_pixel_post(
                    world.objects@,
                    *cam,
                    idx0 % (width as int),
                    (height as int) - 1 - idx0 / (width as int),
                    width as int,
                    height as int,
                    samples as int,
                    max_bounce as int,
                    c,
                ));
            }
            pixels.push(c.as_u8_slice());
            i = i + 1;
        }
        proof {
            assert((height - 1 - j) * width + width == (height - j) * width) by (nonlinear_arith);
        }
    }
    proof {
        assert((height - 0) * width == width * height) by (nonlinear_arith);
    }
    pixels
}

} // verus!
