//! Surface materials: a closed set of three scattering behaviors.

use vstd::prelude::*;

use crate::fx::{fx_div, fx_div_spec, fx_mul, fx_mul_spec, fx_sqrt, fx_sqrt_spec, lemma_tdiv_mag, mag};
use crate::hit::HitRecord;
use crate::ray::Ray;
use crate::vec3::{
    bounded, lemma_dot_fits, lemma_fx_mul_mag, lemma_len_sq_nonneg, lemma_scale_fits, spec_add,
    spec_clamp_one, spec_dot, spec_len_sq, spec_neg, spec_normalize, spec_reflect, spec_refract,
    spec_scale, spec_zero, Vec3,
};

verus! {

/// Color values reuse the fixed-point vector representation: channels
/// `x`, `y`, `z` carry red, green and blue in `[0, 65536]`.
pub type Color = Vec3;

/// How a Lambertian surface perturbs the normal when scattering.
#[derive(Clone, Copy, Debug, PartialEq, Eq, Structural)]
pub enum DiffuseMethod {
    Simple,
    Lambert,
    Hemisphere,
}

/// Diffuse surface: scatters near the normal, attenuates by its albedo.
#[derive(Clone, Copy, Debug)]
pub struct Lambertian {
    pub albedo: Color,
    pub diffuse_method: DiffuseMethod,
}

/// Reflective surface; `fuzz` in `[0, 65536]` blurs the mirror direction.
#[derive(Clone, Copy, Debug)]
pub struct Metal {
    pub albedo: Color,
    pub fuzz: i64,
}

/// Refractive surface; `ir` is the fixed-point index of refraction.
#[derive(Clone, Copy, Debug)]
pub struct Dielectric {
    pub ir: i64,
}

/// The closed set of materials, dispatched by tag.
#[derive(Clone, Copy, Debug)]
pub enum Material {
    Lambertian(Lambertian),
    Metal(Metal),
    Dielectric(Dielectric),
}

/// A scattering event: the attenuation color and the outgoing ray.
#[derive(Clone, Copy, Debug)]
pub struct Scatter {
    pub attenuation: Color,
    pub ray: Ray,
}

/// A color with every channel in `[0, 1]`.
pub open spec fn wf_color(c: Color) -> bool {
    0 <= c.x <= 65536 && 0 <= c.y <= 65536 && 0 <= c.z <= 65536
}

pub open spec fn spec_white() -> Color {
    Vec3 { x: 65536, y: 65536, z: 65536 }
}

pub open spec fn spec_black() -> Color {
    spec_zero()
}

/// Physically meaningful material parameters: albedos within `[0, 1]`,
/// fuzz within `[0, 1]`, an index of refraction within `[1, 4]`.
pub open spec fn wf_material(m: Material) -> bool {
    match m {
        Material::Lambertian(l) => wf_color(l.albedo),
        Material::Metal(mt) => wf_color(mt.albedo) && 0 <= mt.fuzz <= 65536,
        Material::Dielectric(d) => 65536 <= d.ir <= 0x40000,
    }
}

/// The ratio of refraction indices a dielectric uses: the reciprocal of
/// its index when entering from the front face, the index itself when
/// exiting.
pub open spec fn spec_refraction_ratio(ir: int, front_face: bool) -> int {
    if front_face {
        fx_div_spec(65536, ir)
    } else {
        ir
    }
}

/// Schlick's reflectance approximation:
/// `r0 + (1 - r0)(1 - cos)^5` with `r0 = ((1 - n)/(1 + n))^2`.
pub open spec fn spec_reflectance(cos: int, ref_idx: int) -> int {
    let q = fx_div_spec(65536 - ref_idx, 65536 + ref_idx);
    let r0 = fx_mul_spec(q, q);
    let omc = 65536 - cos;
    let p2 = fx_mul_spec(omc, omc);
    let p4 = fx_mul_spec(p2, p2);
    let p5 = fx_mul_spec(p4, omc);
    r0 + fx_mul_spec(65536 - r0, p5)
}

/// The clamped cosine between the reversed unit direction and the normal.
pub open spec fn spec_cos_theta(unit_dir: Vec3, normal: Vec3) -> int {
    spec_clamp_one(spec_dot(spec_neg(unit_dir), normal))
}

/// The sine from the clamped cosine, never negative under the root.
pub open spec fn spec_sin_theta(unit_dir: Vec3, normal: Vec3) -> int {
    let cos = spec_cos_theta(unit_dir, normal);
    let k = 65536 - fx_mul_spec(cos, cos);
    fx_sqrt_spec(if k < 0 {
        0
    } else {
        k
    })
}

/// Total internal reflection: the refracted angle's sine would exceed one.
pub open spec fn spec_cannot_refract(unit_dir: Vec3, normal: Vec3, ratio: int) -> bool {
    fx_mul_spec(ratio, spec_sin_theta(unit_dir, normal)) > 65536
}

/// The diffuse direction for a candidate: the candidate itself, or the
/// normal when the candidate degenerates to the zero vector.
pub open spec fn spec_diffuse_dir(normal: Vec3, candidate: Vec3) -> Vec3 {
    if candidate == spec_zero() {
        normal
    } else {
        candidate
    }
}

/// A metal's outgoing direction for a given fuzz draw: the mirror
/// reflection of the unit incoming direction, perturbed by the scaled
/// draw.
pub open spec fn spec_metal_direction(dir_in: Vec3, normal: Vec3, fuzz: int, p: Vec3) -> Vec3 {
    spec_add(spec_reflect(spec_normalize(dir_in), normal), spec_scale(p, fuzz))
}

/// Whether a dielectric reflects for a given uniform draw `xi`: total
/// internal reflection, or a Schlick reflectance above the draw.
pub open spec fn spec_dielectric_reflects(unit_dir: Vec3, normal: Vec3, ratio: int, xi: int) -> bool {
    spec_cannot_refract(unit_dir, normal, ratio) || spec_reflectance(
        spec_cos_theta(unit_dir, normal),
        ratio,
    ) > xi
}

/// The attenuation each material reports: its albedo, or full white for
/// a dielectric.
pub open spec fn spec_attenuation(m: Material) -> Color {
    match m {
        Material::Lambertian(l) => l.albedo,
        Material::Metal(mt) => mt.albedo,
        Material::Dielectric(_) => spec_white(),
    }
}

impl Lambertian {
    pub fn new(albedo: Color, diffuse_method: DiffuseMethod) -> (r: Lambertian)
        ensures
            r == (Lambertian { albedo, diffuse_method }),
    {
        Lambertian { albedo, diffuse_method }
    }

    /// Diffuse scattering: perturb the normal by the configured random
    /// construction; a degenerate (all-zero) direction falls back to the
    /// normal itself. Never absorbs; attenuation is the albedo. Whatever
    /// was drawn, the direction is the stated function of the normal and
    /// some admissible draw.
    pub fn scatter(&self, rec: &HitRecord) -> (r: Option<Scatter>)
        requires
            bounded(rec.normal, 0x2000000),
        ensures
            match r {
                Some(sc) => sc.attenuation == self.albedo && sc.ray.origin == rec.p && bounded(
                    sc.ray.direction,
                    0x4000000,
                ) && (rec.normal != spec_zero() ==> sc.ray.direction != spec_zero()) && (
                match self.diffuse_method {
                    DiffuseMethod::Hemisphere => exists|p: Vec3|
                        bounded(p, 65536) && #[trigger] spec_len_sq(p) < 65536 && spec_dot(
                            p,
                            rec.normal,
                        ) >= 0 && sc.ray.direction == spec_diffuse_dir(rec.normal, p),
                    DiffuseMethod::Simple => exists|p: Vec3|
                        bounded(p, 65536) && #[trigger] spec_len_sq(p) < 65536 && sc.ray.direction
                            == spec_diffuse_dir(rec.normal, spec_add(rec.normal, p)),
                    DiffuseMethod::Lambert => exists|q: Vec3|
                        bounded(q, 65536) && 16384 <= spec_len_sq(q) < 65536 && sc.ray.direction
                            == spec_diffuse_dir(
                            rec.normal,
                            spec_add(rec.normal, #[trigger] spec_normalize(q)),
                        ),
                }),
                None => false,
            },
    {
        let candidate = match self.diffuse_method {
            DiffuseMethod::Hemisphere => {
                let p = Vec3::random_in_hemisphere(&rec.normal);
                p
            },
            DiffuseMethod::Simple => {
                let p = Vec3::random_in_unit_sphere();
                let c = rec.normal.add(p);
                proof {
                    assert(exists|pp: Vec3|
                        bounded(pp, 65536) && #[trigger] spec_len_sq(pp) < 65536 && c == spec_add(
                            rec.normal,
                            pp,
                        ));
                }
                c
            },
            DiffuseMethod::Lambert => {
                let p = Vec3::random_unit_vector();
                let c = rec.normal.add(p);
                proof {
                    assert(exists|q: Vec3|
                        bounded(q, 65536) && 16384 <= spec_len_sq(q) < 65536 && c == spec_add(
                            rec.normal,
                            #[trigger] spec_normalize(q),
                        ));
                }
                c
            },
        };
        let scatter_direction = if candidate.near_zero() {
            rec.normal
        } else {
            candidate
        };
        Some(
            Scatter {
                ray: Ray::new(rec.p, scatter_direction),
                attenuation: self.albedo,
            },
        )
    }
}

impl Metal {
    pub fn new(albedo: Color, fuzz: i64) -> (r: Metal)
        ensures
            r == (Metal { albedo, fuzz }),
    {
        Metal { albedo, fuzz }
    }

    /// Mirror reflection with fuzz. Absorbs (returns nothing) whenever
    /// the perturbed direction fails to point off the surface: a reported
    /// scatter always has a strictly positive dot product with the normal.
    /// For some in-sphere draw, the result is exactly the stated function
    /// of that draw: scatter when the perturbed reflection leaves the
    /// surface, absorb otherwise.
    pub fn scatter(&self, ray_in: &Ray, rec: &HitRecord) -> (r: Option<Scatter>)
        requires
            bounded(ray_in.direction, 0x4000000),
            bounded(rec.normal, 0x2000000),
            0 <= self.fuzz <= 65536,
        ensures
            match r {
                Some(sc) => sc.attenuation == self.albedo && sc.ray.origin == rec.p && spec_dot(
                    sc.ray.direction,
                    rec.normal,
                ) > 0 && bounded(sc.ray.direction, 0x8010000000000) && (self.fuzz == 0
                    ==> sc.ray.direction == spec_reflect(
                    spec_normalize(ray_in.direction),
                    rec.normal,
                )),
                None => true,
            },
            self.fuzz == 0 ==> (r is Some <==> spec_dot(
                spec_reflect(spec_normalize(ray_in.direction), rec.normal),
                rec.normal,
            ) > 0),
            exists|p: Vec3|
                bounded(p, 65536) && #[trigger] spec_len_sq(p) < 65536 && r == (if spec_dot(
                    spec_metal_direction(ray_in.direction, rec.normal, self.fuzz as int, p),
                    rec.normal,
                ) > 0 {
                    Some(
                        (Scatter {
                            attenuation: self.albedo,
                            ray: (Ray {
                                origin: rec.p,
                                direction: spec_metal_direction(
                                    ray_in.direction,
                                    rec.normal,
                                    self.fuzz as int,
                                    p,
                                ),
                            }),
                        }),
                    )
                } else {
                    None
                }),
    {
        let unit = ray_in.direction.normalize();
        let reflected = unit.reflect(rec.normal);
        let fuzz_vec = Vec3::random_in_unit_sphere();
        proof {
            lemma_scale_fits(fuzz_vec, self.fuzz as int, 65536, 65536);
            if self.fuzz == 0 {
                assert((fuzz_vec.x as int) * 0 == 0) by (nonlinear_arith);
                assert((fuzz_vec.y as int) * 0 == 0) by (nonlinear_arith);
                assert((fuzz_vec.z as int) * 0 == 0) by (nonlinear_arith);
            }
        }
        let perturb = fuzz_vec.scale(self.fuzz);
        let direction = reflected.add(perturb);
        proof {
            lemma_dot_fits(direction, rec.normal, 0x8010000000000, 0x2000000);
            assert(direction == spec_metal_direction(
                ray_in.direction,
                rec.normal,
                self.fuzz as int,
                fuzz_vec,
            ));
        }
        if direction.dot(rec.normal) > 0 {
            Some(
                Scatter {
                    ray: Ray::new(rec.p, direction),
                    attenuation: self.albedo,
                },
            )
        } else {
            None
        }
    }
}

impl Dielectric {
    pub fn new(ir: i64) -> (r: Dielectric)
        ensures
            r == (Dielectric { ir }),
    {
        Dielectric { ir }
    }

    /// Schlick's reflectance for a clamped cosine and a positive ratio.
    fn reflectance(cosine: i64, ref_idx: i64) -> (r: i64)
        requires
            mag(cosine as int) <= 65536,
            0 <= ref_idx <= 0x40000,
        ensures
            r as int == spec_reflectance(cosine as int, ref_idx as int),
    {
        proof {
            lemma_tdiv_mag((65536 - ref_idx as int) * 65536, 65536 + ref_idx as int);
        }
        let q = fx_div(65536 - ref_idx, 65536 + ref_idx);
        proof {
            lemma_reflectance_bounds(cosine as int, ref_idx as int);
        }
        let r0 = fx_mul(q, q);
        let omc = 65536 - cosine;
        let p2 = fx_mul(omc, omc);
        let p4 = fx_mul(p2, p2);
        let p5 = fx_mul(p4, omc);
        r0 + fx_mul(65536 - r0, p5)
    }

    /// Refractive scattering: white attenuation always; reflect on total
    /// internal reflection or a reflectance-favored draw, refract
    /// otherwise. The outgoing direction is exactly one of the two
    /// stated closed forms.
    pub fn scatter(&self, ray_in: &Ray, rec: &HitRecord) -> (r: Option<Scatter>)
        requires
            bounded(ray_in.direction, 0x4000000),
            bounded(rec.normal, 0x2000000),
            65536 <= self.ir <= 0x40000,
        ensures
            match r {
                Some(sc) => {
                    let u = spec_normalize(ray_in.direction);
                    let ratio = spec_refraction_ratio(self.ir as int, rec.front_face);
                    sc.attenuation == spec_white() && sc.ray.origin == rec.p && bounded(
                        sc.ray.direction,
                        0x8010000000000,
                    ) && (sc.ray.direction == spec_reflect(u, rec.normal) || sc.ray.direction
                        == spec_refract(u, rec.normal, ratio)) && (spec_cannot_refract(
                        u,
                        rec.normal,
                        ratio,
                    ) ==> sc.ray.direction == spec_reflect(u, rec.normal)) && ((
                    !spec_cannot_refract(u, rec.normal, ratio) && spec_reflectance(
                        spec_cos_theta(u, rec.normal),
                        ratio,
                    ) <= 0) ==> sc.ray.direction == spec_refract(u, rec.normal, ratio)) && (
                    exists|xi: int|
                        0 <= xi < 65536 && sc.ray.direction == (
                        if #[trigger] spec_dielectric_reflects(u, rec.normal, ratio, xi) {
                            spec_reflect(u, rec.normal)
                        } else {
                            spec_refract(u, rec.normal, ratio)
                        }))
                },
                None => false,
            },
    {
        let attenuation = Vec3 { x: 65536, y: 65536, z: 65536 };
        proof {
            lemma_tdiv_mag(65536int * 65536, self.ir as int);
            crate::fx::lemma_div_mono_divisor(65536int * 65536, 65536, self.ir as int);
        }
        let refraction_ratio: i64 = if rec.front_face {
            fx_div(65536, self.ir)
        } else {
            self.ir
        };
        let unit_direction = ray_in.direction.normalize();
        proof {
            lemma_dot_fits(
                crate::vec3::spec_neg(unit_direction),
                rec.normal,
                0x2000000,
                0x2000000,
            );
        }
        let md = unit_direction.neg();
        let d = md.dot(rec.normal);
        let cos_theta: i64 = if d > 65536 {
            65536
        } else if d < -65536 {
            -65536
        } else {
            d
        };
        proof {
            lemma_fx_mul_mag(cos_theta as int, cos_theta as int, 65536, 65536);
            assert((cos_theta as int) * (cos_theta as int) >= 0) by (nonlinear_arith);
            assert(mag((cos_theta as int) * (cos_theta as int)) / 65536 >= 0) by (nonlinear_arith)
                requires mag((cos_theta as int) * (cos_theta as int)) >= 0;
        }
        let k: i64 = 65536 - fx_mul(cos_theta, cos_theta);
        let sin_theta = fx_sqrt(
            if k < 0 {
                0
            } else {
                k
            },
        );
        proof {
            assert(sin_theta < 0x20000) by (nonlinear_arith)
                requires
                    0 <= sin_theta,
                    (sin_theta as int) * (sin_theta as int) <= 65536int * 65536;
            lemma_fx_mul_mag(refraction_ratio as int, sin_theta as int, 0x40000, 0x20000);
        }
        let cannot_refract = fx_mul(refraction_ratio, sin_theta) > 65536;
        let ghost mut draw: int = 0;
        let direction = if cannot_refract {
            unit_direction.reflect(rec.normal)
        } else {
            let xi = crate::rng::random_unit_fx();
            proof {
                draw = xi as int;
            }
            if Dielectric::reflectance(cos_theta, refraction_ratio) > xi {
                unit_direction.reflect(rec.normal)
            } else {
                unit_direction.refract(rec.normal, refraction_ratio)
            }
        };
        proof {
            let u = spec_normalize(ray_in.direction);
            let ratio = spec_refraction_ratio(self.ir as int, rec.front_face);
            assert(direction == (if spec_dielectric_reflects(u, rec.normal, ratio, draw) {
                spec_reflect(u, rec.normal)
            } else {
                spec_refract(u, rec.normal, ratio)
            }));
        }
        Some(
            Scatter {
                attenuation,
                ray: Ray::new(rec.p, direction),
            },
        )
    }
}

/// Magnitude bounds for every intermediate of Schlick's approximation.
proof fn lemma_reflectance_bounds(cosine: int, ref_idx: int)
    requires
        mag(cosine) <= 65536,
        0 <= ref_idx <= 0x40000,
    ensures
        mag(fx_div_spec(65536 - ref_idx, 65536 + ref_idx)) <= 0x40000,
        mag(
            fx_mul_spec(
                fx_div_spec(65536 - ref_idx, 65536 + ref_idx),
                fx_div_spec(65536 - ref_idx, 65536 + ref_idx),
            ),
        ) <= 0x100000,
        mag(fx_mul_spec(65536 - cosine, 65536 - cosine)) <= 0x40000,
        mag(
            fx_mul_spec(
                fx_mul_spec(65536 - cosine, 65536 - cosine),
                fx_mul_spec(65536 - cosine, 65536 - cosine),
            ),
        ) <= 0x100000,
        mag(
            fx_mul_spec(
                fx_mul_spec(
                    fx_mul_spec(65536 - cosine, 65536 - cosine),
                    fx_mul_spec(65536 - cosine, 65536 - cosine),
                ),
                65536 - cosine,
            ),
        ) <= 0x200000,
        mag(
            fx_mul_spec(
                65536 - fx_mul_spec(
                    fx_div_spec(65536 - ref_idx, 65536 + ref_idx),
                    fx_div_spec(65536 - ref_idx, 65536 + ref_idx),
                ),
                fx_mul_spec(
                    fx_mul_spec(
                        fx_mul_spec(65536 - cosine, 65536 - cosine),
                        fx_mul_spec(65536 - cosine, 65536 - cosine),
                    ),
                    65536 - cosine,
                ),
            ),
        ) <= 0x80000000000,
{
    let q = fx_div_spec(65536 - ref_idx, 65536 + ref_idx);
    lemma_tdiv_mag((65536 - ref_idx) * 65536, 65536 + ref_idx);
    assert(mag((65536 - ref_idx) * 65536) <= 0x40000 * 65536) by (nonlinear_arith)
        requires 0 <= ref_idx <= 0x40000;
    assert(mag((65536 - ref_idx) * 65536) / mag(65536 + ref_idx) <= 0x40000 * 65536 / 65536)
        by (nonlinear_arith)
        requires
            0 <= mag((65536 - ref_idx) * 65536) <= 0x40000 * 65536,
            mag(65536 + ref_idx) >= 65536;
    lemma_fx_mul_mag(q, q, 0x40000, 0x40000);
    let r0 = fx_mul_spec(q, q);
    let omc = 65536 - cosine;
    lemma_fx_mul_mag(omc, omc, 0x20000, 0x20000);
    let p2 = fx_mul_spec(omc, omc);
    lemma_fx_mul_mag(p2, p2, 0x40000, 0x40000);
    let p4 = fx_mul_spec(p2, p2);
    lemma_fx_mul_mag(p4, omc, 0x100000, 0x20000);
    let p5 = fx_mul_spec(p4, omc);
    lemma_fx_mul_mag(65536 - r0, p5, 0x110000, 0x200000);
    assert(0x110000 * 0x200000 / 65536 <= 0x80000000000);
}

/// With a unit index of refraction there is no interface: whichever face
/// was struck the refraction ratio is exactly one, and total internal
/// reflection is impossible — the refracted sine never exceeds one, so a
/// unit-index dielectric is always free to refract.
pub proof fn lemma_unit_index_always_refractable(unit_dir: Vec3, normal: Vec3, front_face: bool)
    ensures
        spec_refraction_ratio(65536, front_face) == 65536,
        !spec_cannot_refract(unit_dir, normal, spec_refraction_ratio(65536, front_face)),
{
    let cos = spec_cos_theta(unit_dir, normal);
    assert(mag(cos) <= 65536);
    assert(cos * cos >= 0) by (nonlinear_arith);
    assert(mag(cos * cos) / 65536 >= 0) by (nonlinear_arith)
        requires mag(cos * cos) >= 0;
    let csq = fx_mul_spec(cos, cos);
    let k = 65536 - csq;
    let arg = if k < 0 {
        0int
    } else {
        k
    };
    assert(0 <= arg <= 65536);
    crate::fx::lemma_sqrt_floor(arg * 65536);
    let sin = fx_sqrt_spec(arg);
    assert(sin <= 65536) by (nonlinear_arith)
        requires
            0 <= sin,
            sin * sin <= arg * 65536,
            arg <= 65536;
    assert(fx_mul_spec(65536, sin) == sin) by (nonlinear_arith)
        requires sin >= 0;
}

/// Everything the material dispatch promises of a scatter, whatever the
/// draws inside were: a reported scatter starts at the hit point, carries
/// the material's attenuation (well-formed), a metal's outgoing direction
/// strictly leaves the surface, and only a metal may absorb.
pub open spec fn spec_scatter_post(m: Material, rec: HitRecord, r: Option<Scatter>) -> bool {
    &&& match r {
        Some(sc) => sc.ray.origin == rec.p && bounded(sc.ray.direction, 0x8010000000000)
            && wf_color(sc.attenuation) && sc.attenuation == spec_attenuation(m) && (match m {
            Material::Metal(_) => spec_dot(sc.ray.direction, rec.normal) > 0,
            Material::Lambertian(_) => true,
            Material::Dielectric(_) => true,
        }),
        None => true,
    }
    &&& !(m matches Material::Metal(_)) ==> r is Some
}

impl Material {
    /// Dispatches to the variant's scattering rule; the result satisfies
    /// `spec_scatter_post` whatever the random draws inside were.
    pub fn scatter(&self, ray_in: &Ray, rec: &HitRecord) -> (r: Option<Scatter>)
        requires
            wf_material(*self),
            bounded(ray_in.direction, 0x4000000),
            bounded(rec.normal, 0x2000000),
        ensures
            spec_scatter_post(*self, *rec, r),
    {
        match self {
            Material::Lambertian(l) => l.scatter(rec),
            Material::Metal(m) => m.scatter(ray_in, rec),
            Material::Dielectric(d) => d.scatter(ray_in, rec),
        }
    }
}

} // verus!
