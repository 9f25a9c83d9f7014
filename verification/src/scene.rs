//! Scene and camera construction: the fixed demonstration scene and the
//! randomized field of small spheres around three big ones.

use vstd::prelude::*;

use crate::camera::{spec_camera_new, wf_camera, Camera};
use crate::fx::mag;
use crate::hittable_list::{wf_scene, HittableList};
use crate::material::{wf_color, Color, Dielectric, DiffuseMethod, Lambertian, Material, Metal};
use crate::rng::{random_range_fx, random_unit_fx};
use crate::sphere::{wf_sphere, Sphere};
use crate::vec3::{
    bounded, lemma_dot_fits, lemma_fx_mul_mag, lemma_len_sq_nonneg, spec_dot_raw, spec_len,
    spec_len_sq, spec_sub, Vec3,
};

verus! {

/// The fixed viewpoint: looking from (13, 2, 3) at the origin, vertical
/// field of view of 20 degrees, 3:2 aspect, a 0.1 aperture, and a focus
/// distance of 10 — all in fixed point.
pub fn get_camera() -> (r: Camera)
    ensures
        r == spec_camera_new(
            Vec3 { x: 851968, y: 131072, z: 196608 },
            Vec3 { x: 0, y: 0, z: 0 },
            Vec3 { x: 0, y: 65536, z: 0 },
            1310720,
            98304,
            6554,
            655360,
        ),
        wf_camera(r),
{
    let lookfrom = Vec3 { x: 851968, y: 131072, z: 196608 };
    let lookat = Vec3 { x: 0, y: 0, z: 0 };
    let vup = Vec3 { x: 0, y: 65536, z: 0 };
    Camera::new(lookfrom, lookat, vup, 1310720, 98304, 6554, 655360)
}

/// Exactly what `generate_scene` builds, in insertion order.
pub open spec fn spec_generate_scene(diffuse_method: DiffuseMethod) -> Seq<Sphere> {
    seq![
        Sphere {
            center: Vec3 { x: 0, y: -6586368i64, z: -65536i64 },
            radius: 6553600,
            material: Material::Lambertian(
                Lambertian { albedo: Vec3 { x: 52428, y: 52428, z: 0 }, diffuse_method },
            ),
        },
        Sphere {
            center: Vec3 { x: 0, y: 0, z: -65536i64 },
            radius: 32768,
            material: Material::Lambertian(
                Lambertian { albedo: Vec3 { x: 6554, y: 13107, z: 32768 }, diffuse_method },
            ),
        },
        Sphere {
            center: Vec3 { x: -65536i64, y: 0, z: -65536i64 },
            radius: 32768,
            material: Material::Dielectric(Dielectric { ir: 98304 }),
        },
        Sphere {
            center: Vec3 { x: -65536i64, y: 0, z: -65536i64 },
            radius: -29491i64,
            material: Material::Dielectric(Dielectric { ir: 98304 }),
        },
        Sphere {
            center: Vec3 { x: 65536, y: 0, z: -65536i64 },
            radius: 32768,
            material: Material::Metal(
                Metal { albedo: Vec3 { x: 52429, y: 39322, z: 13107 }, fuzz: 0 },
            ),
        },
    ]
}

/// The five-sphere demonstration scene: a large yellow ground sphere, a
/// diffuse center sphere, a hollow glass pair on the left, and a metal
/// sphere on the right.
pub fn generate_scene(diffuse_method: DiffuseMethod) -> (r: HittableList)
    ensures
        wf_scene(r.objects@),
        r.objects@ =~= spec_generate_scene(diffuse_method),
        r.objects@.len() == 5,
{
    let material_ground = Material::Lambertian(
        Lambertian::new(Vec3::new_rgb(204, 204, 0), diffuse_method),
    );
    let material_center = Material::Lambertian(
        Lambertian::new(Vec3 { x: 6554, y: 13107, z: 32768 }, diffuse_method),
    );
    let material_left = Material::Dielectric(Dielectric::new(98304));
    let material_right = Material::Metal(Metal::new(Vec3 { x: 52429, y: 39322, z: 13107 }, 0));

    let planet = Sphere::new(Vec3 { x: 0, y: -6586368, z: -65536 }, 6553600, material_ground);
    let sphere_center = Sphere::new(Vec3 { x: 0, y: 0, z: -65536 }, 32768, material_center);
    let sphere_left = Sphere::new(Vec3 { x: -65536, y: 0, z: -65536 }, 32768, material_left);
    let sphere_left_2 = Sphere::new(Vec3 { x: -65536, y: 0, z: -65536 }, -29491, material_left);
    let sphere_right = Sphere::new(Vec3 { x: 65536, y: 0, z: -65536 }, 32768, material_right);

    let mut world = HittableList::new();
    world.add(planet);
    world.add(sphere_center);
    world.add(sphere_left);
    world.add(sphere_left_2);
    world.add(sphere_right);
    proof {
        assert(forall|i: int| 0 <= i < world.objects@.len() ==> wf_sphere(
            #[trigger] world.objects@[i],
        ));
    }
    world
}

/// A random color with channels in `[0, 1)`: the componentwise product
/// of two uniform draws.
fn random_albedo() -> (r: Color)
    ensures
        wf_color(r),
{
    let a = Vec3::random();
    let b = Vec3::random();
    proof {
        lemma_fx_mul_mag(a.x as int, b.x as int, 65536, 65536);
        lemma_fx_mul_mag(a.y as int, b.y as int, 65536, 65536);
        lemma_fx_mul_mag(a.z as int, b.z as int, 65536, 65536);
        lemma_nonneg_channel(a.x as int, b.x as int);
        lemma_nonneg_channel(a.y as int, b.y as int);
        lemma_nonneg_channel(a.z as int, b.z as int);
    }
    a.mul(b)
}

/// A product of nonnegative channels stays a channel.
proof fn lemma_nonneg_channel(a: int, b: int)
    requires
        0 <= a,
        0 <= b,
    ensures
        crate::fx::fx_mul_spec(a, b) >= 0,
{
    assert(a * b >= 0) by (nonlinear_arith)
        requires a >= 0 && b >= 0;
    assert(mag(a * b) / 65536 >= 0) by (nonlinear_arith)
        requires mag(a * b) >= 0;
}

/// Whether a coordinate sits on the jittered integer grid: a whole-unit
/// cell coordinate in `[-11, 11)` plus nine tenths of a unit jitter.
pub open spec fn on_jitter_grid(coord: int, cell: int, jitter: int) -> bool {
    -11 <= cell < 11 && 0 <= jitter < 65536 && coord == cell * 65536 + crate::fx::fx_mul_spec(
        58982,
        jitter,
    )
}

/// One small sphere of the randomized field: radius 0.2, resting on the
/// ground plane, each horizontal coordinate on the jittered integer grid,
/// and clear of the anchor point near the metal showcase sphere.
pub open spec fn spec_field_sphere(s: Sphere) -> bool {
    &&& s.radius == 13107
    &&& s.center.y == 13107
    &&& exists|cell: int, jitter: int| #[trigger] on_jitter_grid(s.center.x as int, cell, jitter)
    &&& exists|cell: int, jitter: int| #[trigger] on_jitter_grid(s.center.z as int, cell, jitter)
    &&& spec_len(spec_sub(s.center, Vec3 { x: 262144, y: 13107, z: 0 })) > 58982
}

/// Whether one grid cell lies lexicographically before the loop position.
spec fn cell_before(a: int, b: int, au: int, bu: int) -> int {
    if a < au || (a == au && b < bu) {
        1int
    } else {
        0int
    }
}

/// How many of the four grid cells that can ever reject (those whose
/// jittered footprint can reach within 0.9 of the anchor) lie before the
/// loop position. Never more than four.
spec fn skip_budget(au: int, bu: int) -> int {
    cell_before(14, 10, au, bu) + cell_before(14, 11, au, bu) + cell_before(15, 10, au, bu)
        + cell_before(15, 11, au, bu)
}

/// The randomized showcase scene: a gray ground sphere of radius 1000, a
/// field of 480 to 484 random small spheres (diffuse, metal, or glass) on
/// the jittered grid, and three unit spheres of one material each. Every
/// member is within the world bounds.
pub fn random_scene(diffuse_method: DiffuseMethod) -> (r: HittableList)
    ensures
        wf_scene(r.objects@),
        484 <= r.objects@.len() <= 488,
        forall|idx: int|
            1 <= idx < r.objects@.len() - 3 ==> spec_field_sphere(#[trigger] r.objects@[idx]),
        r.objects@[0] == (Sphere {
            center: Vec3 { x: 0, y: -65536000i64, z: 0 },
            radius: 65536000,
            material: Material::Lambertian(
                Lambertian { albedo: Vec3 { x: 32768, y: 32768, z: 32768 }, diffuse_method },
            ),
        }),
        r.objects@[r.objects@.len() - 3] == (Sphere {
            center: Vec3 { x: 0, y: 65536, z: 0 },
            radius: 65536,
            material: Material::Dielectric(Dielectric { ir: 98304 }),
        }),
        r.objects@[r.objects@.len() - 2] == (Sphere {
            center: Vec3 { x: -262144i64, y: 65536, z: 0 },
            radius: 65536,
            material: Material::Lambertian(
                Lambertian { albedo: Vec3 { x: 26214, y: 13107, z: 6554 }, diffuse_method },
            ),
        }),
        r.objects@[r.objects@.len() - 1] == (Sphere {
            center: Vec3 { x: 262144, y: 65536, z: 0 },
            radius: 65536,
            material: Material::Metal(
                Metal { albedo: Vec3 { x: 45875, y: 39322, z: 32768 }, fuzz: 0 },
            ),
        }),
{
    let mut world = HittableList::new();

    let ground_material = Material::Lambertian(
        Lambertian::new(Vec3 { x: 32768, y: 32768, z: 32768 }, diffuse_method),
    );
    world.add(Sphere::new(Vec3 { x: 0, y: -65536000, z: 0 }, 65536000, ground_material));

    let ghost mut skipped: int = 0;
    let mut au: usize = 0;
    while au < 22
        invariant
            au <= 22,
            wf_scene(world.objects@),
            world.objects@.len() == 1 + 22 * au - skipped,
            0 <= skipped <= skip_budget(au as int, 0),
            world.objects@[0] == (Sphere {
                center: Vec3 { x: 0, y: -65536000i64, z: 0 },
                radius: 65536000,
                material: ground_material,
            }),
            forall|idx: int|
                1 <= idx < world.objects@.len() ==> spec_field_sphere(
                    #[trigger] world.objects@[idx],
                ),
        decreases 22 - au,
    {
        let mut bu: usize = 0;
        while bu < 22
            invariant
                au < 22,
                bu <= 22,
                wf_scene(world.objects@),
                world.objects@.len() == 1 + 22 * au + bu - skipped,
                0 <= skipped <= skip_budget(au as int, bu as int),
                world.objects@[0] == (Sphere {
                    center: Vec3 { x: 0, y: -65536000i64, z: 0 },
                    radius: 65536000,
                    material: ground_material,
                }),
                forall|idx: int|
                    1 <= idx < world.objects@.len() ==> spec_field_sphere(
                        #[trigger] world.objects@[idx],
                    ),
            decreases 22 - bu,
        {
            let a_fx: i64 = (au as i64 - 11) * 65536;
            let b_fx: i64 = (bu as i64 - 11) * 65536;
            let material_choice = random_unit_fx();
            let jx = random_unit_fx();
            let jz = random_unit_fx();
            proof {
                lemma_fx_mul_mag(58982, jx as int, 58982, 65535);
                lemma_fx_mul_mag(58982, jz as int, 58982, 65535);
                lemma_nonneg_channel(58982, jx as int);
                lemma_nonneg_channel(58982, jz as int);
            }
            let jxv = crate::fx::fx_mul(58982, jx);
            let jzv = crate::fx::fx_mul(58982, jz);
            let center = Vec3 { x: a_fx + jxv, y: 13107, z: b_fx + jzv };
            let anchor = Vec3 { x: 262144, y: 13107, z: 0 };
            let offset = center.sub(anchor);
            proof {
                lemma_dot_fits(offset, offset, 0x200000, 0x200000);
                lemma_len_sq_nonneg(offset);
            }
            let len_v = offset.length();
            if len_v > 58982 {
                let sphere_material: Material = if material_choice < 52429 {
                    Material::Lambertian(Lambertian::new(random_albedo(), diffuse_method))
                } else if material_choice < 62259 {
                    let albedo = Vec3::random_limit(32768, 65536);
                    let fuzz = random_range_fx(0, 32768);
                    Material::Metal(Metal::new(albedo, fuzz))
                } else {
                    Material::Dielectric(Dielectric::new(98304))
                };
                proof {
                    assert(on_jitter_grid(center.x as int, au as int - 11, jx as int));
                    assert(on_jitter_grid(center.z as int, bu as int - 11, jz as int));
                }
                world.add(Sphere::new(center, 13107, sphere_material));
                proof {
                    assert(skip_budget(au as int, bu as int) <= skip_budget(
                        au as int,
                        bu as int + 1,
                    ));
                }
            } else {
                proof {
                    // A rejected cell must be one of the four near the
                    // anchor: any other cell keeps a whole coordinate unit
                    // of distance, which forces the length above 0.9.
                    if !(14 <= au && au <= 15 && 10 <= bu && bu <= 11) {
                        lemma_far_cell(offset, au as int, bu as int, jxv as int, jzv as int);
                        assert(false);
                    }
                    skipped = skipped + 1;
                    assert(skip_budget(au as int, bu as int) + 1 == skip_budget(
                        au as int,
                        bu as int + 1,
                    ));
                }
            }
            bu = bu + 1;
        }
        proof {
            assert(skip_budget(au as int, 22) == skip_budget(au as int + 1, 0));
        }
        au = au + 1;
    }
    proof {
        assert(skip_budget(22, 0) == 4);
    }

    let material1 = Material::Dielectric(Dielectric::new(98304));
    let material2 = Material::Lambertian(
        Lambertian::new(Vec3 { x: 26214, y: 13107, z: 6554 }, diffuse_method),
    );
    let material3 = Material::Metal(Metal::new(Vec3 { x: 45875, y: 39322, z: 32768 }, 0));

    world.add(Sphere::new(Vec3 { x: 0, y: 65536, z: 0 }, 65536, material1));
    world.add(Sphere::new(Vec3 { x: -262144, y: 65536, z: 0 }, 65536, material2));
    world.add(Sphere::new(Vec3 { x: 262144, y: 65536, z: 0 }, 65536, material3));

    world
}

/// For a grid cell away from the anchor's four-cell neighborhood, the
/// jittered offset keeps a whole coordinate unit in one direction, so
/// the fixed-point distance to the anchor exceeds 0.9.
proof fn lemma_far_cell(offset: Vec3, au: int, bu: int, jxv: int, jzv: int)
    requires
        0 <= au < 22,
        0 <= bu < 22,
        !(14 <= au && au <= 15 && 10 <= bu && bu <= 11),
        0 <= jxv <= 58981,
        0 <= jzv <= 58981,
        offset.x as int == (au - 15) * 65536 + jxv,
        offset.y == 0,
        offset.z as int == (bu - 11) * 65536 + jzv,
    ensures
        spec_len(offset) > 58982,
{
    assert(bounded(offset, 0x200000));
    if !(14 <= au && au <= 15) {
        if au <= 13 {
            assert(offset.x as int <= -2 * 65536 + 58981);
        } else {
            assert(offset.x as int >= 65536);
        }
        lemma_offset_long(offset);
    } else {
        if bu <= 9 {
            assert(offset.z as int <= -2 * 65536 + 58981);
        } else {
            assert(offset.z as int >= 65536);
        }
        lemma_offset_long(offset);
    }
}

/// A bounded offset with some component of at least one whole unit has a
/// fixed-point length above 0.9.
proof fn lemma_offset_long(offset: Vec3)
    requires
        bounded(offset, 0x200000),
        mag(offset.x as int) >= 65536 || mag(offset.z as int) >= 65536,
    ensures
        spec_len(offset) > 58982,
{
    let raw = spec_dot_raw(offset, offset);
    lemma_len_sq_nonneg(offset);
    lemma_dot_fits(offset, offset, 0x200000, 0x200000);
    assert(raw >= 65536 * 65536) by (nonlinear_arith)
        requires
            raw == (offset.x as int) * (offset.x as int) + (offset.y as int) * (offset.y as int)
                + (offset.z as int) * (offset.z as int),
            mag(offset.x as int) >= 65536 || mag(offset.z as int) >= 65536;
    let q = spec_len_sq(offset);
    crate::fx::lemma_tdiv_mag(raw, 65536);
    crate::fx::lemma_div_mono(65536int * 65536, raw, 65536);
    assert(q >= 65536);
    crate::fx::lemma_sqrt_floor(q * 65536);
    let l = spec_len(offset);
    assert((l + 1) * (l + 1) > 65536 * 65536);
    assert(l + 1 > 65536) by (nonlinear_arith)
        requires (l + 1) * (l + 1) > 65536 * 65536 && l + 1 > 0;
}

} // verus!
