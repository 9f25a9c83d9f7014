//! The integrator's terminal rules, the sky gradient, full renders, and
//! the plain-text image format.

use wort::hittable_list::HittableList;
use wort::material::{DiffuseMethod, Lambertian, Material};
use wort::ppm::ppm_bytes;
use wort::ray::Ray;
use wort::render::render;
use wort::scene::{generate_scene, get_camera, random_scene};
use wort::sphere::Sphere;
use wort::vec3::Vec3;

fn diffuse_gray() -> Material {
    Material::Lambertian(Lambertian::new(
        Vec3::new(32768, 32768, 32768),
        DiffuseMethod::Lambert,
    ))
}

#[test]
fn integrate_zero_bounces_is_black() {
    // even with geometry squarely in front of the ray
    let mut w = HittableList::new();
    w.add(Sphere::new(Vec3::new(0, 0, -131072), 65536, diffuse_gray()));
    let r = Ray::new(Vec3::new(0, 0, 0), Vec3::new(0, 0, -65536));
    assert_eq!(r.color(&w, 0), Vec3::new(0, 0, 0));
    let empty = HittableList::new();
    assert_eq!(r.color(&empty, 0), Vec3::new(0, 0, 0));
}

#[test]
fn integrate_miss_gives_exact_sky_gradient() {
    let mut w = HittableList::new();
    w.add(Sphere::new(Vec3::new(0, 0, -131072), 65536, diffuse_gray()));

    // straight up: t = 1, the pure sky blue
    let up = Ray::new(Vec3::new(0, 0, 0), Vec3::new(0, 65536, 0));
    assert_eq!(up.color(&w, 50), Vec3::new(32768, 45875, 65536));

    // straight down: t = 0, pure white
    let down = Ray::new(Vec3::new(0, 0, 0), Vec3::new(0, -65536, 0));
    assert_eq!(down.color(&w, 50), Vec3::new(65536, 65536, 65536));

    // horizontal, away from the sphere: t = 1/2, the even blend
    let level = Ray::new(Vec3::new(0, 0, 0), Vec3::new(0, 0, 65536));
    let c = level.color(&w, 50);
    // (1-t)*white + t*blue with t = 0.5: (0.75, 0.85, 1.0)
    assert_eq!(c, Vec3::new(49152, 55705, 65536));
}

#[test]
fn integrate_channels_stay_bounded() {
    let mut w = HittableList::new();
    w.add(Sphere::new(Vec3::new(0, 0, -131072), 65536, diffuse_gray()));
    let r = Ray::new(Vec3::new(0, 0, 0), Vec3::new(0, 0, -65536));
    for _ in 0..200 {
        let c = r.color(&w, 50);
        assert!(c.x.abs() <= 0x8000000);
        assert!(c.y.abs() <= 0x8000000);
        assert!(c.z.abs() <= 0x8000000);
    }
}

#[test]
fn integrate_mirror_bounce_attenuates_sky() {
    // a fuzz-free metal bounce is deterministic: the ray reflects off the
    // sphere straight back up into the sky, and the result is exactly the
    // albedo multiplied componentwise into that sky color
    let albedo = Vec3::new(52429, 39322, 13107);
    let mut w = HittableList::new();
    w.add(Sphere::new(
        Vec3::new(0, 0, -131072),
        65536,
        Material::Metal(wort::material::Metal::new(albedo, 0)),
    ));
    let r = Ray::new(Vec3::new(0, 0, 0), Vec3::new(0, 0, -65536));
    // the mirror sends the axis ray straight back along +z, into the sky
    let expected = albedo.mul(wort::render::sky(Vec3::new(0, 0, 65536)));
    assert_eq!(r.color(&w, 3), expected);
}

#[test]
fn render_converges_between_runs() {
    // a Lambertian sphere under the sky: two independent renders of the
    // same scene agree in their average channel values within a small
    // statistical tolerance
    let mut w = HittableList::new();
    w.add(Sphere::new(Vec3::new(0, -6586368, -65536), 6553600, diffuse_gray()));
    w.add(Sphere::new(Vec3::new(0, 0, -65536), 32768, diffuse_gray()));
    let cam = get_camera();

    let avg = |pix: &Vec<(u8, u8, u8)>| -> (f64, f64, f64) {
        let n = pix.len() as f64;
        let mut s = (0.0, 0.0, 0.0);
        for &(r, g, b) in pix {
            s.0 += r as f64;
            s.1 += g as f64;
            s.2 += b as f64;
        }
        (s.0 / n, s.1 / n, s.2 / n)
    };

    let p1 = render(&w, &cam, 40, 30, 20, 20);
    let p2 = render(&w, &cam, 40, 30, 20, 20);
    assert_eq!(p1.len(), 40 * 30);
    assert_eq!(p2.len(), 40 * 30);
    let a1 = avg(&p1);
    let a2 = avg(&p2);
    assert!((a1.0 - a2.0).abs() < 4.0, "{:?} vs {:?}", a1, a2);
    assert!((a1.1 - a2.1).abs() < 4.0, "{:?} vs {:?}", a1, a2);
    assert!((a1.2 - a2.2).abs() < 4.0, "{:?} vs {:?}", a1, a2);
}

#[test]
fn render_two_sphere_scene_produces_valid_ppm() {
    // one diffuse ground sphere and one diffuse foreground sphere at the
    // canonical 400 x 225 (16:9) size; the file must parse exactly
    let mut w = HittableList::new();
    w.add(Sphere::new(Vec3::new(0, -6586368, -65536), 6553600, diffuse_gray()));
    w.add(Sphere::new(Vec3::new(0, 0, -65536), 32768, diffuse_gray()));
    let cam = get_camera();

    let pixels = render(&w, &cam, 400, 225, 2, 50);
    assert_eq!(pixels.len(), 400 * 225);

    let bytes = ppm_bytes(&pixels, 400, 225);
    let text = String::from_utf8(bytes).expect("ascii output");
    let mut lines = text.lines();
    assert_eq!(lines.next(), Some("P3"));
    assert_eq!(lines.next(), Some("400 225"));
    assert_eq!(lines.next(), Some("255"));
    let mut count = 0;
    for line in lines {
        let parts: Vec<&str> = line.split(' ').collect();
        assert_eq!(parts.len(), 3, "bad triple line: {:?}", line);
        for p in parts {
            let v: u32 = p.parse().expect("decimal channel");
            assert!(v <= 255);
        }
        count += 1;
    }
    assert_eq!(count, 400 * 225);
}

#[test]
fn ppm_bytes_exact_small() {
    let pix = vec![(0u8, 128u8, 255u8), (7u8, 0u8, 63u8)];
    let bytes = ppm_bytes(&pix, 2, 1);
    assert_eq!(String::from_utf8(bytes).unwrap(), "P3\n2 1\n255\n0 128 255\n7 0 63\n");
}

#[test]
fn camera_closed_aperture_is_deterministic() {
    let cam = wort::camera::Camera::new(
        Vec3::new(0, 0, 0),
        Vec3::new(0, 0, -65536),
        Vec3::new(0, 65536, 0),
        5898240, // 90 degrees
        98304,
        0, // closed aperture
        65536,
    );
    assert_eq!(cam.lens_radius, 0);
    let r1 = cam.get_ray(32768, 32768);
    let r2 = cam.get_ray(32768, 32768);
    assert_eq!(r1.origin, r2.origin);
    assert_eq!(r1.direction, r2.direction);
    assert_eq!(r1.origin, Vec3::new(0, 0, 0));
}

#[test]
fn get_camera_matches_fixed_viewpoint() {
    let cam = get_camera();
    assert_eq!(cam.origin, Vec3::new(851968, 131072, 196608));
    assert!(cam.lens_radius > 0);
    // the basis vectors are unit length up to rounding
    for v in [cam.u, cam.v, cam.w] {
        let len = v.length();
        assert!((len - 65536).abs() <= 256, "basis length {}", len);
    }
}

#[test]
fn generate_scene_holds_five_spheres() {
    let w = generate_scene(DiffuseMethod::Lambert);
    assert_eq!(w.objects.len(), 5);
    // the ground sphere comes first
    assert_eq!(w.objects[0].center, Vec3::new(0, -6586368, -65536));
    assert_eq!(w.objects[0].radius, 6553600);
    // the hollow glass sphere has a negative radius
    assert_eq!(w.objects[3].radius, -29491);
}

#[test]
fn random_scene_holds_ground_and_big_spheres() {
    let w = random_scene(DiffuseMethod::Lambert);
    // the ground, 480 to 484 field spheres, and the three big ones
    assert!((484..=488).contains(&w.objects.len()));
    assert_eq!(w.objects[0].center, Vec3::new(0, -65536000, 0));
    assert_eq!(w.objects[0].radius, 65536000);
    let n = w.objects.len();
    // the three big spheres close the list
    assert_eq!(w.objects[n - 3].center, Vec3::new(0, 65536, 0));
    assert_eq!(w.objects[n - 2].center, Vec3::new(-262144, 65536, 0));
    assert_eq!(w.objects[n - 1].center, Vec3::new(262144, 65536, 0));
    // every field sphere rests on the jittered grid, clear of the anchor
    let anchor = Vec3::new(262144, 13107, 0);
    for s in &w.objects[1..n - 3] {
        assert_eq!(s.radius, 13107);
        assert_eq!(s.center.y, 13107);
        assert!((-720896..=714341).contains(&s.center.x));
        assert!((-720896..=714341).contains(&s.center.z));
        assert!(s.center.sub(anchor).length() > 58982);
    }
}
