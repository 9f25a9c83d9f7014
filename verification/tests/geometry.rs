//! Sphere intersection and nearest-hit scene aggregation on exact values.

use wort::hittable_list::HittableList;
use wort::material::{Lambertian, Material};
use wort::ray::Ray;
use wort::sphere::Sphere;
use wort::vec3::Vec3;

fn gray() -> Material {
    Material::Lambertian(Lambertian::new(Vec3::new(32768, 32768, 32768), wort::material::DiffuseMethod::Lambert))
}

fn axis_ray() -> Ray {
    Ray::new(Vec3::new(0, 0, 0), Vec3::new(0, 0, -65536))
}

#[test]
fn sphere_hit_exact() {
    // unit-direction ray down -z; sphere of radius 1 centered at z = -2
    let s = Sphere::new(Vec3::new(0, 0, -131072), 65536, gray());
    let r = axis_ray();
    let h = s.hit(&r, 66, 0x8000000).expect("must hit");
    assert_eq!(h.t, 65536); // the nearer root, t = 1
    assert_eq!(h.p, Vec3::new(0, 0, -65536));
    assert_eq!(h.normal, Vec3::new(0, 0, 65536));
    assert!(h.front_face);
}

#[test]
fn sphere_hit_t_strictly_inside_interval() {
    let s = Sphere::new(Vec3::new(0, 0, -131072), 65536, gray());
    let r = axis_ray();
    // the near root is at t = 1, the far root at t = 3
    let h = s.hit(&r, 66, 0x8000000).unwrap();
    assert!(66 < h.t && h.t < 0x8000000);
    // an upper bound equal to the near root excludes it (strictly), and
    // the far root at t = 3 is outside too
    let h2 = s.hit(&r, 66, 65536).map(|x| x.t);
    assert_eq!(h2, None);
    let h3 = s.hit(&r, 66, 131072).map(|x| x.t);
    assert_eq!(h3, Some(65536)); // t = 1 is strictly inside (0.001, 2)
    let h4 = s.hit(&r, 66, 4 * 65536).unwrap();
    assert_eq!(h4.t, 65536);
    // with t_min beyond the near root, the far root is reported
    let h5 = s.hit(&r, 2 * 65536, 4 * 65536).unwrap();
    assert_eq!(h5.t, 3 * 65536);
    assert!(!h5.front_face); // struck from inside
}

#[test]
fn sphere_miss() {
    let s = Sphere::new(Vec3::new(10 * 65536, 0, -131072), 65536, gray());
    let r = axis_ray();
    assert!(s.hit(&r, 66, 0x8000000).is_none());
}

#[test]
fn hit_normal_opposes_ray_and_is_unit() {
    let s = Sphere::new(Vec3::new(0, 0, -131072), 65536, gray());
    let r = axis_ray();
    let h = s.hit(&r, 66, 0x8000000).unwrap();
    // the normal opposes the incoming direction
    assert!(h.normal.dot(r.direction) <= 0);
    // and has length one up to fixed-point rounding
    let len = h.normal.length();
    assert!((len - 65536).abs() <= 16, "normal length {}", len);
    // a hit from inside: the flipped normal still opposes the ray
    let h2 = s.hit(&r, 2 * 65536, 4 * 65536).unwrap();
    assert!(h2.normal.dot(r.direction) <= 0);
    let len2 = h2.normal.length();
    assert!((len2 - 65536).abs() <= 16, "normal length {}", len2);
}

#[test]
fn negative_radius_flips_normal() {
    // a hollow sphere: the normal points toward the center
    let solid = Sphere::new(Vec3::new(0, 0, -131072), 65536, gray());
    let hollow = Sphere::new(Vec3::new(0, 0, -131072), -65536, gray());
    let r = axis_ray();
    let hs = solid.hit(&r, 66, 0x8000000).unwrap();
    let hh = hollow.hit(&r, 66, 0x8000000).unwrap();
    assert_eq!(hs.t, hh.t);
    assert!(hs.front_face);
    assert!(!hh.front_face);
    // both stored normals oppose the ray after face resolution
    assert!(hs.normal.dot(r.direction) <= 0);
    assert!(hh.normal.dot(r.direction) <= 0);
}

#[test]
fn scene_nearest_hit_wins() {
    let near = Sphere::new(Vec3::new(0, 0, -131072), 65536, gray());
    let far = Sphere::new(Vec3::new(0, 0, -262144), 65536, gray());
    let r = axis_ray();

    // individual hits: t = 1 and t = 3
    let tn = near.hit(&r, 66, 0x8000000).unwrap().t;
    let tf = far.hit(&r, 66, 0x8000000).unwrap().t;
    assert_eq!(tn, 65536);
    assert_eq!(tf, 3 * 65536);

    // the scene returns the minimum-t hit, in either insertion order
    let mut w1 = HittableList::new();
    w1.add(far);
    w1.add(near);
    let h1 = w1.hit(&r, 66, 0x8000000).unwrap();
    assert_eq!(h1.t, tn.min(tf));

    let mut w2 = HittableList::new();
    w2.add(near);
    w2.add(far);
    let h2 = w2.hit(&r, 66, 0x8000000).unwrap();
    assert_eq!(h2.t, tn.min(tf));
    assert_eq!(h1.p, h2.p);
    assert_eq!(h1.normal, h2.normal);
}

#[test]
fn scene_empty_and_miss() {
    let w = HittableList::new();
    assert!(w.hit(&axis_ray(), 66, 0x8000000).is_none());
    let mut w2 = HittableList::new();
    w2.add(Sphere::new(Vec3::new(10 * 65536, 0, -131072), 65536, gray()));
    assert!(w2.hit(&axis_ray(), 66, 0x8000000).is_none());
}

#[test]
fn list_new_add_clear() {
    let mut w = HittableList::new();
    assert_eq!(w.objects.len(), 0);
    w.add(Sphere::new(Vec3::new(0, 0, -131072), 65536, gray()));
    w.add(Sphere::new(Vec3::new(0, 0, -262144), 65536, gray()));
    assert_eq!(w.objects.len(), 2);
    w.clear();
    assert_eq!(w.objects.len(), 0);
}

#[test]
fn face_normal_resolution() {
    let r = axis_ray();
    // outward normal opposing the ray: front face, kept as is
    let (front, n) = wort::hit::set_face_normal(&r, Vec3::new(0, 0, 65536));
    assert!(front);
    assert_eq!(n, Vec3::new(0, 0, 65536));
    // outward normal along the ray: back face, flipped
    let (front2, n2) = wort::hit::set_face_normal(&r, Vec3::new(0, 0, -65536));
    assert!(!front2);
    assert_eq!(n2, Vec3::new(0, 0, 65536));
    // either way the stored normal opposes the direction
    assert!(n.dot(r.direction) <= 0);
    assert!(n2.dot(r.direction) <= 0);
}

#[test]
fn ray_at_exact() {
    let r = Ray::new(Vec3::new(65536, 0, 0), Vec3::new(0, 0, -65536));
    // at t = 2.5 the ray reaches (1, 0, -2.5)
    assert_eq!(r.at(163840), Vec3::new(65536, 0, -163840));
}
