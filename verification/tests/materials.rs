//! Material scattering: metal reflection and absorption, dielectric
//! refraction, Lambertian diffusion.

use wort::hit::HitRecord;
use wort::material::{Dielectric, DiffuseMethod, Lambertian, Material, Metal};
use wort::ray::Ray;
use wort::vec3::Vec3;

fn record_at_origin_up(material: Material) -> HitRecord {
    HitRecord {
        p: Vec3::new(0, 0, 0),
        normal: Vec3::new(0, 0, 65536),
        t: 65536,
        front_face: true,
        material,
    }
}

#[test]
fn metal_scatter_leaves_surface() {
    // a reported metal scatter always points off the surface
    let m = Metal::new(Vec3::new(52429, 39322, 13107), 0);
    let rec = record_at_origin_up(Material::Metal(m));
    let ray_in = Ray::new(Vec3::new(-65536, 0, 65536), Vec3::new(65536, 0, -65536));
    let sc = m.scatter(&ray_in, &rec).expect("mirror reflection scatters");
    assert!(sc.ray.direction.dot(rec.normal) > 0);
    assert_eq!(sc.attenuation, Vec3::new(52429, 39322, 13107));
    assert_eq!(sc.ray.origin, rec.p);
    // perfect mirror: the outgoing direction is the exact reflection
    let unit = ray_in.direction.normalize();
    assert_eq!(sc.ray.direction, unit.reflect(rec.normal));
}

#[test]
fn metal_scatter_absorbs_into_surface() {
    // a ray leaving along the normal reflects into the surface: absorbed
    let m = Metal::new(Vec3::new(52429, 39322, 13107), 0);
    let rec = record_at_origin_up(Material::Metal(m));
    let ray_in = Ray::new(Vec3::new(0, 0, -65536), Vec3::new(0, 0, 65536));
    assert!(m.scatter(&ray_in, &rec).is_none());
}

#[test]
fn metal_scatter_fuzzy_still_leaves_surface() {
    let m = Metal::new(Vec3::new(52429, 39322, 13107), 32768);
    let rec = record_at_origin_up(Material::Metal(m));
    let ray_in = Ray::new(Vec3::new(-65536, 0, 65536), Vec3::new(65536, 0, -65536));
    for _ in 0..200 {
        if let Some(sc) = m.scatter(&ray_in, &rec) {
            assert!(sc.ray.direction.dot(rec.normal) > 0);
        }
    }
}

#[test]
fn dielectric_unit_index_refracts_straight_through() {
    // with an index of one the interface does not exist: the outgoing
    // direction equals the (normalized) incoming one up to rounding
    let d = Dielectric::new(65536);
    let rec = record_at_origin_up(Material::Dielectric(d));
    // near-normal incidence keeps Schlick's reflectance at exactly zero,
    // so the choice to refract is deterministic
    let ray_in = Ray::new(Vec3::new(0, 0, 65536), Vec3::new(655, 0, -65536));
    let unit = ray_in.direction.normalize();
    for _ in 0..50 {
        let sc = d.scatter(&ray_in, &rec).expect("dielectric always scatters");
        assert_eq!(sc.attenuation, Vec3::new(65536, 65536, 65536));
        assert!((sc.ray.direction.x - unit.x).abs() <= 64);
        assert!((sc.ray.direction.y - unit.y).abs() <= 64);
        assert!((sc.ray.direction.z - unit.z).abs() <= 64);
    }
}

#[test]
fn dielectric_total_internal_reflection() {
    // exiting glass at a grazing angle: refraction is impossible, so the
    // outgoing direction is exactly the reflection
    let d = Dielectric::new(98304);
    let mut rec = record_at_origin_up(Material::Dielectric(d));
    rec.front_face = false; // striking the back face: ratio is the index
    let ray_in = Ray::new(Vec3::new(-65536, 0, 65536), Vec3::new(65536, 0, -32768));
    let unit = ray_in.direction.normalize();
    let sc = d.scatter(&ray_in, &rec).expect("dielectric always scatters");
    assert_eq!(sc.ray.direction, unit.reflect(rec.normal));
}

#[test]
fn lambertian_always_scatters_with_albedo() {
    for method in [DiffuseMethod::Simple, DiffuseMethod::Lambert, DiffuseMethod::Hemisphere] {
        let l = Lambertian::new(Vec3::new(6554, 13107, 32768), method);
        let rec = record_at_origin_up(Material::Lambertian(l));
        for _ in 0..100 {
            let sc = l.scatter(&rec).expect("lambertian never absorbs");
            assert_eq!(sc.attenuation, Vec3::new(6554, 13107, 32768));
            assert_eq!(sc.ray.origin, rec.p);
            // the direction never degenerates to the zero vector
            assert!(!sc.ray.direction.near_zero());
        }
    }
}

#[test]
fn material_dispatch_matches_variants() {
    let l = Lambertian::new(Vec3::new(6554, 13107, 32768), DiffuseMethod::Lambert);
    let rec = record_at_origin_up(Material::Lambertian(l));
    let ray_in = Ray::new(Vec3::new(0, 0, 65536), Vec3::new(0, 0, -65536));
    let sc = Material::Lambertian(l).scatter(&ray_in, &rec).unwrap();
    assert_eq!(sc.attenuation, Vec3::new(6554, 13107, 32768));

    let d = Dielectric::new(98304);
    let rec2 = record_at_origin_up(Material::Dielectric(d));
    let sc2 = Material::Dielectric(d).scatter(&ray_in, &rec2).unwrap();
    assert_eq!(sc2.attenuation, Vec3::new(65536, 65536, 65536));
}

#[test]
fn random_samplers_stay_in_bounds() {
    for _ in 0..200 {
        let p = Vec3::random_in_unit_sphere();
        assert!(p.length_squared() < 65536);
        let d = Vec3::random_in_unit_disk();
        assert!(d.length_squared() < 65536);
        assert_eq!(d.z, 0);
        let n = Vec3::new(0, 0, 65536);
        let h = Vec3::random_in_hemisphere(&n);
        assert!(h.dot(n) >= 0);
        let u = Vec3::random_unit_vector();
        let len = u.length();
        assert!((len - 65536).abs() <= 64, "unit vector length {}", len);
    }
}
