//! Fixed-point scalar and vector arithmetic on exact values.

use wort::fx::{fx_div, fx_mul, fx_sqrt, isqrt_u128};
use wort::vec3::Vec3;

#[test]
fn fx_mul_exact() {
    // 1.0 * 1.0 == 1.0
    assert_eq!(fx_mul(65536, 65536), 65536);
    // 1.5 * 0.5 == 0.75
    assert_eq!(fx_mul(98304, 32768), 49152);
    // rounding is toward zero, symmetrically
    assert_eq!(fx_mul(-98304, 32768), -49152);
    assert_eq!(fx_mul(3, 3), 0);
    assert_eq!(fx_mul(-3, 3), 0);
}

#[test]
fn fx_div_exact() {
    // 1.0 / 2.0 == 0.5
    assert_eq!(fx_div(65536, 131072), 32768);
    // 1.0 / -2.0 == -0.5
    assert_eq!(fx_div(65536, -131072), -32768);
    // truncation toward zero
    assert_eq!(fx_div(65536, 196608), 21845);
    assert_eq!(fx_div(-65536, 196608), -21845);
}

#[test]
fn fx_sqrt_exact() {
    // sqrt(4.0) == 2.0
    assert_eq!(fx_sqrt(4 * 65536), 2 * 65536);
    // sqrt(0) == 0, sqrt(1.0) == 1.0
    assert_eq!(fx_sqrt(0), 0);
    assert_eq!(fx_sqrt(65536), 65536);
    // sqrt(2.0) == 1.41421... -> 92681 in fixed point
    assert_eq!(fx_sqrt(2 * 65536), 92681);
}

#[test]
fn isqrt_exact() {
    assert_eq!(isqrt_u128(0), 0);
    assert_eq!(isqrt_u128(1), 1);
    assert_eq!(isqrt_u128(17), 4);
    assert_eq!(isqrt_u128(1 << 64), 1 << 32);
    assert_eq!(isqrt_u128((1 << 64) - 1), (1 << 32) - 1);
}

#[test]
fn vec_add_sub_neg() {
    let a = Vec3::new(65536, 131072, -196608);
    let b = Vec3::new(32768, -65536, 65536);
    assert_eq!(a.add(b), Vec3::new(98304, 65536, -131072));
    assert_eq!(a.sub(b), Vec3::new(32768, 196608, -262144));
    assert_eq!(a.neg(), Vec3::new(-65536, -131072, 196608));
}

#[test]
fn vec_dot_cross() {
    // (1,2,3) . (4,5,6) == 32
    let a = Vec3::new(65536, 2 * 65536, 3 * 65536);
    let b = Vec3::new(4 * 65536, 5 * 65536, 6 * 65536);
    assert_eq!(a.dot(b), 32 * 65536);
    // x cross y == z
    let x = Vec3::new(65536, 0, 0);
    let y = Vec3::new(0, 65536, 0);
    assert_eq!(x.cross(y), Vec3::new(0, 0, 65536));
    assert_eq!(y.cross(x), Vec3::new(0, 0, -65536));
}

#[test]
fn vec_length_and_normalize() {
    // |(3,4,0)| == 5
    let v = Vec3::new(3 * 65536, 4 * 65536, 0);
    assert_eq!(v.length_squared(), 25 * 65536);
    assert_eq!(v.length(), 5 * 65536);
    // normalized: (0.6, 0.8, 0), truncated toward zero
    let n = v.normalize();
    assert_eq!(n, Vec3::new(39321, 52428, 0));
    // the zero vector normalizes to itself
    assert_eq!(Vec3::new(0, 0, 0).normalize(), Vec3::new(0, 0, 0));
}

#[test]
fn vec_reflect_exact() {
    // reflecting (1,-1,0) about the up normal gives (1,1,0)
    let v = Vec3::new(65536, -65536, 0);
    let n = Vec3::new(0, 65536, 0);
    assert_eq!(v.reflect(n), Vec3::new(65536, 65536, 0));
}

#[test]
fn vec_near_zero() {
    assert!(Vec3::new(0, 0, 0).near_zero());
    assert!(!Vec3::new(1, 0, 0).near_zero());
    assert!(!Vec3::new(0, 0, -1).near_zero());
}

#[test]
fn vec_sqrt_componentwise() {
    let v = Vec3::new(4 * 65536, 65536, 0);
    assert_eq!(v.sqrt(), Vec3::new(2 * 65536, 65536, 0));
}

#[test]
fn color_new_rgb() {
    let c = Vec3::new_rgb(204, 204, 0);
    assert_eq!(c, Vec3::new(52428, 52428, 0));
    let w = Vec3::new_rgb(255, 255, 255);
    assert_eq!(w, Vec3::new(65536, 65536, 65536));
}

#[test]
fn color_new_hex() {
    let w = Vec3::new_hex(b"#FFFFFF");
    assert_eq!(w, Vec3::new(65536, 65536, 65536));
    let c = Vec3::new_hex(b"#00Ff7f");
    assert_eq!(c, Vec3::new(0, 65536, 32639));
}

#[test]
fn random_draws_stay_in_range() {
    for _ in 0..200 {
        let x = wort::rng::random_range_fx(10, 20);
        assert!((10..20).contains(&x));
        let u = wort::rng::random_unit_fx();
        assert!((0..65536).contains(&u));
        let v = wort::vec3::Vec3::random_limit(-65536, 65536);
        assert!((-65536..65536).contains(&v.x));
        assert!((-65536..65536).contains(&v.y));
        assert!((-65536..65536).contains(&v.z));
        let w = wort::vec3::Vec3::random();
        assert!((0..65536).contains(&w.x));
    }
}

#[test]
fn color_quantize() {
    let c = Vec3::new(65536, 32768, 0);
    assert_eq!(c.as_u8_slice(), (255, 127, 0));
    // out-of-range channels clamp
    let d = Vec3::new(-5, 70000, 65536);
    assert_eq!(d.as_u8_slice(), (0, 255, 255));
}
