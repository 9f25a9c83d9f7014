//! Three-component fixed-point vectors: geometry and color share this type.
//!
//! Every executable operation returns exactly the value of its spec mirror
//! (`spec_add`, `spec_dot`, `spec_normalize`, ...), so compound geometric
//! routines can state their results as closed formulas over the integers.

use vstd::prelude::*;

use crate::fx::{
    fx_div, fx_div_spec, fx_mul, fx_mul_spec, fx_sqrt, fx_sqrt_spec, lemma_div_mono,
    lemma_sqrt_floor, lemma_tdiv_mag, mag, tdiv, FX_ONE,
};

verus! {

#[derive(Clone, Copy, Debug, PartialEq, Eq, Structural)]
pub struct Vec3 {
    pub x: i64,
    pub y: i64,
    pub z: i64,
}

/// Points and colors share the vector representation.
pub type Point3 = Vec3;

/// Builds a vector from mathematical integers (meaningful when they fit).
pub open spec fn vec3i(x: int, y: int, z: int) -> Vec3 {
    Vec3 { x: x as i64, y: y as i64, z: z as i64 }
}

/// All three components have magnitude at most `b`.
pub open spec fn bounded(a: Vec3, b: int) -> bool {
    mag(a.x as int) <= b && mag(a.y as int) <= b && mag(a.z as int) <= b
}

pub open spec fn spec_zero() -> Vec3 {
    Vec3 { x: 0, y: 0, z: 0 }
}

pub open spec fn spec_add(a: Vec3, b: Vec3) -> Vec3 {
    vec3i(a.x + b.x, a.y + b.y, a.z + b.z)
}

pub open spec fn spec_sub(a: Vec3, b: Vec3) -> Vec3 {
    vec3i(a.x - b.x, a.y - b.y, a.z - b.z)
}

pub open spec fn spec_neg(a: Vec3) -> Vec3 {
    vec3i(-a.x, -a.y, -a.z)
}

/// Scalar product before rescaling: the exact integer sum.
pub open spec fn spec_dot_raw(a: Vec3, b: Vec3) -> int {
    a.x * b.x + a.y * b.y + a.z * b.z
}

/// Fixed-point dot product: one rescale of the exact sum of products.
pub open spec fn spec_dot(a: Vec3, b: Vec3) -> int {
    tdiv(spec_dot_raw(a, b), FX_ONE as int)
}

pub open spec fn spec_len_sq(a: Vec3) -> int {
    spec_dot(a, a)
}

pub open spec fn spec_len(a: Vec3) -> int {
    fx_sqrt_spec(spec_len_sq(a))
}

/// Vector scaled by a fixed-point scalar, componentwise.
pub open spec fn spec_scale(a: Vec3, t: int) -> Vec3 {
    vec3i(fx_mul_spec(a.x as int, t), fx_mul_spec(a.y as int, t), fx_mul_spec(a.z as int, t))
}

/// Componentwise (Hadamard) product, used for color attenuation.
pub open spec fn spec_mul(a: Vec3, b: Vec3) -> Vec3 {
    vec3i(
        fx_mul_spec(a.x as int, b.x as int),
        fx_mul_spec(a.y as int, b.y as int),
        fx_mul_spec(a.z as int, b.z as int),
    )
}

/// Vector divided by a fixed-point scalar, componentwise.
pub open spec fn spec_div(a: Vec3, t: int) -> Vec3 {
    vec3i(fx_div_spec(a.x as int, t), fx_div_spec(a.y as int, t), fx_div_spec(a.z as int, t))
}

pub open spec fn spec_cross(a: Vec3, b: Vec3) -> Vec3 {
    vec3i(
        fx_mul_spec(a.y as int, b.z as int) - fx_mul_spec(a.z as int, b.y as int),
        fx_mul_spec(a.z as int, b.x as int) - fx_mul_spec(a.x as int, b.z as int),
        fx_mul_spec(a.x as int, b.y as int) - fx_mul_spec(a.y as int, b.x as int),
    )
}

/// Unit-length direction, or zero when the fixed-point length vanishes.
pub open spec fn spec_normalize(a: Vec3) -> Vec3 {
    if spec_len(a) == 0 {
        spec_zero()
    } else {
        spec_div(a, spec_len(a))
    }
}

/// Mirror reflection about a normal: `v - 2 (v . n) n`.
pub open spec fn spec_reflect(a: Vec3, n: Vec3) -> Vec3 {
    spec_sub(a, spec_scale(n, 2 * spec_dot(a, n)))
}

/// A cosine clamped into `[-1, 1]`: rounding can push the dot product of
/// two nearly-unit vectors slightly outside.
pub open spec fn spec_clamp_one(v: int) -> int {
    if v > 65536 {
        65536
    } else if v < -65536 {
        -65536
    } else {
        v
    }
}

/// Snell's law in vector form for a unit-length incoming direction `uv`:
/// the perpendicular part `eta (uv + cos n)` plus the parallel part
/// `-sqrt(|1 - |perp|^2|) n`. The caller decides whether refraction is
/// physically possible; this formula itself is total.
pub open spec fn spec_refract(uv: Vec3, n: Vec3, eta: int) -> Vec3 {
    let cos = spec_clamp_one(spec_dot(spec_neg(uv), n));
    let r_perp = spec_scale(spec_add(uv, spec_scale(n, cos)), eta);
    let k = 65536 - spec_len_sq(r_perp);
    spec_add(r_perp, spec_scale(n, -fx_sqrt_spec(mag(k))))
}

impl Vec3 {
    pub fn new(x: i64, y: i64, z: i64) -> (r: Vec3)
        ensures
            r == (Vec3 { x, y, z }),
    {
        Vec3 { x, y, z }
    }

    pub fn zero() -> (r: Vec3)
        ensures
            r == spec_zero(),
    {
        Vec3 { x: 0, y: 0, z: 0 }
    }

    pub fn add(self, o: Vec3) -> (r: Vec3)
        requires
            mag(self.x + o.x) <= 0x7fffffffffffffff,
            mag(self.y + o.y) <= 0x7fffffffffffffff,
            mag(self.z + o.z) <= 0x7fffffffffffffff,
        ensures
            r == spec_add(self, o),
    {
        Vec3 { x: self.x + o.x, y: self.y + o.y, z: self.z + o.z }
    }

    pub fn sub(self, o: Vec3) -> (r: Vec3)
        requires
            mag(self.x - o.x) <= 0x7fffffffffffffff,
            mag(self.y - o.y) <= 0x7fffffffffffffff,
            mag(self.z - o.z) <= 0x7fffffffffffffff,
        ensures
            r == spec_sub(self, o),
    {
        Vec3 { x: self.x - o.x, y: self.y - o.y, z: self.z - o.z }
    }

    pub fn neg(self) -> (r: Vec3)
        requires
            bounded(self, 0x7fffffffffffffff),
        ensures
            r == spec_neg(self),
    {
        Vec3 { x: -self.x, y: -self.y, z: -self.z }
    }

    pub fn scale(self, t: i64) -> (r: Vec3)
        requires
            mag(fx_mul_spec(self.x as int, t as int)) <= 0x7fffffffffffffff,
            mag(fx_mul_spec(self.y as int, t as int)) <= 0x7fffffffffffffff,
            mag(fx_mul_spec(self.z as int, t as int)) <= 0x7fffffffffffffff,
        ensures
            r == spec_scale(self, t as int),
    {
        Vec3 { x: fx_mul(self.x, t), y: fx_mul(self.y, t), z: fx_mul(self.z, t) }
    }

    /// Componentwise product (color attenuation).
    pub fn mul(self, o: Vec3) -> (r: Vec3)
        requires
            mag(fx_mul_spec(self.x as int, o.x as int)) <= 0x7fffffffffffffff,
            mag(fx_mul_spec(self.y as int, o.y as int)) <= 0x7fffffffffffffff,
            mag(fx_mul_spec(self.z as int, o.z as int)) <= 0x7fffffffffffffff,
        ensures
            r == spec_mul(self, o),
    {
        Vec3 { x: fx_mul(self.x, o.x), y: fx_mul(self.y, o.y), z: fx_mul(self.z, o.z) }
    }

    pub fn div(self, t: i64) -> (r: Vec3)
        requires
            t != 0,
            mag(fx_div_spec(self.x as int, t as int)) <= 0x7fffffffffffffff,
            mag(fx_div_spec(self.y as int, t as int)) <= 0x7fffffffffffffff,
            mag(fx_div_spec(self.z as int, t as int)) <= 0x7fffffffffffffff,
        ensures
            r == spec_div(self, t as int),
    {
        Vec3 { x: fx_div(self.x, t), y: fx_div(self.y, t), z: fx_div(self.z, t) }
    }

    pub fn dot(self, o: Vec3) -> (r: i64)
        requires
            bounded(self, 0x100000000000000),
            bounded(o, 0x100000000000000),
            mag(spec_dot(self, o)) <= 0x7fffffffffffffff,
        ensures
            r as int == spec_dot(self, o),
    {
        proof {
            lemma_mag_mul(self.x as int, o.x as int, 0x100000000000000, 0x100000000000000);
            lemma_mag_mul(self.y as int, o.y as int, 0x100000000000000, 0x100000000000000);
            lemma_mag_mul(self.z as int, o.z as int, 0x100000000000000, 0x100000000000000);
        }
        let s: i128 = (self.x as i128) * (o.x as i128) + (self.y as i128) * (o.y as i128)
            + (self.z as i128) * (o.z as i128);
        proof {
            assert(s as int == spec_dot_raw(self, o));
        }
        let m: u128 = if s < 0 { (-s) as u128 } else { s as u128 };
        proof {
            assert(m == mag(s as int));
            lemma_tdiv_mag(s as int, FX_ONE as int);
        }
        let q: u128 = m / 65536;
        if s < 0 {
            -(q as i64)
        } else {
            q as i64
        }
    }

    pub fn cross(self, o: Vec3) -> (r: Vec3)
        requires
            mag(fx_mul_spec(self.y as int, o.z as int) - fx_mul_spec(self.z as int, o.y as int))
                <= 0x7fffffffffffffff,
            mag(fx_mul_spec(self.z as int, o.x as int) - fx_mul_spec(self.x as int, o.z as int))
                <= 0x7fffffffffffffff,
            mag(fx_mul_spec(self.x as int, o.y as int) - fx_mul_spec(self.y as int, o.x as int))
                <= 0x7fffffffffffffff,
            mag(fx_mul_spec(self.y as int, o.z as int)) <= 0x3fffffffffffffff,
            mag(fx_mul_spec(self.z as int, o.y as int)) <= 0x3fffffffffffffff,
            mag(fx_mul_spec(self.z as int, o.x as int)) <= 0x3fffffffffffffff,
            mag(fx_mul_spec(self.x as int, o.z as int)) <= 0x3fffffffffffffff,
            mag(fx_mul_spec(self.x as int, o.y as int)) <= 0x3fffffffffffffff,
            mag(fx_mul_spec(self.y as int, o.x as int)) <= 0x3fffffffffffffff,
        ensures
            r == spec_cross(self, o),
    {
        Vec3 {
            x: fx_mul(self.y, o.z) - fx_mul(self.z, o.y),
            y: fx_mul(self.z, o.x) - fx_mul(self.x, o.z),
            z: fx_mul(self.x, o.y) - fx_mul(self.y, o.x),
        }
    }

    pub fn length_squared(self) -> (r: i64)
        requires
            bounded(self, 0x100000000000000),
            mag(spec_len_sq(self)) <= 0x7fffffffffffffff,
        ensures
            r as int == spec_len_sq(self),
            r >= 0,
    {
        proof {
            lemma_len_sq_nonneg(self);
        }
        self.dot(self)
    }

    pub fn length(self) -> (r: i64)
        requires
            bounded(self, 0x100000000000000),
            mag(spec_len_sq(self)) <= 0x7fffffffffffffff,
        ensures
            r as int == spec_len(self),
            r >= 0,
    {
        let ls = self.length_squared();
        fx_sqrt(ls)
    }

    /// Unit direction; the zero vector when the fixed-point length is zero.
    pub fn normalize(self) -> (r: Vec3)
        requires
            bounded(self, 0x4000000000),
        ensures
            r == spec_normalize(self),
            bounded(r, 0x2000000),
    {
        proof {
            lemma_dot_fits(self, self, 0x4000000000, 0x4000000000);
        }
        let l = self.length();
        if l == 0 {
            proof {
                lemma_len_sq_nonneg(self);
            }
            Vec3 { x: 0, y: 0, z: 0 }
        } else {
            proof {
                lemma_normalize_bound(self);
            }
            let r = Vec3 { x: fx_div(self.x, l), y: fx_div(self.y, l), z: fx_div(self.z, l) };
            r
        }
    }

    /// True exactly when every component is zero: below one fixed-point
    /// quantum, a direction carries no information.
    pub fn near_zero(self) -> (r: bool)
        ensures
            r == (self == spec_zero()),
    {
        self.x == 0 && self.y == 0 && self.z == 0
    }

    pub fn reflect(self, n: Vec3) -> (r: Vec3)
        requires
            bounded(self, 0x4000000),
            bounded(n, 0x4000000),
        ensures
            r == spec_reflect(self, n),
            bounded(r, 0x8004000000000),
    {
        proof {
            lemma_dot_fits(self, n, 0x4000000, 0x4000000);
            lemma_scale_fits(n, 2 * spec_dot(self, n), 0x4000000, 0x10000000000);
        }
        let d = self.dot(n);
        let twice = n.scale(2 * d);
        proof {
            lemma_scale_bound(n, 2 * spec_dot(self, n), 0x4000000, 0x10000000000);
        }
        self.sub(twice)
    }

    /// Refraction of a unit-length direction about a normal with the given
    /// ratio of refraction indices, exactly as `spec_refract` states.
    pub fn refract(self, n: Vec3, eta: i64) -> (r: Vec3)
        requires
            bounded(self, 0x2000000),
            bounded(n, 0x2000000),
            0 <= eta <= 0x40000,
        ensures
            r == spec_refract(self, n, eta as int),
            bounded(r, 0x20000000000),
    {
        proof {
            lemma_dot_fits(self, n, 0x2000000, 0x2000000);
        }
        let mi = self.neg();
        proof {
            lemma_dot_fits(mi, n, 0x2000000, 0x2000000);
        }
        let d = mi.dot(n);
        let cos: i64 = if d > 65536 {
            65536
        } else if d < -65536 {
            -65536
        } else {
            d
        };
        proof {
            lemma_scale_fits(n, cos as int, 0x2000000, 65536);
        }
        let cn = n.scale(cos);
        let base = self.add(cn);
        proof {
            lemma_scale_fits(base, eta as int, 0x4000000, 0x40000);
            lemma_scale_bound(base, eta as int, 0x4000000, 0x40000);
        }
        let r_perp = base.scale(eta);
        proof {
            lemma_dot_fits(r_perp, r_perp, 0x10000000, 0x10000000);
            lemma_len_sq_nonneg(r_perp);
        }
        let ls = r_perp.length_squared();
        let k: i64 = 65536 - ls;
        let ka: i64 = if k < 0 {
            -k
        } else {
            k
        };
        let s = fx_sqrt(ka);
        proof {
            assert(s < 0x40000000) by (nonlinear_arith)
                requires
                    0 <= s,
                    (s as int) * (s as int) <= (ka as int) * 65536,
                    ka as int <= 0x40000000000;
            lemma_scale_fits(n, -(s as int), 0x2000000, 0x40000000);
            lemma_scale_bound(n, -(s as int), 0x2000000, 0x40000000);
        }
        let par = n.scale(-s);
        r_perp.add(par)
    }

    /// Componentwise square root, for gamma correction of nonnegative colors.
    pub fn sqrt(self) -> (r: Vec3)
        requires
            self.x >= 0,
            self.y >= 0,
            self.z >= 0,
        ensures
            r == (Vec3 {
                x: fx_sqrt_spec(self.x as int) as i64,
                y: fx_sqrt_spec(self.y as int) as i64,
                z: fx_sqrt_spec(self.z as int) as i64,
            }),
            r.x >= 0 && r.y >= 0 && r.z >= 0,
    {
        Vec3 { x: fx_sqrt(self.x), y: fx_sqrt(self.y), z: fx_sqrt(self.z) }
    }
}

/// Magnitude bound for a product of bounded factors.
pub proof fn lemma_mag_mul(a: int, b: int, ba: int, bb: int)
    requires
        mag(a) <= ba,
        mag(b) <= bb,
    ensures
        mag(a * b) <= ba * bb,
{
    assert(mag(a * b) <= ba * bb) by (nonlinear_arith)
        requires mag(a) <= ba && mag(b) <= bb && 0 <= ba && 0 <= bb;
}

/// Magnitude bound for a rescaled product of bounded factors.
pub proof fn lemma_fx_mul_mag(a: int, b: int, ba: int, bb: int)
    requires
        mag(a) <= ba,
        mag(b) <= bb,
    ensures
        mag(fx_mul_spec(a, b)) <= ba * bb / 65536,
        mag(fx_mul_spec(a, b)) <= ba * bb,
{
    lemma_mag_mul(a, b, ba, bb);
    lemma_tdiv_mag(a * b, FX_ONE as int);
    lemma_div_mono(mag(a * b), ba * bb, 65536);
    assert(ba * bb / 65536 <= ba * bb) by (nonlinear_arith)
        requires ba * bb >= 0;
}

/// Under componentwise bounds, the dot product's preconditions hold and its
/// magnitude is bounded.
pub proof fn lemma_dot_fits(a: Vec3, b: Vec3, ba: int, bb: int)
    requires
        bounded(a, ba),
        bounded(b, bb),
        ba * bb <= 0x555555555555555555555555,
    ensures
        mag(spec_dot_raw(a, b)) <= 3 * (ba * bb),
        mag(spec_dot(a, b)) <= 3 * (ba * bb) / 65536,
        mag(spec_dot(a, b)) <= 3 * (ba * bb),
{
    lemma_mag_mul(a.x as int, b.x as int, ba, bb);
    lemma_mag_mul(a.y as int, b.y as int, ba, bb);
    lemma_mag_mul(a.z as int, b.z as int, ba, bb);
    lemma_tdiv_mag(spec_dot_raw(a, b), FX_ONE as int);
    lemma_div_mono(mag(spec_dot_raw(a, b)), 3 * (ba * bb), 65536);
    assert(3 * (ba * bb) / 65536 <= 3 * (ba * bb)) by (nonlinear_arith)
        requires 3 * (ba * bb) >= 0;
}

/// A dot product of a vector with itself is nonnegative.
pub proof fn lemma_len_sq_nonneg(a: Vec3)
    ensures
        spec_dot_raw(a, a) >= 0,
        spec_len_sq(a) >= 0,
{
    assert((a.x as int) * (a.x as int) >= 0) by (nonlinear_arith);
    assert((a.y as int) * (a.y as int) >= 0) by (nonlinear_arith);
    assert((a.z as int) * (a.z as int) >= 0) by (nonlinear_arith);
    assert(tdiv(spec_dot_raw(a, a), 65536) >= 0);
}

/// The preconditions of `scale` hold under componentwise and scalar bounds,
/// and the result is componentwise bounded by the rescaled product.
pub proof fn lemma_scale_fits(a: Vec3, t: int, ba: int, bt: int)
    requires
        bounded(a, ba),
        mag(t) <= bt,
    ensures
        mag(fx_mul_spec(a.x as int, t)) <= ba * bt / 65536,
        mag(fx_mul_spec(a.y as int, t)) <= ba * bt / 65536,
        mag(fx_mul_spec(a.z as int, t)) <= ba * bt / 65536,
{
    lemma_fx_mul_mag(a.x as int, t, ba, bt);
    lemma_fx_mul_mag(a.y as int, t, ba, bt);
    lemma_fx_mul_mag(a.z as int, t, ba, bt);
}

/// The scaled vector is componentwise bounded.
pub proof fn lemma_scale_bound(a: Vec3, t: int, ba: int, bt: int)
    requires
        bounded(a, ba),
        mag(t) <= bt,
        ba * bt / 65536 <= 0x7fffffffffffffff,
    ensures
        bounded(spec_scale(a, t), ba * bt / 65536),
{
    lemma_scale_fits(a, t, ba, bt);
}

/// Negating either argument negates the dot product, exactly, because
/// all rounding is toward zero.
pub proof fn lemma_dot_neg(a: Vec3, b: Vec3)
    requires
        bounded(a, 0x7fffffffffffffff),
        bounded(b, 0x7fffffffffffffff),
    ensures
        spec_dot(a, spec_neg(b)) == -spec_dot(a, b),
        spec_dot(spec_neg(a), b) == -spec_dot(a, b),
{
    let ma = spec_neg(a);
    let mb = spec_neg(b);
    assert(spec_dot_raw(a, mb) == -spec_dot_raw(a, b) && spec_dot_raw(ma, b) == -spec_dot_raw(
        a,
        b,
    )) by (nonlinear_arith)
        requires
            ma.x as int == -(a.x as int) && ma.y as int == -(a.y as int) && ma.z as int == -(
            a.z as int),
            mb.x as int == -(b.x as int) && mb.y as int == -(b.y as int) && mb.z as int == -(
            b.z as int),
            spec_dot_raw(a, mb) == (a.x as int) * (mb.x as int) + (a.y as int) * (mb.y as int) + (
            a.z as int) * (mb.z as int),
            spec_dot_raw(ma, b) == (ma.x as int) * (b.x as int) + (ma.y as int) * (b.y as int) + (
            ma.z as int) * (b.z as int),
            spec_dot_raw(a, b) == (a.x as int) * (b.x as int) + (a.y as int) * (b.y as int) + (
            a.z as int) * (b.z as int);
    crate::fx::lemma_tdiv_neg(spec_dot_raw(a, b), FX_ONE as int);
}

/// Negation preserves the squared length.
pub proof fn lemma_len_sq_neg(a: Vec3)
    requires
        bounded(a, 0x7fffffffffffffff),
    ensures
        spec_len_sq(spec_neg(a)) == spec_len_sq(a),
{
    let m = spec_neg(a);
    assert(spec_dot_raw(m, m) == spec_dot_raw(a, a)) by (nonlinear_arith)
        requires
            m.x as int == -(a.x as int) && m.y as int == -(a.y as int) && m.z as int == -(
            a.z as int),
            spec_dot_raw(m, m) == (m.x as int) * (m.x as int) + (m.y as int) * (m.y as int) + (
            m.z as int) * (m.z as int),
            spec_dot_raw(a, a) == (a.x as int) * (a.x as int) + (a.y as int) * (a.y as int) + (
            a.z as int) * (a.z as int);
}

/// A normalized vector is componentwise within 512 in real terms,
/// whatever bounded vector it came from.
pub proof fn lemma_normalize_bounded(a: Vec3)
    requires
        bounded(a, 0x4000000000),
    ensures
        bounded(spec_normalize(a), 0x2000000),
{
    lemma_len_sq_nonneg(a);
    lemma_dot_fits(a, a, 0x4000000000, 0x4000000000);
    lemma_sqrt_floor(spec_len_sq(a) * 65536);
    if spec_len(a) != 0 {
        lemma_normalize_bound(a);
    }
}

/// A vector of fixed-point length at least one eighth normalizes to
/// nearly unit squared length: truncation in the squared length, the
/// square root and the three divisions loses at most seven quanta below
/// and eighty above. (Far below that the guarantee degrades and finally
/// fails: a vector within a quarter of a quantum of zero normalizes to
/// zero.)
pub proof fn lemma_normalize_near_unit(a: Vec3)
    requires
        bounded(a, 0x4000000000),
        spec_len(a) >= 8192,
    ensures
        65529 <= spec_len_sq(spec_normalize(a)) <= 65616,
{
    let l = spec_len(a);
    let raw = spec_dot_raw(a, a);
    let q = spec_len_sq(a);
    lemma_len_sq_nonneg(a);
    lemma_dot_fits(a, a, 0x4000000000, 0x4000000000);
    lemma_sqrt_floor(q * 65536);
    lemma_normalize_bound(a);
    lemma_comp_le_len(a.x as int, a, l);
    lemma_comp_le_len(a.y as int, a, l);
    lemma_comp_le_len(a.z as int, a, l);
    let n = spec_normalize(a);
    let nx = fx_div_spec(a.x as int, l);
    let ny = fx_div_spec(a.y as int, l);
    let nz = fx_div_spec(a.z as int, l);
    assert(n.x as int == nx && n.y as int == ny && n.z as int == nz);
    lemma_component_ratio(a.x as int, l, nx);
    lemma_component_ratio(a.y as int, l, ny);
    lemma_component_ratio(a.z as int, l, nz);
    let nsum = nx * nx + ny * ny + nz * nz;
    assert(spec_dot_raw(n, n) == nsum);
    assert(nsum >= 0) by (nonlinear_arith)
        requires nsum == nx * nx + ny * ny + nz * nz;
    assert(l * l >= 1) by (nonlinear_arith)
        requires l >= 1;
    // The raw squared length sits just under the bracketing square.
    assert(raw < (q + 1) * 65536) by (nonlinear_arith)
        requires raw >= 0 && q == raw / 65536;
    assert(q * 65536 <= (l + 1) * (l + 1) - 1);
    assert(raw <= (l + 1) * (l + 1) + 65534);
    assert(raw >= q * 65536 && q * 65536 >= l * l) by (nonlinear_arith)
        requires raw >= 0 && q == raw / 65536 && l * l <= q * 65536;
    // Upper bound: each rescaled component squares to at most its share.
    assert(nsum * (l * l) <= raw * (65536 * 65536)) by (nonlinear_arith)
        requires
            nx * nx * (l * l) <= (a.x as int * 65536) * (a.x as int * 65536),
            ny * ny * (l * l) <= (a.y as int * 65536) * (a.y as int * 65536),
            nz * nz * (l * l) <= (a.z as int * 65536) * (a.z as int * 65536),
            nsum == nx * nx + ny * ny + nz * nz,
            raw == (a.x as int) * (a.x as int) + (a.y as int) * (a.y as int) + (a.z as int) * (
            a.z as int),
            l * l >= 0;
    assert(raw * (65536 * 65536) <= (65536 * 65536 + 5242880) * (l * l)) by (nonlinear_arith)
        requires raw <= (l + 1) * (l + 1) + 65534 && l >= 8192;
    assert(nsum <= 65536 * 65536 + 5242880) by (nonlinear_arith)
        requires
            nsum * (l * l) <= (65536 * 65536 + 5242880) * (l * l),
            l >= 1;
    // Lower bound: each raw component is under the next rescaled step.
    assert(raw * (65536 * 65536) < (l * l) * (nsum + 2 * (mag(nx) + mag(ny) + mag(nz)) + 3))
        by (nonlinear_arith)
        requires
            (a.x as int * 65536) * (a.x as int * 65536) < (mag(nx) + 1) * (mag(nx) + 1) * (l * l),
            (a.y as int * 65536) * (a.y as int * 65536) < (mag(ny) + 1) * (mag(ny) + 1) * (l * l),
            (a.z as int * 65536) * (a.z as int * 65536) < (mag(nz) + 1) * (mag(nz) + 1) * (l * l),
            nsum == nx * nx + ny * ny + nz * nz,
            nx * nx == mag(nx) * mag(nx) && ny * ny == mag(ny) * mag(ny) && nz * nz == mag(nz)
                * mag(nz),
            raw == (a.x as int) * (a.x as int) + (a.y as int) * (a.y as int) + (a.z as int) * (
            a.z as int),
            l * l >= 1;
    lemma_ratio_cap(a.x as int, l, nx);
    lemma_ratio_cap(a.y as int, l, ny);
    lemma_ratio_cap(a.z as int, l, nz);
    assert((65536 * 65536) * (l * l) <= raw * (65536 * 65536)) by (nonlinear_arith)
        requires raw >= l * l;
    assert(65536 * 65536 < nsum + 405507) by (nonlinear_arith)
        requires
            (65536 * 65536) * (l * l) < (l * l) * (nsum + 2 * (mag(nx) + mag(ny) + mag(nz)) + 3),
            mag(nx) <= 67584 && mag(ny) <= 67584 && mag(nz) <= 67584,
            l * l >= 1;
    // Rescale the sum of squares once more.
    assert(spec_len_sq(n) == tdiv(nsum, 65536));
    lemma_tdiv_mag(nsum, 65536);
    lemma_div_mono(65536int * 65536 - 405506, nsum, 65536);
    lemma_div_mono(nsum, 65536int * 65536 + 5242880, 65536);
    assert(tdiv(nsum, 65536) == nsum / 65536);
}

/// The truncated rescale of a component against the length: the quotient
/// step brackets the scaled component.
proof fn lemma_component_ratio(c: int, l: int, r: int)
    requires
        l >= 1,
        r == fx_div_spec(c, l),
    ensures
        r * r == mag(r) * mag(r),
        r * r * (l * l) <= (c * 65536) * (c * 65536),
        (c * 65536) * (c * 65536) < (mag(r) + 1) * (mag(r) + 1) * (l * l),
{
    lemma_tdiv_mag(c * 65536, l);
    let m = mag(c * 65536);
    assert(mag(r) == m / l);
    assert((m / l) * l <= m && m < (m / l + 1) * l) by (nonlinear_arith)
        requires m >= 0 && l >= 1;
    assert(r * r == mag(r) * mag(r)) by (nonlinear_arith);
    assert(mag(r) * mag(r) * (l * l) <= m * m) by (nonlinear_arith)
        requires mag(r) * l <= m && mag(r) >= 0 && m >= 0 && l >= 1;
    assert(m * m == (c * 65536) * (c * 65536)) by (nonlinear_arith)
        requires m == mag(c * 65536);
    assert(m * m < (mag(r) + 1) * (mag(r) + 1) * (l * l)) by (nonlinear_arith)
        requires m < (mag(r) + 1) * l && m >= 0 && l >= 1 && mag(r) >= 0;
}

/// The rescaled component's magnitude stays within one unit plus the
/// square root's rounding quantum (one thirty-second of a unit at an
/// eighth of a unit of length).
proof fn lemma_ratio_cap(c: int, l: int, r: int)
    requires
        l >= 8192,
        mag(c) <= l + 256,
        r == fx_div_spec(c, l),
    ensures
        mag(r) <= 67584,
{
    lemma_tdiv_mag(c * 65536, l);
    assert(mag(c * 65536) == mag(c) * 65536) by (nonlinear_arith);
    assert(mag(c) * 65536 <= (l + 256) * 65536) by (nonlinear_arith)
        requires mag(c) <= l + 256;
    lemma_div_mono(mag(c * 65536), (l + 256) * 65536, l);
    assert((l + 256) * 65536 <= 67584 * l) by (nonlinear_arith)
        requires l >= 8192;
    assert((l + 256) * 65536 / l <= 67584 * l / l) by (nonlinear_arith)
        requires l >= 1 && (l + 256) * 65536 <= 67584 * l && (l + 256) * 65536 >= 0;
    assert(67584 * l / l == 67584) by (nonlinear_arith)
        requires l >= 1;
}

/// For a nonzero fixed-point length `l`, each component of the normalized
/// vector fits in 64 bits and is bounded by 0x2000000 (512 in real terms):
/// a component cannot exceed the whole vector's length by much more than
/// one quantum of rounding.
proof fn lemma_normalize_bound(a: Vec3)
    requires
        bounded(a, 0x4000000000),
        spec_len(a) >= 1,
    ensures
        mag(fx_div_spec(a.x as int, spec_len(a))) <= 0x2000000,
        mag(fx_div_spec(a.y as int, spec_len(a))) <= 0x2000000,
        mag(fx_div_spec(a.z as int, spec_len(a))) <= 0x2000000,
{
    let l = spec_len(a);
    let q = spec_len_sq(a);
    lemma_len_sq_nonneg(a);
    lemma_dot_fits(a, a, 0x4000000000, 0x4000000000);
    lemma_sqrt_floor(q * 65536);
    assert(l * l <= q * 65536 < (l + 1) * (l + 1));
    lemma_comp_le_len(a.x as int, a, l);
    lemma_comp_le_len(a.y as int, a, l);
    lemma_comp_le_len(a.z as int, a, l);
    lemma_div_ratio(a.x as int, l);
    lemma_div_ratio(a.y as int, l);
    lemma_div_ratio(a.z as int, l);
}

/// Any single component's magnitude is at most the fixed-point length plus
/// 256 (one rounding quantum of the square root).
proof fn lemma_comp_le_len(c: int, a: Vec3, l: int)
    requires
        c == a.x as int || c == a.y as int || c == a.z as int,
        l == spec_len(a),
        l >= 0,
        spec_len_sq(a) * 65536 < (l + 1) * (l + 1),
    ensures
        mag(c) <= l + 256,
{
    let raw = spec_dot_raw(a, a);
    lemma_len_sq_nonneg(a);
    assert(c * c <= raw) by (nonlinear_arith)
        requires
            raw == (a.x as int) * (a.x as int) + (a.y as int) * (a.y as int) + (a.z as int) * (
            a.z as int),
            c == a.x as int || c == a.y as int || c == a.z as int;
    lemma_tdiv_mag(raw, 65536);
    assert(spec_len_sq(a) == raw / 65536);
    assert(raw < (raw / 65536 + 1) * 65536) by (nonlinear_arith)
        requires raw >= 0;
    assert(spec_len_sq(a) * 65536 <= (l + 1) * (l + 1) - 1);
    assert((raw / 65536) * 65536 <= (l + 1) * (l + 1) - 1) by (nonlinear_arith)
        requires raw / 65536 <= spec_len_sq(a) && spec_len_sq(a) * 65536 <= (l + 1) * (l + 1) - 1
            && raw / 65536 == spec_len_sq(a);
    assert(raw < (l + 1) * (l + 1) - 1 + 65536);
    assert((l + 1) * (l + 1) + 65535 <= (l + 257) * (l + 257)) by (nonlinear_arith)
        requires l >= 0;
    assert(c * c < (l + 257) * (l + 257));
    assert(mag(c) <= l + 256) by (nonlinear_arith)
        requires c * c < (l + 257) * (l + 257) && l + 257 > 0;
}

/// Bound on a component divided by the length.
proof fn lemma_div_ratio(c: int, l: int)
    requires
        l >= 1,
        mag(c) <= l + 256,
    ensures
        mag(fx_div_spec(c, l)) <= 0x2000000,
{
    lemma_tdiv_mag(c * 65536, l);
    assert(mag(c * 65536) == mag(c) * 65536) by (nonlinear_arith);
    assert(mag(c) * 65536 <= (l + 256) * 65536) by (nonlinear_arith)
        requires mag(c) <= l + 256;
    lemma_div_mono(mag(c * 65536), (l + 256) * 65536, l);
    assert((l + 256) * 65536 <= l * 0x2000000) by (nonlinear_arith)
        requires l >= 1;
    assert((l + 256) * 65536 / l <= l * 0x2000000 / l) by (nonlinear_arith)
        requires l >= 1 && (l + 256) * 65536 <= l * 0x2000000 && (l + 256) * 65536 >= 0;
    assert(l * 0x2000000 / l == 0x2000000) by (nonlinear_arith)
        requires l >= 1;
}

} // verus!
