//! Fixed-point scalars: `i64` values carrying sixteen fractional bits.
//!
//! A fixed-point number `a` stands for the real number `a / 65536`. All
//! rounding is toward zero, which keeps negation symmetric: the spec
//! functions `tdiv`, `fx_mul_spec` and `fx_div_spec` say exactly which
//! integer each executable operation returns.

use vstd::prelude::*;

verus! {

/// The scale factor: the fixed-point representation of one.
pub const FX_ONE: i64 = 65536;

/// Magnitude (absolute value) of a mathematical integer.
pub open spec fn mag(a: int) -> int {
    if a < 0 { -a } else { a }
}

/// Truncating (toward-zero) division, the semantics of Rust's `/` on
/// signed integers. Meaningful only for `b != 0`.
pub open spec fn tdiv(a: int, b: int) -> int {
    if (a < 0) == (b < 0) {
        mag(a) / mag(b)
    } else {
        -(mag(a) / mag(b))
    }
}

/// What fixed-point multiplication returns: the exact product, rescaled,
/// rounded toward zero.
pub open spec fn fx_mul_spec(a: int, b: int) -> int {
    tdiv(a * b, FX_ONE as int)
}

/// What fixed-point division returns: the dividend rescaled up, divided,
/// rounded toward zero.
pub open spec fn fx_div_spec(a: int, b: int) -> int {
    tdiv(a * (FX_ONE as int), b)
}

/// Binary search for the integer square root; `hi - lo` halves each step.
pub open spec fn sqrt_aux(n: int, lo: int, hi: int) -> int
    decreases hi - lo,
{
    if hi - lo <= 1 {
        lo
    } else {
        let mid = (lo + hi) / 2;
        if mid * mid <= n {
            sqrt_aux(n, mid, hi)
        } else {
            sqrt_aux(n, lo, mid)
        }
    }
}

/// Floor of the square root of a nonnegative integer below 2^128.
pub open spec fn sqrt_floor(n: int) -> int {
    sqrt_aux(n, 0, 0x10000000000000000)
}

/// What fixed-point square root returns for a nonnegative input:
/// floor(sqrt(n * 65536)), which rescales the root back to sixteen
/// fractional bits.
pub open spec fn fx_sqrt_spec(n: int) -> int {
    sqrt_floor(n * (FX_ONE as int))
}

/// Truncating division flips sign with its dividend.
pub proof fn lemma_tdiv_neg(a: int, b: int)
    requires
        b != 0,
    ensures
        tdiv(-a, b) == -tdiv(a, b),
{
    assert(mag(-a) == mag(a));
}

/// The magnitude of a truncating quotient is the quotient of magnitudes.
pub proof fn lemma_tdiv_mag(a: int, b: int)
    requires
        b != 0,
    ensures
        mag(tdiv(a, b)) == mag(a) / mag(b),
        mag(a) / mag(b) <= mag(a),
{
    assert(mag(a) >= 0);
    assert(mag(b) >= 1);
    assert(mag(a) / mag(b) >= 0) by (nonlinear_arith)
        requires mag(a) >= 0 && mag(b) >= 1;
    assert(mag(a) / mag(b) <= mag(a)) by (nonlinear_arith)
        requires mag(a) >= 0 && mag(b) >= 1;
}

/// Division by a larger positive divisor gives a smaller magnitude.
pub proof fn lemma_div_mono_divisor(a: int, b: int, c: int)
    requires
        a >= 0,
        1 <= b <= c,
    ensures
        a / c <= a / b,
{
    assert(a / c <= a / b) by (nonlinear_arith)
        requires a >= 0 && 1 <= b <= c;
}

/// Division of a bounded nonnegative dividend is bounded by the divided bound.
pub proof fn lemma_div_mono(a: int, b: int, d: int)
    requires
        0 <= a <= b,
        d >= 1,
    ensures
        a / d <= b / d,
{
    assert(a / d <= b / d) by (nonlinear_arith)
        requires 0 <= a <= b && d >= 1;
}

/// Truncating division by a positive divisor is monotone in the dividend.
pub proof fn lemma_tdiv_mono(x: int, y: int, b: int)
    requires
        x <= y,
        b >= 1,
    ensures
        tdiv(x, b) <= tdiv(y, b),
{
    if x >= 0 {
        lemma_div_mono(x, y, b);
    } else if y < 0 {
        lemma_div_mono(-y, -x, b);
    } else {
        assert(mag(x) / b >= 0) by (nonlinear_arith)
            requires mag(x) >= 0 && b >= 1;
        assert(mag(y) / b >= 0) by (nonlinear_arith)
            requires mag(y) >= 0 && b >= 1;
    }
}

/// The integer square root is the unique `r >= 0` with
/// `r * r <= n < (r + 1) * (r + 1)`.
pub proof fn lemma_sqrt_floor_unique(n: int, r: int)
    requires
        0 <= n,
        0 <= r,
        r * r <= n,
        n < (r + 1) * (r + 1),
        n < 0x10000000000000000 * 0x10000000000000000,
    ensures
        r == sqrt_floor(n),
{
    let s = sqrt_floor(n);
    lemma_sqrt_aux(n, 0, 0x10000000000000000);
    if r < s {
        assert((r + 1) * (r + 1) <= s * s) by (nonlinear_arith)
            requires 0 <= r + 1 <= s;
        assert(false);
    }
    if s < r {
        assert((s + 1) * (s + 1) <= r * r) by (nonlinear_arith)
            requires 0 <= s + 1 <= r;
        assert(false);
    }
}

/// Correctness of the binary-search square root: from a bracketing interval
/// it returns the floor of the root.
pub proof fn lemma_sqrt_aux(n: int, lo: int, hi: int)
    requires
        0 <= lo < hi,
        lo * lo <= n,
        n < hi * hi,
    ensures
        lo <= sqrt_aux(n, lo, hi) < hi,
        sqrt_aux(n, lo, hi) * sqrt_aux(n, lo, hi) <= n,
        n < (sqrt_aux(n, lo, hi) + 1) * (sqrt_aux(n, lo, hi) + 1),
    decreases hi - lo,
{
    if hi - lo <= 1 {
        assert(hi == lo + 1);
    } else {
        let mid = (lo + hi) / 2;
        assert(lo < mid < hi);
        if mid * mid <= n {
            lemma_sqrt_aux(n, mid, hi);
        } else {
            lemma_sqrt_aux(n, lo, mid);
        }
    }
}

/// Basic facts about `sqrt_floor` on admissible inputs.
pub proof fn lemma_sqrt_floor(n: int)
    requires
        0 <= n,
        n < 0x10000000000000000 * 0x10000000000000000,
    ensures
        0 <= sqrt_floor(n),
        sqrt_floor(n) * sqrt_floor(n) <= n,
        n < (sqrt_floor(n) + 1) * (sqrt_floor(n) + 1),
{
    lemma_sqrt_aux(n, 0, 0x10000000000000000);
}

/// Fixed-point multiplication. Exact integer result stated by
/// `fx_mul_spec`; the caller guarantees that it fits.
pub fn fx_mul(a: i64, b: i64) -> (r: i64)
    requires
        -0x7fffffffffffffff <= fx_mul_spec(a as int, b as int) <= 0x7fffffffffffffff,
    ensures
        r as int == fx_mul_spec(a as int, b as int),
{
    let p: i128 = (a as i128) * (b as i128);
    proof {
        assert(mag(p as int) <= 0x8000000000000000 * 0x8000000000000000) by (nonlinear_arith)
            requires
                p as int == (a as int) * (b as int),
                mag(a as int) <= 0x8000000000000000,
                mag(b as int) <= 0x8000000000000000;
    }
    let m: u128 = if p < 0 { (-p) as u128 } else { p as u128 };
    proof {
        assert(m == mag(p as int));
    }
    let q: u128 = m / 65536;
    proof {
        lemma_tdiv_mag(p as int, FX_ONE as int);
        assert(q == mag(tdiv(p as int, FX_ONE as int)));
    }
    if p < 0 {
        -(q as i64)
    } else {
        q as i64
    }
}

/// Fixed-point division. Exact integer result stated by `fx_div_spec`;
/// the caller guarantees a nonzero divisor and that the result fits.
pub fn fx_div(a: i64, b: i64) -> (r: i64)
    requires
        b != 0,
        -0x7fffffffffffffff <= fx_div_spec(a as int, b as int) <= 0x7fffffffffffffff,
    ensures
        r as int == fx_div_spec(a as int, b as int),
{
    let p: i128 = (a as i128) * 65536;
    proof {
        assert(-0x8000000000000000 * 65536 <= p as int <= 0x7fffffffffffffff * 65536)
            by (nonlinear_arith)
            requires
                p as int == (a as int) * 65536,
                -0x8000000000000000 <= a as int <= 0x7fffffffffffffff;
    }
    let m: u128 = if p < 0 { (-p) as u128 } else { p as u128 };
    let d: u128 = if b < 0 { (-(b as i128)) as u128 } else { b as u128 };
    proof {
        assert(m == mag(p as int));
        assert(d == mag(b as int));
        lemma_tdiv_mag(p as int, b as int);
    }
    let q: u128 = m / d;
    proof {
        assert(q == mag(tdiv(p as int, b as int)));
    }
    if (p < 0) != (b < 0) {
        -(q as i64)
    } else {
        q as i64
    }
}

/// Integer square root of a 128-bit value by binary search.
pub fn isqrt_u128(n: u128) -> (r: u128)
    ensures
        r as int == sqrt_floor(n as int),
        r * r <= n,
        n < (r + 1) * (r + 1),
{
    let mut lo: u128 = 0;
    let mut hi: u128 = 0x10000000000000000;
    proof {
        assert((n as int) < 0x10000000000000000 * 0x10000000000000000);
    }
    while hi - lo > 1
        invariant
            0 <= lo < hi <= 0x10000000000000000,
            (lo * lo) as int <= n as int,
            (n as int) < (hi as int) * (hi as int),
        decreases hi - lo,
    {
        let mid: u128 = lo + (hi - lo) / 2;
        proof {
            assert(lo < mid < hi);
            assert((mid as int) * (mid as int) < 0x100000000000000000000000000000000) by (nonlinear_arith)
                requires 0 <= (mid as int) < 0x10000000000000000;
        }
        if mid * mid <= n {
            lo = mid;
        } else {
            hi = mid;
        }
    }
    proof {
        assert(hi == lo + 1);
        lemma_sqrt_floor_unique(n as int, lo as int);
    }
    lo
}

/// Fixed-point square root of a nonnegative value. Exact integer result
/// stated by `fx_sqrt_spec`.
pub fn fx_sqrt(x: i64) -> (r: i64)
    requires
        x >= 0,
    ensures
        r as int == fx_sqrt_spec(x as int),
        0 <= r,
        r * r <= (x as int) * (FX_ONE as int),
        (x as int) * (FX_ONE as int) < (r + 1) * (r + 1),
{
    let n: u128 = (x as u128) * 65536;
    let r: u128 = isqrt_u128(n);
    proof {
        assert((r as int) * (r as int) <= n as int);
        assert((r as int) * (r as int) <= 0xffffffffffffffff * 65536);
        assert(r as int <= 0x7fffffffffffffff) by (nonlinear_arith)
            requires
                0 <= r as int,
                (r as int) * (r as int) <= 0xffffffffffffffff * 65536;
    }
    r as i64
}

} // verus!
