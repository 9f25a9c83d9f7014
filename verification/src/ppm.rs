//! Plain-text image serialization: the bytes of a PPM file.
//!
//! `spec_ppm` states the entire output: the magic line, the dimensions,
//! the channel maximum, then one `R G B` line per pixel in row order.
//! `ppm_bytes` produces exactly those bytes.

use vstd::prelude::*;

verus! {

/// The decimal digits of a nonnegative number, most significant first.
pub open spec fn spec_decimal(n: int) -> Seq<u8>
    decreases n,
{
    if n < 10 {
        seq![(48 + if n >= 0 {
            n
        } else {
            0
        }) as u8]
    } else {
        spec_decimal(n / 10) + seq![(48 + n % 10) as u8]
    }
}

/// One pixel's line: `R G B` and a newline.
pub open spec fn spec_triple(p: (u8, u8, u8)) -> Seq<u8> {
    spec_decimal(p.0 as int) + seq![32u8] + spec_decimal(p.1 as int) + seq![32u8] + spec_decimal(
        p.2 as int,
    ) + seq![10u8]
}

/// The pixel lines of the first `n` pixels, in order.
pub open spec fn spec_rows(pix: Seq<(u8, u8, u8)>, n: int) -> Seq<u8>
    decreases n,
{
    if n <= 0 {
        Seq::empty()
    } else {
        spec_rows(pix, n - 1) + spec_triple(pix[n - 1])
    }
}

/// The whole file: `P3`, the dimensions, `255`, then the pixel lines.
pub open spec fn spec_ppm(pix: Seq<(u8, u8, u8)>, width: int, height: int) -> Seq<u8> {
    seq![80u8, 51u8, 10u8] + spec_decimal(width) + seq![32u8] + spec_decimal(height) + seq![10u8]
        + seq![50u8, 53u8, 53u8, 10u8] + spec_rows(pix, pix.len() as int)
}

/// The decimal digits of a number, appended to the buffer.
fn push_decimal(out: &mut Vec<u8>, n: u64)
    ensures
        final(out)@ =~= old(out)@ + spec_decimal(n as int),
    decreases n,
{
    if n < 10 {
        out.push(48 + (n as u8));
    } else {
        push_decimal(out, n / 10);
        proof {
            assert(0 <= (n as int) % 10 < 10) by (nonlinear_arith);
        }
        out.push(48 + ((n % 10) as u8));
    }
}

/// One pixel line, appended to the buffer.
fn push_triple(out: &mut Vec<u8>, p: (u8, u8, u8))
    ensures
        final(out)@ =~= old(out)@ + spec_triple(p),
{
    push_decimal(out, p.0 as u64);
    out.push(32);
    push_decimal(out, p.1 as u64);
    out.push(32);
    push_decimal(out, p.2 as u64);
    out.push(10);
}

/// The bytes of the PPM file for a row-major pixel buffer.
pub fn ppm_bytes(pixels: &Vec<(u8, u8, u8)>, width: usize, height: usize) -> (r: Vec<u8>)
    ensures
        r@ =~= spec_ppm(pixels@, width as int, height as int),
{
    let mut out: Vec<u8> = Vec::new();
    out.push(80);
    out.push(51);
    out.push(10);
    push_decimal(&mut out, width as u64);
    out.push(32);
    push_decimal(&mut out, height as u64);
    out.push(10);
    out.push(50);
    out.push(53);
    out.push(53);
    out.push(10);
    proof {
        assert(out@ =~= seq![80u8, 51u8, 10u8] + spec_decimal(width as int) + seq![32u8]
            + spec_decimal(height as int) + seq![10u8] + seq![50u8, 53u8, 53u8, 10u8]);
    }
    let ghost header = out@;
    let n = pixels.len();
    let mut i: usize = 0;
    while i < n
        invariant
            n == pixels@.len(),
            0 <= i <= n,
            out@ =~= header + spec_rows(pixels@, i as int),
            header =~= seq![80u8, 51u8, 10u8] + spec_decimal(width as int) + seq![32u8]
                + spec_decimal(height as int) + seq![10u8] + seq![50u8, 53u8, 53u8, 10u8],
        decreases n - i,
    {
        push_triple(&mut out, pixels[i]);
        i = i + 1;
    }
    out
}

} // verus!
