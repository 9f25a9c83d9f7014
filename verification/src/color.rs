//! Color construction and 8-bit quantization.
//!
//! Colors are fixed-point vectors with channels meant to lie in `[0, 1]`;
//! quantization clamps first, so any channel value is acceptable there.

use vstd::prelude::*;

use crate::material::Color;
use crate::vec3::Vec3;

verus! {

/// What an 8-bit channel becomes in fixed point: `v / 255` of one.
pub open spec fn spec_rgb_channel(v: int) -> int {
    (v * 65536) / 255
}

/// Clamp to `[0, 1]`, then widen to `[0, 255]`, rounding toward zero:
/// the quantization of one output channel.
pub open spec fn spec_quantize(v: int) -> int {
    let c = if v < 0 {
        0
    } else if v > 65536 {
        65536
    } else {
        v
    };
    (c * 255) / 65536
}

/// A hexadecimal digit in ASCII, either case.
pub open spec fn is_hex_digit(b: u8) -> bool {
    (48 <= b && b <= 57) || (97 <= b && b <= 102) || (65 <= b && b <= 70)
}

/// The value of an ASCII hexadecimal digit.
pub open spec fn hex_val(b: u8) -> int {
    if 48 <= b && b <= 57 {
        b - 48
    } else if 97 <= b && b <= 102 {
        b - 87
    } else {
        b - 55
    }
}

/// A seven-byte color literal: a number sign, then six hex digits.
pub open spec fn is_valid_hex(s: Seq<u8>) -> bool {
    s.len() == 7 && s[0] == 35 && forall|i: int| 1 <= i < 7 ==> is_hex_digit(#[trigger] s[i])
}

/// The byte value of two hex digits.
pub open spec fn hex_byte(hi: u8, lo: u8) -> int {
    16 * hex_val(hi) + hex_val(lo)
}

/// The value of one ASCII hex digit.
fn hex_digit(b: u8) -> (r: u8)
    requires
        is_hex_digit(b),
    ensures
        r as int == hex_val(b),
        r < 16,
{
    if b <= 57 {
        b - 48
    } else if b >= 97 {
        b - 87
    } else {
        b - 55
    }
}

impl Vec3 {
    /// A color from three 8-bit channels, each mapped into `[0, 1]`.
    pub fn new_rgb(r: u8, g: u8, b: u8) -> (c: Color)
        ensures
            c.x as int == spec_rgb_channel(r as int),
            c.y as int == spec_rgb_channel(g as int),
            c.z as int == spec_rgb_channel(b as int),
            0 <= c.x <= 65536 && 0 <= c.y <= 65536 && 0 <= c.z <= 65536,
    {
        proof {
            lemma_rgb_channel_range(r as int);
            lemma_rgb_channel_range(g as int);
            lemma_rgb_channel_range(b as int);
        }
        let x = ((r as u64) * 65536 / 255) as i64;
        let y = ((g as u64) * 65536 / 255) as i64;
        let z = ((b as u64) * 65536 / 255) as i64;
        Vec3 { x, y, z }
    }

    /// A color from a `#RRGGBB` byte literal. A malformed literal is
    /// outside this function's contract.
    pub fn new_hex(hex: &[u8; 7]) -> (c: Color)
        requires
            is_valid_hex(hex@),
        ensures
            c.x as int == spec_rgb_channel(hex_byte(hex@[1], hex@[2])),
            c.y as int == spec_rgb_channel(hex_byte(hex@[3], hex@[4])),
            c.z as int == spec_rgb_channel(hex_byte(hex@[5], hex@[6])),
            0 <= c.x <= 65536 && 0 <= c.y <= 65536 && 0 <= c.z <= 65536,
    {
        let r: u8 = 16 * hex_digit(hex[1]) + hex_digit(hex[2]);
        let g: u8 = 16 * hex_digit(hex[3]) + hex_digit(hex[4]);
        let b: u8 = 16 * hex_digit(hex[5]) + hex_digit(hex[6]);
        Vec3::new_rgb(r, g, b)
    }

    /// The three 8-bit output channels: clamp to `[0, 1]`, scale to 255,
    /// round toward zero.
    pub fn as_u8_slice(&self) -> (r: (u8, u8, u8))
        ensures
            r.0 as int == spec_quantize(self.x as int),
            r.1 as int == spec_quantize(self.y as int),
            r.2 as int == spec_quantize(self.z as int),
    {
        (quantize(self.x), quantize(self.y), quantize(self.z))
    }
}

/// Quantizes one channel.
fn quantize(v: i64) -> (r: u8)
    ensures
        r as int == spec_quantize(v as int),
{
    let c: i64 = if v < 0 {
        0
    } else if v > 65536 {
        65536
    } else {
        v
    };
    proof {
        assert((c as int) * 255 / 65536 <= 255) by (nonlinear_arith)
            requires 0 <= c as int <= 65536;
        assert((c as int) * 255 / 65536 >= 0) by (nonlinear_arith)
            requires 0 <= c as int;
    }
    ((c as u64) * 255 / 65536) as u8
}

/// An 8-bit channel maps into `[0, 1]` in fixed point.
proof fn lemma_rgb_channel_range(v: int)
    requires
        0 <= v <= 255,
    ensures
        0 <= spec_rgb_channel(v) <= 65536,
{
    assert(0 <= v * 65536 <= 255 * 65536) by (nonlinear_arith)
        requires 0 <= v <= 255;
    assert(v * 65536 / 255 <= 255 * 65536 / 255) by (nonlinear_arith)
        requires 0 <= v * 65536 <= 255 * 65536;
    assert(v * 65536 / 255 >= 0) by (nonlinear_arith)
        requires v * 65536 >= 0;
}

} // verus!
