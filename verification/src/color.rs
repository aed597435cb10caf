//! The color pipeline: gamma correction, clamping, quantization to byte
//! channels, and the textual encoding of one pixel.

use crate::fixed::{fx_sqrt, sat_sqrt, tdiv, ONE};
use crate::interval::{itv_clamp, Interval};
use crate::vec3::Vec3;
use vstd::prelude::*;

verus! {

/// Colors are vectors whose components are the linear radiance channels.
pub type Color = Vec3;

/// The channel clamp range `[0, 0.999]` in fixed point.
pub const CLAMP_MAX: i64 = 65470;

/// The quantization factor `255.999` in fixed point.
pub const QUANT: i64 = 16777150;

/// Gamma correction: square root of a positive linear component, zero otherwise.
pub open spec fn linear_to_gamma_spec(c: int) -> int {
    if c > 0 {
        sat_sqrt(c)
    } else {
        0
    }
}

pub fn linear_to_gamma(linear_component: i64) -> (r: i64)
    ensures
        r as int == linear_to_gamma_spec(linear_component as int),
{
    if linear_component > 0 {
        fx_sqrt(linear_component)
    } else {
        0
    }
}

/// One linear channel to its output byte: gamma-correct, clamp to
/// `[0, 0.999]`, scale by `255.999` and take the floor.
pub open spec fn quantize_channel(c: int) -> int {
    let g = linear_to_gamma_spec(c);
    let cl = itv_clamp(Interval { min: 0, max: CLAMP_MAX }, g);
    tdiv(cl * (QUANT as int), (ONE as int) * (ONE as int))
}

/// The quantized channel always fits in a byte.
pub proof fn lemma_quantize_channel_range(c: int)
    ensures
        0 <= quantize_channel(c) <= 255,
{
    let g = linear_to_gamma_spec(c);
    let cl = itv_clamp(Interval { min: 0, max: CLAMP_MAX }, g);
    assert(0 <= cl <= CLAMP_MAX as int);
    assert(0 <= cl * (QUANT as int) <= 0x100000000 * 256 - 1) by (nonlinear_arith)
        requires
            0 <= cl <= 65470,
    ;
    vstd::arithmetic::div_mod::lemma_div_pos_is_pos(cl * (QUANT as int), 0x100000000);
    vstd::arithmetic::div_mod::lemma_div_is_ordered(
        cl * (QUANT as int),
        0x100000000 * 256 - 1,
        0x100000000,
    );
    assert((0x100000000 * 256 - 1) / 0x100000000 == 255) by (nonlinear_arith);
}

pub fn quantize(c: i64) -> (r: u8)
    ensures
        r as int == quantize_channel(c as int),
{
    let g: i64 = linear_to_gamma(c);
    let intensity: Interval = Interval { min: 0, max: CLAMP_MAX };
    let cl: i64 = intensity.clamp(g);
    proof {
        lemma_quantize_channel_range(c as int);
        assert(cl * (QUANT as int) < 0x10000000000000000) by (nonlinear_arith)
            requires
                0 <= cl <= 65470,
        ;
    }
    let num: u64 = (cl as u64) * (QUANT as u64);
    let q: u64 = num / 0x1_0000_0000u64;
    q as u8
}

/// Decimal digits of a natural number, most significant first.
pub open spec fn dec_digits(n: nat) -> Seq<u8>
    decreases n,
{
    if n < 10 {
        seq![(n + 48) as u8]
    } else {
        dec_digits(n / 10) + seq![((n % 10) + 48) as u8]
    }
}

/// Appends the decimal digits of `n`.
pub fn push_decimal(out: &mut Vec<u8>, n: u64)
    ensures
        final(out)@ == old(out)@ + dec_digits(n as nat),
    decreases n,
{
    if n < 10 {
        let d: u8 = (n as u8) + 48;
        out.push(d);
        proof {
            assert(out@ =~= old(out)@ + dec_digits(n as nat));
        }
    } else {
        push_decimal(out, n / 10);
        let d: u8 = ((n % 10) as u8) + 48;
        out.push(d);
        proof {
            assert(out@ =~= old(out)@ + dec_digits(n as nat));
        }
    }
}

/// The encoded text of one pixel: the three quantized channels separated by
/// spaces, ended by a newline.
pub open spec fn pixel_line(c: Color) -> Seq<u8> {
    dec_digits(quantize_channel(c.x as int) as nat) + seq![32u8] + dec_digits(
        quantize_channel(c.y as int) as nat,
    ) + seq![32u8] + dec_digits(quantize_channel(c.z as int) as nat) + seq![10u8]
}

/// The concatenated pixel lines of a sequence of colors.
pub open spec fn lines_of(colors: Seq<Color>) -> Seq<u8>
    decreases colors.len(),
{
    if colors.len() == 0 {
        Seq::empty()
    } else {
        lines_of(colors.drop_last()) + pixel_line(colors.last())
    }
}

/// Quantizes an averaged linear color and encodes it as one output line.
pub fn write_color(color: Color) -> (line: Vec<u8>)
    ensures
        line@ == pixel_line(color),
{
    let mut out: Vec<u8> = Vec::new();
    proof {
        lemma_quantize_channel_range(color.x as int);
        lemma_quantize_channel_range(color.y as int);
        lemma_quantize_channel_range(color.z as int);
    }
    let r: u8 = quantize(color.x);
    let g: u8 = quantize(color.y);
    let b: u8 = quantize(color.z);
    push_decimal(&mut out, r as u64);
    out.push(32);
    push_decimal(&mut out, g as u64);
    out.push(32);
    push_decimal(&mut out, b as u64);
    out.push(10);
    proof {
        assert(out@ =~= pixel_line(color));
    }
    out
}

} // verus!
