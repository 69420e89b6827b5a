//! The color model: 8-bit RGB triples and the six-sector HSV conversion.

use vstd::prelude::*;
use crate::fixed::FP_SCALE;

verus! {

/// An 8-bit RGB triple.
#[derive(Clone, Copy, Debug, PartialEq, Eq, Structural)]
pub struct Rgb {
    pub r: u8,
    pub g: u8,
    pub b: u8,
}

/// The sector of a hue: `floor(h * 6)` of the unit hue, wrapped so that
/// a full hue lands back in the first sector.
pub open spec fn hsv_sector(h: int) -> int {
    (h * 6 / (FP_SCALE as int)) % 6
}

/// The position of a hue within its sector.
pub open spec fn hsv_frac(h: int) -> int {
    (h * 6) % (FP_SCALE as int)
}

/// The product of two unit fixed-point values.
pub open spec fn unit_mul(a: int, b: int) -> int {
    a * b / (FP_SCALE as int)
}

/// The three HSV mixing terms `p`, `q`, `t`: the value dimmed by the
/// whole saturation, by the rising fraction and by the falling one.
pub open spec fn hsv_p(s: int, v: int) -> int {
    unit_mul(v, FP_SCALE - s)
}

pub open spec fn hsv_q(h: int, s: int, v: int) -> int {
    unit_mul(v, FP_SCALE - unit_mul(s, hsv_frac(h)))
}

pub open spec fn hsv_t(h: int, s: int, v: int) -> int {
    unit_mul(v, FP_SCALE - unit_mul(s, FP_SCALE - hsv_frac(h)))
}

/// The unit RGB triple of an HSV triple, before scaling to 8 bits:
/// the canonical six-sector table.
pub open spec fn hsv_triple(h: int, s: int, v: int) -> (int, int, int) {
    let p = hsv_p(s, v);
    let q = hsv_q(h, s, v);
    let t = hsv_t(h, s, v);
    let i = hsv_sector(h);
    if i == 0 {
        (v, t, p)
    } else if i == 1 {
        (q, v, p)
    } else if i == 2 {
        (p, v, t)
    } else if i == 3 {
        (p, q, v)
    } else if i == 4 {
        (t, p, v)
    } else {
        (v, p, q)
    }
}

/// A unit channel scaled to 8 bits, truncated.
pub open spec fn channel_of(c: int) -> int {
    c * 255 / (FP_SCALE as int)
}

/// The 8-bit RGB triple of an HSV triple.
pub open spec fn hsv_rgb_spec(h: int, s: int, v: int) -> Rgb {
    Rgb {
        r: channel_of(hsv_triple(h, s, v).0) as u8,
        g: channel_of(hsv_triple(h, s, v).1) as u8,
        b: channel_of(hsv_triple(h, s, v).2) as u8,
    }
}

/// A unit product of unit values stays within the unit.
proof fn lemma_unit_mul_le(a: int, b: int)
    requires
        0 <= a <= FP_SCALE,
        0 <= b <= FP_SCALE,
    ensures
        0 <= unit_mul(a, b) <= FP_SCALE,
        unit_mul(a, b) <= b,
{
    assert(a * b <= FP_SCALE * b) by (nonlinear_arith)
        requires
            0 <= a <= FP_SCALE,
            0 <= b,
    ;
    assert(0 <= a * b) by (nonlinear_arith)
        requires
            0 <= a,
            0 <= b,
    ;
    vstd::arithmetic::div_mod::lemma_div_is_ordered(0, a * b, FP_SCALE as int);
    vstd::arithmetic::div_mod::lemma_div_is_ordered(a * b, FP_SCALE * b, FP_SCALE as int);
    vstd::arithmetic::div_mod::lemma_div_multiples_vanish(b, FP_SCALE as int);
}

/// A unit channel scaled to 8 bits fits in 8 bits.
proof fn lemma_channel_bounds(c: int)
    requires
        0 <= c <= FP_SCALE,
    ensures
        0 <= channel_of(c) <= 255,
{
    assert(c * 255 <= FP_SCALE * 255) by (nonlinear_arith)
        requires
            c <= FP_SCALE,
    ;
    assert(0 <= c * 255) by (nonlinear_arith)
        requires
            0 <= c,
    ;
    vstd::arithmetic::div_mod::lemma_div_is_ordered(0, c * 255, FP_SCALE as int);
    vstd::arithmetic::div_mod::lemma_div_is_ordered(c * 255, FP_SCALE * 255, FP_SCALE as int);
    vstd::arithmetic::div_mod::lemma_div_multiples_vanish(255, FP_SCALE as int);
}

/// The mixing terms of a valid HSV triple are themselves unit values.
pub proof fn lemma_hsv_triple_bounds(h: int, s: int, v: int)
    requires
        0 <= h <= FP_SCALE,
        0 <= s <= FP_SCALE,
        0 <= v <= FP_SCALE,
    ensures
        0 <= hsv_triple(h, s, v).0 <= FP_SCALE,
        0 <= hsv_triple(h, s, v).1 <= FP_SCALE,
        0 <= hsv_triple(h, s, v).2 <= FP_SCALE,
{
    let f = hsv_frac(h);
    vstd::arithmetic::div_mod::lemma_mod_bound(h * 6, FP_SCALE as int);
    assert(0 <= h * 6) by (nonlinear_arith)
        requires
            0 <= h,
    ;
    lemma_unit_mul_le(s, f);
    lemma_unit_mul_le(s, FP_SCALE - f);
    lemma_unit_mul_le(v, FP_SCALE - s);
    lemma_unit_mul_le(v, FP_SCALE - unit_mul(s, f));
    lemma_unit_mul_le(v, FP_SCALE - unit_mul(s, FP_SCALE - f));
}

/// For every hue, saturation and value within the unit range, each
/// output channel of the conversion lies within 8 bits.
pub proof fn lemma_hsv_channels_in_range(h: int, s: int, v: int)
    requires
        0 <= h <= FP_SCALE,
        0 <= s <= FP_SCALE,
        0 <= v <= FP_SCALE,
    ensures
        0 <= channel_of(hsv_triple(h, s, v).0) <= 255,
        0 <= channel_of(hsv_triple(h, s, v).1) <= 255,
        0 <= channel_of(hsv_triple(h, s, v).2) <= 255,
{
    lemma_hsv_triple_bounds(h, s, v);
    lemma_channel_bounds(hsv_triple(h, s, v).0);
    lemma_channel_bounds(hsv_triple(h, s, v).1);
    lemma_channel_bounds(hsv_triple(h, s, v).2);
}

/// Converts a hue/saturation/value triple, each a unit fixed-point
/// value, to an 8-bit RGB triple: the standard six-sector conversion,
/// with every channel scaled by 255 and truncated.
pub fn hsv_to_rgb(h: i64, s: i64, v: i64) -> (c: Rgb)
    requires
        0 <= h <= FP_SCALE,
        0 <= s <= FP_SCALE,
        0 <= v <= FP_SCALE,
    ensures
        c.r == channel_of(hsv_triple(h as int, s as int, v as int).0),
        c.g == channel_of(hsv_triple(h as int, s as int, v as int).1),
        c.b == channel_of(hsv_triple(h as int, s as int, v as int).2),
        c == hsv_rgb_spec(h as int, s as int, v as int),
{
    proof {
        lemma_hsv_triple_bounds(h as int, s as int, v as int);
        vstd::arithmetic::div_mod::lemma_mod_bound(h * 6, FP_SCALE as int);
        vstd::arithmetic::div_mod::lemma_mod_bound(h * 6 / (FP_SCALE as int), 6);
        vstd::arithmetic::div_mod::lemma_div_is_ordered(0, h * 6, FP_SCALE as int);
    }
    let scale: u64 = FP_SCALE as u64;
    let h6: u64 = (h as u64) * 6;
    let sector: u64 = (h6 / scale) % 6;
    let f: u64 = h6 % scale;
    assert((s as u64) * f <= (FP_SCALE as u64) * (FP_SCALE as u64)) by (nonlinear_arith)
        requires
            s <= FP_SCALE,
            0 <= s,
            f < FP_SCALE as u64,
    ;
    assert((s as u64) * (scale - f) <= (FP_SCALE as u64) * (FP_SCALE as u64)) by (nonlinear_arith)
        requires
            s <= FP_SCALE,
            0 <= s,
            f < scale,
            scale == FP_SCALE as u64,
    ;
    let sf: u64 = (s as u64) * f / scale;
    let sg: u64 = (s as u64) * (scale - f) / scale;
    proof {
        lemma_unit_mul_le(s as int, f as int);
        lemma_unit_mul_le(s as int, FP_SCALE - f as int);
    }
    assert(sf <= scale && sg <= scale);
    assert((v as u64) * (scale - s as u64) <= (FP_SCALE as u64) * (FP_SCALE as u64)
        && (v as u64) * (scale - sf) <= (FP_SCALE as u64) * (FP_SCALE as u64)
        && (v as u64) * (scale - sg) <= (FP_SCALE as u64) * (FP_SCALE as u64))
        by (nonlinear_arith)
        requires
            0 <= v <= FP_SCALE,
            scale == FP_SCALE as u64,
            s as u64 <= scale,
            sf <= scale,
            sg <= scale,
    ;
    let p: u64 = (v as u64) * (scale - s as u64) / scale;
    let q: u64 = (v as u64) * (scale - sf) / scale;
    let t: u64 = (v as u64) * (scale - sg) / scale;
    let (rf, gf, bf): (u64, u64, u64) = if sector == 0 {
        (v as u64, t, p)
    } else if sector == 1 {
        (q, v as u64, p)
    } else if sector == 2 {
        (p, v as u64, t)
    } else if sector == 3 {
        (p, q, v as u64)
    } else if sector == 4 {
        (t, p, v as u64)
    } else {
        (v as u64, p, q)
    };
    proof {
        lemma_channel_bounds(rf as int);
        lemma_channel_bounds(gf as int);
        lemma_channel_bounds(bf as int);
    }
    Rgb { r: (rf * 255 / scale) as u8, g: (gf * 255 / scale) as u8, b: (bf * 255 / scale) as u8 }
}

/// The seven-entry sweep spectrum: red, orange, yellow, green, blue,
/// indigo, violet.
pub open spec fn spectrum_spec(i: int) -> Rgb {
    if i == 0 {
        Rgb { r: 255, g: 0, b: 0 }
    } else if i == 1 {
        Rgb { r: 255, g: 127, b: 0 }
    } else if i == 2 {
        Rgb { r: 255, g: 255, b: 0 }
    } else if i == 3 {
        Rgb { r: 0, g: 255, b: 0 }
    } else if i == 4 {
        Rgb { r: 0, g: 0, b: 255 }
    } else if i == 5 {
        Rgb { r: 75, g: 0, b: 130 }
    } else {
        Rgb { r: 148, g: 0, b: 211 }
    }
}

/// The sweep spectrum, by index.
pub fn spectrum(i: u64) -> (c: Rgb)
    requires
        i < 7,
    ensures
        c == spectrum_spec(i as int),
{
    if i == 0 {
        Rgb { r: 255, g: 0, b: 0 }
    } else if i == 1 {
        Rgb { r: 255, g: 127, b: 0 }
    } else if i == 2 {
        Rgb { r: 255, g: 255, b: 0 }
    } else if i == 3 {
        Rgb { r: 0, g: 255, b: 0 }
    } else if i == 4 {
        Rgb { r: 0, g: 0, b: 255 }
    } else if i == 5 {
        Rgb { r: 75, g: 0, b: 130 }
    } else {
        Rgb { r: 148, g: 0, b: 211 }
    }
}

} // verus!
