//! Per-pixel features: ink coverage from luminance, and hue in degrees.
use vstd::prelude::*;

verus! {

/// Coverage is the fraction `ink / INK_SCALE`: `INK_SCALE` is full ink.
/// It is the luminance of pure white, `255 * (2989 + 5870 + 1140)`, so that
/// the luminance weights are normalised and white has no ink.
pub const INK_SCALE: u32 = 2549745;

/// One RGBA source pixel.
#[derive(Clone, Copy, Debug, PartialEq, Eq, Structural)]
pub struct Pixel {
    pub r: u8,
    pub g: u8,
    pub b: u8,
    pub a: u8,
}

/// Luminance `0.2989 R + 0.5870 G + 0.1140 B`, in units where white is `INK_SCALE`.
pub open spec fn luma_spec(p: Pixel) -> int {
    2989 * (p.r as int) + 5870 * (p.g as int) + 1140 * (p.b as int)
}

/// Coverage `t = 1 - luminance`, as a numerator over `INK_SCALE`.
pub open spec fn ink_spec(p: Pixel) -> int {
    INK_SCALE - luma_spec(p)
}

/// The ink coverage of a pixel, over `INK_SCALE`.
pub fn pixel_coverage(p: Pixel) -> (ink: u32)
    ensures
        ink == ink_spec(p),
        0 <= ink <= INK_SCALE,
        ink == 0 <==> (p.r == 255 && p.g == 255 && p.b == 255),
        ink == INK_SCALE <==> (p.r == 0 && p.g == 0 && p.b == 0),
{
    INK_SCALE - (2989 * (p.r as u32) + 5870 * (p.g as u32) + 1140 * (p.b as u32))
}

/// `p / q` rounded to the nearest integer, halves away from zero.
pub open spec fn round_div(p: int, q: int) -> int {
    if p >= 0 {
        (2 * p + q) / (2 * q)
    } else {
        -((-2 * p + q) / (2 * q))
    }
}

pub open spec fn max3(a: int, b: int, c: int) -> int {
    if a >= b && a >= c {
        a
    } else if b >= c {
        b
    } else {
        c
    }
}

pub open spec fn min3(a: int, b: int, c: int) -> int {
    if a <= b && a <= c {
        a
    } else if b <= c {
        b
    } else {
        c
    }
}

/// The HSL hue in degrees, rounded, before negative values are wrapped.
pub open spec fn raw_hue(p: Pixel) -> int {
    let r = p.r as int;
    let g = p.g as int;
    let b = p.b as int;
    let mx = max3(r, g, b);
    let d = mx - min3(r, g, b);
    if d == 0 {
        0
    } else if mx == r {
        round_div(60 * (g - b), d)
    } else if mx == g {
        round_div(60 * (b - r) + 120 * d, d)
    } else {
        round_div(60 * (r - g) + 240 * d, d)
    }
}

/// The hue in degrees within `[0, 360)`; grey pixels have hue 0.
pub open spec fn hue_spec(p: Pixel) -> int {
    let h = raw_hue(p);
    if h < 0 {
        h + 360
    } else {
        h
    }
}

proof fn lemma_round_bounds(p: int, q: int, lo: int, hi: int)
    requires
        q > 0,
        lo * q <= p <= hi * q,
        -60 <= lo <= hi <= 300,
    ensures
        lo <= round_div(p, q) <= hi,
{
    if p >= 0 {
        assert(0 <= lo * q || lo < 0);
        assert((2 * p + q) / (2 * q) <= hi) by (nonlinear_arith)
            requires q > 0, p <= hi * q, p >= 0;
        assert((2 * p + q) / (2 * q) >= lo) by (nonlinear_arith)
            requires q > 0, lo * q <= p, p >= 0;
    } else {
        assert((-2 * p + q) / (2 * q) <= -lo) by (nonlinear_arith)
            requires q > 0, lo * q <= p, p < 0;
        assert((-2 * p + q) / (2 * q) >= -hi) by (nonlinear_arith)
            requires q > 0, p <= hi * q, p < 0;
    }
}

/// `p / q` rounded half away from zero, for `|p| <= 300 q`.
fn round_div_exec(p: i32, q: i32) -> (r: i32)
    requires
        0 < q <= 255,
        -300 * q <= p <= 300 * q,
    ensures
        r == round_div(p as int, q as int),
{
    if p >= 0 {
        assert(0 <= p <= 76500) by (nonlinear_arith)
            requires p <= 300 * q, q <= 255, p >= 0;
        let n: u32 = (2 * p + q) as u32;
        let d: u32 = (2 * q) as u32;
        (n / d) as i32
    } else {
        assert(-76500 <= p < 0) by (nonlinear_arith)
            requires -300 * q <= p, q <= 255, p < 0;
        let n: u32 = (q - 2 * p) as u32;
        let d: u32 = (2 * q) as u32;
        -((n / d) as i32)
    }
}

/// The hue of a pixel in whole degrees, in `[0, 360)`.
pub fn pixel_to_hue(p: Pixel) -> (hue: i32)
    ensures
        hue == hue_spec(p),
        0 <= hue < 360,
{
    let r = p.r as i32;
    let g = p.g as i32;
    let b = p.b as i32;
    let mx = if r >= g && r >= b {
        r
    } else if g >= b {
        g
    } else {
        b
    };
    let mn = if r <= g && r <= b {
        r
    } else if g <= b {
        g
    } else {
        b
    };
    let d = mx - mn;
    let h = if d == 0 {
        0
    } else if mx == r {
        proof {
            lemma_round_bounds(60 * (g - b), d as int, -60, 60);
        }
        round_div_exec(60 * (g - b), d)
    } else if mx == g {
        proof {
            lemma_round_bounds(60 * (b - r) + 120 * d, d as int, 60, 180);
        }
        round_div_exec(60 * (b - r) + 120 * d, d)
    } else {
        proof {
            lemma_round_bounds(60 * (r - g) + 240 * d, d as int, 180, 300);
        }
        round_div_exec(60 * (r - g) + 240 * d, d)
    };
    if h < 0 {
        h + 360
    } else {
        h
    }
}

} // verus!
