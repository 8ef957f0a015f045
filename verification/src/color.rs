//! RGB colors with fixed-point channels in `[0, SCALE]` (zero to one). The
//! constructor clamps each channel down to one; sources are nonnegative by
//! construction, so no lower clamp is applied there.

use vstd::prelude::*;
use crate::fx::{SCALE, tdiv};

verus! {

#[derive(Clone, Copy, Debug, PartialEq, Eq, Structural)]
pub struct Color {
    pub r: i64,
    pub g: i64,
    pub b: i64,
}

/// A channel clamped down to one.
pub open spec fn cap(c: int) -> int {
    if c > SCALE {
        SCALE as int
    } else {
        c
    }
}

/// Every channel lies in `[0, SCALE]`.
pub open spec fn color_valid(c: Color) -> bool {
    0 <= c.r <= SCALE && 0 <= c.g <= SCALE && 0 <= c.b <= SCALE
}

/// A blend weight clamped into `[0, SCALE]`.
pub open spec fn clamp_unit(w: int) -> int {
    if w < 0 {
        0
    } else if w > SCALE {
        SCALE as int
    } else {
        w
    }
}

/// The weighted average of two channels, normalized by the weight sum.
pub open spec fn wavg(x: int, wx: int, y: int, wy: int) -> int {
    tdiv(x * wx + y * wy, wx + wy)
}

impl Color {
    /// A color from channels, each clamped down to one.
    pub fn new(r: i64, g: i64, b: i64) -> (c: Self)
        ensures
            c.r == cap(r as int),
            c.g == cap(g as int),
            c.b == cap(b as int),
    {
        Color {
            r: if r > SCALE { SCALE } else { r },
            g: if g > SCALE { SCALE } else { g },
            b: if b > SCALE { SCALE } else { b },
        }
    }

    /// The channelwise sum, clamped down to one.
    pub fn add(a: Color, b: Color) -> (c: Self)
        requires
            color_valid(a),
            color_valid(b),
        ensures
            c.r == cap(a.r + b.r),
            c.g == cap(a.g + b.g),
            c.b == cap(a.b + b.b),
            color_valid(c),
    {
        Color::new(a.r + b.r, a.g + b.g, a.b + b.b)
    }

    /// A color from one byte per channel: each byte is divided by 255 in
    /// integer arithmetic, so a channel is one exactly when its byte is 255
    /// and zero otherwise.
    pub fn from_rgb(r: u8, g: u8, b: u8) -> (c: Self)
        ensures
            c.r == (r as int / 255) * SCALE,
            c.g == (g as int / 255) * SCALE,
            c.b == (b as int / 255) * SCALE,
            color_valid(c),
    {
        Color {
            r: ((r / 255) as i64) * SCALE,
            g: ((g / 255) as i64) * SCALE,
            b: ((b / 255) as i64) * SCALE,
        }
    }

    /// A color from a packed `0xRRGGBB` value, through `from_rgb`.
    pub fn from_hex(hex: u32) -> (c: Self)
        ensures
            c.r == ((hex as int / 65536) % 256 / 255) * SCALE,
            c.g == ((hex as int / 256) % 256 / 255) * SCALE,
            c.b == ((hex as int % 256) / 255) * SCALE,
            color_valid(c),
    {
        Color::from_rgb(((hex / 65536) % 256) as u8, ((hex / 256) % 256) as u8, (hex % 256) as u8)
    }

    /// Two colors mixed: `weight` (clamped to `[0, 1]`) goes to `a`, the rest
    /// to `b`.
    pub fn blend(a: Color, b: Color, weight: i64) -> (c: Self)
        requires
            color_valid(a),
            color_valid(b),
        ensures
            c.r == wavg(a.r as int, clamp_unit(weight as int), b.r as int, SCALE - clamp_unit(
                weight as int,
            )),
            c.g == wavg(a.g as int, clamp_unit(weight as int), b.g as int, SCALE - clamp_unit(
                weight as int,
            )),
            c.b == wavg(a.b as int, clamp_unit(weight as int), b.b as int, SCALE - clamp_unit(
                weight as int,
            )),
            color_valid(c),
    {
        let weight_a = if weight < 0 {
            0
        } else if weight > SCALE {
            SCALE
        } else {
            weight
        };
        let weight_b = SCALE - weight_a;
        Color::add_weighted(a, weight_a, b, weight_b)
    }

    /// The channelwise weighted average of two colors.
    fn add_weighted(a: Color, weight_a: i64, b: Color, weight_b: i64) -> (c: Self)
        requires
            color_valid(a),
            color_valid(b),
            weight_a >= 0,
            weight_b >= 0,
            weight_a + weight_b > 0,
            weight_a + weight_b <= SCALE,
        ensures
            c.r == wavg(a.r as int, weight_a as int, b.r as int, weight_b as int),
            c.g == wavg(a.g as int, weight_a as int, b.g as int, weight_b as int),
            c.b == wavg(a.b as int, weight_a as int, b.b as int, weight_b as int),
            color_valid(c),
    {
        let sum = weight_a + weight_b;
        proof {
            lemma_wavg_valid(a.r as int, weight_a as int, b.r as int, weight_b as int);
            lemma_wavg_valid(a.g as int, weight_a as int, b.g as int, weight_b as int);
            lemma_wavg_valid(a.b as int, weight_a as int, b.b as int, weight_b as int);
        }
        let rn: i128 = (a.r as i128) * (weight_a as i128) + (b.r as i128) * (weight_b as i128);
        let gn: i128 = (a.g as i128) * (weight_a as i128) + (b.g as i128) * (weight_b as i128);
        let bn: i128 = (a.b as i128) * (weight_a as i128) + (b.b as i128) * (weight_b as i128);
        let s128: i128 = sum as i128;
        Color {
            r: rn.checked_div(s128).unwrap() as i64,
            g: gn.checked_div(s128).unwrap() as i64,
            b: bn.checked_div(s128).unwrap() as i64,
        }
    }
}

/// A weighted average of channels in `[0, SCALE]` stays in `[0, SCALE]`.
proof fn lemma_wavg_valid(x: int, wx: int, y: int, wy: int)
    requires
        0 <= x <= SCALE,
        0 <= y <= SCALE,
        wx >= 0,
        wy >= 0,
        0 < wx + wy <= SCALE,
    ensures
        0 <= x * wx + y * wy <= SCALE * (SCALE as int),
        0 <= wavg(x, wx, y, wy) <= SCALE,
{
    assert(0 <= x * wx + y * wy <= (x * wx + y * wy)) by (nonlinear_arith)
        requires
            0 <= x,
            0 <= y,
            wx >= 0,
            wy >= 0,
    ;
    assert(x * wx + y * wy <= SCALE * (wx + wy)) by (nonlinear_arith)
        requires
            0 <= x <= SCALE,
            0 <= y <= SCALE,
            wx >= 0,
            wy >= 0,
    ;
    assert(SCALE * (wx + wy) <= SCALE * (SCALE as int)) by (nonlinear_arith)
        requires
            wx + wy <= SCALE,
    ;
    assert((x * wx + y * wy) / (wx + wy) <= SCALE) by (nonlinear_arith)
        requires
            0 <= x * wx + y * wy,
            x * wx + y * wy <= SCALE * (wx + wy),
            wx + wy > 0,
    ;
    assert((x * wx + y * wy) / (wx + wy) >= 0) by (nonlinear_arith)
        requires
            0 <= x * wx + y * wy,
            wx + wy > 0,
    ;
}

} // verus!
