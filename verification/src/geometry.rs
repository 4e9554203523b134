//! Geometry primitives: continuous world points, normalized headings, colors
//! with distance shading, and screen rectangles with clipping.

use vstd::prelude::*;
use crate::math::{
    spec_normalize_degrees, spec_isqrt, clamp_degrees, isqrt,
    lemma_isqrt_bounds, lemma_isqrt_monotonic,
    SCALE, FULL_TURN, MAX_ANGLE_INPUT,
};
use vstd::arithmetic::mul::{lemma_mul_inequality, lemma_mul_strictly_positive};
use vstd::arithmetic::div_mod::{
    lemma_div_is_ordered_by_denominator, lemma_div_pos_is_pos, lemma_div_nonincreasing,
};

verus! {

/// A continuous world-space coordinate, in fixed-point units (`SCALE` units
/// per world unit).  The grid cell a point lies in is the floor of each
/// coordinate.
#[derive(Clone, Copy, PartialEq, Eq, Structural, Debug)]
pub struct Point {
    pub x: i64,
    pub y: i64,
}

impl Point {
    pub fn new(x_val: i64, y_val: i64) -> (p: Point)
        ensures
            p == (Point { x: x_val, y: y_val }),
    {
        Point { x: x_val, y: y_val }
    }
}

/// A heading in fixed-point degrees, kept normalized to `[0, FULL_TURN)` by
/// every constructor and mutation.
#[derive(Clone, Copy, PartialEq, Eq, Structural, Debug)]
pub struct Rotation {
    pub degree: i64,
}

impl Rotation {
    /// The invariant every `Rotation` carries: never negative, never a full
    /// turn or more.
    pub open spec fn wf(self) -> bool {
        0 <= self.degree < FULL_TURN
    }

    pub fn new(initial_value: i64) -> (r: Rotation)
        requires
            -MAX_ANGLE_INPUT < initial_value < MAX_ANGLE_INPUT,
        ensures
            r.degree == spec_normalize_degrees(initial_value as int),
            r.wf(),
    {
        Rotation { degree: clamp_degrees(initial_value) }
    }

    /// Add an increment to the heading, normalizing on write.
    pub fn mod_value(&mut self, value: i64)
        requires
            old(self).wf(),
            -(MAX_ANGLE_INPUT - FULL_TURN) < value < MAX_ANGLE_INPUT - FULL_TURN,
        ensures
            final(self).degree == spec_normalize_degrees(old(self).degree + value),
            final(self).wf(),
    {
        self.degree = clamp_degrees(self.degree + value);
    }
}

/// Largest distance the shading accepts; far beyond anything a bounded ray
/// cast can travel.
pub const MAX_SHADE_DIST: i64 = 0x4_0000_0000_0000;

/// One channel of distance shading: divide by `distance^(3/4)` (computed with
/// two integer square roots) and clamp between a sixteenth of the base value
/// and the base value itself.
pub open spec fn spec_shade_channel(v: int, d: int) -> int {
    let a = spec_isqrt(d * SCALE);
    let b = spec_isqrt(a * SCALE);
    let raw = (v * SCALE * SCALE) / (a * b);
    if raw < v / 16 {
        v / 16
    } else if raw > v {
        v
    } else {
        raw
    }
}

/// An immutable RGB color value.
#[derive(Clone, Copy, PartialEq, Eq, Structural, Debug)]
pub struct Color {
    pub r: u8,
    pub g: u8,
    pub b: u8,
}

/// The color a given base color takes at a given view distance.
pub open spec fn spec_shade_color(c: Color, d: int) -> Color {
    Color {
        r: spec_shade_channel(c.r as int, d) as u8,
        g: spec_shade_channel(c.g as int, d) as u8,
        b: spec_shade_channel(c.b as int, d) as u8,
    }
}

/// Both integer square roots used by the shading are positive and small
/// enough that their product cannot overflow.
proof fn lemma_shade_roots(d: int)
    requires
        1 <= d <= MAX_SHADE_DIST,
    ensures
        1 <= spec_isqrt(d * SCALE) <= 0x4000_0000,
        1 <= spec_isqrt(spec_isqrt(d * SCALE) * SCALE) <= 0x10_0000,
{
    let a = spec_isqrt(d * SCALE);
    lemma_isqrt_bounds(d * SCALE);
    assert(d * SCALE >= 1024) by (nonlinear_arith)
        requires d >= 1, SCALE == 1024;
    assert(d * SCALE <= 0x1000_0000_0000_0000) by (nonlinear_arith)
        requires d <= 0x4_0000_0000_0000i64, SCALE == 1024;
    assert(a >= 1) by (nonlinear_arith)
        requires a >= 0, (a + 1) * (a + 1) > d * SCALE, d * SCALE >= 1024;
    assert(a <= 0x4000_0000) by (nonlinear_arith)
        requires a >= 0, a * a <= d * SCALE, d * SCALE <= 0x1000_0000_0000_0000;
    let b = spec_isqrt(a * SCALE);
    lemma_isqrt_bounds(a * SCALE);
    assert(a * SCALE >= 1024) by (nonlinear_arith)
        requires a >= 1, SCALE == 1024;
    assert(a * SCALE <= 0x100_0000_0000) by (nonlinear_arith)
        requires a <= 0x4000_0000, SCALE == 1024;
    assert(b >= 1) by (nonlinear_arith)
        requires b >= 0, (b + 1) * (b + 1) > a * SCALE, a * SCALE >= 1024;
    assert(b <= 0x10_0000) by (nonlinear_arith)
        requires b >= 0, b * b <= a * SCALE, a * SCALE <= 0x100_0000_0000;
}

impl Color {
    pub fn new(red: u8, green: u8, blue: u8) -> (c: Color)
        ensures
            c == (Color { r: red, g: green, b: blue }),
    {
        Color { r: red, g: green, b: blue }
    }

    /// A new color, darkened according to the distance it is seen at.
    pub fn shade_distance(&self, distance: i64) -> (c: Color)
        requires
            1 <= distance <= MAX_SHADE_DIST,
        ensures
            c == spec_shade_color(*self, distance as int),
    {
        proof {
            lemma_shade_roots(distance as int);
        }
        let a = isqrt(distance * SCALE);
        let b = isqrt(a * SCALE);
        Color {
            r: shade_channel(self.r, a, b),
            g: shade_channel(self.g, a, b),
            b: shade_channel(self.b, a, b),
        }
    }
}

/// One clamped shading division, shared by the three channels.
fn shade_channel(v: u8, a: i64, b: i64) -> (s: u8)
    requires
        1 <= a <= 0x4000_0000,
        1 <= b <= 0x10_0000,
    ensures
        s as int == {
            let raw = (v as int * SCALE * SCALE) / (a as int * b as int);
            if raw < v as int / 16 {
                v as int / 16
            } else if raw > v as int {
                v as int
            } else {
                raw
            }
        },
{
    proof {
        lemma_mul_strictly_positive(a as int, b as int);
        vstd::arithmetic::mul::lemma_mul_upper_bound(a as int, 0x4000_0000, b as int, 0x10_0000);
        lemma_div_pos_is_pos(v as int * SCALE * SCALE, a as int * b as int);
    }
    let raw: i64 = (v as i64 * SCALE * SCALE) / (a * b);
    let lo: u8 = v / 16;
    if raw < lo as i64 {
        lo
    } else if raw > v as i64 {
        v
    } else {
        raw as u8
    }
}

/// Law: shading darkens monotonically with distance, channel by channel.
pub proof fn lemma_shade_monotonic(c: Color, d1: int, d2: int)
    requires
        1 <= d2 <= d1 <= MAX_SHADE_DIST,
    ensures
        spec_shade_color(c, d1).r <= spec_shade_color(c, d2).r,
        spec_shade_color(c, d1).g <= spec_shade_color(c, d2).g,
        spec_shade_color(c, d1).b <= spec_shade_color(c, d2).b,
{
    lemma_shade_channel_monotonic(c.r as int, d1, d2);
    lemma_shade_channel_monotonic(c.g as int, d1, d2);
    lemma_shade_channel_monotonic(c.b as int, d1, d2);
}

proof fn lemma_shade_channel_monotonic(v: int, d1: int, d2: int)
    requires
        0 <= v <= 255,
        1 <= d2 <= d1 <= MAX_SHADE_DIST,
    ensures
        spec_shade_channel(v, d1) <= spec_shade_channel(v, d2),
        0 <= spec_shade_channel(v, d1) <= 255,
        0 <= spec_shade_channel(v, d2) <= 255,
{
    lemma_shade_roots(d1);
    lemma_shade_roots(d2);
    let a1 = spec_isqrt(d1 * SCALE);
    let a2 = spec_isqrt(d2 * SCALE);
    let b1 = spec_isqrt(a1 * SCALE);
    let b2 = spec_isqrt(a2 * SCALE);
    lemma_mul_inequality(d2, d1, SCALE as int);
    lemma_isqrt_monotonic(d2 * SCALE, d1 * SCALE);
    lemma_mul_inequality(a2, a1, SCALE as int);
    lemma_isqrt_monotonic(a2 * SCALE, a1 * SCALE);
    lemma_mul_inequality(a2, a1, b2);
    lemma_mul_inequality(b2, b1, a1);
    assert(a2 * b2 <= a1 * b2);
    assert(b2 * a1 <= b1 * a1);
    lemma_mul_strictly_positive(a2, b2);
    lemma_div_is_ordered_by_denominator(v * SCALE * SCALE, a2 * b2, a1 * b1);
    lemma_div_pos_is_pos(v * SCALE * SCALE, a2 * b2);
    lemma_div_pos_is_pos(v * SCALE * SCALE, a1 * b1);
    lemma_div_nonincreasing(v, 16);
    lemma_div_pos_is_pos(v, 16);
}

/// Law: shading never darkens a channel below a sixteenth of its base value,
/// nor brightens it above the base value.
pub proof fn lemma_shade_clamped(c: Color, d: int)
    requires
        1 <= d <= MAX_SHADE_DIST,
    ensures
        spec_shade_color(c, d).r >= c.r as int / 16,
        spec_shade_color(c, d).r <= c.r,
        spec_shade_color(c, d).g >= c.g as int / 16,
        spec_shade_color(c, d).g <= c.g,
        spec_shade_color(c, d).b >= c.b as int / 16,
        spec_shade_color(c, d).b <= c.b,
{
    lemma_shade_channel_monotonic(c.r as int, d, d);
    lemma_shade_channel_monotonic(c.g as int, d, d);
    lemma_shade_channel_monotonic(c.b as int, d, d);
    lemma_div_nonincreasing(c.r as int, 16);
    lemma_div_nonincreasing(c.g as int, 16);
    lemma_div_nonincreasing(c.b as int, 16);
    lemma_div_pos_is_pos(c.r as int, 16);
    lemma_div_pos_is_pos(c.g as int, 16);
    lemma_div_pos_is_pos(c.b as int, 16);
}

/// A screen-space rectangle with a fill color.
#[derive(Clone, Copy, Debug)]
pub struct Rect {
    pub x: usize,
    pub y: usize,
    pub width: usize,
    pub height: usize,
    pub color: Color,
}

/// The rectangle shrunk to fit a destination surface: origin clamped to the
/// last row and column, extent reduced so it ends at the surface edge.
pub open spec fn spec_fit_rect(r: Rect, dw: int, dh: int) -> Rect {
    let x1 = if r.x >= dw { dw - 1 } else { r.x as int };
    let y1 = if r.y >= dh { dh - 1 } else { r.y as int };
    let w1 = if x1 + r.width >= dw { dw - x1 } else { r.width as int };
    let h1 = if y1 + r.height >= dh { dh - y1 } else { r.height as int };
    Rect {
        x: x1 as usize,
        y: y1 as usize,
        width: w1 as usize,
        height: h1 as usize,
        color: r.color,
    }
}

impl Rect {
    pub fn new(x: usize, y: usize, width: usize, height: usize, color: Color) -> (r: Rect)
        ensures
            r == (Rect { x, y, width, height, color }),
    {
        Rect { x, y, width, height, color }
    }

    /// Clip this rectangle to a destination surface so that drawing it can
    /// never write out of bounds.
    pub fn fit_to_screen(&self, dest_width: usize, dest_height: usize) -> (r: Rect)
        requires
            dest_width >= 1,
            dest_height >= 1,
        ensures
            r == spec_fit_rect(*self, dest_width as int, dest_height as int),
            r.x < dest_width,
            r.y < dest_height,
            r.x + r.width <= dest_width,
            r.y + r.height <= dest_height,
    {
        let mut rect_temp: Rect = *self;

        if rect_temp.x >= dest_width {
            rect_temp.x = dest_width - 1
        }
        if rect_temp.y >= dest_height {
            rect_temp.y = dest_height - 1
        }
        if rect_temp.width >= dest_width - rect_temp.x {
            rect_temp.width = dest_width - rect_temp.x
        }
        if rect_temp.height >= dest_height - rect_temp.y {
            rect_temp.height = dest_height - rect_temp.y
        }

        rect_temp
    }
}

} // verus!
