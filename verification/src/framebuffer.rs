//! The frame compositor: an RGBA pixel buffer with rectangle, line, wall and
//! minimap drawing, assembled into whole frames.
//!
//! Every drawing operation's contract gives the new buffer contents exactly,
//! as a spec-level function of the old contents — a frame is a pure function
//! of the camera and the level, which is what makes rendering reproducible
//! byte for byte.

use vstd::prelude::*;
use crate::geometry::{Color, Point, Rect, spec_fit_rect, spec_shade_color};
use crate::math::{
    lemma_row_major_bound, lemma_trunc_div_remainder, lemma_trunc_div_magnitude,
    spec_trunc_div, spec_cos, trunc_div, cos_fixed, SCALE,
};
use crate::camera::{Camera, spec_cast_angle, MAX_CAMERA_COORD};
use crate::level::{Level, spec_tile_at, spec_texture_at, spec_texture_color, spec_is_in_level};
use crate::raycast::{cast_ray, spec_cast_ray, CAST_INFINITY};
use vstd::arithmetic::div_mod::{lemma_div_pos_is_pos, lemma_multiply_divide_lt};
use vstd::arithmetic::mul::{lemma_mul_upper_bound, lemma_mul_is_commutative};

verus! {

/// Largest accepted screen edge, in pixels.
pub const MAX_SCREEN_DIM: usize = 16384;

/// Byte offset of a pixel in a row-major RGBA buffer of row length `w`.
pub open spec fn spec_pixel_index(w: int, px: int, py: int) -> int {
    (py * w + px) * 4
}

/// The buffer after storing one opaque color at pixel `(px, py)`.
pub open spec fn spec_store_pixel(s: Seq<u8>, w: int, px: int, py: int, c: Color) -> Seq<u8> {
    let idx = spec_pixel_index(w, px, py);
    s.update(idx, c.r).update(idx + 1, c.g).update(idx + 2, c.b).update(idx + 3, 255u8)
}

/// The buffer after plotting a fixed-point screen point: the pixel at the
/// floor of each coordinate, or nothing when the point lies off screen.
pub open spec fn spec_draw_pixel(s: Seq<u8>, w: int, h: int, pos: Point, c: Color) -> Seq<u8> {
    if 0 <= pos.x < w * SCALE && 0 <= pos.y < h * SCALE {
        spec_store_pixel(s, w, pos.x as int / (SCALE as int), pos.y as int / (SCALE as int), c)
    } else {
        s
    }
}

/// The buffer after filling `n` pixels of row `y` starting at column `x0`.
pub open spec fn spec_fill_row(s: Seq<u8>, w: int, x0: int, y: int, n: nat, c: Color) -> Seq<u8>
    decreases n,
{
    if n == 0 {
        s
    } else {
        spec_store_pixel(spec_fill_row(s, w, x0, y, (n - 1) as nat, c), w, x0 + n - 1, y, c)
    }
}

/// The buffer after filling `n_rows` rows of `n_cols` pixels from `(x0, y0)`.
pub open spec fn spec_fill_rows(
    s: Seq<u8>,
    w: int,
    x0: int,
    y0: int,
    n_cols: nat,
    n_rows: nat,
    c: Color,
) -> Seq<u8>
    decreases n_rows,
{
    if n_rows == 0 {
        s
    } else {
        spec_fill_row(spec_fill_rows(s, w, x0, y0, n_cols, (n_rows - 1) as nat, c), w, x0, y0
            + n_rows - 1, n_cols, c)
    }
}

/// The buffer after drawing a rectangle, clipped to the screen first.
pub open spec fn spec_draw_rect(s: Seq<u8>, w: int, h: int, rect: Rect) -> Seq<u8> {
    let f = spec_fit_rect(rect, w, h);
    spec_fill_rows(s, w, f.x as int, f.y as int, f.width as nat, f.height as nat, f.color)
}

/// The flat background color.
pub open spec fn spec_background_color() -> Color {
    Color { r: 0x4f, g: 0x4f, b: 0x4f }
}

/// The buffer after painting the whole screen with the background color.
pub open spec fn spec_draw_background(s: Seq<u8>, w: int, h: int) -> Seq<u8> {
    spec_draw_rect(s, w, h, Rect {
        x: 0,
        y: 0,
        width: w as usize,
        height: h as usize,
        color: spec_background_color(),
    })
}

/// Largest coordinate magnitude `draw_line` accepts: twice the largest
/// screen extent, in fixed-point pixel units.  Callers clip endpoints to
/// this range; pixels outside the buffer are discarded anyway.
pub const LINE_COORD_LIMIT: i64 = 0x200_0000;

/// One march of the line rasterizer: plot the current pixel, stop at the
/// endpoint (or when the active axis runs out), otherwise advance whichever
/// axes the accumulated error selects.
pub open spec fn spec_line_steps(
    s: Seq<u8>,
    w: int,
    h: int,
    px: int,
    py: int,
    p1x: int,
    p1y: int,
    err: int,
    dx: int,
    dy: int,
    sx: int,
    sy: int,
    c: Color,
    fuel: nat,
) -> Seq<u8>
    decreases fuel,
{
    if fuel == 0 {
        s
    } else {
        let s1 = spec_draw_pixel(s, w, h, Point { x: px as i64, y: py as i64 }, c);
        if px == p1x && py == p1y {
            s1
        } else {
            let c1 = 2 * err >= dy;
            if c1 && px == p1x {
                s1
            } else {
                let err1 = if c1 { err + dy } else { err };
                let px1 = if c1 { px + sx } else { px };
                let c2 = 2 * err1 <= dx;
                if c2 && py == p1y {
                    s1
                } else {
                    let err2 = if c2 { err1 + dx } else { err1 };
                    let py1 = if c2 { py + sy } else { py };
                    spec_line_steps(s1, w, h, px1, py1, p1x, p1y, err2, dx, dy, sx, sy, c, (fuel
                        - 1) as nat)
                }
            }
        }
    }
}

/// The buffer after rasterizing a line from `p0` toward `p1`, bounded by one
/// step per screen pixel.
pub open spec fn spec_draw_line(s: Seq<u8>, w: int, h: int, p0: Point, p1: Point, c: Color)
    -> Seq<u8> {
    let dx = if p0.x >= p1.x { p0.x - p1.x } else { p1.x - p0.x };
    let dy = -(if p0.y >= p1.y { p0.y - p1.y } else { p1.y - p0.y });
    let sx: int = if p0.x < p1.x { SCALE as int } else { -(SCALE as int) };
    let sy: int = if p0.y < p1.y { SCALE as int } else { -(SCALE as int) };
    spec_line_steps(s, w, h, p0.x as int, p0.y as int, p1.x as int, p1.y as int, dx + dy, dx, dy,
        sx, sy, c, (w * h) as nat)
}

/// The ray distance for screen column `k`: the cast distance, multiplied by
/// the cosine of the column's angular offset from the view heading when
/// fish-eye correction is on.
pub open spec fn spec_column_distance(cam: Camera, lv: Level, k: int) -> int {
    let angle = spec_cast_angle(cam, k);
    let raw = spec_cast_ray(cam.pos, angle, lv).1;
    if cam.fish_eye_correction {
        spec_trunc_div(raw * spec_cos(angle - cam.rotation.degree), SCALE as int)
    } else {
        raw
    }
}

/// The distance actually fed to projection and shading: floored at one
/// fixed-point unit so a wall touching the camera cannot blow up the
/// projection.
pub open spec fn spec_wall_distance(cam: Camera, lv: Level, k: int) -> int {
    let c = spec_column_distance(cam, lv, k);
    if c < 1 {
        1
    } else {
        c
    }
}

/// The screen rectangle for texel row `i` of the wall strip in column `k`:
/// perspective projection `height / distance`, texel rows stacked vertically
/// and centered, texture column from the diagonal-sum of the hit point, the
/// sampled color shaded by distance.
pub open spec fn spec_strip_rect(w: int, h: int, cam: Camera, lv: Level, k: int, i: int)
    -> Rect {
    let hit = spec_cast_ray(cam.pos, spec_cast_angle(cam, k), lv).0;
    let dist = spec_wall_distance(cam, lv, k);
    let tex = spec_texture_at(lv, hit);
    let wall_height = h * SCALE / dist;
    let vs = wall_height / (tex.height as int);
    let columns = cam.fov as int * cam.resolution_multiplier as int;
    let sw = w * SCALE / columns;
    let sum = hit.x as int + hit.y as int;
    let frac = sum - spec_trunc_div(sum, SCALE as int) * SCALE;
    let y_raw = spec_trunc_div(h - wall_height, 2) + vs * i + (if tex.height >= 8 {
        vs / 2
    } else {
        0
    });
    Rect {
        x: (sw * k / (SCALE as int)) as usize,
        y: (if y_raw < 0 {
            0
        } else if y_raw > h {
            h
        } else {
            y_raw
        }) as usize,
        width: (sw / (SCALE as int) + 1) as usize,
        height: (vs + 1) as usize,
        color: spec_shade_color(
            spec_texture_color(tex, Point {
                x: (frac * tex.width) as i64,
                y: (i * SCALE) as i64,
            }),
            dist,
        ),
    }
}

/// The buffer after drawing the first `n` texel-row strips of column `k`.
pub open spec fn spec_column_strips(
    s: Seq<u8>,
    w: int,
    h: int,
    cam: Camera,
    lv: Level,
    k: int,
    n: nat,
) -> Seq<u8>
    decreases n,
{
    if n == 0 {
        s
    } else {
        spec_draw_rect(spec_column_strips(s, w, h, cam, lv, k, (n - 1) as nat), w, h,
            spec_strip_rect(w, h, cam, lv, k, n - 1))
    }
}

/// The buffer after rendering the first `k` screen columns: each column
/// whose ray hit an opaque tile contributes one strip per texel row.
pub open spec fn spec_wall_columns(s: Seq<u8>, w: int, h: int, cam: Camera, lv: Level, k: nat)
    -> Seq<u8>
    decreases k,
{
    if k == 0 {
        s
    } else {
        let s1 = spec_wall_columns(s, w, h, cam, lv, (k - 1) as nat);
        let hit = spec_cast_ray(cam.pos, spec_cast_angle(cam, k - 1), lv).0;
        if !spec_tile_at(lv, hit).transparent {
            let tex = spec_texture_at(lv, hit);
            spec_column_strips(s1, w, h, cam, lv, k - 1, tex.height as nat)
        } else {
            s1
        }
    }
}

/// The buffer after drawing every wall strip of a frame.
pub open spec fn spec_draw_walls(s: Seq<u8>, w: int, h: int, cam: Camera, lv: Level) -> Seq<u8> {
    spec_wall_columns(s, w, h, cam, lv, (cam.fov as int * cam.resolution_multiplier as int)
        as nat)
}

/// The byte a rectangle fill stores at channel `k` of a pixel.
pub open spec fn spec_rect_byte(c: Color, k: int) -> u8 {
    if k == 0 {
        c.r
    } else if k == 1 {
        c.g
    } else if k == 2 {
        c.b
    } else {
        255u8
    }
}

/// Every alpha byte of the buffer is fully opaque.
pub open spec fn spec_alpha_opaque(s: Seq<u8>) -> bool {
    forall|j: int| 0 <= j < s.len() && j % 4 == 3 ==> s[j] == 255u8
}

/// Storing a pixel writes its four channel bytes and nothing else.
proof fn lemma_store_pixel_bytes(s: Seq<u8>, w: int, px: int, py: int, c: Color)
    requires
        0 <= spec_pixel_index(w, px, py),
        spec_pixel_index(w, px, py) + 3 < s.len(),
    ensures
        spec_store_pixel(s, w, px, py, c).len() == s.len(),
        forall|j: int|
            0 <= j < s.len() && !(spec_pixel_index(w, px, py) <= j < spec_pixel_index(w, px, py)
                + 4) ==> (#[trigger] spec_store_pixel(s, w, px, py, c)[j]) == s[j],
        forall|k: int|
            0 <= k < 4 ==> (#[trigger] spec_store_pixel(s, w, px, py, c)[spec_pixel_index(w, px,
                py) + k]) == spec_rect_byte(c, k),
{
}

/// Storing a pixel keeps the buffer fully opaque: its base offset is a
/// multiple of four, so the three color writes never land on an alpha byte,
/// and the fourth write stores full opacity.
proof fn lemma_store_pixel_alpha(s: Seq<u8>, w: int, px: int, py: int, c: Color)
    requires
        spec_alpha_opaque(s),
        0 <= spec_pixel_index(w, px, py),
        spec_pixel_index(w, px, py) + 3 < s.len(),
    ensures
        spec_alpha_opaque(spec_store_pixel(s, w, px, py, c)),
{
    let idx = spec_pixel_index(w, px, py);
    vstd::arithmetic::div_mod::lemma_mod_multiples_basic(py * w + px, 4);
    lemma_store_pixel_bytes(s, w, px, py, c);
    let r = spec_store_pixel(s, w, px, py, c);
    assert forall|j: int| 0 <= j < r.len() && j % 4 == 3 implies r[j] == 255u8 by {
        if idx <= j < idx + 4 {
            vstd::arithmetic::div_mod::lemma_mod_adds(idx, j - idx, 4);
            vstd::arithmetic::div_mod::lemma_small_mod((j - idx) as nat, 4nat);
            assert(j == idx + 3);
        }
    }
}

/// A pixel plot preserves length and full opacity.
proof fn lemma_draw_pixel_alpha(s: Seq<u8>, w: int, h: int, pos: Point, c: Color)
    requires
        spec_alpha_opaque(s),
        1 <= w,
        1 <= h,
        s.len() == w * h * 4,
    ensures
        spec_draw_pixel(s, w, h, pos, c).len() == s.len(),
        spec_alpha_opaque(spec_draw_pixel(s, w, h, pos, c)),
{
    if 0 <= pos.x < w * SCALE && 0 <= pos.y < h * SCALE {
        let px = pos.x as int / (SCALE as int);
        let py = pos.y as int / (SCALE as int);
        lemma_div_pos_is_pos(pos.x as int, SCALE as int);
        lemma_div_pos_is_pos(pos.y as int, SCALE as int);
        lemma_multiply_divide_lt(pos.x as int, SCALE as int, w);
        lemma_multiply_divide_lt(pos.y as int, SCALE as int, h);
        lemma_mul_is_commutative(w, SCALE as int);
        lemma_mul_is_commutative(h, SCALE as int);
        lemma_row_major_bound(px, py, w, h);
        lemma_store_pixel_alpha(s, w, px, py, c);
    }
}

/// A row fill writes exactly the contiguous byte range of its pixels.
proof fn lemma_fill_row_bytes(s: Seq<u8>, w: int, x0: int, y: int, n: nat, c: Color)
    requires
        0 <= y * w + x0,
        (y * w + x0 + n) * 4 <= s.len(),
    ensures
        spec_fill_row(s, w, x0, y, n, c).len() == s.len(),
        forall|j: int|
            0 <= j < s.len() && !((y * w + x0) * 4 <= j < (y * w + x0 + n) * 4)
                ==> (#[trigger] spec_fill_row(s, w, x0, y, n, c)[j]) == s[j],
        forall|j: int|
            (y * w + x0) * 4 <= j < (y * w + x0 + n) * 4 ==> (#[trigger] spec_fill_row(s, w, x0,
                y, n, c)[j]) == spec_rect_byte(c, j % 4),
    decreases n,
{
    if n == 0 {
    } else {
        lemma_fill_row_bytes(s, w, x0, y, (n - 1) as nat, c);
        let prev = spec_fill_row(s, w, x0, y, (n - 1) as nat, c);
        let p = y * w + x0 + n - 1;
        assert(spec_pixel_index(w, x0 + n - 1, y) == p * 4);
        lemma_store_pixel_bytes(prev, w, x0 + n - 1, y, c);
        let r = spec_fill_row(s, w, x0, y, n, c);
        assert forall|j: int| (y * w + x0) * 4 <= j < (y * w + x0 + n) * 4 implies (#[trigger] r[
            j]) == spec_rect_byte(c, j % 4) by {
            if j < p * 4 {
            } else {
                vstd::arithmetic::div_mod::lemma_fundamental_div_mod(j, 4);
                vstd::arithmetic::div_mod::lemma_mod_division_less_than_divisor(j, 4);
                assert(j == p * 4 + j % 4);
            }
        }
    }
}

/// A stack of full-width row fills writes exactly the contiguous byte range
/// of its rows.
proof fn lemma_fill_rows_full_bytes(s: Seq<u8>, w: int, y0: int, n_rows: nat, c: Color)
    requires
        1 <= w,
        0 <= y0,
        (y0 + n_rows) * w * 4 <= s.len(),
    ensures
        spec_fill_rows(s, w, 0, y0, w as nat, n_rows, c).len() == s.len(),
        forall|j: int|
            0 <= j < s.len() && !(y0 * w * 4 <= j < (y0 + n_rows) * w * 4)
                ==> (#[trigger] spec_fill_rows(s, w, 0, y0, w as nat, n_rows, c)[j]) == s[j],
        forall|j: int|
            y0 * w * 4 <= j < (y0 + n_rows) * w * 4 ==> (#[trigger] spec_fill_rows(s, w, 0, y0,
                w as nat, n_rows, c)[j]) == spec_rect_byte(c, j % 4),
    decreases n_rows,
{
    if n_rows == 0 {
    } else {
        let y = y0 + n_rows - 1;
        assert((y0 + (n_rows - 1)) * w * 4 <= (y0 + n_rows) * w * 4
            && y0 * w * 4 <= y * w * 4
            && (y * w + 0 + w) * 4 == (y0 + n_rows) * w * 4
            && (y * w + 0) * 4 == y * w * 4 + 0
            && y0 * w * 4 <= (y0 + (n_rows - 1)) * w * 4
            && (y0 + (n_rows - 1)) * w * 4 == y * w * 4
            && 0 <= y * w + 0) by (nonlinear_arith)
            requires 1 <= w, 0 <= y0, y == y0 + n_rows - 1, n_rows >= 1;
        lemma_fill_rows_full_bytes(s, w, y0, (n_rows - 1) as nat, c);
        let prev = spec_fill_rows(s, w, 0, y0, w as nat, (n_rows - 1) as nat, c);
        lemma_fill_row_bytes(prev, w, 0, y, w as nat, c);
    }
}

/// A partial-width row fill preserves length and full opacity.
proof fn lemma_fill_row_alpha(s: Seq<u8>, w: int, x0: int, y: int, n: nat, c: Color)
    requires
        spec_alpha_opaque(s),
        0 <= y * w + x0,
        (y * w + x0 + n) * 4 <= s.len(),
    ensures
        spec_fill_row(s, w, x0, y, n, c).len() == s.len(),
        spec_alpha_opaque(spec_fill_row(s, w, x0, y, n, c)),
    decreases n,
{
    if n == 0 {
    } else {
        lemma_fill_row_alpha(s, w, x0, y, (n - 1) as nat, c);
        let prev = spec_fill_row(s, w, x0, y, (n - 1) as nat, c);
        assert(spec_pixel_index(w, x0 + n - 1, y) == (y * w + x0 + n - 1) * 4);
        lemma_store_pixel_alpha(prev, w, x0 + n - 1, y, c);
    }
}

/// A rectangle of row fills preserves length and full opacity.
proof fn lemma_fill_rows_alpha(
    s: Seq<u8>,
    w: int,
    x0: int,
    y0: int,
    n_cols: nat,
    n_rows: nat,
    c: Color,
)
    requires
        spec_alpha_opaque(s),
        1 <= w,
        0 <= x0,
        x0 + n_cols <= w,
        0 <= y0,
        (y0 + n_rows) * w * 4 <= s.len(),
    ensures
        spec_fill_rows(s, w, x0, y0, n_cols, n_rows, c).len() == s.len(),
        spec_alpha_opaque(spec_fill_rows(s, w, x0, y0, n_cols, n_rows, c)),
    decreases n_rows,
{
    if n_rows == 0 {
    } else {
        let y = y0 + n_rows - 1;
        assert(0 <= y * w + x0 && (y * w + x0 + n_cols) * 4 <= (y0 + n_rows) * w * 4 && (y0 + (
        n_rows - 1)) * w * 4 <= (y0 + n_rows) * w * 4) by (nonlinear_arith)
            requires
                1 <= w, 0 <= x0, x0 + n_cols <= w, 0 <= y0, y == y0 + n_rows - 1, n_rows >= 1;
        lemma_fill_rows_alpha(s, w, x0, y0, n_cols, (n_rows - 1) as nat, c);
        let prev = spec_fill_rows(s, w, x0, y0, n_cols, (n_rows - 1) as nat, c);
        lemma_fill_row_alpha(prev, w, x0, y, n_cols, c);
    }
}

/// The clipped rectangle always lies inside the screen.
proof fn lemma_fit_rect_bounds(rect: Rect, w: int, h: int)
    requires
        1 <= w <= MAX_SCREEN_DIM,
        1 <= h <= MAX_SCREEN_DIM,
    ensures
        0 <= spec_fit_rect(rect, w, h).x as int,
        spec_fit_rect(rect, w, h).x as int + spec_fit_rect(rect, w, h).width as int <= w,
        0 <= spec_fit_rect(rect, w, h).y as int,
        spec_fit_rect(rect, w, h).y as int + spec_fit_rect(rect, w, h).height as int <= h,
{
}

/// Drawing a rectangle preserves length and full opacity.
proof fn lemma_draw_rect_alpha(s: Seq<u8>, w: int, h: int, rect: Rect)
    requires
        spec_alpha_opaque(s),
        1 <= w <= MAX_SCREEN_DIM,
        1 <= h <= MAX_SCREEN_DIM,
        s.len() == w * h * 4,
    ensures
        spec_draw_rect(s, w, h, rect).len() == s.len(),
        spec_alpha_opaque(spec_draw_rect(s, w, h, rect)),
{
    let f = spec_fit_rect(rect, w, h);
    lemma_fit_rect_bounds(rect, w, h);
    assert((f.y as int + f.height as int) * w * 4 <= h * w * 4) by (nonlinear_arith)
        requires f.y as int + f.height as int <= h, 1 <= w;
    lemma_mul_is_commutative(h, w);
    lemma_fill_rows_alpha(s, w, f.x as int, f.y as int, f.width as nat, f.height as nat,
        f.color);
}

/// The line march preserves length and full opacity.
proof fn lemma_line_steps_alpha(
    s: Seq<u8>,
    w: int,
    h: int,
    px: int,
    py: int,
    p1x: int,
    p1y: int,
    err: int,
    dx: int,
    dy: int,
    sx: int,
    sy: int,
    c: Color,
    fuel: nat,
)
    requires
        spec_alpha_opaque(s),
        1 <= w,
        1 <= h,
        s.len() == w * h * 4,
    ensures
        spec_line_steps(s, w, h, px, py, p1x, p1y, err, dx, dy, sx, sy, c, fuel).len()
            == s.len(),
        spec_alpha_opaque(spec_line_steps(s, w, h, px, py, p1x, p1y, err, dx, dy, sx, sy, c,
            fuel)),
    decreases fuel,
{
    if fuel == 0 {
    } else {
        lemma_draw_pixel_alpha(s, w, h, Point { x: px as i64, y: py as i64 }, c);
        let s1 = spec_draw_pixel(s, w, h, Point { x: px as i64, y: py as i64 }, c);
        if px == p1x && py == p1y {
        } else {
            let c1 = 2 * err >= dy;
            if c1 && px == p1x {
            } else {
                let err1 = if c1 { err + dy } else { err };
                let px1 = if c1 { px + sx } else { px };
                let c2 = 2 * err1 <= dx;
                if c2 && py == p1y {
                } else {
                    let err2 = if c2 { err1 + dx } else { err1 };
                    let py1 = if c2 { py + sy } else { py };
                    lemma_line_steps_alpha(s1, w, h, px1, py1, p1x, p1y, err2, dx, dy, sx, sy,
                        c, (fuel - 1) as nat);
                }
            }
        }
    }
}

/// Drawing a line preserves length and full opacity.
proof fn lemma_draw_line_alpha(s: Seq<u8>, w: int, h: int, p0: Point, p1: Point, c: Color)
    requires
        spec_alpha_opaque(s),
        1 <= w,
        1 <= h,
        s.len() == w * h * 4,
    ensures
        spec_draw_line(s, w, h, p0, p1, c).len() == s.len(),
        spec_alpha_opaque(spec_draw_line(s, w, h, p0, p1, c)),
{
    let dx = if p0.x >= p1.x { p0.x - p1.x } else { p1.x - p0.x };
    let dy = -(if p0.y >= p1.y { p0.y - p1.y } else { p1.y - p0.y });
    let sx: int = if p0.x < p1.x { SCALE as int } else { -(SCALE as int) };
    let sy: int = if p0.y < p1.y { SCALE as int } else { -(SCALE as int) };
    lemma_line_steps_alpha(s, w, h, p0.x as int, p0.y as int, p1.x as int, p1.y as int, dx + dy,
        dx, dy, sx, sy, c, (w * h) as nat);
}

/// Side of one minimap tile square, in pixels.
pub const MINIMAP_TILE_SIZE: usize = 16;

/// A world coordinate turned into a minimap X position, in fixed-point
/// pixels: one tile square per world unit, mirrored horizontally and
/// anchored to the buffer's right edge.  The pixel count is clamped to a
/// range the line rasterizer accepts; anything so far out is off screen and
/// discarded during plotting anyway.
pub open spec fn spec_minimap_px(w: int, coord: int) -> int {
    let a = spec_trunc_div((coord + SCALE) * 16, SCALE as int);
    let a0 = if a < 0 { 0 } else { a };
    let a1 = if a0 > 32768 { 32768 } else { a0 };
    (w - a1) * SCALE
}

/// A world coordinate turned into a minimap Y position, in fixed-point
/// pixels.
pub open spec fn spec_minimap_py(coord: int) -> int {
    let a = spec_trunc_div((coord + SCALE) * 16, SCALE as int);
    let a0 = if a < 0 { 0 } else { a };
    let a1 = if a0 > 32768 { 32768 } else { a0 };
    a1 * SCALE
}

/// The minimap square for the level tile `(tx, ty)`: the first texel of the
/// tile's texture for a wall, a neutral open color otherwise.
pub open spec fn spec_minimap_tile_rect(w: int, lv: Level, tx: int, ty: int) -> Rect {
    let p = Point { x: (tx * SCALE) as i64, y: (ty * SCALE) as i64 };
    let tile = spec_tile_at(lv, p);
    let tex = spec_texture_at(lv, p);
    Rect {
        x: (w - (tx + 2) * 16) as usize,
        y: ((ty + 1) * 16) as usize,
        width: MINIMAP_TILE_SIZE,
        height: MINIMAP_TILE_SIZE,
        color: if !tile.transparent {
            tex.layout@[0]
        } else {
            Color { r: 255, g: 255, b: 255 }
        },
    }
}

/// The buffer after drawing the first `n` minimap tile squares, row-major;
/// a square that would not fit left of the anchored edge is skipped.
pub open spec fn spec_minimap_tiles(s: Seq<u8>, w: int, h: int, lv: Level, n: nat) -> Seq<u8>
    decreases n,
{
    if n == 0 {
        s
    } else {
        let s1 = spec_minimap_tiles(s, w, h, lv, (n - 1) as nat);
        let tx = (n - 1) % (lv.width as int);
        let ty = (n - 1) / (lv.width as int);
        if (tx + 2) * 16 <= w {
            spec_draw_rect(s1, w, h, spec_minimap_tile_rect(w, lv, tx, ty))
        } else {
            s1
        }
    }
}

/// The buffer after overlaying the first `k` sample rays on the minimap.
pub open spec fn spec_minimap_rays(
    s: Seq<u8>,
    w: int,
    h: int,
    cam: Camera,
    lv: Level,
    k: nat,
) -> Seq<u8>
    decreases k,
{
    if k == 0 {
        s
    } else {
        let s1 = spec_minimap_rays(s, w, h, cam, lv, (k - 1) as nat);
        let hit = spec_cast_ray(cam.pos, spec_cast_angle(cam, k - 1), lv).0;
        spec_draw_line(s1, w, h, Point {
            x: spec_minimap_px(w, cam.pos.x as int) as i64,
            y: spec_minimap_py(cam.pos.y as int) as i64,
        }, Point {
            x: spec_minimap_px(w, hit.x as int) as i64,
            y: spec_minimap_py(hit.y as int) as i64,
        }, Color { r: 0, g: 255, b: 0 })
    }
}

/// The buffer after drawing the red camera marker, when the camera is in
/// the level and the marker fits left of the anchored edge.
pub open spec fn spec_minimap_marker(s: Seq<u8>, w: int, h: int, cam: Camera, lv: Level)
    -> Seq<u8> {
    let ax = spec_trunc_div((cam.pos.x + SCALE) * 16, SCALE as int);
    let ay = spec_trunc_div((cam.pos.y + SCALE) * 16, SCALE as int);
    if spec_is_in_level(lv, cam.pos) && ax + 4 <= w {
        spec_draw_rect(s, w, h, Rect {
            x: (w - ax - 4) as usize,
            y: (ay - 4) as usize,
            width: 8,
            height: 8,
            color: Color { r: 255, g: 0, b: 0 },
        })
    } else {
        s
    }
}

/// The buffer after the whole minimap overlay: tile squares, one sample ray
/// per cast angle, then the camera marker.
pub open spec fn spec_draw_minimap(s: Seq<u8>, w: int, h: int, cam: Camera, lv: Level)
    -> Seq<u8> {
    spec_minimap_marker(
        spec_minimap_rays(
            spec_minimap_tiles(s, w, h, lv, (lv.width as int * lv.height as int) as nat),
            w,
            h,
            cam,
            lv,
            (cam.fov as int * cam.resolution_multiplier as int) as nat,
        ),
        w,
        h,
        cam,
        lv,
    )
}

/// One frame: background fill, wall strips, minimap overlay, on a zeroed
/// buffer of the given extents.
pub open spec fn spec_render_frame(cam: Camera, lv: Level, w: int, h: int) -> Seq<u8> {
    spec_draw_minimap(
        spec_draw_walls(
            spec_draw_background(Seq::new((w * h * 4) as nat, |i: int| 0u8), w, h),
            w,
            h,
            cam,
            lv,
        ),
        w,
        h,
        cam,
        lv,
    )
}

/// Wall strips preserve length and full opacity.
proof fn lemma_column_strips_alpha(
    s: Seq<u8>,
    w: int,
    h: int,
    cam: Camera,
    lv: Level,
    k: int,
    n: nat,
)
    requires
        spec_alpha_opaque(s),
        1 <= w <= MAX_SCREEN_DIM,
        1 <= h <= MAX_SCREEN_DIM,
        s.len() == w * h * 4,
    ensures
        spec_column_strips(s, w, h, cam, lv, k, n).len() == s.len(),
        spec_alpha_opaque(spec_column_strips(s, w, h, cam, lv, k, n)),
    decreases n,
{
    if n == 0 {
    } else {
        lemma_column_strips_alpha(s, w, h, cam, lv, k, (n - 1) as nat);
        lemma_draw_rect_alpha(spec_column_strips(s, w, h, cam, lv, k, (n - 1) as nat), w, h,
            spec_strip_rect(w, h, cam, lv, k, n - 1));
    }
}

/// The whole wall pass preserves length and full opacity.
proof fn lemma_wall_columns_alpha(s: Seq<u8>, w: int, h: int, cam: Camera, lv: Level, k: nat)
    requires
        spec_alpha_opaque(s),
        1 <= w <= MAX_SCREEN_DIM,
        1 <= h <= MAX_SCREEN_DIM,
        s.len() == w * h * 4,
    ensures
        spec_wall_columns(s, w, h, cam, lv, k).len() == s.len(),
        spec_alpha_opaque(spec_wall_columns(s, w, h, cam, lv, k)),
    decreases k,
{
    if k == 0 {
    } else {
        lemma_wall_columns_alpha(s, w, h, cam, lv, (k - 1) as nat);
        let s1 = spec_wall_columns(s, w, h, cam, lv, (k - 1) as nat);
        let hit = spec_cast_ray(cam.pos, spec_cast_angle(cam, k - 1), lv).0;
        if !spec_tile_at(lv, hit).transparent {
            let tex = spec_texture_at(lv, hit);
            lemma_column_strips_alpha(s1, w, h, cam, lv, k - 1, tex.height as nat);
        }
    }
}

/// The minimap tile squares preserve length and full opacity.
proof fn lemma_minimap_tiles_alpha(s: Seq<u8>, w: int, h: int, lv: Level, n: nat)
    requires
        spec_alpha_opaque(s),
        1 <= w <= MAX_SCREEN_DIM,
        1 <= h <= MAX_SCREEN_DIM,
        s.len() == w * h * 4,
    ensures
        spec_minimap_tiles(s, w, h, lv, n).len() == s.len(),
        spec_alpha_opaque(spec_minimap_tiles(s, w, h, lv, n)),
    decreases n,
{
    if n == 0 {
    } else {
        lemma_minimap_tiles_alpha(s, w, h, lv, (n - 1) as nat);
        let s1 = spec_minimap_tiles(s, w, h, lv, (n - 1) as nat);
        let tx = (n - 1) % (lv.width as int);
        let ty = (n - 1) / (lv.width as int);
        if (tx + 2) * 16 <= w {
            lemma_draw_rect_alpha(s1, w, h, spec_minimap_tile_rect(w, lv, tx, ty));
        }
    }
}

/// The minimap sample rays preserve length and full opacity.
proof fn lemma_minimap_rays_alpha(s: Seq<u8>, w: int, h: int, cam: Camera, lv: Level, k: nat)
    requires
        spec_alpha_opaque(s),
        1 <= w <= MAX_SCREEN_DIM,
        1 <= h <= MAX_SCREEN_DIM,
        s.len() == w * h * 4,
    ensures
        spec_minimap_rays(s, w, h, cam, lv, k).len() == s.len(),
        spec_alpha_opaque(spec_minimap_rays(s, w, h, cam, lv, k)),
    decreases k,
{
    if k == 0 {
    } else {
        lemma_minimap_rays_alpha(s, w, h, cam, lv, (k - 1) as nat);
        let s1 = spec_minimap_rays(s, w, h, cam, lv, (k - 1) as nat);
        let hit = spec_cast_ray(cam.pos, spec_cast_angle(cam, k - 1), lv).0;
        lemma_draw_line_alpha(s1, w, h, Point {
            x: spec_minimap_px(w, cam.pos.x as int) as i64,
            y: spec_minimap_py(cam.pos.y as int) as i64,
        }, Point {
            x: spec_minimap_px(w, hit.x as int) as i64,
            y: spec_minimap_py(hit.y as int) as i64,
        }, Color { r: 0, g: 255, b: 0 });
    }
}

/// The whole minimap overlay preserves length and full opacity.
proof fn lemma_draw_minimap_alpha(s: Seq<u8>, w: int, h: int, cam: Camera, lv: Level)
    requires
        spec_alpha_opaque(s),
        1 <= w <= MAX_SCREEN_DIM,
        1 <= h <= MAX_SCREEN_DIM,
        s.len() == w * h * 4,
    ensures
        spec_draw_minimap(s, w, h, cam, lv).len() == s.len(),
        spec_alpha_opaque(spec_draw_minimap(s, w, h, cam, lv)),
{
    lemma_minimap_tiles_alpha(s, w, h, lv, (lv.width as int * lv.height as int) as nat);
    let s1 = spec_minimap_tiles(s, w, h, lv, (lv.width as int * lv.height as int) as nat);
    lemma_minimap_rays_alpha(s1, w, h, cam, lv, (cam.fov as int
        * cam.resolution_multiplier as int) as nat);
    let s2 = spec_minimap_rays(s1, w, h, cam, lv, (cam.fov as int
        * cam.resolution_multiplier as int) as nat);
    let ax = spec_trunc_div((cam.pos.x + SCALE) * 16, SCALE as int);
    let ay = spec_trunc_div((cam.pos.y + SCALE) * 16, SCALE as int);
    if spec_is_in_level(lv, cam.pos) && ax + 4 <= w {
        lemma_draw_rect_alpha(s2, w, h, Rect {
            x: (w - ax - 4) as usize,
            y: (ay - 4) as usize,
            width: 8,
            height: 8,
            color: Color { r: 255, g: 0, b: 0 },
        });
    }
}

/// Painting the background writes every byte of the buffer: the fill color
/// on the three color channels and full opacity on the alpha channel.
proof fn lemma_background_covers(s: Seq<u8>, w: int, h: int)
    requires
        1 <= w <= MAX_SCREEN_DIM,
        1 <= h <= MAX_SCREEN_DIM,
        s.len() == w * h * 4,
    ensures
        spec_draw_background(s, w, h).len() == s.len(),
        forall|j: int|
            0 <= j < s.len() ==> (#[trigger] spec_draw_background(s, w, h)[j])
                == spec_rect_byte(spec_background_color(), j % 4),
        spec_alpha_opaque(spec_draw_background(s, w, h)),
{
    let f = spec_fit_rect(Rect {
        x: 0,
        y: 0,
        width: w as usize,
        height: h as usize,
        color: spec_background_color(),
    }, w, h);
    assert(f.x as int == 0 && f.y as int == 0 && f.width as int == w && f.height as int == h);
    lemma_mul_is_commutative(h, w);
    lemma_fill_rows_full_bytes(s, w, 0, h as nat, spec_background_color());
}

/// Law: every rendered frame is a display-ready buffer — exactly
/// `width * height * 4` bytes, row-major RGBA, with every alpha byte fully
/// opaque.
pub proof fn lemma_frame_fully_opaque(cam: Camera, lv: Level, w: int, h: int)
    requires
        1 <= w <= MAX_SCREEN_DIM,
        1 <= h <= MAX_SCREEN_DIM,
    ensures
        spec_render_frame(cam, lv, w, h).len() == w * h * 4,
        spec_alpha_opaque(spec_render_frame(cam, lv, w, h)),
{
    let s0 = Seq::new((w * h * 4) as nat, |i: int| 0u8);
    vstd::arithmetic::mul::lemma_mul_nonnegative(w, h);
    assert(s0.len() == w * h * 4);
    lemma_background_covers(s0, w, h);
    let s1 = spec_draw_background(s0, w, h);
    lemma_wall_columns_alpha(s1, w, h, cam, lv, (cam.fov as int
        * cam.resolution_multiplier as int) as nat);
    let s2 = spec_draw_walls(s1, w, h, cam, lv);
    lemma_draw_minimap_alpha(s2, w, h, cam, lv);
}

/// A flat RGBA byte buffer of `width * height` pixels, row-major, four bytes
/// per pixel, alpha always opaque.
pub struct FrameBuffer {
    pub buffer: Vec<u8>,
    pub width: usize,
    pub height: usize,
}

impl FrameBuffer {
    /// Well-formedness: bounded positive extents and exactly four bytes per
    /// pixel.
    pub open spec fn wf(self) -> bool {
        &&& 1 <= self.width <= MAX_SCREEN_DIM
        &&& 1 <= self.height <= MAX_SCREEN_DIM
        &&& self.buffer@.len() == self.width * self.height * 4
    }

    /// A zeroed buffer of the given extents.
    #[verifier::loop_isolation(false)]
    pub fn new(width: usize, height: usize) -> (fb: FrameBuffer)
        requires
            1 <= width <= MAX_SCREEN_DIM,
            1 <= height <= MAX_SCREEN_DIM,
        ensures
            fb.wf(),
            fb.width == width,
            fb.height == height,
            fb.buffer@ == Seq::new((width * height * 4) as nat, |i: int| 0u8),
    {
        proof {
            lemma_mul_upper_bound(width as int, MAX_SCREEN_DIM as int, height as int,
                MAX_SCREEN_DIM as int);
            vstd::arithmetic::mul::lemma_mul_nonnegative(width as int, height as int);
        }
        let n: usize = width * height * 4;
        let mut buffer: Vec<u8> = Vec::new();
        let mut i: usize = 0;
        while i < n
            invariant
                i <= n,
                buffer@.len() == i,
                forall|j: int| 0 <= j < i ==> buffer@[j] == 0u8,
            decreases n - i,
        {
            buffer.push(0);
            i += 1;
        }
        proof {
            assert(buffer@ =~= Seq::new((width * height * 4) as nat, |i: int| 0u8));
        }
        FrameBuffer { buffer, width, height }
    }

    /// Store one opaque color at a pixel known to be on screen.
    fn store_pixel(&mut self, px: usize, py: usize, color: Color)
        requires
            old(self).wf(),
            px < old(self).width,
            py < old(self).height,
        ensures
            final(self).wf(),
            final(self).width == old(self).width,
            final(self).height == old(self).height,
            final(self).buffer@ == spec_store_pixel(old(self).buffer@, old(self).width as int,
                px as int, py as int, color),
    {
        proof {
            lemma_row_major_bound(px as int, py as int, self.width as int, self.height as int);
            lemma_mul_upper_bound(self.width as int, MAX_SCREEN_DIM as int, self.height as int,
                MAX_SCREEN_DIM as int);
        }
        let index: usize = (py * self.width + px) * 4;
        self.buffer[index] = color.r;
        self.buffer[index + 1] = color.g;
        self.buffer[index + 2] = color.b;
        self.buffer[index + 3] = 255;
    }

    /// Plot a fixed-point screen point, clipped to the buffer.
    pub fn draw_pixel(&mut self, pos: Point, color: Color)
        requires
            old(self).wf(),
        ensures
            final(self).wf(),
            final(self).width == old(self).width,
            final(self).height == old(self).height,
            final(self).buffer@ == spec_draw_pixel(old(self).buffer@, old(self).width as int,
                old(self).height as int, pos, color),
    {
        let w_fixed: i64 = (self.width as i64) * SCALE;
        let h_fixed: i64 = (self.height as i64) * SCALE;
        if pos.x >= 0 && pos.x < w_fixed && pos.y >= 0 && pos.y < h_fixed {
            let px: usize = (pos.x / SCALE) as usize;
            let py: usize = (pos.y / SCALE) as usize;
            proof {
                lemma_div_pos_is_pos(pos.x as int, SCALE as int);
                lemma_div_pos_is_pos(pos.y as int, SCALE as int);
                lemma_multiply_divide_lt(pos.x as int, SCALE as int, self.width as int);
                lemma_multiply_divide_lt(pos.y as int, SCALE as int, self.height as int);
                lemma_mul_is_commutative(self.width as int, SCALE as int);
                lemma_mul_is_commutative(self.height as int, SCALE as int);
            }
            self.store_pixel(px, py, color);
        }
    }

    /// Fill a rectangle, clipped to the buffer so no write can land out of
    /// bounds.
    #[verifier::loop_isolation(false)]
    pub fn draw_rect(&mut self, rect: Rect)
        requires
            old(self).wf(),
        ensures
            final(self).wf(),
            final(self).width == old(self).width,
            final(self).height == old(self).height,
            final(self).buffer@ == spec_draw_rect(old(self).buffer@, old(self).width as int,
                old(self).height as int, rect),
    {
        let rect_temp = rect.fit_to_screen(self.width, self.height);
        let ghost buf0 = self.buffer@;
        let mut y: usize = 0;
        while y < rect_temp.height
            invariant
                y <= rect_temp.height,
                self.width == old(self).width,
                self.height == old(self).height,
                self.wf(),
                self.buffer@ == spec_fill_rows(buf0, self.width as int, rect_temp.x as int,
                    rect_temp.y as int, rect_temp.width as nat, y as nat, rect_temp.color),
            decreases rect_temp.height - y,
        {
            let mut x: usize = 0;
            while x < rect_temp.width
                invariant
                    y < rect_temp.height,
                    x <= rect_temp.width,
                    self.width == old(self).width,
                    self.height == old(self).height,
                    self.wf(),
                    self.buffer@ == spec_fill_row(spec_fill_rows(buf0, self.width as int,
                        rect_temp.x as int, rect_temp.y as int, rect_temp.width as nat,
                        y as nat, rect_temp.color), self.width as int, rect_temp.x as int,
                        rect_temp.y as int + y as int, x as nat, rect_temp.color),
                decreases rect_temp.width - x,
            {
                self.store_pixel(rect_temp.x + x, rect_temp.y + y, rect_temp.color);
                x += 1;
            }
            y += 1;
        }
    }

    /// Rasterize a line from `p0` toward `p1`, clipped pixel by pixel, with
    /// at most one step per screen pixel however the endpoints are placed.
    #[verifier::loop_isolation(false)]
    #[verifier::rlimit(60)]
    pub fn draw_line(&mut self, p0: Point, p1: Point, color: Color)
        requires
            old(self).wf(),
            -LINE_COORD_LIMIT <= p0.x <= LINE_COORD_LIMIT,
            -LINE_COORD_LIMIT <= p0.y <= LINE_COORD_LIMIT,
            -LINE_COORD_LIMIT <= p1.x <= LINE_COORD_LIMIT,
            -LINE_COORD_LIMIT <= p1.y <= LINE_COORD_LIMIT,
        ensures
            final(self).wf(),
            final(self).width == old(self).width,
            final(self).height == old(self).height,
            final(self).buffer@ == spec_draw_line(old(self).buffer@, old(self).width as int,
                old(self).height as int, p0, p1, color),
    {
        let dx: i64 = if p0.x >= p1.x { p0.x - p1.x } else { p1.x - p0.x };
        let dy: i64 = -(if p0.y >= p1.y { p0.y - p1.y } else { p1.y - p0.y });
        let sx: i64 = if p0.x < p1.x { SCALE } else { -SCALE };
        let sy: i64 = if p0.y < p1.y { SCALE } else { -SCALE };
        let mut error: i64 = dx + dy;
        let mut px: i64 = p0.x;
        let mut py: i64 = p0.y;
        proof {
            lemma_mul_upper_bound(self.width as int, MAX_SCREEN_DIM as int, self.height as int,
                MAX_SCREEN_DIM as int);
            vstd::arithmetic::mul::lemma_mul_nonnegative(self.width as int, self.height as int);
        }
        let steps: usize = self.width * self.height;
        let ghost full = spec_line_steps(self.buffer@, self.width as int, self.height as int,
            px as int, py as int, p1.x as int, p1.y as int, error as int, dx as int, dy as int,
            sx as int, sy as int, color, steps as nat);

        let mut done: bool = false;
        let mut i: usize = 0;
        while i < steps && !done
            invariant
                0 <= i <= steps,
                self.wf(),
                self.width == old(self).width,
                self.height == old(self).height,
                -LINE_COORD_LIMIT - i as int * SCALE as int <= px as int
                    <= LINE_COORD_LIMIT as int + i as int * SCALE as int,
                -LINE_COORD_LIMIT - i as int * SCALE as int <= py as int
                    <= LINE_COORD_LIMIT as int + i as int * SCALE as int,
                -0x800_0000 - i as int * 0x800_0000 <= error as int
                    <= 0x800_0000 + i as int * 0x800_0000,
                done ==> full == self.buffer@,
                !done ==> full == spec_line_steps(self.buffer@, self.width as int,
                    self.height as int, px as int, py as int, p1.x as int, p1.y as int,
                    error as int, dx as int, dy as int, sx as int, sy as int, color, (steps
                    - i) as nat),
            decreases steps - i,
        {
            self.draw_pixel(Point::new(px, py), color);

            if px == p1.x && py == p1.y {
                done = true;
            } else {
                if error * 2 >= dy {
                    if px == p1.x {
                        done = true;
                    } else {
                        error = error + dy;
                        px = px + sx;
                    }
                }
                if !done && error * 2 <= dx {
                    if py == p1.y {
                        done = true;
                    } else {
                        error = error + dx;
                        py = py + sy;
                    }
                }
            }
            i += 1;
        }
    }

    /// Paint the whole buffer with the flat background color.
    pub fn draw_background(&mut self)
        requires
            old(self).wf(),
        ensures
            final(self).wf(),
            final(self).width == old(self).width,
            final(self).height == old(self).height,
            final(self).buffer@ == spec_draw_background(old(self).buffer@,
                old(self).width as int, old(self).height as int),
    {
        let width = self.width;
        let height = self.height;
        self.draw_rect(Rect {
            x: 0,
            y: 0,
            width,
            height,
            color: Color::new(0x4f, 0x4f, 0x4f),
        });
    }

    /// Render the textured wall strip of every screen column, in cast
    /// order: column `k` is drawn from the `k`-th cast angle.
    #[verifier::loop_isolation(false)]
    #[verifier::rlimit(100)]
    pub fn draw_walls(&mut self, camera: &Camera, level: &Level)
        requires
            old(self).wf(),
            camera.wf(),
            level.wf(),
            -MAX_CAMERA_COORD <= camera.pos.x <= MAX_CAMERA_COORD,
            -MAX_CAMERA_COORD <= camera.pos.y <= MAX_CAMERA_COORD,
        ensures
            final(self).wf(),
            final(self).width == old(self).width,
            final(self).height == old(self).height,
            final(self).buffer@ == spec_draw_walls(old(self).buffer@, old(self).width as int,
                old(self).height as int, *camera, *level),
    {
        proof {
            lemma_mul_upper_bound(camera.fov as int, 180, camera.resolution_multiplier as int,
                32);
            vstd::arithmetic::mul::lemma_mul_strictly_positive(camera.fov as int,
                camera.resolution_multiplier as int);
        }
        let columns: i64 = (camera.fov as i64) * (camera.resolution_multiplier as i64);
        let slice_width: i64 = (self.width as i64) * SCALE / columns;
        proof {
            lemma_div_pos_is_pos(self.width as int * SCALE as int, columns as int);
            vstd::arithmetic::div_mod::lemma_fundamental_div_mod(
                self.width as int * SCALE as int, columns as int);
            vstd::arithmetic::div_mod::lemma_mod_division_less_than_divisor(
                self.width as int * SCALE as int, columns as int);
        }
        let angles = camera.get_angles_to_cast();
        let ghost buf0 = self.buffer@;
        let ghost w0 = self.width as int;
        let ghost h0 = self.height as int;
        let mut k: usize = 0;
        while k < angles.len()
            invariant
                k <= angles@.len(),
                self.wf(),
                self.width as int == w0,
                self.height as int == h0,
                self.buffer@ == spec_wall_columns(buf0, w0, h0, *camera, *level, k as nat),
            decreases angles@.len() - k,
        {
            let angle = angles[k];
            let (cast_point, raw_dist) = cast_ray(&camera.pos, &angle, level);
            let corrected: i64;
            if camera.fish_eye_correction {
                let diff: i64 = angle.degree - camera.rotation.degree;
                let cosf = cos_fixed(diff);
                proof {
                    assert(-0x4_0000_0000_0000 <= (raw_dist as int * cosf as int)
                        <= 0x4_0000_0000_0000) by (nonlinear_arith)
                        requires
                            -(CAST_INFINITY as int) <= (raw_dist as int) <= CAST_INFINITY as int,
                            -(SCALE as int) <= (cosf as int) <= SCALE as int,
                            CAST_INFINITY == 0x100_0000_0000i64,
                            SCALE == 1024;
                }
                corrected = trunc_div(raw_dist * cosf, SCALE);
                proof {
                    lemma_trunc_div_magnitude(raw_dist as int * cosf as int, SCALE as int);
                }
            } else {
                corrected = raw_dist;
            }
            proof {
                assert(corrected as int == spec_column_distance(*camera, *level, k as int));
            }
            if !level.get_tile(&cast_point).transparent {
                let wall_dist: i64 = if corrected < 1 {
                    1
                } else {
                    corrected
                };
                let wall_height: i64 = (self.height as i64) * SCALE / wall_dist;
                proof {
                    lemma_div_pos_is_pos(h0 * SCALE as int, wall_dist as int);
                    vstd::arithmetic::div_mod::lemma_div_nonincreasing(h0 * SCALE as int,
                        wall_dist as int);
                }
                let texture = level.get_texture(&cast_point);
                let sum: i64 = cast_point.x + cast_point.y;
                let frac: i64 = sum - trunc_div(sum, SCALE) * SCALE;
                proof {
                    lemma_trunc_div_remainder(sum as int, SCALE as int);
                    lemma_trunc_div_magnitude(sum as int, SCALE as int);
                    assert(-0x40_0000 < (frac as int * texture.width as int) < 0x40_0000)
                        by (nonlinear_arith)
                        requires
                            -1024 < (frac as int) < 1024,
                            0 <= (texture.width as int) <= 4096;
                }
                let tex_x: i64 = frac * (texture.width as i64);
                let ghost strips_base = self.buffer@;
                let mut i: usize = 0;
                while i < texture.height
                    invariant
                        i <= texture.height,
                        self.wf(),
                        self.width as int == w0,
                        self.height as int == h0,
                        self.buffer@ == spec_column_strips(strips_base, w0, h0, *camera,
                            *level, k as int, i as nat),
                    decreases texture.height - i,
                {
                    let vertical_slice: i64 = wall_height / (texture.height as i64);
                    proof {
                        lemma_div_pos_is_pos(wall_height as int, texture.height as int);
                        vstd::arithmetic::div_mod::lemma_div_nonincreasing(wall_height as int,
                            texture.height as int);
                        assert(0 <= (vertical_slice as int * i as int) <= 0x100_0000_0000)
                            by (nonlinear_arith)
                            requires
                                0 <= (vertical_slice as int) <= 0x100_0000,
                                0 <= (i as int) <= 4096;
                    }
                    let y_raw: i64 = trunc_div((self.height as i64) - wall_height, 2)
                        + vertical_slice * (i as i64) + (if texture.height >= 8 {
                        vertical_slice / 2
                    } else {
                        0
                    });
                    let y_px: usize = if y_raw < 0 {
                        0
                    } else if y_raw > (self.height as i64) {
                        self.height
                    } else {
                        y_raw as usize
                    };
                    proof {
                        vstd::arithmetic::mul::lemma_mul_inequality(k as int, columns as int,
                            slice_width as int);
                        lemma_mul_is_commutative(k as int, slice_width as int);
                        lemma_mul_is_commutative(columns as int, slice_width as int);
                        vstd::arithmetic::div_mod::lemma_div_is_ordered(
                            slice_width as int * k as int, w0 * SCALE as int, SCALE as int);
                        lemma_mul_is_commutative(w0, SCALE as int);
                        vstd::arithmetic::div_mod::lemma_div_by_multiple(w0, SCALE as int);
                        lemma_div_pos_is_pos(slice_width as int * k as int, SCALE as int);
                    }
                    let x_px: usize = ((slice_width * (k as i64)) / SCALE) as usize;
                    let sample = texture.get_color(&Point::new(tex_x, (i as i64) * SCALE));
                    let color = sample.shade_distance(wall_dist);
                    let rect = Rect {
                        x: x_px,
                        y: y_px,
                        width: (slice_width / SCALE + 1) as usize,
                        height: (vertical_slice + 1) as usize,
                        color,
                    };
                    proof {
                        assert(rect == spec_strip_rect(w0, h0, *camera, *level, k as int,
                            i as int));
                    }
                    self.draw_rect(rect);
                    i += 1;
                }
            }
            k += 1;
        }
    }

    /// Overlay the minimap: one square per level tile, mirrored and
    /// anchored to the right edge, a sample ray per cast angle, and a red
    /// camera marker.  A square or marker that would not fit left of the
    /// anchored edge is skipped rather than wrapped.
    #[verifier::loop_isolation(false)]
    #[verifier::rlimit(100)]
    pub fn draw_minimap(&mut self, camera: &Camera, level: &Level)
        requires
            old(self).wf(),
            camera.wf(),
            level.wf(),
            -MAX_CAMERA_COORD <= camera.pos.x <= MAX_CAMERA_COORD,
            -MAX_CAMERA_COORD <= camera.pos.y <= MAX_CAMERA_COORD,
        ensures
            final(self).wf(),
            final(self).width == old(self).width,
            final(self).height == old(self).height,
            final(self).buffer@ == spec_draw_minimap(old(self).buffer@, old(self).width as int,
                old(self).height as int, *camera, *level),
    {
        let ghost buf0 = self.buffer@;
        let ghost w0 = self.width as int;
        let ghost h0 = self.height as int;

        let mut ty: usize = 0;
        while ty < level.height
            invariant
                ty <= level.height,
                self.wf(),
                self.width as int == w0,
                self.height as int == h0,
                self.buffer@ == spec_minimap_tiles(buf0, w0, h0, *level, (ty as int
                    * level.width as int) as nat),
            decreases level.height - ty,
        {
            let mut tx: usize = 0;
            while tx < level.width
                invariant
                    ty < level.height,
                    tx <= level.width,
                    self.wf(),
                    self.width as int == w0,
                    self.height as int == h0,
                    self.buffer@ == spec_minimap_tiles(buf0, w0, h0, *level, (ty as int
                        * level.width as int + tx as int) as nat),
                decreases level.width - tx,
            {
                proof {
                    vstd::arithmetic::div_mod::lemma_fundamental_div_mod_converse(
                        ty as int * level.width as int + tx as int, level.width as int,
                        ty as int, tx as int);
                }
                if (tx + 2) * MINIMAP_TILE_SIZE <= self.width {
                    let tile_pos = Point::new((tx as i64) * SCALE, (ty as i64) * SCALE);
                    let tile_transparent = level.get_tile(&tile_pos).transparent;
                    let square_color: Color;
                    if !tile_transparent {
                        let texture = level.get_texture(&tile_pos);
                        proof {
                            vstd::arithmetic::mul::lemma_mul_strictly_positive(
                                texture.width as int, texture.height as int);
                        }
                        square_color = texture.layout[0];
                    } else {
                        square_color = Color::new(255, 255, 255);
                    }
                    let rect = Rect {
                        x: self.width - (tx + 2) * MINIMAP_TILE_SIZE,
                        y: (ty + 1) * MINIMAP_TILE_SIZE,
                        width: MINIMAP_TILE_SIZE,
                        height: MINIMAP_TILE_SIZE,
                        color: square_color,
                    };
                    proof {
                        assert(rect == spec_minimap_tile_rect(w0, *level, tx as int, ty as int));
                    }
                    self.draw_rect(rect);
                }
                tx += 1;
            }
            proof {
                vstd::arithmetic::mul::lemma_mul_is_distributive_add_other_way(
                    level.width as int, ty as int, 1);
            }
            ty += 1;
        }
        proof {
            lemma_mul_is_commutative(level.height as int, level.width as int);
        }

        let ghost tiles_done = self.buffer@;
        let p0 = Point::new(
            minimap_px(self.width, camera.pos.x),
            minimap_py(camera.pos.y),
        );
        let angles = camera.get_angles_to_cast();
        let mut k: usize = 0;
        while k < angles.len()
            invariant
                k <= angles@.len(),
                self.wf(),
                self.width as int == w0,
                self.height as int == h0,
                p0.x == spec_minimap_px(w0, camera.pos.x as int),
                p0.y == spec_minimap_py(camera.pos.y as int),
                self.buffer@ == spec_minimap_rays(tiles_done, w0, h0, *camera, *level,
                    k as nat),
            decreases angles@.len() - k,
        {
            let angle = angles[k];
            let cast_result = cast_ray(&camera.pos, &angle, level).0;
            let p1 = Point::new(
                minimap_px(self.width, cast_result.x),
                minimap_py(cast_result.y),
            );
            self.draw_line(p0, p1, Color::new(0, 255, 0));
            k += 1;
        }

        if level.is_in_level(&camera.pos) {
            proof {
                lemma_trunc_div_magnitude((camera.pos.x as int + SCALE) * 16, SCALE as int);
                lemma_trunc_div_magnitude((camera.pos.y as int + SCALE) * 16, SCALE as int);
                lemma_div_pos_is_pos((camera.pos.x as int + SCALE) * 16, SCALE as int);
                lemma_div_pos_is_pos((camera.pos.y as int + SCALE) * 16, SCALE as int);
                assert(16 * SCALE as int <= ((camera.pos.x as int) + SCALE) * 16
                    <= 0x1_0004_0000_0000) by (nonlinear_arith)
                    requires
                        0 <= (camera.pos.x as int) <= 0x100_0000_0000,
                        SCALE == 1024;
                assert(16 * SCALE as int <= ((camera.pos.y as int) + SCALE) * 16
                    <= 0x1_0004_0000_0000) by (nonlinear_arith)
                    requires
                        0 <= (camera.pos.y as int) <= 0x100_0000_0000,
                        SCALE == 1024;
                vstd::arithmetic::div_mod::lemma_div_is_ordered(16 * SCALE as int,
                    (camera.pos.x as int + SCALE) * 16, SCALE as int);
                vstd::arithmetic::div_mod::lemma_div_is_ordered(16 * SCALE as int,
                    (camera.pos.y as int + SCALE) * 16, SCALE as int);
                vstd::arithmetic::div_mod::lemma_div_by_multiple(16, SCALE as int);
                lemma_mul_is_commutative(16, SCALE as int);
            }
            let ax: i64 = trunc_div((camera.pos.x + SCALE) * 16, SCALE);
            let ay: i64 = trunc_div((camera.pos.y + SCALE) * 16, SCALE);
            if ax + 4 <= self.width as i64 {
                let rect = Rect {
                    x: self.width - (ax as usize) - 4,
                    y: (ay as usize) - 4,
                    width: 8,
                    height: 8,
                    color: Color::new(255, 0, 0),
                };
                self.draw_rect(rect);
            }
        }
    }
}

/// A world coordinate turned into a minimap X position in fixed-point
/// pixels, mirrored against the right edge.
fn minimap_px(width: usize, coord: i64) -> (r: i64)
    requires
        width <= MAX_SCREEN_DIM,
        -0x8_0000_0000_0000 <= coord <= 0x8_0000_0000_0000,
    ensures
        r == spec_minimap_px(width as int, coord as int),
        -LINE_COORD_LIMIT <= r <= LINE_COORD_LIMIT,
{
    let a: i64 = trunc_div((coord + SCALE) * 16, SCALE);
    proof {
        lemma_trunc_div_magnitude((coord as int + SCALE) * 16, SCALE as int);
    }
    let a0: i64 = if a < 0 { 0 } else { a };
    let a1: i64 = if a0 > 32768 { 32768 } else { a0 };
    ((width as i64) - a1) * SCALE
}

/// A world coordinate turned into a minimap Y position in fixed-point
/// pixels.
fn minimap_py(coord: i64) -> (r: i64)
    requires
        -0x8_0000_0000_0000 <= coord <= 0x8_0000_0000_0000,
    ensures
        r == spec_minimap_py(coord as int),
        -LINE_COORD_LIMIT <= r <= LINE_COORD_LIMIT,
{
    let a: i64 = trunc_div((coord + SCALE) * 16, SCALE);
    proof {
        lemma_trunc_div_magnitude((coord as int + SCALE) * 16, SCALE as int);
    }
    let a0: i64 = if a < 0 { 0 } else { a };
    let a1: i64 = if a0 > 32768 { 32768 } else { a0 };
    a1 * SCALE
}

/// Compose one frame: a zeroed buffer painted with the background, the
/// textured wall strips, then the minimap overlay.  The result is a pure
/// function of the camera and the level, so rendering the same state twice
/// yields byte-identical buffers.
pub fn render_frame(camera: &Camera, level: &Level, width: usize, height: usize)
    -> (fb: FrameBuffer)
    requires
        camera.wf(),
        level.wf(),
        -MAX_CAMERA_COORD <= camera.pos.x <= MAX_CAMERA_COORD,
        -MAX_CAMERA_COORD <= camera.pos.y <= MAX_CAMERA_COORD,
        1 <= width <= MAX_SCREEN_DIM,
        1 <= height <= MAX_SCREEN_DIM,
    ensures
        fb.wf(),
        fb.width == width,
        fb.height == height,
        fb.buffer@ == spec_render_frame(*camera, *level, width as int, height as int),
        spec_alpha_opaque(fb.buffer@),
{
    let mut frame_buffer = FrameBuffer::new(width, height);
    frame_buffer.draw_background();
    frame_buffer.draw_walls(camera, level);
    frame_buffer.draw_minimap(camera, level);
    proof {
        lemma_frame_fully_opaque(*camera, *level, width as int, height as int);
    }
    frame_buffer
}

/// Law: rendering is deterministic.  Two frames rendered from the same
/// camera and level state, with no input in between, are byte-identical.
pub proof fn lemma_render_deterministic(
    cam: Camera,
    lv: Level,
    w: int,
    h: int,
    b1: Seq<u8>,
    b2: Seq<u8>,
)
    requires
        b1 == spec_render_frame(cam, lv, w, h),
        b2 == spec_render_frame(cam, lv, w, h),
    ensures
        b1 == b2,
{
}

} // verus!
