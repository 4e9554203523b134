//! The level model: a rectangular grid of tile ids, a palette of tile
//! definitions and a palette of textures, with point-to-tile and
//! point-to-texture queries.
//!
//! Out-of-range queries never fail: they resolve to the sentinel entry at
//! index 0 of the corresponding palette.  The in-level test uses the same
//! half-open convention on both bounds (`0 <= coord < dimension`).

use vstd::prelude::*;
use crate::geometry::{Color, Point};
use crate::math::{lemma_row_major_bound, SCALE};
use vstd::arithmetic::div_mod::{
    lemma_div_pos_is_pos, lemma_multiply_divide_lt, lemma_fundamental_div_mod,
    lemma_mod_division_less_than_divisor,
};

verus! {

/// One cell kind of the grid: `solid` gates movement, `transparent` gates
/// ray termination, `texture_index` picks the wall texture.
#[derive(Clone, Debug)]
pub struct Tile {
    pub solid: bool,
    pub transparent: bool,
    pub texture_index: u8,
}

impl Tile {
    pub fn new(texture_index: u8, solid: bool, transparent: bool) -> (t: Tile)
        ensures
            t == (Tile { solid, transparent, texture_index }),
    {
        Tile { texture_index, solid, transparent }
    }
}

/// Largest accepted texture edge, in texels.
pub const MAX_TEXTURE_DIM: usize = 4096;

/// An immutable bitmap, sampled by integer texel column and row.
#[derive(Clone, Debug)]
pub struct Texture {
    pub width: usize,
    pub height: usize,
    pub layout: Vec<Color>,
}

/// The color a texture yields for a fixed-point texture-space point: the
/// texel at the floor of each coordinate, or the first texel when the point
/// lies outside the bitmap.
pub open spec fn spec_texture_color(t: Texture, p: Point) -> Color {
    if 0 <= p.x < t.width * SCALE && 0 <= p.y < t.height * SCALE {
        t.layout@[t.width * (p.y as int / (SCALE as int)) + p.x as int / (SCALE as int)]
    } else {
        t.layout@[0]
    }
}

impl Texture {
    /// Well-formedness: positive bounded extents and one stored color per
    /// texel.
    pub open spec fn wf(self) -> bool {
        &&& 1 <= self.width <= MAX_TEXTURE_DIM
        &&& 1 <= self.height <= MAX_TEXTURE_DIM
        &&& self.layout@.len() == self.width * self.height
    }

    /// Build a texture, rejecting dimensions that do not match the pixel
    /// data; a malformed bitmap is a configuration error caught at load
    /// time, never inside the render path.
    pub fn new(width: usize, height: usize, layout: Vec<Color>) -> (t: Option<Texture>)
        ensures
            match t {
                Some(tex) => {
                    &&& tex == (Texture { width, height, layout })
                    &&& tex.wf()
                },
                None => !(Texture { width, height, layout }).wf(),
            },
    {
        if width < 1 || width > MAX_TEXTURE_DIM || height < 1 || height > MAX_TEXTURE_DIM {
            return None;
        }
        proof {
            vstd::arithmetic::mul::lemma_mul_upper_bound(width as int, 4096, height as int, 4096);
        }
        if layout.len() == width * height {
            Some(Texture { width, height, layout })
        } else {
            None
        }
    }

    /// Sample the texel under a fixed-point texture-space point, falling
    /// back to the first texel outside the bitmap.
    pub fn get_color(&self, point: &Point) -> (c: &Color)
        requires
            self.wf(),
        ensures
            *c == spec_texture_color(*self, *point),
    {
        proof {
            vstd::arithmetic::mul::lemma_mul_strictly_positive(
                self.width as int, self.height as int);
        }
        let w_fixed: i64 = (self.width as i64) * SCALE;
        let h_fixed: i64 = (self.height as i64) * SCALE;
        if point.x >= 0 && point.x < w_fixed && point.y >= 0 && point.y < h_fixed {
            let ix: usize = (point.x / SCALE) as usize;
            let iy: usize = (point.y / SCALE) as usize;
            proof {
                lemma_div_pos_is_pos(point.x as int, SCALE as int);
                lemma_div_pos_is_pos(point.y as int, SCALE as int);
                lemma_multiply_divide_lt(point.x as int, SCALE as int, self.width as int);
                vstd::arithmetic::mul::lemma_mul_is_commutative(self.width as int, SCALE as int);
                lemma_multiply_divide_lt(point.y as int, SCALE as int, self.height as int);
                vstd::arithmetic::mul::lemma_mul_is_commutative(self.height as int, SCALE as int);
                lemma_row_major_bound(ix as int, iy as int, self.width as int, self.height as int);
                vstd::arithmetic::mul::lemma_mul_upper_bound(
                    self.width as int, 4096, self.height as int, 4096);
            }
            &self.layout[self.width * iy + ix]
        } else {
            &self.layout[0]
        }
    }
}

/// Largest accepted level edge, in tiles.
pub const MAX_LEVEL_DIM: usize = 4096;

/// What `Level::new` demands of its inputs: a nonempty rectangular grid,
/// every tile id resolvable in the tile palette, every tile's texture
/// resolvable in the texture palette, and every texture well-formed.
pub open spec fn spec_level_inputs_ok(
    layout: Seq<Vec<u8>>,
    all_tiles: Seq<Tile>,
    all_textures: Seq<Texture>,
) -> bool {
    &&& 1 <= layout.len() <= MAX_LEVEL_DIM
    &&& 1 <= layout[0]@.len() <= MAX_LEVEL_DIM
    &&& forall|r: int| 0 <= r < layout.len() ==> (#[trigger] layout[r])@.len() == layout[0]@.len()
    &&& forall|r: int, c: int|
        0 <= r < layout.len() && 0 <= c < layout[0]@.len()
            ==> (#[trigger] layout[r]@[c]) < all_tiles.len()
    &&& 1 <= all_tiles.len()
    &&& 1 <= all_textures.len()
    &&& forall|i: int|
        0 <= i < all_tiles.len()
            ==> (#[trigger] all_tiles[i]).texture_index < all_textures.len()
    &&& forall|i: int| 0 <= i < all_textures.len() ==> (#[trigger] all_textures[i]).wf()
}

/// A rectangular tile grid with its tile and texture palettes; immutable for
/// the lifetime of a play session.
#[derive(Clone, Debug)]
pub struct Level {
    pub layout: Vec<Vec<u8>>,
    pub all_tiles: Vec<Tile>,
    pub all_textures: Vec<Texture>,
    pub width: usize,
    pub height: usize,
}

/// The tile under a fixed-point world point: grid cell indices are the floor
/// of each coordinate; anything outside the grid resolves to tile 0.
pub open spec fn spec_tile_at(lv: Level, p: Point) -> Tile {
    if 0 <= p.x < lv.width * SCALE && 0 <= p.y < lv.height * SCALE {
        lv.all_tiles@[lv.layout@[p.y as int / (SCALE as int)]@[p.x as int / (SCALE as int)] as int]
    } else {
        lv.all_tiles@[0]
    }
}

/// The texture referenced by the tile under a point.
pub open spec fn spec_texture_at(lv: Level, p: Point) -> Texture {
    lv.all_textures@[spec_tile_at(lv, p).texture_index as int]
}

/// Whether a point lies inside the grid: half-open on both axes.
pub open spec fn spec_is_in_level(lv: Level, p: Point) -> bool {
    0 <= p.x < lv.width * SCALE && 0 <= p.y < lv.height * SCALE
}

impl Level {
    /// Well-formedness carried by every constructed level.
    pub open spec fn wf(self) -> bool {
        &&& 1 <= self.width <= MAX_LEVEL_DIM
        &&& 1 <= self.height <= MAX_LEVEL_DIM
        &&& self.layout@.len() == self.height
        &&& forall|r: int|
            0 <= r < self.height ==> (#[trigger] self.layout@[r])@.len() == self.width
        &&& forall|r: int, c: int|
            0 <= r < self.height && 0 <= c < self.width
                ==> (#[trigger] self.layout@[r]@[c]) < self.all_tiles@.len()
        &&& 1 <= self.all_tiles@.len()
        &&& 1 <= self.all_textures@.len()
        &&& forall|i: int|
            0 <= i < self.all_tiles@.len()
                ==> (#[trigger] self.all_tiles@[i]).texture_index < self.all_textures@.len()
        &&& forall|i: int| 0 <= i < self.all_textures@.len() ==> (#[trigger] self.all_textures@[i]).wf()
    }

    /// Build a level from a grid and its palettes, rejecting an empty or
    /// non-rectangular grid and any dangling palette reference — the
    /// configuration errors reported once at load time.
    pub fn new(layout: Vec<Vec<u8>>, all_tiles: Vec<Tile>, all_textures: Vec<Texture>) -> (l:
        Option<Level>)
        ensures
            match l {
                Some(lv) => {
                    &&& spec_level_inputs_ok(layout@, all_tiles@, all_textures@)
                    &&& lv.wf()
                    &&& lv == (Level {
                        width: layout@[0]@.len() as usize,
                        height: layout@.len() as usize,
                        layout,
                        all_tiles,
                        all_textures,
                    })
                },
                None => !spec_level_inputs_ok(layout@, all_tiles@, all_textures@),
            },
    {
        let height = layout.len();
        if height < 1 || height > MAX_LEVEL_DIM {
            return None;
        }
        let width = layout[0].len();
        if width < 1 || width > MAX_LEVEL_DIM {
            return None;
        }
        if all_tiles.len() < 1 || all_textures.len() < 1 {
            return None;
        }
        let mut r: usize = 0;
        while r < height
            invariant
                height == layout@.len(),
                width == layout@[0]@.len(),
                r <= height,
                forall|i: int| 0 <= i < r ==> (#[trigger] layout@[i])@.len() == width,
                forall|i: int, c: int|
                    0 <= i < r && 0 <= c < width
                        ==> (#[trigger] layout@[i]@[c]) < all_tiles@.len(),
            decreases height - r,
        {
            let row = &layout[r];
            if row.len() != width {
                return None;
            }
            let mut c: usize = 0;
            while c < width
                invariant
                    height == layout@.len(),
                    width == layout@[0]@.len(),
                    r < height,
                    c <= width,
                    layout@[r as int]@.len() == width,
                    forall|i: int| 0 <= i < r ==> (#[trigger] layout@[i])@.len() == width,
                    forall|i: int, cc: int|
                        0 <= i < r && 0 <= cc < width
                            ==> (#[trigger] layout@[i]@[cc]) < all_tiles@.len(),
                    forall|cc: int|
                        0 <= cc < c ==> (#[trigger] layout@[r as int]@[cc]) < all_tiles@.len(),
                decreases width - c,
            {
                if layout[r][c] as usize >= all_tiles.len() {
                    return None;
                }
                c += 1;
            }
            r += 1;
        }
        let mut i: usize = 0;
        while i < all_tiles.len()
            invariant
                i <= all_tiles@.len(),
                forall|j: int|
                    0 <= j < i
                        ==> (#[trigger] all_tiles@[j]).texture_index < all_textures@.len(),
            decreases all_tiles@.len() - i,
        {
            if all_tiles[i].texture_index as usize >= all_textures.len() {
                return None;
            }
            i += 1;
        }
        let mut i: usize = 0;
        while i < all_textures.len()
            invariant
                i <= all_textures@.len(),
                forall|j: int| 0 <= j < i ==> (#[trigger] all_textures@[j]).wf(),
            decreases all_textures@.len() - i,
        {
            let t = &all_textures[i];
            if t.width < 1 || t.width > MAX_TEXTURE_DIM || t.height < 1
                || t.height > MAX_TEXTURE_DIM {
                return None;
            }
            proof {
                vstd::arithmetic::mul::lemma_mul_upper_bound(
                    t.width as int, 4096, t.height as int, 4096);
            }
            if t.layout.len() != t.width * t.height {
                return None;
            }
            i += 1;
        }
        Some(Level { width, height, layout, all_tiles, all_textures })
    }

    /// The tile under a point; out-of-range points resolve to tile 0.
    pub fn get_tile(&self, point: &Point) -> (t: &Tile)
        requires
            self.wf(),
        ensures
            *t == spec_tile_at(*self, *point),
    {
        let w_fixed: i64 = (self.width as i64) * SCALE;
        let h_fixed: i64 = (self.height as i64) * SCALE;
        if point.x >= 0 && point.x < w_fixed && point.y >= 0 && point.y < h_fixed {
            let cx: usize = (point.x / SCALE) as usize;
            let cy: usize = (point.y / SCALE) as usize;
            proof {
                lemma_div_pos_is_pos(point.x as int, SCALE as int);
                lemma_div_pos_is_pos(point.y as int, SCALE as int);
                lemma_multiply_divide_lt(point.x as int, SCALE as int, self.width as int);
                vstd::arithmetic::mul::lemma_mul_is_commutative(self.width as int, SCALE as int);
                lemma_multiply_divide_lt(point.y as int, SCALE as int, self.height as int);
                vstd::arithmetic::mul::lemma_mul_is_commutative(self.height as int, SCALE as int);
            }
            &self.all_tiles[self.layout[cy][cx] as usize]
        } else {
            &self.all_tiles[0]
        }
    }

    /// The texture referenced by the tile under a point.
    pub fn get_texture(&self, point: &Point) -> (t: &Texture)
        requires
            self.wf(),
        ensures
            *t == spec_texture_at(*self, *point),
            t.wf(),
    {
        let tile_index = self.get_tile(point).texture_index;
        &self.all_textures[tile_index as usize]
    }

    /// Whether a point lies inside the grid (half-open on both axes).
    pub fn is_in_level(&self, point: &Point) -> (r: bool)
        requires
            self.wf(),
        ensures
            r == spec_is_in_level(*self, *point),
    {
        let w_fixed: i64 = (self.width as i64) * SCALE;
        let h_fixed: i64 = (self.height as i64) * SCALE;
        if point.x < 0 || point.x >= w_fixed || point.y < 0 || point.y >= h_fixed {
            false
        } else {
            true
        }
    }
}

/// Repack raw RGBA bytes (stride 4, alpha dropped) as colors.
#[verifier::loop_isolation(false)]
pub fn vec_u8_to_vec_color_with_trans(pixels: Vec<u8>) -> (out: Vec<Color>)
    ensures
        out@.len() == pixels@.len() as int / 4,
        forall|i: int|
            0 <= i < out@.len() ==> #[trigger] out@[i] == (Color {
                r: pixels@[i * 4],
                g: pixels@[i * 4 + 1],
                b: pixels@[i * 4 + 2],
            }),
{
    let n = pixels.len() / 4;
    proof {
        lemma_fundamental_div_mod(pixels@.len() as int, 4);
        lemma_mod_division_less_than_divisor(pixels@.len() as int, 4);
    }
    let mut out: Vec<Color> = Vec::new();
    let mut i: usize = 0;
    while i < n
        invariant
            n == pixels@.len() as int / 4,
            4 * n <= pixels@.len(),
            i <= n,
            out@.len() == i,
            forall|j: int|
                0 <= j < i ==> #[trigger] out@[j] == (Color {
                    r: pixels@[j * 4],
                    g: pixels@[j * 4 + 1],
                    b: pixels@[j * 4 + 2],
                }),
        decreases n - i,
    {
        proof {
            assert(i * 4 + 2 < pixels@.len());
        }
        out.push(Color { r: pixels[i * 4], g: pixels[i * 4 + 1], b: pixels[i * 4 + 2] });
        i += 1;
    }
    out
}

/// Repack raw RGB bytes (stride 3) as colors.
#[verifier::loop_isolation(false)]
pub fn vec_u8_to_vec_color(pixels: Vec<u8>) -> (out: Vec<Color>)
    ensures
        out@.len() == pixels@.len() as int / 3,
        forall|i: int|
            0 <= i < out@.len() ==> #[trigger] out@[i] == (Color {
                r: pixels@[i * 3],
                g: pixels@[i * 3 + 1],
                b: pixels@[i * 3 + 2],
            }),
{
    let n = pixels.len() / 3;
    proof {
        lemma_fundamental_div_mod(pixels@.len() as int, 3);
        lemma_mod_division_less_than_divisor(pixels@.len() as int, 3);
    }
    let mut out: Vec<Color> = Vec::new();
    let mut i: usize = 0;
    while i < n
        invariant
            n == pixels@.len() as int / 3,
            3 * n <= pixels@.len(),
            i <= n,
            out@.len() == i,
            forall|j: int|
                0 <= j < i ==> #[trigger] out@[j] == (Color {
                    r: pixels@[j * 3],
                    g: pixels@[j * 3 + 1],
                    b: pixels@[j * 3 + 2],
                }),
        decreases n - i,
    {
        proof {
            assert(i * 3 + 2 < pixels@.len());
        }
        out.push(Color { r: pixels[i * 3], g: pixels[i * 3 + 1], b: pixels[i * 3 + 2] });
        i += 1;
    }
    out
}

} // verus!
