//! The DDA grid-marching ray caster: from an origin and a heading, walk the
//! grid one cell-boundary crossing at a time along whichever axis is nearer,
//! until the entered cell is opaque or the iteration bound runs out.

use vstd::prelude::*;
use crate::geometry::{Point, Rotation};
use crate::level::{Level, spec_tile_at};
use crate::math::{
    spec_cos, spec_sin, spec_trunc_div, spec_normalize_degrees, cos_fixed, sin_fixed, trunc_div,
    lemma_trunc_div_remainder, lemma_trunc_div_magnitude,
    SCALE, QUARTER_TURN, HALF_TURN, FULL_TURN,
};
use crate::camera::MAX_CAMERA_COORD;
use vstd::arithmetic::div_mod::{
    lemma_div_pos_is_pos, lemma_div_is_ordered_by_denominator, lemma_div_by_multiple,
};
use vstd::arithmetic::mul::{
    lemma_mul_is_distributive_add_other_way, lemma_mul_inequality, lemma_mul_is_commutative,
};

verus! {

/// The per-axis crossing distance used for an axis the ray never crosses
/// (direction component zero), and the cap on returned distances: any
/// distance this large means "no visible wall".
pub const CAST_INFINITY: i64 = 0x100_0000_0000;

/// Pushed onto the travelled distance so the hit point lands just past the
/// cell boundary it crossed, not exactly on it.
pub const CAST_EPSILON: i64 = 1;

/// How far a cast may march: enough to cross the whole level twice over,
/// and at least the classical bound of one hundred cells.
pub open spec fn spec_cast_bound(lv: Level) -> int {
    if 2 * (lv.width + lv.height) > 100 {
        2 * (lv.width as int + lv.height as int)
    } else {
        100
    }
}

/// Whether the grid cell `(mx, my)` lets rays pass.
pub open spec fn spec_cell_transparent(lv: Level, mx: int, my: int) -> bool {
    spec_tile_at(lv, Point { x: (mx * SCALE) as i64, y: (my * SCALE) as i64 }).transparent
}

/// Distance along the ray consumed by one whole cell crossing on an axis:
/// `SCALE^2 / |dir|` in fixed-point units, or `CAST_INFINITY` for an axis
/// the ray is parallel to.
pub open spec fn spec_ray_delta(dir: int) -> int {
    if dir == 0 {
        CAST_INFINITY as int
    } else if dir < 0 {
        (SCALE as int * SCALE as int) / (-dir)
    } else {
        (SCALE as int * SCALE as int) / dir
    }
}

/// One DDA march: advance along whichever axis has the nearer next grid
/// line, step by `fuel` crossings at most, and stop in the first
/// non-transparent cell entered.  The state is `(map_x, map_y, side_x,
/// side_y, last_step_was_y)`.
pub open spec fn spec_dda(
    lv: Level,
    delta_x: int,
    delta_y: int,
    step_x: int,
    step_y: int,
    map_x: int,
    map_y: int,
    side_x: int,
    side_y: int,
    side_is_y: bool,
    fuel: nat,
) -> (int, int, int, int, bool)
    decreases fuel,
{
    if fuel == 0 {
        (map_x, map_y, side_x, side_y, side_is_y)
    } else {
        if side_x < side_y {
            let mx = map_x + step_x;
            let sx = side_x + delta_x;
            if !spec_cell_transparent(lv, mx, map_y) {
                (mx, map_y, sx, side_y, false)
            } else {
                spec_dda(lv, delta_x, delta_y, step_x, step_y, mx, map_y, sx, side_y, false,
                    (fuel - 1) as nat)
            }
        } else {
            let my = map_y + step_y;
            let sy = side_y + delta_y;
            if !spec_cell_transparent(lv, map_x, my) {
                (map_x, my, side_x, sy, true)
            } else {
                spec_dda(lv, delta_x, delta_y, step_x, step_y, map_x, my, side_x, sy, true,
                    (fuel - 1) as nat)
            }
        }
    }
}

/// The initial per-axis march state: step direction and the distance from
/// the origin to the first grid-line crossing on that axis.
pub open spec fn spec_side_init(pos: int, map0: int, dir: int, delta: int) -> (int, int) {
    if dir < 0 {
        (-1, spec_trunc_div((pos - map0 * SCALE) * delta, SCALE as int))
    } else {
        (1, spec_trunc_div(((map0 + 1) * SCALE - pos) * delta, SCALE as int))
    }
}

/// What a cast returns: the exact impact point and the fixed-point distance
/// travelled, capped at `CAST_INFINITY`.
pub open spec fn spec_cast_ray(pos: Point, deg: int, lv: Level) -> (Point, int) {
    let dir_x = spec_cos(deg);
    let dir_y = spec_sin(deg);
    let delta_x = spec_ray_delta(dir_x);
    let delta_y = spec_ray_delta(dir_y);
    let map_x0 = spec_trunc_div(pos.x as int, SCALE as int);
    let map_y0 = spec_trunc_div(pos.y as int, SCALE as int);
    let sx = spec_side_init(pos.x as int, map_x0, dir_x, delta_x);
    let sy = spec_side_init(pos.y as int, map_y0, dir_y, delta_y);
    let end = spec_dda(lv, delta_x, delta_y, sx.0, sy.0, map_x0, map_y0, sx.1, sy.1, false,
        spec_cast_bound(lv) as nat);
    let raw = if !end.4 {
        end.2 - delta_x + CAST_EPSILON
    } else {
        end.3 - delta_y + CAST_EPSILON
    };
    let distance = if raw > CAST_INFINITY {
        CAST_INFINITY as int
    } else if raw < -CAST_INFINITY {
        -CAST_INFINITY as int
    } else {
        raw
    };
    (
        Point {
            x: (pos.x + spec_trunc_div(dir_x * distance, SCALE as int)) as i64,
            y: (pos.y + spec_trunc_div(dir_y * distance, SCALE as int)) as i64,
        },
        distance,
    )
}

/// An eastward march whose crossing distances on the idle axis stay out of
/// reach walks cell by cell along X until the wall cell, accumulating one
/// `SCALE` of ray distance per crossing.
proof fn lemma_dda_marches_east(
    lv: Level,
    cy: int,
    map_x: int,
    side_x: int,
    side_y: int,
    side_is_y: bool,
    wx: int,
    fuel: nat,
)
    requires
        map_x < wx,
        wx - map_x <= fuel,
        side_x + (wx - map_x) * SCALE <= side_y,
        forall|m: int| map_x < m < wx ==> #[trigger] spec_cell_transparent(lv, m, cy),
        !spec_cell_transparent(lv, wx, cy),
    ensures
        spec_dda(lv, SCALE as int, CAST_INFINITY as int, 1, 1, map_x, cy, side_x, side_y,
            side_is_y, fuel) == (wx, cy, side_x + (wx - map_x) * SCALE, side_y, false),
    decreases fuel,
{
    assert(side_x < side_y);
    let mx = map_x + 1;
    let sx = side_x + SCALE;
    if mx == wx {
    } else {
        lemma_dda_marches_east(lv, cy, mx, sx, side_y, false, wx, (fuel - 1) as nat);
        assert(sx + (wx - mx) * SCALE == side_x + (wx - map_x) * SCALE);
    }
}

/// Law: a ray cast from a point with nonnegative coordinates straight east
/// at a wall reports exactly the distance to the wall plane, plus the
/// boundary epsilon, and a hit point on that plane at the ray's own Y
/// coordinate.  The other three axis directions behave symmetrically.
pub proof fn lemma_axis_aligned_cast(pos: Point, lv: Level, wx: int)
    requires
        lv.wf(),
        0 <= pos.x <= MAX_CAMERA_COORD,
        0 <= pos.y <= MAX_CAMERA_COORD,
        pos.x as int / (SCALE as int) < wx,
        wx - pos.x as int / (SCALE as int) <= spec_cast_bound(lv),
        forall|m: int|
            pos.x as int / (SCALE as int) < m < wx ==> #[trigger] spec_cell_transparent(lv, m,
            pos.y as int / (SCALE as int)),
        !spec_cell_transparent(lv, wx, pos.y as int / (SCALE as int)),
    ensures
        spec_cast_ray(pos, 0, lv).1 == wx * SCALE - pos.x + CAST_EPSILON,
        spec_cast_ray(pos, 0, lv).0.x == wx * SCALE + CAST_EPSILON,
        spec_cast_ray(pos, 0, lv).0.y == pos.y,
{
    let s = SCALE as int;
    let cx = pos.x as int / s;
    let cy = pos.y as int / s;

    // The eastward direction vector: full scale on X, nothing on Y.
    assert(spec_normalize_degrees(QUARTER_TURN as int) == QUARTER_TURN as int) by {
        crate::math::lemma_norm_small(QUARTER_TURN as int);
    }
    assert(spec_cos(0) == s) by {
        let q = QUARTER_TURN as int;
        assert(q * (HALF_TURN as int - q) == 8493465600);
        assert(4 * 8493465600 * (SCALE as int) == 1024 * 33973862400);
        lemma_mul_is_commutative(1024, 33973862400);
        lemma_div_by_multiple(1024, 33973862400);
    }
    assert(spec_sin(0) == 0) by {
        crate::math::lemma_sin_at_zero();
    }
    assert(spec_ray_delta(s) == s);
    assert(spec_ray_delta(0) == CAST_INFINITY as int);

    // Cell indices are the floors of the coordinates.
    vstd::arithmetic::div_mod::lemma_fundamental_div_mod(pos.x as int, s);
    vstd::arithmetic::div_mod::lemma_mod_division_less_than_divisor(pos.x as int, s);
    vstd::arithmetic::div_mod::lemma_fundamental_div_mod(pos.y as int, s);
    vstd::arithmetic::div_mod::lemma_mod_division_less_than_divisor(pos.y as int, s);
    lemma_div_pos_is_pos(pos.x as int, s);
    lemma_div_pos_is_pos(pos.y as int, s);

    // The initial crossing distances: exact on X, out of reach on Y.
    let fx = (cx + 1) * s - pos.x;
    assert(1 <= fx <= s);
    assert(spec_trunc_div(fx * SCALE, s) == fx) by {
        lemma_mul_is_commutative(fx, s);
        lemma_div_by_multiple(fx, s);
    }
    let fy = (cy + 1) * s - pos.y;
    assert(1 <= fy <= s);
    let side_y0 = spec_trunc_div(fy * CAST_INFINITY, s);
    assert(side_y0 >= 0x4000_0000) by {
        assert(fy * CAST_INFINITY >= CAST_INFINITY) by (nonlinear_arith)
            requires fy >= 1, CAST_INFINITY == 0x100_0000_0000i64;
        vstd::arithmetic::div_mod::lemma_div_is_ordered(CAST_INFINITY as int,
            fy * CAST_INFINITY, s);
        lemma_mul_is_commutative(s, 0x4000_0000);
        lemma_div_by_multiple(0x4000_0000, s);
    }

    // March to the wall.
    assert(wx - cx <= 16384 + 100);
    lemma_dda_marches_east(lv, cy, cx, fx, side_y0, false, wx, spec_cast_bound(lv) as nat);
    let raw = fx + (wx - cx) * s - s + CAST_EPSILON;
    assert(raw == wx * s - pos.x + CAST_EPSILON) by {
        vstd::arithmetic::mul::lemma_mul_is_distributive_sub_other_way(s, wx, cx);
    }
    assert(1 <= raw <= CAST_INFINITY);

    // The returned point advances the full distance on X and nothing on Y.
    assert(spec_trunc_div(s * raw, s) == raw) by {
        lemma_div_by_multiple(raw, s);
    }
    assert(spec_trunc_div(0 * raw, s) == 0);
}

/// Two DDA marches whose Y rows mirror each other across row `cy`, through
/// a level whose transparency is symmetric about that row, stay in lockstep:
/// same X cells, same crossing distances, same stopping step — only the Y
/// rows stay mirrored.
proof fn lemma_dda_mirrored(
    lv: Level,
    cy: int,
    delta_x: int,
    delta_y: int,
    step_x: int,
    map_x: int,
    map_ya: int,
    map_yb: int,
    side_x: int,
    side_y: int,
    side_is_y: bool,
    fuel: nat,
)
    requires
        map_ya + map_yb == 2 * cy,
        forall|mx: int, my: int|
            #[trigger] spec_cell_transparent(lv, mx, my) == spec_cell_transparent(lv, mx, 2 * cy
                - my),
    ensures
        ({
            let ra = spec_dda(lv, delta_x, delta_y, step_x, 1, map_x, map_ya, side_x, side_y,
                side_is_y, fuel);
            let rb = spec_dda(lv, delta_x, delta_y, step_x, -1, map_x, map_yb, side_x, side_y,
                side_is_y, fuel);
            ra.0 == rb.0 && ra.1 + rb.1 == 2 * cy && ra.2 == rb.2 && ra.3 == rb.3 && ra.4
                == rb.4
        }),
    decreases fuel,
{
    if fuel == 0 {
    } else {
        if side_x < side_y {
            let mx = map_x + step_x;
            assert(spec_cell_transparent(lv, mx, map_ya) == spec_cell_transparent(lv, mx,
                map_yb));
            if spec_cell_transparent(lv, mx, map_ya) {
                lemma_dda_mirrored(lv, cy, delta_x, delta_y, step_x, mx, map_ya, map_yb,
                    side_x + delta_x, side_y, false, (fuel - 1) as nat);
            }
        } else {
            let mya = map_ya + 1;
            let myb = map_yb - 1;
            assert(spec_cell_transparent(lv, map_x, mya) == spec_cell_transparent(lv, map_x,
                myb));
            if spec_cell_transparent(lv, map_x, mya) {
                lemma_dda_mirrored(lv, cy, delta_x, delta_y, step_x, map_x, mya, myb, side_x,
                    side_y + delta_y, true, (fuel - 1) as nat);
            }
        }
    }
}

/// Law: fish-eye symmetry of whole casts.  From a camera centered in its
/// row of cells, inside a level whose transparency is symmetric about that
/// row, the rays at mirrored headings `deg` and `-deg` travel the same raw
/// distance — so with the correction factor (whose cosine is the same for
/// both, `lemma_cos_mirror_full`) their corrected distances are equal too.
pub proof fn lemma_cast_symmetric_offsets(pos: Point, lv: Level, deg: int)
    requires
        0 < deg < FULL_TURN,
        0 <= pos.y <= MAX_CAMERA_COORD,
        pos.y as int % (SCALE as int) == SCALE as int / 2,
        forall|mx: int, my: int|
            #[trigger] spec_cell_transparent(lv, mx, my) == spec_cell_transparent(lv, mx, 2 * (
            pos.y as int / (SCALE as int)) - my),
    ensures
        spec_cast_ray(pos, FULL_TURN as int - deg, lv).1 == spec_cast_ray(pos, deg, lv).1,
        spec_trunc_div(
            spec_cast_ray(pos, FULL_TURN as int - deg, lv).1 * spec_cos(FULL_TURN as int - deg),
            SCALE as int,
        ) == spec_trunc_div(spec_cast_ray(pos, deg, lv).1 * spec_cos(deg), SCALE as int),
{
    let s = SCALE as int;
    let t = FULL_TURN as int;
    let cy = pos.y as int / s;

    crate::math::lemma_cos_mirror_full(deg);
    crate::math::lemma_sin_mirror_full(deg);
    let dir_x = spec_cos(deg);
    let dir_y = spec_sin(deg);

    // The camera sits exactly half a cell from both horizontal grid lines.
    vstd::arithmetic::div_mod::lemma_fundamental_div_mod(pos.y as int, s);
    assert(pos.y as int - cy * s == s / 2);

    if dir_y == 0 {
        assert(spec_sin(t - deg) == 0);
    } else if dir_y > 0 {
        lemma_dda_mirrored(lv, cy, spec_ray_delta(dir_x), spec_ray_delta(dir_y), if dir_x < 0 {
            -1
        } else {
            1
        }, spec_trunc_div(pos.x as int, s), cy, cy, spec_side_init(pos.x as int,
            spec_trunc_div(pos.x as int, s), dir_x, spec_ray_delta(dir_x)).1, spec_trunc_div((
        (cy + 1) * s - pos.y) * spec_ray_delta(dir_y), s), false, spec_cast_bound(lv) as nat);
    } else {
        lemma_dda_mirrored(lv, cy, spec_ray_delta(dir_x), spec_ray_delta(dir_y), if dir_x < 0 {
            -1
        } else {
            1
        }, spec_trunc_div(pos.x as int, s), cy, cy, spec_side_init(pos.x as int,
            spec_trunc_div(pos.x as int, s), dir_x, spec_ray_delta(dir_x)).1, spec_trunc_div((
        pos.y as int - cy * s) * spec_ray_delta(dir_y), s), false, spec_cast_bound(lv) as nat);
    }
}

/// The fixed-point distance consumed by one cell crossing on an axis.
fn ray_delta(dir: i64) -> (d: i64)
    requires
        -SCALE <= dir <= SCALE,
    ensures
        d == spec_ray_delta(dir as int),
        SCALE <= d <= CAST_INFINITY,
{
    if dir == 0 {
        CAST_INFINITY
    } else {
        let mag: i64 = if dir < 0 { -dir } else { dir };
        proof {
            lemma_div_pos_is_pos(SCALE as int * SCALE as int, mag as int);
            lemma_div_is_ordered_by_denominator(SCALE as int * SCALE as int, mag as int,
                SCALE as int);
            lemma_div_by_multiple(SCALE as int, SCALE as int);
        }
        (SCALE * SCALE) / mag
    }
}

/// Cast a ray from `pos` along `rotation` until it enters an opaque cell or
/// exhausts the march bound, returning the impact point and the travelled
/// distance (capped at `CAST_INFINITY`; treat such a distance as "no wall").
///
/// Verus proves this function total: the march can never loop beyond the
/// bound `spec_cast_bound`, even in a level with no opaque cell at all.
#[verifier::loop_isolation(false)]
#[verifier::rlimit(60)]
pub fn cast_ray(pos: &Point, rotation: &Rotation, level: &Level) -> (r: (Point, i64))
    requires
        rotation.wf(),
        level.wf(),
        -MAX_CAMERA_COORD <= pos.x <= MAX_CAMERA_COORD,
        -MAX_CAMERA_COORD <= pos.y <= MAX_CAMERA_COORD,
    ensures
        r.0 == spec_cast_ray(*pos, rotation.degree as int, *level).0,
        r.1 == spec_cast_ray(*pos, rotation.degree as int, *level).1,
        r.1 <= CAST_INFINITY,
        -(CAST_INFINITY as int) <= r.1,
        -0x8_0000_0000_0000 <= r.0.x <= 0x8_0000_0000_0000,
        -0x8_0000_0000_0000 <= r.0.y <= 0x8_0000_0000_0000,
{
    let dir_x = cos_fixed(rotation.degree);
    let dir_y = sin_fixed(rotation.degree);
    let delta_x = ray_delta(dir_x);
    let delta_y = ray_delta(dir_y);
    let mut map_x = trunc_div(pos.x, SCALE);
    let mut map_y = trunc_div(pos.y, SCALE);
    proof {
        lemma_trunc_div_remainder(pos.x as int, SCALE as int);
        lemma_trunc_div_remainder(pos.y as int, SCALE as int);
        lemma_trunc_div_magnitude(pos.x as int, SCALE as int);
        lemma_trunc_div_magnitude(pos.y as int, SCALE as int);
    }

    proof {
        assert forall|f: int, dl: int| -2 * (SCALE as int) < f < 2 * SCALE
            && 0 < dl <= CAST_INFINITY as int implies -0x8_0000_0000_0000 < #[trigger] (f * dl)
            < 0x8_0000_0000_0000 by {
            assert(-0x8_0000_0000_0000 < f * dl < 0x8_0000_0000_0000) by (nonlinear_arith)
                requires
                    -2048 < f < 2048,
                    0 < dl <= 0x100_0000_0000,
                    SCALE == 1024,
                    CAST_INFINITY == 0x100_0000_0000i64;
        }
    }
    let step_x: i64;
    let mut side_x: i64;
    if dir_x < 0 {
        step_x = -1;
        let frac = pos.x - map_x * SCALE;
        side_x = trunc_div(frac * delta_x, SCALE);
        proof {
            lemma_trunc_div_magnitude(frac as int * delta_x as int, SCALE as int);
        }
    } else {
        step_x = 1;
        let frac = (map_x + 1) * SCALE - pos.x;
        side_x = trunc_div(frac * delta_x, SCALE);
        proof {
            lemma_trunc_div_magnitude(frac as int * delta_x as int, SCALE as int);
        }
    }
    let step_y: i64;
    let mut side_y: i64;
    if dir_y < 0 {
        step_y = -1;
        let frac = pos.y - map_y * SCALE;
        side_y = trunc_div(frac * delta_y, SCALE);
        proof {
            lemma_trunc_div_magnitude(frac as int * delta_y as int, SCALE as int);
        }
    } else {
        step_y = 1;
        let frac = (map_y + 1) * SCALE - pos.y;
        side_y = trunc_div(frac * delta_y, SCALE);
        proof {
            lemma_trunc_div_magnitude(frac as int * delta_y as int, SCALE as int);
        }
    }
    proof {
        assert(-0x8_0000_0000_0000 < (side_x as int) < 0x8_0000_0000_0000);
        assert(-0x8_0000_0000_0000 < (side_y as int) < 0x8_0000_0000_0000);
    }

    let mut side_is_y: bool = false;
    let bound: i64 = {
        let perimeter: i64 = 2 * ((level.width + level.height) as i64);
        if perimeter > 100 {
            perimeter
        } else {
            100
        }
    };
    let ghost full = spec_dda(*level, delta_x as int, delta_y as int, step_x as int,
        step_y as int, map_x as int, map_y as int, side_x as int, side_y as int, false,
        spec_cast_bound(*level) as nat);
    let ghost side_x0 = side_x as int;
    let ghost side_y0 = side_y as int;
    let ghost map_x0 = map_x as int;
    let ghost map_y0 = map_y as int;

    let mut hit: bool = false;
    let mut i: i64 = 0;
    while i < bound && !hit
        invariant
            0 <= i <= bound,
            bound == spec_cast_bound(*level),
            side_x0 <= side_x as int <= side_x0 + i as int * CAST_INFINITY as int,
            side_y0 <= side_y as int <= side_y0 + i as int * CAST_INFINITY as int,
            map_x0 - i <= map_x as int <= map_x0 + i,
            map_y0 - i <= map_y as int <= map_y0 + i,
            hit ==> full == (map_x as int, map_y as int, side_x as int, side_y as int,
                side_is_y),
            !hit ==> full == spec_dda(*level, delta_x as int, delta_y as int, step_x as int,
                step_y as int, map_x as int, map_y as int, side_x as int, side_y as int,
                side_is_y, (bound - i) as nat),
        decreases bound - i,
    {
        proof {
            lemma_mul_is_distributive_add_other_way(CAST_INFINITY as int, i as int, 1);
            lemma_mul_inequality(i as int, i as int + 1, CAST_INFINITY as int);
        }
        if side_x < side_y {
            side_x = side_x + delta_x;
            map_x = map_x + step_x;
            side_is_y = false;
        } else {
            side_y = side_y + delta_y;
            map_y = map_y + step_y;
            side_is_y = true;
        }
        if !level.get_tile(&Point::new(map_x * SCALE, map_y * SCALE)).transparent {
            hit = true;
        }
        i = i + 1;
    }

    let raw: i64 = if !side_is_y {
        side_x - delta_x + CAST_EPSILON
    } else {
        side_y - delta_y + CAST_EPSILON
    };
    let distance: i64 = if raw > CAST_INFINITY {
        CAST_INFINITY
    } else if raw < -CAST_INFINITY {
        -CAST_INFINITY
    } else {
        raw
    };
    proof {
        assert(-0x4_0000_0000_0000 <= dir_x as int * distance as int
            <= 0x4_0000_0000_0000) by (nonlinear_arith)
            requires
                -(SCALE as int) <= dir_x as int <= SCALE as int,
                -(CAST_INFINITY as int) <= distance as int <= CAST_INFINITY as int,
                SCALE == 1024,
                CAST_INFINITY == 0x100_0000_0000i64;
        assert(-0x4_0000_0000_0000 <= dir_y as int * distance as int
            <= 0x4_0000_0000_0000) by (nonlinear_arith)
            requires
                -(SCALE as int) <= dir_y as int <= SCALE as int,
                -(CAST_INFINITY as int) <= distance as int <= CAST_INFINITY as int,
                SCALE == 1024,
                CAST_INFINITY == 0x100_0000_0000i64;
        lemma_trunc_div_magnitude(dir_x as int * distance as int, SCALE as int);
        lemma_trunc_div_magnitude(dir_y as int * distance as int, SCALE as int);
    }
    let hit_point = Point::new(
        pos.x + trunc_div(dir_x * distance, SCALE),
        pos.y + trunc_div(dir_y * distance, SCALE),
    );
    (hit_point, distance)
}

} // verus!
