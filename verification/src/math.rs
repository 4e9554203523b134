//! Fixed-point arithmetic helpers: angle normalization, truncating division,
//! a sine/cosine approximation and an integer square root.

use vstd::prelude::*;
use vstd::arithmetic::div_mod::{
    lemma_fundamental_div_mod, lemma_mod_multiples_vanish, lemma_small_mod,
};

verus! {

/// Fixed-point unit: world coordinates and degrees are stored as multiples of
/// `1/SCALE`.
pub const SCALE: i64 = 1024;

/// A full turn (360 degrees) in fixed-point degree units.
pub const FULL_TURN: i64 = 360 * SCALE;

/// Half a turn (180 degrees) in fixed-point degree units.
pub const HALF_TURN: i64 = 180 * SCALE;

/// A quarter turn (90 degrees) in fixed-point degree units.
pub const QUARTER_TURN: i64 = 90 * SCALE;

/// Bound on the angle values `clamp_degrees` accepts; far larger than any
/// angle the renderer produces, and small enough that negation cannot
/// overflow an `i64`.
pub const MAX_ANGLE_INPUT: i64 = 0x4000_0000_0000_0000;

/// A heading reduced into `[0, FULL_TURN)`: the Euclidean remainder mod 360
/// degrees.
pub open spec fn spec_normalize_degrees(v: int) -> int {
    v % (FULL_TURN as int)
}

/// Reduce a fixed-point degree value into `[0, FULL_TURN)`.
pub fn clamp_degrees(value: i64) -> (r: i64)
    requires
        -MAX_ANGLE_INPUT < value < MAX_ANGLE_INPUT,
    ensures
        r == spec_normalize_degrees(value as int),
        0 <= r < FULL_TURN,
{
    if value >= 0 {
        value % FULL_TURN
    } else {
        let m: i64 = (-value) % FULL_TURN;
        proof {
            let t = FULL_TURN as int;
            let p = -(value as int);
            lemma_fundamental_div_mod(p, t);
            // value == t * (-(p / t)) + (-(p % t))
            lemma_mod_multiples_vanish(-(p / t), -(p % t), t);
            if p % t == 0 {
                lemma_small_mod(0nat, t as nat);
            } else {
                lemma_mod_multiples_vanish(1, -(p % t), t);
                lemma_small_mod((t - p % t) as nat, t as nat);
            }
        }
        if m == 0 {
            0
        } else {
            FULL_TURN - m
        }
    }
}

/// Law: normalization is idempotent — reducing an already reduced heading
/// changes nothing.
pub proof fn lemma_normalize_idempotent(v: int)
    ensures
        spec_normalize_degrees(spec_normalize_degrees(v)) == spec_normalize_degrees(v),
{
    let t = FULL_TURN as int;
    vstd::arithmetic::div_mod::lemma_mod_twice(v, t);
}

/// Numerator weight of the quadratic sine approximation.
pub const SIN_APPROX_BASE: i64 = 40500;

/// Peak value of `x * (HALF_TURN - x)` on `[0, HALF_TURN]`, reached at a
/// quarter turn.
pub const SIN_HUMP_PEAK: i64 = 8100 * SCALE * SCALE;

/// Sine on `[0, HALF_TURN]`, scaled by `SCALE`, via the classical quadratic
/// approximation `sin(x degrees) ~= 4x(180-x) / (40500 - x(180-x))`.  It is
/// exact at 0, 30, 90, 150 and 180 degrees and within 0.2% everywhere else.
pub open spec fn spec_sin_half(x: int) -> int {
    let u = x * (HALF_TURN - x);
    (4 * u * SCALE) / (SIN_APPROX_BASE * SCALE * SCALE - u)
}

/// Sine of a normalized fixed-point heading in `[0, FULL_TURN)`, scaled by
/// `SCALE`.
pub open spec fn spec_sin(x: int) -> int {
    if x <= HALF_TURN {
        spec_sin_half(x)
    } else {
        -spec_sin_half(x - HALF_TURN)
    }
}

/// Cosine of any fixed-point heading, scaled by `SCALE`: the sine shifted by
/// a quarter turn.  Total in its argument, and periodic by construction.
pub open spec fn spec_cos(x: int) -> int {
    spec_sin(spec_normalize_degrees(x + QUARTER_TURN))
}

proof fn lemma_sin_hump_bounds(x: int)
    requires
        0 <= x <= HALF_TURN,
    ensures
        0 <= x * (HALF_TURN - x) <= SIN_HUMP_PEAK,
{
    assert(0 <= x * (184320 - x) <= 8493465600) by (nonlinear_arith)
        requires 0 <= x <= 184320;
}

proof fn lemma_sin_half_bounds(x: int)
    requires
        0 <= x <= HALF_TURN,
    ensures
        0 <= spec_sin_half(x) <= SCALE,
{
    let u = x * (HALF_TURN - x);
    let num = 4 * u * SCALE;
    let den = SIN_APPROX_BASE * SCALE * SCALE - u;
    lemma_sin_hump_bounds(x);
    vstd::arithmetic::div_mod::lemma_div_pos_is_pos(num, den);
    assert(num <= den * SCALE);
    vstd::arithmetic::div_mod::lemma_div_is_ordered(num, den * SCALE, den);
    vstd::arithmetic::div_mod::lemma_div_by_multiple(SCALE as int, den);
}

/// The quadratic hump is symmetric about the quarter-turn mark, hence so is
/// the half-range sine.
proof fn lemma_sin_half_mirror(x: int)
    requires
        0 <= x <= HALF_TURN,
    ensures
        spec_sin_half(x) == spec_sin_half(HALF_TURN - x),
{
    assert(x * (HALF_TURN - x) == (HALF_TURN - x) * (HALF_TURN - (HALF_TURN - x)))
        by (nonlinear_arith);
}

/// Values already in `[0, FULL_TURN)` normalize to themselves.
pub proof fn lemma_norm_small(v: int)
    requires
        0 <= v < FULL_TURN,
    ensures
        spec_normalize_degrees(v) == v,
{
    lemma_small_mod(v as nat, FULL_TURN as nat);
}

/// Normalization ignores whole turns.
pub proof fn lemma_norm_turn(v: int, k: int)
    ensures
        spec_normalize_degrees(v + k * FULL_TURN) == spec_normalize_degrees(v),
{
    lemma_mod_multiples_vanish(k, v, FULL_TURN as int);
}

/// Sine on [0, HALF_TURN], scaled by `SCALE`.
fn sin_half(x: i64) -> (r: i64)
    requires
        0 <= x <= HALF_TURN,
    ensures
        r == spec_sin_half(x as int),
        0 <= r <= SCALE,
{
    proof {
        lemma_sin_hump_bounds(x as int);
        lemma_sin_half_bounds(x as int);
    }
    let u: i64 = x * (HALF_TURN - x);
    (4 * u * SCALE) / (SIN_APPROX_BASE * SCALE * SCALE - u)
}

/// Sine of a normalized fixed-point heading, scaled by `SCALE`.
pub fn sin_fixed(x: i64) -> (r: i64)
    requires
        0 <= x < FULL_TURN,
    ensures
        r == spec_sin(x as int),
        -SCALE <= r <= SCALE,
{
    if x <= HALF_TURN {
        sin_half(x)
    } else {
        -sin_half(x - HALF_TURN)
    }
}

/// Cosine of a fixed-point heading, scaled by `SCALE`.  The argument need not
/// be normalized: offsets such as `angle - heading` are accepted directly.
pub fn cos_fixed(x: i64) -> (r: i64)
    requires
        -(MAX_ANGLE_INPUT - QUARTER_TURN) < x < MAX_ANGLE_INPUT - QUARTER_TURN,
    ensures
        r == spec_cos(x as int),
        -SCALE <= r <= SCALE,
{
    let y = clamp_degrees(x + QUARTER_TURN);
    sin_fixed(y)
}

/// The sine is symmetric about the quarter-turn mark: `sin(90 + s)` equals
/// `sin(90 - s)` for every offset `s`, after normalization.
proof fn lemma_sin_quarter_symmetric(s: int)
    ensures
        spec_sin(spec_normalize_degrees(QUARTER_TURN + s))
            == spec_sin(spec_normalize_degrees(QUARTER_TURN - s)),
{
    let t = FULL_TURN as int;
    let q = QUARTER_TURN as int;
    let h = HALF_TURN as int;
    let r = spec_normalize_degrees(s);
    vstd::arithmetic::div_mod::lemma_mod_division_less_than_divisor(s, t);
    vstd::arithmetic::div_mod::lemma_add_mod_noop_right(q, s, t);
    vstd::arithmetic::div_mod::lemma_sub_mod_noop_right(q, s, t);
    assert(spec_normalize_degrees(q + s) == spec_normalize_degrees(q + r));
    assert(spec_normalize_degrees(q - s) == spec_normalize_degrees(q - r));
    if r <= q {
        lemma_norm_small(q + r);
        lemma_norm_small(q - r);
        lemma_sin_half_mirror(q - r);
        assert(h - (q - r) == q + r);
    } else if r <= h {
        lemma_norm_small(q + r);
        lemma_norm_turn(q - r + t, -1);
        lemma_norm_small(q - r + t);
        assert(q + r > h);
        assert(q - r + t > h);
        lemma_sin_half_mirror(q + r - h);
        assert(h - (q + r - h) == q - r + t - h);
    } else if r <= h + q {
        if q + r == t {
            lemma_norm_turn(0, 1);
            lemma_norm_small(0);
            lemma_norm_turn(q - r + t, -1);
            lemma_norm_small(q - r + t);
            assert(q - r + t == h);
            lemma_sin_at_zero();
            lemma_sin_at_half_turn();
        } else {
            lemma_norm_small(q + r);
            lemma_norm_turn(q - r + t, -1);
            lemma_norm_small(q - r + t);
            assert(q + r > h);
            assert(q - r + t > h);
            lemma_sin_half_mirror(q + r - h);
            assert(h - (q + r - h) == q - r + t - h);
        }
    } else {
        lemma_norm_turn(q + r - t, 1);
        lemma_norm_small(q + r - t);
        lemma_norm_turn(q - r + t, -1);
        lemma_norm_small(q - r + t);
        assert(q + r - t <= h);
        assert(q - r + t <= h);
        lemma_sin_half_mirror(q + r - t);
        assert(h - (q + r - t) == q - r + t);
    }
}

/// The sine of a zero heading is zero.
pub proof fn lemma_sin_at_zero()
    ensures
        spec_sin(0) == 0,
{
    assert(0 * (HALF_TURN as int - 0) == 0);
    vstd::arithmetic::div_mod::lemma_div_of0(
        SIN_APPROX_BASE as int * SCALE as int * SCALE as int - 0,
    );
}

/// The sine of a half turn is zero.
pub proof fn lemma_sin_at_half_turn()
    ensures
        spec_sin(HALF_TURN as int) == 0,
{
    assert((HALF_TURN as int) * (HALF_TURN as int - HALF_TURN as int) == 0);
    vstd::arithmetic::div_mod::lemma_div_of0(
        SIN_APPROX_BASE as int * SCALE as int * SCALE as int - 0,
    );
}

/// Reflecting a heading across the east axis negates its sine.
pub proof fn lemma_sin_mirror_full(x: int)
    requires
        0 < x < FULL_TURN,
    ensures
        spec_sin(FULL_TURN as int - x) == -spec_sin(x),
{
    let t = FULL_TURN as int;
    let h = HALF_TURN as int;
    if x < h {
        lemma_sin_half_mirror(h - x);
        assert(h - (h - x) == x);
    } else if x == h {
        lemma_sin_at_half_turn();
    } else {
        lemma_sin_half_mirror(t - x);
        assert(h - (t - x) == x - h);
    }
}

/// Reflecting a heading across the east axis keeps its cosine.
pub proof fn lemma_cos_mirror_full(x: int)
    requires
        0 <= x < FULL_TURN,
    ensures
        spec_cos(FULL_TURN as int - x) == spec_cos(x),
{
    let t = FULL_TURN as int;
    lemma_fisheye_symmetric(0, x);
    lemma_norm_small(x);
    if x == 0 {
        lemma_norm_turn(0, 1);
        lemma_norm_small(0);
        lemma_cos_periodic_shift(t, 0);
    } else {
        lemma_mod_multiples_vanish(1, -x, t);
        lemma_small_mod((t - x) as nat, t as nat);
        assert(spec_normalize_degrees(0 - x) == t - x);
    }
}

/// Law: the fish-eye correction factor is symmetric — two cast angles at
/// equal offsets on either side of the view heading are scaled by the same
/// cosine factor.
pub proof fn lemma_fisheye_symmetric(heading: int, offset: int)
    ensures
        spec_cos(spec_normalize_degrees(heading + offset) - heading)
            == spec_cos(spec_normalize_degrees(heading - offset) - heading),
{
    let t = FULL_TURN as int;
    let q = QUARTER_TURN as int;
    vstd::arithmetic::div_mod::lemma_sub_mod_noop(heading + offset, heading, t);
    vstd::arithmetic::div_mod::lemma_sub_mod_noop_right(
        spec_normalize_degrees(heading + offset), heading, t);
    lemma_cos_periodic_shift(spec_normalize_degrees(heading + offset) - heading, offset);
    vstd::arithmetic::div_mod::lemma_sub_mod_noop(heading - offset, heading, t);
    vstd::arithmetic::div_mod::lemma_sub_mod_noop_right(
        spec_normalize_degrees(heading - offset), heading, t);
    lemma_cos_periodic_shift(spec_normalize_degrees(heading - offset) - heading, -offset);
    lemma_sin_quarter_symmetric(offset);
    assert(spec_cos(offset) == spec_sin(spec_normalize_degrees(q + offset)));
    assert(spec_cos(-offset) == spec_sin(spec_normalize_degrees(q - offset)));
}

/// Two headings that differ by a whole number of turns have the same cosine.
proof fn lemma_cos_periodic_shift(a: int, b: int)
    requires
        spec_normalize_degrees(a) == spec_normalize_degrees(b),
    ensures
        spec_cos(a) == spec_cos(b),
{
    let t = FULL_TURN as int;
    let q = QUARTER_TURN as int;
    vstd::arithmetic::div_mod::lemma_add_mod_noop_right(q, a, t);
    vstd::arithmetic::div_mod::lemma_add_mod_noop_right(q, b, t);
}
/// The floor of the square root of `n` (zero for negative arguments).
pub open spec fn spec_isqrt(n: int) -> int
    decreases n,
{
    if n <= 0 {
        0
    } else {
        let r = spec_isqrt(n - 1);
        if (r + 1) * (r + 1) <= n {
            r + 1
        } else {
            r
        }
    }
}

/// The defining property of the integer square root: it is the largest
/// integer whose square does not exceed the argument.
pub proof fn lemma_isqrt_bounds(n: int)
    requires
        n >= 0,
    ensures
        0 <= spec_isqrt(n),
        spec_isqrt(n) * spec_isqrt(n) <= n,
        (spec_isqrt(n) + 1) * (spec_isqrt(n) + 1) > n,
    decreases n,
{
    if n == 0 {
    } else {
        lemma_isqrt_bounds(n - 1);
        let r = spec_isqrt(n - 1);
        if (r + 1) * (r + 1) <= n {
            assert((r + 2) * (r + 2) > n) by (nonlinear_arith)
                requires r >= 0, (r + 1) * (r + 1) > n - 1;
        }
    }
}

/// Any value bracketed the way the integer square root is bracketed is the
/// integer square root.
pub proof fn lemma_isqrt_unique(n: int, r: int)
    requires
        n >= 0,
        r >= 0,
        r * r <= n,
        (r + 1) * (r + 1) > n,
    ensures
        r == spec_isqrt(n),
{
    lemma_isqrt_bounds(n);
    let s = spec_isqrt(n);
    assert(r == s) by (nonlinear_arith)
        requires
            r >= 0,
            s >= 0,
            r * r <= n,
            (r + 1) * (r + 1) > n,
            s * s <= n,
            (s + 1) * (s + 1) > n;
}

/// The integer square root is monotone.
pub proof fn lemma_isqrt_monotonic(a: int, b: int)
    requires
        0 <= a <= b,
    ensures
        spec_isqrt(a) <= spec_isqrt(b),
{
    lemma_isqrt_bounds(a);
    lemma_isqrt_bounds(b);
    let ra = spec_isqrt(a);
    let rb = spec_isqrt(b);
    assert(ra <= rb) by (nonlinear_arith)
        requires
            ra >= 0,
            rb >= 0,
            ra * ra <= a,
            a <= b,
            (rb + 1) * (rb + 1) > b;
}

/// Upper bound on the arguments `isqrt` accepts.
pub const MAX_ISQRT_INPUT: i64 = 0x4000_0000_0000_0000;

/// The floor of the square root, by bisection.
pub fn isqrt(n: i64) -> (r: i64)
    requires
        0 <= n < MAX_ISQRT_INPUT,
    ensures
        r == spec_isqrt(n as int),
        0 <= r <= 0x8000_0000,
{
    let mut lo: i64 = 0;
    let mut hi: i64 = 0x8000_0000;
    assert((0x8000_0000 + 0i64) * 0x8000_0000 > n as int);
    while lo + 1 < hi
        invariant
            0 <= lo < hi <= 0x8000_0000,
            lo * lo <= n,
            hi * hi > n,
            n < MAX_ISQRT_INPUT,
        decreases hi - lo,
    {
        let mid: i64 = lo + (hi - lo) / 2;
        assert(lo < mid < hi);
        assert(mid * mid <= 0x8000_0000i64 * 0x8000_0000) by (nonlinear_arith)
            requires 0 < mid <= 0x8000_0000i64;
        if mid * mid <= n {
            lo = mid;
        } else {
            hi = mid;
        }
    }
    proof {
        lemma_isqrt_unique(n as int, lo as int);
    }
    lo
}

/// Row-major indexing stays within a `w * h` grid.
pub proof fn lemma_row_major_bound(ix: int, iy: int, w: int, h: int)
    requires
        0 <= ix < w,
        0 <= iy < h,
    ensures
        0 <= w * iy + ix < w * h,
        0 <= iy * w + ix < w * h,
{
    assert(0 <= w * iy + ix < w * h && w * iy == iy * w) by (nonlinear_arith)
        requires 0 <= ix < w, 0 <= iy < h;
}

/// Division truncating toward zero, the semantics of Rust's `/` on signed
/// integers (spec-level `/` on `int` rounds toward negative infinity).
pub open spec fn spec_trunc_div(a: int, b: int) -> int {
    if a >= 0 {
        a / b
    } else {
        -((-a) / b)
    }
}

/// The remainder left by truncating division has the sign of the dividend
/// and magnitude below the divisor.
pub proof fn lemma_trunc_div_remainder(a: int, b: int)
    requires
        b > 0,
    ensures
        -b < a - spec_trunc_div(a, b) * b < b,
        a >= 0 ==> a - spec_trunc_div(a, b) * b >= 0,
        a < 0 ==> a - spec_trunc_div(a, b) * b <= 0,
{
    if a >= 0 {
        lemma_fundamental_div_mod(a, b);
        vstd::arithmetic::div_mod::lemma_mod_division_less_than_divisor(a, b);
        vstd::arithmetic::mul::lemma_mul_is_commutative(b, a / b);
    } else {
        let p = -a;
        lemma_fundamental_div_mod(p, b);
        vstd::arithmetic::div_mod::lemma_mod_division_less_than_divisor(p, b);
        vstd::arithmetic::mul::lemma_mul_is_commutative(b, p / b);
        assert(spec_trunc_div(a, b) * b == -((p / b) * b)) by (nonlinear_arith)
            requires spec_trunc_div(a, b) == -(p / b);
    }
}

/// Truncating division never grows a value's magnitude.
pub proof fn lemma_trunc_div_magnitude(a: int, b: int)
    requires
        b >= 1,
    ensures
        a >= 0 ==> 0 <= spec_trunc_div(a, b) <= a,
        a < 0 ==> a <= spec_trunc_div(a, b) <= 0,
{
    if a >= 0 {
        vstd::arithmetic::div_mod::lemma_div_pos_is_pos(a, b);
        vstd::arithmetic::div_mod::lemma_div_nonincreasing(a, b);
    } else {
        vstd::arithmetic::div_mod::lemma_div_pos_is_pos(-a, b);
        vstd::arithmetic::div_mod::lemma_div_nonincreasing(-a, b);
    }
}

/// Truncating division by a positive divisor.
pub fn trunc_div(a: i64, b: i64) -> (r: i64)
    requires
        b > 0,
        a > i64::MIN,
    ensures
        r == spec_trunc_div(a as int, b as int),
{
    if a >= 0 {
        a / b
    } else {
        proof {
            vstd::arithmetic::div_mod::lemma_div_pos_is_pos(-(a as int), b as int);
            vstd::arithmetic::div_mod::lemma_div_nonincreasing(-(a as int), b as int);
        }
        -((-a) / b)
    }
}

} // verus!
