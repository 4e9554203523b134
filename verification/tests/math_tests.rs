use raycaster::math::{clamp_degrees, cos_fixed, isqrt, sin_fixed, trunc_div, FULL_TURN, SCALE};

#[test]
fn normalize_keeps_small_values() {
    assert_eq!(clamp_degrees(0), 0);
    assert_eq!(clamp_degrees(123 * SCALE), 123 * SCALE);
    assert_eq!(clamp_degrees(FULL_TURN - 1), FULL_TURN - 1);
}

#[test]
fn normalize_wraps_negative_and_large_values() {
    assert_eq!(clamp_degrees(-10 * SCALE), 350 * SCALE);
    assert_eq!(clamp_degrees(FULL_TURN), 0);
    assert_eq!(clamp_degrees(FULL_TURN + 5 * SCALE), 5 * SCALE);
    assert_eq!(clamp_degrees(-3 * FULL_TURN - 1), FULL_TURN - 1);
}

#[test]
fn normalize_always_lands_in_range_and_is_idempotent() {
    let samples: [i64; 9] = [
        -5 * FULL_TURN - 7,
        -FULL_TURN,
        -1,
        0,
        1,
        FULL_TURN - 1,
        FULL_TURN,
        7 * FULL_TURN + 12345,
        -987654321,
    ];
    for &v in samples.iter() {
        let n = clamp_degrees(v);
        assert!(0 <= n && n < FULL_TURN);
        assert_eq!(clamp_degrees(n), n);
    }
}

#[test]
fn sine_hits_exact_anchor_points() {
    assert_eq!(sin_fixed(0), 0);
    assert_eq!(sin_fixed(30 * SCALE), SCALE / 2);
    assert_eq!(sin_fixed(90 * SCALE), SCALE);
    assert_eq!(sin_fixed(150 * SCALE), SCALE / 2);
    assert_eq!(sin_fixed(180 * SCALE), 0);
    assert_eq!(sin_fixed(270 * SCALE), -SCALE);
}

#[test]
fn cosine_is_sine_shifted_a_quarter_turn() {
    assert_eq!(cos_fixed(0), SCALE);
    assert_eq!(cos_fixed(60 * SCALE), SCALE / 2);
    assert_eq!(cos_fixed(90 * SCALE), 0);
    assert_eq!(cos_fixed(180 * SCALE), -SCALE);
    assert_eq!(cos_fixed(270 * SCALE), 0);
}

#[test]
fn cosine_is_even_in_its_offset() {
    for theta in [1i64, 700, 5 * SCALE, 47 * SCALE + 13, 90 * SCALE, 179 * SCALE] {
        assert_eq!(cos_fixed(theta), cos_fixed(-theta));
    }
}

#[test]
fn sine_stays_within_unit_range() {
    let mut deg: i64 = 0;
    while deg < FULL_TURN {
        let s = sin_fixed(deg);
        assert!(-SCALE <= s && s <= SCALE);
        deg += 777;
    }
}

#[test]
fn integer_square_root_brackets_its_argument() {
    assert_eq!(isqrt(0), 0);
    assert_eq!(isqrt(1), 1);
    assert_eq!(isqrt(3), 1);
    assert_eq!(isqrt(4), 2);
    assert_eq!(isqrt(1024), 32);
    assert_eq!(isqrt(99), 9);
    assert_eq!(isqrt(1_000_000_000_000), 1_000_000);
    let n: i64 = 123_456_789;
    let r = isqrt(n);
    assert!(r * r <= n && (r + 1) * (r + 1) > n);
}

#[test]
fn truncating_division_rounds_toward_zero() {
    assert_eq!(trunc_div(7, 2), 3);
    assert_eq!(trunc_div(-7, 2), -3);
    assert_eq!(trunc_div(6, 3), 2);
    assert_eq!(trunc_div(-6, 3), -2);
    assert_eq!(trunc_div(0, 5), 0);
}
