use raycaster::geometry::{Color, Point, Rect, Rotation};
use raycaster::math::SCALE;

#[test]
fn points_hold_their_coordinates() {
    let p = Point::new(2560, -512);
    assert_eq!(p.x, 2560);
    assert_eq!(p.y, -512);
}

#[test]
fn rotations_normalize_on_construction_and_mutation() {
    let r = Rotation::new(-10 * SCALE);
    assert_eq!(r.degree, 350 * SCALE);
    let mut r = Rotation::new(355 * SCALE);
    r.mod_value(10 * SCALE);
    assert_eq!(r.degree, 5 * SCALE);
    r.mod_value(-10 * SCALE);
    assert_eq!(r.degree, 355 * SCALE);
}

#[test]
fn shading_darkens_monotonically_with_distance() {
    let c = Color::new(200, 120, 40);
    let mut previous = c.shade_distance(SCALE);
    let mut d: i64 = 2 * SCALE;
    while d < 64 * SCALE {
        let shaded = c.shade_distance(d);
        assert!(shaded.r <= previous.r);
        assert!(shaded.g <= previous.g);
        assert!(shaded.b <= previous.b);
        previous = shaded;
        d += 3 * SCALE / 2;
    }
}

#[test]
fn shading_clamps_to_a_sixteenth_floor_and_full_ceiling() {
    let c = Color::new(208, 100, 16);
    // Very close: full brightness.
    let near = c.shade_distance(1);
    assert_eq!(near.r, 208);
    assert_eq!(near.g, 100);
    assert_eq!(near.b, 16);
    // Very far: floored at a sixteenth of the base value.
    let far = c.shade_distance(1_000_000 * SCALE);
    assert_eq!(far.r, 208 / 16);
    assert_eq!(far.g, 100 / 16);
    assert_eq!(far.b, 16 / 16);
    // Every distance of at least one world unit respects the floor.
    let mut d: i64 = SCALE;
    while d < 200 * SCALE {
        let s = c.shade_distance(d);
        assert!(s.r >= 208 / 16);
        assert!(s.g >= 100 / 16);
        assert!(s.b >= 16 / 16);
        d += 7 * SCALE;
    }
}

#[test]
fn shading_matches_the_three_quarter_power_formula() {
    // At sixteen world units the divisor is exactly 16^(3/4) = 8:
    // isqrt(16 * 1024 * 1024) = 4096, isqrt(4096 * 1024) = 2048, and
    // 200 * 1024 * 1024 / (4096 * 2048) = 25.
    let c = Color::new(200, 80, 32);
    let s = c.shade_distance(16 * SCALE);
    assert_eq!(s.r, 25);
    assert_eq!(s.g, 10);
    assert_eq!(s.b, 4);
}

#[test]
fn rect_fitting_clamps_origin_and_extent() {
    let c = Color::new(1, 2, 3);
    // Entirely inside: unchanged.
    let r = Rect::new(2, 3, 4, 5, c).fit_to_screen(100, 50);
    assert_eq!((r.x, r.y, r.width, r.height), (2, 3, 4, 5));
    // Origin beyond the surface: clamped to the last row and column.
    let r = Rect::new(200, 80, 4, 5, c).fit_to_screen(100, 50);
    assert_eq!((r.x, r.y), (99, 49));
    assert!(r.x + r.width <= 100 && r.y + r.height <= 50);
    // Extent overflowing: shrunk to end at the edge.
    let r = Rect::new(90, 40, 20, 30, c).fit_to_screen(100, 50);
    assert_eq!((r.x, r.y, r.width, r.height), (90, 40, 10, 10));
}
