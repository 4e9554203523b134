use raycaster::geometry::{Color, Point, Rotation};
use raycaster::level::{Level, Texture, Tile};
use raycaster::math::{cos_fixed, trunc_div, SCALE};
use raycaster::raycast::{cast_ray, CAST_INFINITY};

fn solid_texture(c: Color) -> Texture {
    Texture::new(1, 1, vec![c]).unwrap()
}

fn bordered_level() -> Level {
    Level::new(
        vec![
            vec![1, 1, 1, 1, 1],
            vec![1, 0, 0, 0, 1],
            vec![1, 0, 0, 0, 1],
            vec![1, 0, 0, 0, 1],
            vec![1, 1, 1, 1, 1],
        ],
        vec![Tile::new(0, false, true), Tile::new(1, true, false)],
        vec![solid_texture(Color::new(9, 9, 9)), solid_texture(Color::new(200, 0, 0))],
    )
    .unwrap()
}

fn open_level() -> Level {
    Level::new(
        vec![vec![0, 0, 0], vec![0, 0, 0], vec![0, 0, 0]],
        vec![Tile::new(0, false, true)],
        vec![solid_texture(Color::new(9, 9, 9))],
    )
    .unwrap()
}

#[test]
fn axis_aligned_cast_reports_the_wall_distance() {
    // Camera in the middle of a bordered room, aimed east at the wall 1.5
    // world units away.
    let lv = bordered_level();
    let pos = Point::new(2560, 2560);
    let (hit, dist) = cast_ray(&pos, &Rotation::new(0), &lv);
    assert!((dist - 3 * SCALE / 2).abs() <= 8);
    // In fixed-point units the march is exact up to the boundary epsilon.
    assert_eq!(dist, 3 * SCALE / 2 + 1);
    // The hit point lies on the east border wall, at the camera's own Y.
    assert_eq!(hit.x / SCALE, 4);
    assert_eq!(hit.y, 2560);
}

#[test]
fn casts_work_along_every_axis() {
    let lv = bordered_level();
    let pos = Point::new(2560, 2560);
    // North (toward -y).
    let (hit, dist) = cast_ray(&pos, &Rotation::new(270 * SCALE), &lv);
    assert!((dist - 3 * SCALE / 2).abs() <= 8);
    assert_eq!(hit.y / SCALE, 0);
    assert_eq!(hit.x, 2560);
    // West (toward -x).
    let (hit, dist) = cast_ray(&pos, &Rotation::new(180 * SCALE), &lv);
    assert!((dist - 3 * SCALE / 2).abs() <= 8);
    assert_eq!(hit.x / SCALE, 0);
    assert_eq!(hit.y, 2560);
}

#[test]
fn cast_terminates_in_a_level_with_no_walls_at_all() {
    let lv = open_level();
    let pos = Point::new(3 * SCALE / 2, 3 * SCALE / 2);
    let (_, dist) = cast_ray(&pos, &Rotation::new(37 * SCALE), &lv);
    // The march gave up after its iteration bound: a large distance, still
    // within the "no visible wall" cap.
    assert!(dist >= 10 * SCALE);
    assert!(dist <= CAST_INFINITY);
}

#[test]
fn cast_tolerates_an_origin_on_a_grid_line() {
    let lv = bordered_level();
    let pos = Point::new(2 * SCALE, 2 * SCALE);
    let (_, dist) = cast_ray(&pos, &Rotation::new(0), &lv);
    assert!((dist - 2 * SCALE).abs() <= 8);
}

#[test]
fn symmetric_angles_agree_after_fisheye_correction() {
    // Flat wall perpendicular to the heading: equal offsets to either side
    // must give equal raw distances, hence equal corrected distances — and
    // larger raw distances than the center ray when correction is off.
    let lv = bordered_level();
    let pos = Point::new(2560, 2560);
    let heading: i64 = 0;
    let theta: i64 = 10 * SCALE;
    let (_, raw_center) = cast_ray(&pos, &Rotation::new(heading), &lv);
    let (_, raw_plus) = cast_ray(&pos, &Rotation::new(heading + theta), &lv);
    let (_, raw_minus) = cast_ray(&pos, &Rotation::new(heading - theta), &lv);
    assert_eq!(raw_plus, raw_minus);
    assert!(raw_plus > raw_center);

    let corr_plus = trunc_div(raw_plus * cos_fixed(theta), SCALE);
    let corr_minus = trunc_div(raw_minus * cos_fixed(-theta), SCALE);
    assert_eq!(corr_plus, corr_minus);
    // Corrected distances recover the perpendicular wall distance.
    assert!((corr_plus - 3 * SCALE / 2).abs() <= 8);
}

#[test]
fn center_ray_of_the_example_scenario_hits_the_east_border() {
    // A 5x5 level bordered by solid opaque tiles, camera at (2.5, 2.5),
    // heading 0, field of view 90, one sample per degree: the center cast
    // angle is the heading itself, and its ray lands on the east border at
    // distance 1.5 with an unchanged Y coordinate.
    let lv = bordered_level();
    let mut camera = raycaster::camera::Camera::new(Point::new(2560, 2560));
    camera.fov = 90;
    camera.resolution_multiplier = 1;
    let angles = camera.get_angles_to_cast();
    assert_eq!(angles.len(), 90);
    let center = angles[45];
    assert_eq!(center.degree, 0);
    let (hit, dist) = cast_ray(&camera.pos, &center, &lv);
    assert!((dist - 3 * SCALE / 2).abs() <= 8);
    assert_eq!(hit.y, 2560);
    assert_eq!(hit.x / SCALE, 4);
}
