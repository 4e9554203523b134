use raycaster::camera::{Camera, InputInfo, MOVEMENT_SPEED};
use raycaster::geometry::{Color, Point, Rotation};
use raycaster::level::{Level, Texture, Tile};
use raycaster::math::{FULL_TURN, SCALE};

fn no_input() -> InputInfo {
    InputInfo {
        forward: false,
        backward: false,
        right: false,
        left: false,
        rot_right: false,
        rot_left: false,
    }
}

fn bordered_level() -> Level {
    Level::new(
        vec![
            vec![1, 1, 1, 1, 1],
            vec![1, 0, 0, 0, 1],
            vec![1, 0, 0, 0, 1],
            vec![1, 0, 0, 0, 1],
            vec![1, 1, 1, 1, 1],
        ],
        vec![Tile::new(0, false, true), Tile::new(1, true, false)],
        vec![
            Texture::new(1, 1, vec![Color::new(9, 9, 9)]).unwrap(),
            Texture::new(1, 1, vec![Color::new(200, 0, 0)]).unwrap(),
        ],
    )
    .unwrap()
}

#[test]
fn new_cameras_carry_the_default_parameters() {
    let c = Camera::new(Point::new(6 * SCALE + SCALE / 2, 7 * SCALE + SCALE / 2));
    assert_eq!(c.pos, Point::new(6656, 7680));
    assert_eq!(c.rotation.degree, 0);
    assert_eq!(c.fov, 90);
    assert_eq!(c.resolution_multiplier, 16);
    assert!(c.fish_eye_correction);
}

#[test]
fn cast_angles_cover_the_field_of_view_in_order() {
    let mut c = Camera::new(Point::new(0, 0));
    c.fov = 4;
    c.resolution_multiplier = 2;
    let angles = c.get_angles_to_cast();
    assert_eq!(angles.len(), 8);
    // Half the field of view below the heading, sub-samples interleaved.
    assert_eq!(angles[0].degree, FULL_TURN - 2 * SCALE);
    assert_eq!(angles[1].degree, FULL_TURN - 2 * SCALE + SCALE / 2);
    assert_eq!(angles[2].degree, FULL_TURN - SCALE);
    assert_eq!(angles[4].degree, 0);
    assert_eq!(angles[7].degree, SCALE + SCALE / 2);
}

#[test]
fn cast_angle_count_is_fov_times_density() {
    let mut c = Camera::new(Point::new(0, 0));
    c.fov = 90;
    c.resolution_multiplier = 1;
    assert_eq!(c.get_angles_to_cast().len(), 90);
    c.resolution_multiplier = 16;
    assert_eq!(c.get_angles_to_cast().len(), 1440);
}

#[test]
fn rotation_input_turns_in_ten_degree_steps() {
    let lv = bordered_level();
    let mut c = Camera::new(Point::new(2560, 2560));
    let mut input = no_input();
    input.rot_right = true;
    c.update_from_input(&lv, input);
    assert_eq!(c.rotation.degree, 10 * SCALE);
    let mut input = no_input();
    input.rot_left = true;
    c.update_from_input(&lv, input.clone());
    assert_eq!(c.rotation.degree, 0);
    c.update_from_input(&lv, input);
    assert_eq!(c.rotation.degree, 350 * SCALE);
}

#[test]
fn forward_input_walks_along_the_heading() {
    let lv = bordered_level();
    let mut c = Camera::new(Point::new(2560, 2560));
    let mut input = no_input();
    input.forward = true;
    c.update_from_input(&lv, input);
    assert_eq!(c.pos, Point::new(2560 + MOVEMENT_SPEED, 2560));
}

#[test]
fn wall_sliding_blocks_one_axis_and_keeps_the_other() {
    let lv = bordered_level();
    // Just shy of the east wall at x = 4, heading east, walking forward
    // while strafing right (toward +y).
    let mut c = Camera::new(Point::new(4 * SCALE - 20, 2560));
    let mut input = no_input();
    input.forward = true;
    input.right = true;
    c.update_from_input(&lv, input);
    // X is blocked by the solid wall tile; Y still moves.
    assert_eq!(c.pos.x, 4 * SCALE - 20);
    assert_eq!(c.pos.y, 2560 + MOVEMENT_SPEED);
}

#[test]
fn free_movement_applies_both_axes() {
    let lv = bordered_level();
    let mut c = Camera::new(Point::new(2560, 2560));
    let mut input = no_input();
    input.forward = true;
    input.right = true;
    c.update_from_input(&lv, input);
    assert_eq!(c.pos, Point::new(2560 + MOVEMENT_SPEED, 2560 + MOVEMENT_SPEED));
}

#[test]
fn blocked_movement_leaves_the_position_unchanged() {
    let lv = bordered_level();
    // Facing the east wall from right next to it, no sideways component.
    let mut c = Camera::new(Point::new(4 * SCALE - 20, 2560));
    let mut input = no_input();
    input.forward = true;
    c.update_from_input(&lv, input);
    assert_eq!(c.pos, Point::new(4 * SCALE - 20, 2560));
}

#[test]
fn mouse_look_scales_pointer_deltas_to_half_degrees() {
    let mut c = Camera::new(Point::new(0, 0));
    c.mouse_look(20);
    assert_eq!(c.rotation.degree, 10 * SCALE);
    c.mouse_look(-40);
    assert_eq!(c.rotation.degree, 350 * SCALE);
}

#[test]
fn debug_controls_clamp_to_their_bounds() {
    let mut c = Camera::new(Point::new(0, 0));
    c.fov = 179;
    c.increase_fov();
    c.increase_fov();
    assert_eq!(c.fov, 180);
    c.fov = 5;
    c.decrease_fov();
    c.decrease_fov();
    assert_eq!(c.fov, 4);
    c.resolution_multiplier = 31;
    c.increase_resolution();
    c.increase_resolution();
    assert_eq!(c.resolution_multiplier, 32);
    c.resolution_multiplier = 2;
    c.decrease_resolution();
    c.decrease_resolution();
    assert_eq!(c.resolution_multiplier, 1);
    let was = c.fish_eye_correction;
    c.toggle_fish_eye();
    assert_eq!(c.fish_eye_correction, !was);
}

#[test]
fn rotation_applies_before_movement() {
    let lv = bordered_level();
    let mut c = Camera::new(Point::new(2560, 2560));
    c.rotation = Rotation::new(80 * SCALE);
    // Rotating right lands on 90 degrees; forward then moves along +y only.
    let mut input = no_input();
    input.rot_right = true;
    input.forward = true;
    c.update_from_input(&lv, input);
    assert_eq!(c.rotation.degree, 90 * SCALE);
    assert_eq!(c.pos, Point::new(2560, 2560 + MOVEMENT_SPEED));
}
