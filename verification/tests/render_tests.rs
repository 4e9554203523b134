use raycaster::camera::Camera;
use raycaster::framebuffer::{render_frame, FrameBuffer};
use raycaster::geometry::{Color, Point, Rect};
use raycaster::level::{Level, Texture, Tile};
use raycaster::math::SCALE;

fn solid_texture(c: Color) -> Texture {
    Texture::new(1, 1, vec![c]).unwrap()
}

fn bordered_level() -> Level {
    Level::new(
        vec![
            vec![1, 1, 1, 1, 1],
            vec![1, 0, 0, 0, 1],
            vec![1, 0, 0, 0, 1],
            vec![1, 0, 0, 0, 1],
            vec![1, 1, 1, 1, 1],
        ],
        vec![Tile::new(0, false, true), Tile::new(1, true, false)],
        vec![solid_texture(Color::new(9, 9, 9)), solid_texture(Color::new(200, 40, 40))],
    )
    .unwrap()
}

#[test]
fn fresh_buffers_hold_four_bytes_per_pixel() {
    let fb = FrameBuffer::new(32, 16);
    assert_eq!(fb.width, 32);
    assert_eq!(fb.height, 16);
    assert_eq!(fb.buffer.len(), 32 * 16 * 4);
    assert!(fb.buffer.iter().all(|&b| b == 0));
}

#[test]
fn pixels_land_at_their_row_major_offset() {
    let mut fb = FrameBuffer::new(8, 8);
    fb.draw_pixel(Point::new(2 * SCALE, 3 * SCALE), Color::new(10, 20, 30));
    let idx = (3 * 8 + 2) * 4;
    assert_eq!(&fb.buffer[idx..idx + 4], &[10, 20, 30, 255]);
    // Off-screen points are discarded.
    fb.draw_pixel(Point::new(-SCALE, 0), Color::new(1, 1, 1));
    fb.draw_pixel(Point::new(8 * SCALE, 0), Color::new(1, 1, 1));
    assert_eq!(&fb.buffer[0..4], &[0, 0, 0, 0]);
}

#[test]
fn rectangles_fill_their_clipped_area_only() {
    let mut fb = FrameBuffer::new(8, 8);
    fb.draw_rect(Rect::new(6, 6, 5, 5, Color::new(7, 8, 9)));
    // Inside the clipped area.
    let idx = (7 * 8 + 7) * 4;
    assert_eq!(&fb.buffer[idx..idx + 4], &[7, 8, 9, 255]);
    // Just outside it.
    let idx = (5 * 8 + 6) * 4;
    assert_eq!(&fb.buffer[idx..idx + 4], &[0, 0, 0, 0]);
}

#[test]
fn background_paints_every_pixel_opaque_gray() {
    let mut fb = FrameBuffer::new(8, 4);
    fb.draw_background();
    let mut i: usize = 0;
    while i < fb.buffer.len() {
        assert_eq!(&fb.buffer[i..i + 4], &[0x4f, 0x4f, 0x4f, 255]);
        i += 4;
    }
}

#[test]
fn horizontal_lines_plot_every_pixel_between_their_endpoints() {
    let mut fb = FrameBuffer::new(8, 8);
    fb.draw_line(Point::new(SCALE, SCALE), Point::new(5 * SCALE, SCALE), Color::new(1, 2, 3));
    for x in 1..=5usize {
        let idx = (8 + x) * 4;
        assert_eq!(&fb.buffer[idx..idx + 4], &[1, 2, 3, 255]);
    }
    let idx = (8 + 6) * 4;
    assert_eq!(&fb.buffer[idx..idx + 4], &[0, 0, 0, 0]);
}

#[test]
fn rendering_the_same_state_twice_is_byte_identical() {
    let lv = bordered_level();
    let mut camera = Camera::new(Point::new(2560, 2560));
    camera.resolution_multiplier = 1;
    let first = render_frame(&camera, &lv, 128, 96);
    let second = render_frame(&camera, &lv, 128, 96);
    assert_eq!(first.buffer, second.buffer);
    assert_eq!(first.buffer.len(), 128 * 96 * 4);
}

#[test]
fn rendered_frames_composite_background_walls_and_minimap() {
    let lv = bordered_level();
    let mut camera = Camera::new(Point::new(2560, 2560));
    camera.resolution_multiplier = 1;
    let frame = render_frame(&camera, &lv, 128, 96);
    // The top-left corner is plain background.
    assert_eq!(&frame.buffer[0..4], &[0x4f, 0x4f, 0x4f, 255]);
    // Every alpha byte is opaque.
    let mut i: usize = 3;
    while i < frame.buffer.len() {
        assert_eq!(frame.buffer[i], 255);
        i += 4;
    }
    // The minimap square of the wall tile at (0, 0) shows its texture
    // color: anchored to the right edge, mirrored, one tile in.
    let x: usize = 128 - 2 * 16;
    let y: usize = 16;
    let idx = (y * 128 + x) * 4;
    assert_eq!(&frame.buffer[idx..idx + 3], &[200, 40, 40]);
    // A wall strip was drawn somewhere in the center column.
    let mid = (48 * 128 + 64) * 4;
    let center = &frame.buffer[mid..mid + 3];
    assert_ne!(center, &[0x4f, 0x4f, 0x4f]);
}
