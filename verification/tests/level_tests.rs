use raycaster::geometry::{Color, Point};
use raycaster::level::{Level, Texture, Tile, vec_u8_to_vec_color, vec_u8_to_vec_color_with_trans};
use raycaster::math::SCALE;

fn solid_texture(c: Color) -> Texture {
    Texture::new(1, 1, vec![c]).unwrap()
}

fn bordered_level() -> Level {
    Level::new(
        vec![
            vec![1, 1, 1, 1, 1],
            vec![1, 0, 0, 0, 1],
            vec![1, 0, 0, 0, 1],
            vec![1, 0, 0, 0, 1],
            vec![1, 1, 1, 1, 1],
        ],
        vec![Tile::new(0, false, true), Tile::new(1, true, false)],
        vec![solid_texture(Color::new(10, 10, 10)), solid_texture(Color::new(200, 60, 60))],
    )
    .unwrap()
}

#[test]
fn level_construction_records_dimensions() {
    let lv = bordered_level();
    assert_eq!(lv.width, 5);
    assert_eq!(lv.height, 5);
}

#[test]
fn level_construction_rejects_bad_configurations() {
    let tiles = vec![Tile::new(0, false, true)];
    let texs = vec![solid_texture(Color::new(1, 1, 1))];
    // Empty grid.
    assert!(Level::new(vec![], tiles.clone(), texs.clone()).is_none());
    // Non-rectangular grid.
    assert!(Level::new(vec![vec![0, 0], vec![0]], tiles.clone(), texs.clone()).is_none());
    // Tile id outside the tile palette.
    assert!(Level::new(vec![vec![0, 7]], tiles.clone(), texs.clone()).is_none());
    // Texture index outside the texture palette.
    assert!(Level::new(vec![vec![0]], vec![Tile::new(9, false, true)], texs.clone()).is_none());
    // Empty palettes.
    assert!(Level::new(vec![vec![0]], vec![], texs.clone()).is_none());
    assert!(Level::new(vec![vec![0]], tiles.clone(), vec![]).is_none());
}

#[test]
fn texture_construction_rejects_mismatched_pixel_data() {
    assert!(Texture::new(2, 2, vec![Color::new(0, 0, 0); 4]).is_some());
    assert!(Texture::new(2, 2, vec![Color::new(0, 0, 0); 3]).is_none());
    assert!(Texture::new(0, 1, vec![]).is_none());
}

#[test]
fn tile_lookup_floors_coordinates() {
    let lv = bordered_level();
    // (1.5, 1.5) is the open interior.
    let t = lv.get_tile(&Point::new(3 * SCALE / 2, 3 * SCALE / 2));
    assert!(t.transparent && !t.solid);
    // (0.5, 0.5) is the border wall.
    let t = lv.get_tile(&Point::new(SCALE / 2, SCALE / 2));
    assert!(!t.transparent && t.solid);
}

#[test]
fn out_of_range_lookups_resolve_to_the_sentinel_tile() {
    let lv = bordered_level();
    // Tile 0 of this palette is the open tile.
    let t = lv.get_tile(&Point::new(-SCALE, 2 * SCALE));
    assert!(t.transparent);
    let t = lv.get_tile(&Point::new(100 * SCALE, 2 * SCALE));
    assert!(t.transparent);
    let t = lv.get_tile(&Point::new(2 * SCALE, -1));
    assert!(t.transparent);
}

#[test]
fn texture_lookup_follows_the_tile() {
    let lv = bordered_level();
    let tex = lv.get_texture(&Point::new(SCALE / 2, SCALE / 2));
    assert_eq!(tex.layout[0], Color::new(200, 60, 60));
    let tex = lv.get_texture(&Point::new(3 * SCALE / 2, 3 * SCALE / 2));
    assert_eq!(tex.layout[0], Color::new(10, 10, 10));
}

#[test]
fn in_level_test_is_half_open_on_both_axes() {
    let lv = bordered_level();
    assert!(lv.is_in_level(&Point::new(0, 0)));
    assert!(lv.is_in_level(&Point::new(5 * SCALE - 1, 5 * SCALE - 1)));
    assert!(!lv.is_in_level(&Point::new(5 * SCALE, 2 * SCALE)));
    assert!(!lv.is_in_level(&Point::new(2 * SCALE, 5 * SCALE)));
    assert!(!lv.is_in_level(&Point::new(-1, 2 * SCALE)));
}

#[test]
fn texture_sampling_falls_back_outside_the_bitmap() {
    let tex = Texture::new(
        2,
        2,
        vec![
            Color::new(1, 0, 0),
            Color::new(2, 0, 0),
            Color::new(3, 0, 0),
            Color::new(4, 0, 0),
        ],
    )
    .unwrap();
    assert_eq!(*tex.get_color(&Point::new(0, 0)), Color::new(1, 0, 0));
    assert_eq!(*tex.get_color(&Point::new(SCALE, 0)), Color::new(2, 0, 0));
    assert_eq!(*tex.get_color(&Point::new(0, SCALE)), Color::new(3, 0, 0));
    assert_eq!(*tex.get_color(&Point::new(SCALE + 1, SCALE + 1)), Color::new(4, 0, 0));
    // Outside: the first texel.
    assert_eq!(*tex.get_color(&Point::new(-1, 0)), Color::new(1, 0, 0));
    assert_eq!(*tex.get_color(&Point::new(2 * SCALE, 0)), Color::new(1, 0, 0));
}

#[test]
fn rgba_bytes_repack_dropping_alpha() {
    let pixels: Vec<u8> = vec![1, 2, 3, 255, 4, 5, 6, 0, 7, 8, 9, 128];
    let colors = vec_u8_to_vec_color_with_trans(pixels);
    assert_eq!(colors.len(), 3);
    assert_eq!(colors[0], Color::new(1, 2, 3));
    assert_eq!(colors[1], Color::new(4, 5, 6));
    assert_eq!(colors[2], Color::new(7, 8, 9));
}

#[test]
fn rgb_bytes_repack_with_stride_three() {
    let pixels: Vec<u8> = vec![1, 2, 3, 4, 5, 6, 7, 8];
    let colors = vec_u8_to_vec_color(pixels);
    assert_eq!(colors.len(), 2);
    assert_eq!(colors[0], Color::new(1, 2, 3));
    assert_eq!(colors[1], Color::new(4, 5, 6));
}
