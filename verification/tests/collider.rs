use platformer_core::rect::{ColliderBox, Rect};

#[test]
fn collider_of_a_single_tile() {
    let tile = Rect { left: 0, right: 0, top: 0, bottom: 0 };
    assert_eq!(
        tile.collider_box(16),
        ColliderBox { width: 16, height: 16, twice_center_x: 16, twice_center_y: 16 }
    );
}

#[test]
fn collider_spans_whole_tiles() {
    let wall = Rect { left: 2, right: 4, top: 6, bottom: 5 };
    let collider = wall.collider_box(16);
    // half-extents 24 and 16, centre at (56, 96)
    assert_eq!(collider.width, 48);
    assert_eq!(collider.height, 32);
    assert_eq!(collider.twice_center_x, 112);
    assert_eq!(collider.twice_center_y, 192);
}

#[test]
fn collider_with_an_odd_tile_size_has_half_pixels() {
    let wall = Rect { left: 1, right: 1, top: 3, bottom: 1 };
    let collider = wall.collider_box(7);
    assert_eq!(collider.width as f32 / 2.0, 3.5);
    assert_eq!(collider.height as f32 / 2.0, 10.5);
    assert_eq!(collider.twice_center_x as f32 / 2.0, 10.5);
    assert_eq!(collider.twice_center_y as f32 / 2.0, 17.5);
}

#[test]
fn collider_of_the_widest_rect_does_not_overflow() {
    let wall = Rect { left: i32::MIN, right: i32::MAX, top: i32::MAX, bottom: i32::MIN };
    let collider = wall.collider_box(i32::MAX);
    assert_eq!(collider.width, 4294967296 * 2147483647);
    assert_eq!(collider.height, 4294967296 * 2147483647);
    assert_eq!(collider.twice_center_x, 0);
    assert_eq!(collider.twice_center_y, 0);
    let mirrored = wall.collider_box(i32::MIN);
    assert_eq!(mirrored.width, 4294967296 * -2147483648);
}

#[test]
fn collider_of_a_grid_without_size_is_a_point() {
    let wall = Rect { left: 3, right: 9, top: 2, bottom: 0 };
    assert_eq!(
        wall.collider_box(0),
        ColliderBox { width: 0, height: 0, twice_center_x: 0, twice_center_y: 0 }
    );
}
