use platformer_core::grid::{GridCoord, WallSet};
use platformer_core::mesh::build_wall_rects;
use platformer_core::rect::Rect;

fn wall_set(cells: &[(i32, i32)]) -> WallSet {
    let cells: Vec<GridCoord> = cells.iter().map(|&(x, y)| GridCoord { x, y }).collect();
    WallSet::from_cells(&cells)
}

fn rect(left: i32, right: i32, bottom: i32, top: i32) -> Rect {
    Rect { left, right, top, bottom }
}

/// The tiles that the rectangles cover, each as often as it is covered.
fn covered(rects: &[Rect]) -> Vec<(i32, i32)> {
    let mut tiles = Vec::new();
    for r in rects {
        for y in r.bottom..=r.top {
            for x in r.left..=r.right {
                tiles.push((x, y));
            }
        }
    }
    tiles.sort();
    tiles
}

/// A level with an L-shaped wall, a floor, a pillar and a few loose tiles.
fn sample_level() -> Vec<(i32, i32)> {
    let mut cells = Vec::new();
    for x in 0..12 {
        cells.push((x, 0));
    }
    for y in 1..6 {
        cells.push((0, y));
        cells.push((11, y));
    }
    for y in 1..4 {
        cells.push((5, y));
        cells.push((6, y));
    }
    cells.push((3, 4));
    cells.push((4, 4));
    cells.push((8, 2));
    cells.push((9, 5));
    cells.push((11, 7));
    cells
}

#[test]
fn no_walls_give_no_rects() {
    let walls = wall_set(&[]);
    assert_eq!(build_wall_rects(&walls, 8, 6), vec![]);
    assert_eq!(build_wall_rects(&walls, 0, 0), vec![]);
    assert_eq!(build_wall_rects(&walls, 1, 1), vec![]);
}

#[test]
fn single_tile_gives_one_unit_rect() {
    let walls = wall_set(&[(3, 2)]);
    assert_eq!(build_wall_rects(&walls, 8, 6), vec![rect(3, 3, 2, 2)]);
}

#[test]
fn single_tile_in_each_corner() {
    for &(x, y) in &[(0, 0), (7, 0), (0, 5), (7, 5)] {
        let walls = wall_set(&[(x, y)]);
        assert_eq!(build_wall_rects(&walls, 8, 6), vec![rect(x, x, y, y)]);
    }
}

#[test]
fn full_single_row_gives_one_rect() {
    let walls = wall_set(&[(0, 0), (1, 0), (2, 0), (3, 0), (4, 0)]);
    assert_eq!(build_wall_rects(&walls, 5, 1), vec![rect(0, 4, 0, 0)]);
}

#[test]
fn full_row_higher_up_gives_one_rect() {
    let walls = wall_set(&[(0, 3), (1, 3), (2, 3), (3, 3)]);
    assert_eq!(build_wall_rects(&walls, 4, 6), vec![rect(0, 3, 3, 3)]);
}

#[test]
fn two_equal_rows_merge() {
    let walls = wall_set(&[(0, 2), (1, 2), (2, 2), (0, 3), (1, 3), (2, 3)]);
    assert_eq!(build_wall_rects(&walls, 3, 5), vec![rect(0, 2, 2, 3)]);
}

#[test]
fn rows_with_different_runs_stay_apart() {
    let walls = wall_set(&[(0, 0), (1, 0), (2, 0), (1, 1), (2, 1), (3, 1)]);
    assert_eq!(build_wall_rects(&walls, 4, 2), vec![rect(0, 2, 0, 0), rect(1, 3, 1, 1)]);
}

#[test]
fn run_that_shifts_by_one_column_starts_anew() {
    let walls = wall_set(&[(2, 0), (3, 0), (3, 1), (4, 1), (2, 2), (3, 2)]);
    assert_eq!(
        build_wall_rects(&walls, 6, 3),
        vec![rect(2, 3, 0, 0), rect(3, 4, 1, 1), rect(2, 3, 2, 2)]
    );
}

#[test]
fn full_grid_gives_one_rect() {
    let mut cells = Vec::new();
    for y in 0..4 {
        for x in 0..7 {
            cells.push((x, y));
        }
    }
    let walls = wall_set(&cells);
    assert_eq!(build_wall_rects(&walls, 7, 4), vec![rect(0, 6, 0, 3)]);
}

#[test]
fn rect_that_touches_the_top_edge_is_finished() {
    let walls = wall_set(&[(1, 4), (2, 4), (1, 5), (2, 5)]);
    assert_eq!(build_wall_rects(&walls, 4, 6), vec![rect(1, 2, 4, 5)]);
}

#[test]
fn wide_row_under_two_narrow_ones_gives_three_rects() {
    let mut cells = Vec::new();
    for x in 0..10 {
        cells.push((x, 0));
    }
    for x in 0..5 {
        cells.push((x, 1));
    }
    for x in 5..10 {
        cells.push((x, 2));
    }
    let walls = wall_set(&cells);
    assert_eq!(
        build_wall_rects(&walls, 10, 3),
        vec![rect(0, 9, 0, 0), rect(0, 4, 1, 1), rect(5, 9, 2, 2)]
    );
}

#[test]
fn two_plates_side_by_side_over_a_floor() {
    let mut cells = Vec::new();
    for x in 0..10 {
        cells.push((x, 0));
    }
    for y in 1..3 {
        for x in 0..4 {
            cells.push((x, y));
        }
        for x in 6..10 {
            cells.push((x, y));
        }
    }
    let walls = wall_set(&cells);
    assert_eq!(
        build_wall_rects(&walls, 10, 3),
        vec![rect(0, 9, 0, 0), rect(0, 3, 1, 2), rect(6, 9, 1, 2)]
    );
}

#[test]
fn rects_come_in_the_order_they_are_finished() {
    // The column at x = 4 ends in row 1, the one at x = 0 in row 2, the one
    // at x = 2 in row 0.
    let walls = wall_set(&[(0, 0), (2, 0), (4, 0), (0, 1), (4, 1), (0, 2)]);
    assert_eq!(
        build_wall_rects(&walls, 5, 3),
        vec![rect(2, 2, 0, 0), rect(4, 4, 0, 1), rect(0, 0, 0, 2)]
    );
}

#[test]
fn same_plate_after_a_gap_starts_a_new_rect() {
    let walls = wall_set(&[(1, 0), (2, 0), (1, 2), (2, 2)]);
    assert_eq!(build_wall_rects(&walls, 4, 3), vec![rect(1, 2, 0, 0), rect(1, 2, 2, 2)]);
}

#[test]
fn rects_cover_the_walls_exactly() {
    let cells = sample_level();
    let walls = wall_set(&cells);
    let rects = build_wall_rects(&walls, 12, 8);
    let mut expected = cells.clone();
    expected.sort();
    assert_eq!(covered(&rects), expected);
}

#[test]
fn rects_do_not_overlap() {
    let walls = wall_set(&sample_level());
    let rects = build_wall_rects(&walls, 12, 8);
    for (i, a) in rects.iter().enumerate() {
        for b in &rects[i + 1..] {
            let apart = a.right < b.left || b.right < a.left || a.top < b.bottom || b.top < a.bottom;
            assert!(apart, "{:?} and {:?} overlap", a, b);
        }
    }
}

#[test]
fn sample_level_rects() {
    let walls = wall_set(&sample_level());
    assert_eq!(
        build_wall_rects(&walls, 12, 8),
        vec![
            rect(0, 11, 0, 0),
            rect(8, 8, 2, 2),
            rect(5, 6, 1, 3),
            rect(3, 4, 4, 4),
            rect(0, 0, 1, 5),
            rect(9, 9, 5, 5),
            rect(11, 11, 1, 5),
            rect(11, 11, 7, 7),
        ]
    );
}

#[test]
fn building_twice_gives_the_same_list() {
    let walls = wall_set(&sample_level());
    let first = build_wall_rects(&walls, 12, 8);
    let second = build_wall_rects(&walls, 12, 8);
    assert_eq!(first, second);
}

#[test]
fn order_of_the_tiles_does_not_matter() {
    let cells = sample_level();
    let mut reversed = cells.clone();
    reversed.reverse();
    reversed.push(cells[0]);
    let first = build_wall_rects(&wall_set(&cells), 12, 8);
    let second = build_wall_rects(&wall_set(&reversed), 12, 8);
    assert_eq!(first, second);
}

#[test]
fn tiles_outside_the_grid_are_not_covered() {
    let walls = wall_set(&[(1, 1), (-1, 0), (2, 5), (9, 1), (0, -3)]);
    assert_eq!(build_wall_rects(&walls, 4, 3), vec![rect(1, 1, 1, 1)]);
}

#[test]
fn run_that_goes_on_beyond_the_right_edge_is_no_plate() {
    // Column 4 lies just beyond a grid 4 tiles wide: the scan looks at it to
    // close the runs, and this one stays open.
    let walls = wall_set(&[(2, 0), (3, 0), (4, 0), (0, 0)]);
    assert_eq!(build_wall_rects(&walls, 4, 1), vec![rect(0, 0, 0, 0)]);
}

#[test]
fn grids_without_columns_or_rows_have_no_rects() {
    let walls = wall_set(&[(0, 0), (1, 0), (0, 1)]);
    assert_eq!(build_wall_rects(&walls, 0, 4), vec![]);
    assert_eq!(build_wall_rects(&walls, 4, 0), vec![]);
    assert_eq!(build_wall_rects(&walls, -1, 4), vec![]);
    assert_eq!(build_wall_rects(&walls, 4, -2), vec![]);
}
