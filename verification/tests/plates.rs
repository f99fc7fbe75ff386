use platformer_core::grid::{GridCoord, WallSet};
use platformer_core::plate::{build_plate_stack, build_row_plates, Plate};

fn row_walls(y: i32, columns: &[i32]) -> WallSet {
    let cells: Vec<GridCoord> = columns.iter().map(|&x| GridCoord { x, y }).collect();
    WallSet::from_cells(&cells)
}

fn plate(left: i32, right: i32) -> Plate {
    Plate { left, right }
}

#[test]
fn row_without_walls_has_no_plates() {
    let walls = row_walls(0, &[]);
    assert_eq!(build_row_plates(&walls, 0, 6), vec![]);
}

#[test]
fn row_of_another_height_has_no_plates() {
    let walls = row_walls(3, &[1, 2]);
    assert_eq!(build_row_plates(&walls, 2, 6), vec![]);
    assert_eq!(build_row_plates(&walls, 3, 6), vec![plate(1, 2)]);
}

#[test]
fn contiguous_columns_form_one_plate() {
    let walls = row_walls(1, &[2, 3, 4]);
    assert_eq!(build_row_plates(&walls, 1, 8), vec![plate(2, 4)]);
}

#[test]
fn gaps_part_the_plates() {
    let walls = row_walls(0, &[0, 1, 3, 5, 6, 7]);
    assert_eq!(build_row_plates(&walls, 0, 9), vec![plate(0, 1), plate(3, 3), plate(5, 7)]);
}

#[test]
fn run_that_touches_the_right_edge_is_closed() {
    let walls = row_walls(0, &[3, 4, 5]);
    assert_eq!(build_row_plates(&walls, 0, 6), vec![plate(3, 5)]);
}

#[test]
fn full_row_is_one_plate() {
    let walls = row_walls(2, &[0, 1, 2, 3]);
    assert_eq!(build_row_plates(&walls, 2, 4), vec![plate(0, 3)]);
}

#[test]
fn columns_beyond_the_scan_are_not_looked_at() {
    let walls = row_walls(0, &[1, 5, 6]);
    assert_eq!(build_row_plates(&walls, 0, 3), vec![plate(1, 1)]);
}

#[test]
fn run_through_the_column_beyond_the_edge_stays_open() {
    let walls = row_walls(0, &[0, 2, 3]);
    assert_eq!(build_row_plates(&walls, 0, 3), vec![plate(0, 0)]);
    assert_eq!(build_row_plates(&walls, 0, 4), vec![plate(0, 0), plate(2, 3)]);
}

#[test]
fn negative_columns_are_not_looked_at() {
    let walls = row_walls(0, &[-2, -1, 0, 1]);
    assert_eq!(build_row_plates(&walls, 0, 4), vec![plate(0, 1)]);
}

#[test]
fn row_without_columns_has_no_plates() {
    let walls = row_walls(0, &[0]);
    assert_eq!(build_row_plates(&walls, 0, 0), vec![]);
    assert_eq!(build_row_plates(&walls, 0, -5), vec![]);
}

#[test]
fn stack_holds_one_row_of_plates_per_grid_row() {
    let cells = vec![
        GridCoord { x: 0, y: 0 },
        GridCoord { x: 1, y: 0 },
        GridCoord { x: 3, y: 0 },
        GridCoord { x: 1, y: 2 },
    ];
    let walls = WallSet::from_cells(&cells);
    assert_eq!(
        build_plate_stack(&walls, 4, 3),
        vec![vec![plate(0, 1), plate(3, 3)], vec![], vec![plate(1, 1)]]
    );
}

#[test]
fn stack_of_a_grid_without_rows_is_empty() {
    let walls = row_walls(0, &[0, 1]);
    assert_eq!(build_plate_stack(&walls, 4, 0), Vec::<Vec<Plate>>::new());
    assert_eq!(build_plate_stack(&walls, 4, -1), Vec::<Vec<Plate>>::new());
}
