use platformer_core::merge::merge_plates;
use platformer_core::plate::Plate;
use platformer_core::rect::Rect;

fn plate(left: i32, right: i32) -> Plate {
    Plate { left, right }
}

fn rect(left: i32, right: i32, bottom: i32, top: i32) -> Rect {
    Rect { left, right, top, bottom }
}

#[test]
fn empty_stack_merges_into_nothing() {
    assert_eq!(merge_plates(&vec![]), vec![]);
    assert_eq!(merge_plates(&vec![vec![], vec![], vec![]]), vec![]);
}

#[test]
fn plate_of_a_single_row_is_a_rect_one_row_high() {
    assert_eq!(merge_plates(&vec![vec![plate(2, 5)]]), vec![rect(2, 5, 0, 0)]);
}

#[test]
fn equal_plates_of_consecutive_rows_pile_up() {
    let stack = vec![vec![plate(1, 3)], vec![plate(1, 3)], vec![plate(1, 3)], vec![]];
    assert_eq!(merge_plates(&stack), vec![rect(1, 3, 0, 2)]);
}

#[test]
fn pile_can_start_above_the_bottom_row() {
    let stack = vec![vec![], vec![], vec![plate(0, 0)], vec![plate(0, 0)]];
    assert_eq!(merge_plates(&stack), vec![rect(0, 0, 2, 3)]);
}

#[test]
fn plates_with_other_bounds_do_not_merge() {
    let stack = vec![vec![plate(0, 4)], vec![plate(0, 3)], vec![plate(1, 4)]];
    assert_eq!(merge_plates(&stack), vec![rect(0, 4, 0, 0), rect(0, 3, 1, 1), rect(1, 4, 2, 2)]);
}

#[test]
fn rects_of_one_row_come_in_the_order_of_its_plates() {
    let stack = vec![vec![plate(6, 7), plate(0, 1), plate(3, 4)]];
    assert_eq!(merge_plates(&stack), vec![rect(6, 7, 0, 0), rect(0, 1, 0, 0), rect(3, 4, 0, 0)]);
}

#[test]
fn rects_come_by_their_top_row() {
    let stack = vec![
        vec![plate(0, 0), plate(2, 2), plate(4, 4)],
        vec![plate(0, 0), plate(4, 4)],
        vec![plate(0, 0)],
    ];
    assert_eq!(merge_plates(&stack), vec![rect(2, 2, 0, 0), rect(4, 4, 0, 1), rect(0, 0, 0, 2)]);
}

#[test]
fn plate_that_comes_back_after_a_gap_starts_anew() {
    let stack = vec![vec![plate(1, 2)], vec![], vec![plate(1, 2)], vec![plate(1, 2)]];
    assert_eq!(merge_plates(&stack), vec![rect(1, 2, 0, 0), rect(1, 2, 2, 3)]);
}

#[test]
fn order_within_the_rows_does_not_break_a_pile() {
    let stack = vec![vec![plate(0, 1), plate(5, 6)], vec![plate(5, 6), plate(0, 1)]];
    assert_eq!(merge_plates(&stack), vec![rect(5, 6, 0, 1), rect(0, 1, 0, 1)]);
}

#[test]
fn plate_listed_twice_in_a_row_gives_one_rect() {
    let stack = vec![vec![plate(0, 1), plate(0, 1)], vec![plate(0, 1)], vec![plate(0, 1), plate(0, 1)]];
    assert_eq!(merge_plates(&stack), vec![rect(0, 1, 0, 2)]);
}
