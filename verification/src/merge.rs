//! Merging the plates of consecutive rows into rectangles.
//!
//! A plate that recurs with the same bounds in the next row up belongs to the
//! same rectangle; a plate that shifts by even one column starts a new one.

use crate::open_rects::{open_rects, OpenRects};
use crate::plate::{Plate, PlateView};
use crate::rect::{Rect, RectView};
use vstd::prelude::*;

verus! {

/// Whether row `y` of the stack holds a plate with the bounds of `plate`.
/// Rows outside the stack hold none.
pub open spec fn row_has(rows: Seq<Seq<PlateView>>, y: int, plate: PlateView) -> bool {
    0 <= y < rows.len() && rows[y].contains(plate)
}

/// The lowest row of the unbroken pile of equal plates that ends with `plate`
/// in row `y`.
pub open spec fn pile_bottom(rows: Seq<Seq<PlateView>>, plate: PlateView, y: int) -> int
    decreases y,
{
    if y > 0 && row_has(rows, y - 1, plate) {
        pile_bottom(rows, plate, y - 1)
    } else {
        y
    }
}

/// The rectangle that `plate` has grown into once row `y` is merged.
pub open spec fn pile_rect(rows: Seq<Seq<PlateView>>, plate: PlateView, y: int) -> RectView {
    RectView { left: plate.left, right: plate.right, top: y, bottom: pile_bottom(rows, plate, y) }
}

/// Whether the plate at index `i` of row `y` finishes a rectangle: the next
/// row up does not hold it, and it does not repeat a plate that stands
/// earlier in its own row.
pub open spec fn finishes_rect(rows: Seq<Seq<PlateView>>, y: int, i: int) -> bool {
    !row_has(rows, y + 1, rows[y][i]) && !rows[y].take(i).contains(rows[y][i])
}

/// The rectangles that the first `n` plates of row `y` finish, in the order
/// of those plates.
pub open spec fn row_rects(rows: Seq<Seq<PlateView>>, y: int, n: int) -> Seq<RectView>
    decreases n,
{
    if n <= 0 {
        Seq::empty()
    } else {
        let before = row_rects(rows, y, n - 1);
        if finishes_rect(rows, y, n - 1) {
            before.push(pile_rect(rows, rows[y][n - 1], y))
        } else {
            before
        }
    }
}

/// The rectangles whose top row lies below row `h`: those that end in row 0
/// first, then those that end in row 1, and so on.
pub open spec fn rects_below(rows: Seq<Seq<PlateView>>, h: int) -> Seq<RectView>
    decreases h,
{
    if h <= 0 {
        Seq::empty()
    } else {
        rects_below(rows, h - 1) + row_rects(rows, h - 1, rows[h - 1].len() as int)
    }
}

/// The rectangles that a stack of plate rows merges into, in the order in
/// which the scan from the bottom row upwards finishes them.
pub open spec fn merged_rects(rows: Seq<Seq<PlateView>>) -> Seq<RectView> {
    rects_below(rows, rows.len() as int)
}

/// Whether the plate at index `i` of row `y` exists and finishes a rectangle.
pub open spec fn is_finisher(rows: Seq<Seq<PlateView>>, y: int, i: int) -> bool {
    0 <= y < rows.len() && 0 <= i < rows[y].len() && finishes_rect(rows, y, i)
}

/// The rectangle that the plate at index `i` of row `y` finishes.
pub open spec fn finished_rect(rows: Seq<Seq<PlateView>>, y: int, i: int) -> RectView {
    pile_rect(rows, rows[y][i], y)
}

/// Whether some plate of row `y` spans column `x`.
pub open spec fn plates_cover(rows: Seq<Seq<PlateView>>, x: int, y: int) -> bool {
    exists|plate: PlateView| #[trigger] row_has(rows, y, plate) && plate.spans(x)
}

/// Whether some rectangle of the list covers the tile at column `x`, row `y`.
pub open spec fn rects_cover(rects: Seq<RectView>, x: int, y: int) -> bool {
    exists|k: int| 0 <= k < rects.len() && #[trigger] rects[k].covers(x, y)
}

/// Whether no two rectangles of the list have a tile in common.
pub open spec fn pairwise_apart(rects: Seq<RectView>) -> bool {
    forall|a: int, b: int|
        0 <= a < b < rects.len() ==> !(#[trigger] rects[a]).overlaps(#[trigger] rects[b])
}

/// Whether, in every row, two plates that share a column are equal.
pub open spec fn rows_apart(rows: Seq<Seq<PlateView>>) -> bool {
    forall|y: int, first: PlateView, second: PlateView, x: int|
        #![trigger row_has(rows, y, first), row_has(rows, y, second), first.spans(x)]
        row_has(rows, y, first) && row_has(rows, y, second) && first.spans(x) && second.spans(x)
            ==> first == second
}

/// The highest row of the unbroken pile of equal plates that holds `plate` in
/// row `y`.
pub open spec fn pile_top(rows: Seq<Seq<PlateView>>, plate: PlateView, y: int) -> int
    decreases rows.len() - y,
{
    if row_has(rows, y + 1, plate) {
        pile_top(rows, plate, y + 1)
    } else {
        y
    }
}

/// A pile holds its plate in every row from its bottom to the row it was
/// followed down from, and the row below its bottom does not hold the plate.
pub proof fn lemma_pile_bottom(rows: Seq<Seq<PlateView>>, plate: PlateView, y: int)
    requires
        row_has(rows, y, plate),
    ensures
        0 <= pile_bottom(rows, plate, y) <= y,
        forall|r: int| pile_bottom(rows, plate, y) <= r <= y ==> row_has(rows, r, plate),
        !row_has(rows, pile_bottom(rows, plate, y) - 1, plate),
    decreases y,
{
    if y > 0 && row_has(rows, y - 1, plate) {
        lemma_pile_bottom(rows, plate, y - 1);
    }
}

/// A pile holds its plate in every row up to its top, the row above its top
/// does not hold the plate, and seen from its top the pile has the same
/// bottom.
pub proof fn lemma_pile_top(rows: Seq<Seq<PlateView>>, plate: PlateView, y: int)
    requires
        row_has(rows, y, plate),
    ensures
        y <= pile_top(rows, plate, y) < rows.len(),
        forall|r: int| y <= r <= pile_top(rows, plate, y) ==> row_has(rows, r, plate),
        !row_has(rows, pile_top(rows, plate, y) + 1, plate),
        pile_bottom(rows, plate, pile_top(rows, plate, y)) == pile_bottom(rows, plate, y),
    decreases rows.len() - y,
{
    if row_has(rows, y + 1, plate) {
        lemma_pile_top(rows, plate, y + 1);
    }
}

proof fn lemma_first_occurrence<A>(s: Seq<A>, a: A, n: int) -> (i: int)
    requires
        0 <= n < s.len(),
        s[n] == a,
    ensures
        0 <= i <= n,
        s[i] == a,
        !s.take(i).contains(a),
    decreases n,
{
    let shorter = s.take(n);
    if shorter.contains(a) {
        let j = choose|j: int| 0 <= j < shorter.len() && shorter[j] == a;
        lemma_first_occurrence(s, a, j)
    } else {
        n
    }
}

/// Two finished rectangles with a tile in common are one and the same: they
/// were finished by the same plate of the same row.
proof fn lemma_overlap_same_finisher(rows: Seq<Seq<PlateView>>, y1: int, i1: int, y2: int, i2: int)
    requires
        rows_apart(rows),
        is_finisher(rows, y1, i1),
        is_finisher(rows, y2, i2),
        finished_rect(rows, y1, i1).overlaps(finished_rect(rows, y2, i2)),
    ensures
        y1 == y2,
        i1 == i2,
{
    let first = rows[y1][i1];
    let second = rows[y2][i2];
    let (x, y) = choose|x: int, y: int|
        finished_rect(rows, y1, i1).covers(x, y) && finished_rect(rows, y2, i2).covers(x, y);
    // Both piles hold their plate in row `y`, where the two plates share
    // column `x`: so they are one plate.
    lemma_pile_bottom(rows, first, y1);
    lemma_pile_bottom(rows, second, y2);
    assert(row_has(rows, y, first) && first.spans(x));
    assert(row_has(rows, y, second) && second.spans(x));
    assert(first == second);
    // Had one pile its top below the other's, the row above that top would
    // hold the plate. And of two places in one row, the later one would
    // repeat the plate of the earlier.
    if i1 < i2 {
        assert(rows[y2].take(i2)[i1] == first);
    }
    if i2 < i1 {
        assert(rows[y1].take(i1)[i2] == second);
    }
}

/// The rectangles finished once the first `n` plates of row `y` are checked.
spec fn rects_so_far(rows: Seq<Seq<PlateView>>, y: int, n: int) -> Seq<RectView> {
    rects_below(rows, y) + row_rects(rows, y, n)
}

/// Whether `rect` was finished by a plate that stands before index `n` of row
/// `y` in the order of the scan.
spec fn finished_before(rows: Seq<Seq<PlateView>>, rect: RectView, y: int, n: int) -> bool {
    exists|yy: int, i: int|
        #[trigger] is_finisher(rows, yy, i) && (yy < y || (yy == y && i < n)) && rect
            == finished_rect(rows, yy, i)
}

proof fn lemma_finished_before_later(
    rows: Seq<Seq<PlateView>>,
    rect: RectView,
    y: int,
    n: int,
    later_y: int,
    later_n: int,
)
    requires
        finished_before(rows, rect, y, n),
        y < later_y || (y == later_y && n <= later_n),
    ensures
        finished_before(rows, rect, later_y, later_n),
{
    let (yy, i) = choose|yy: int, i: int|
        #[trigger] is_finisher(rows, yy, i) && (yy < y || (yy == y && i < n)) && rect
            == finished_rect(rows, yy, i);
    assert(is_finisher(rows, yy, i));
}

/// Every rectangle finished so far was finished by a plate that the scan has
/// passed, and where no two plates of a row overlap, no two of the rectangles
/// do.
proof fn lemma_rects_so_far(rows: Seq<Seq<PlateView>>, y: int, n: int)
    requires
        0 <= y <= rows.len(),
        y < rows.len() ==> 0 <= n <= rows[y].len(),
        y == rows.len() ==> n == 0,
    ensures
        forall|k: int|
            0 <= k < rects_so_far(rows, y, n).len() ==> finished_before(
                rows,
                #[trigger] rects_so_far(rows, y, n)[k],
                y,
                n,
            ),
        rows_apart(rows) ==> pairwise_apart(rects_so_far(rows, y, n)),
    decreases y, n,
{
    let rects = rects_so_far(rows, y, n);
    if n > 0 {
        let before = rects_so_far(rows, y, n - 1);
        lemma_rects_so_far(rows, y, n - 1);
        assert forall|k: int| 0 <= k < before.len() implies finished_before(
            rows,
            #[trigger] before[k],
            y,
            n,
        ) by {
            lemma_finished_before_later(rows, before[k], y, n - 1, y, n);
        }
        if finishes_rect(rows, y, n - 1) {
            let rect = finished_rect(rows, y, n - 1);
            assert(rects =~= before.push(rect));
            assert(is_finisher(rows, y, n - 1));
            if rows_apart(rows) {
                assert forall|a: int| 0 <= a < before.len() implies !(#[trigger] before[a]).overlaps(
                    rect,
                ) by {
                    let (yy, i) = choose|yy: int, i: int|
                        #[trigger] is_finisher(rows, yy, i) && (yy < y || (yy == y && i < n - 1))
                            && before[a] == finished_rect(rows, yy, i);
                    if before[a].overlaps(rect) {
                        lemma_overlap_same_finisher(rows, yy, i, y, n - 1);
                    }
                }
            }
        } else {
            assert(rects =~= before);
        }
    } else if y > 0 {
        let below = rects_so_far(rows, y - 1, rows[y - 1].len() as int);
        lemma_rects_so_far(rows, y - 1, rows[y - 1].len() as int);
        assert(rects =~= below);
        assert forall|k: int| 0 <= k < below.len() implies finished_before(
            rows,
            #[trigger] below[k],
            y,
            n,
        ) by {
            lemma_finished_before_later(rows, below[k], y - 1, rows[y - 1].len() as int, y, n);
        }
    }
}

proof fn lemma_row_finisher_emitted(rows: Seq<Seq<PlateView>>, y: int, n: int, i: int)
    requires
        is_finisher(rows, y, i),
        i < n <= rows[y].len(),
    ensures
        row_rects(rows, y, n).contains(finished_rect(rows, y, i)),
    decreases n,
{
    broadcast use vstd::seq_lib::lemma_seq_contains_after_push;

    if i < n - 1 {
        lemma_row_finisher_emitted(rows, y, n - 1, i);
    }
}

proof fn lemma_finisher_emitted(rows: Seq<Seq<PlateView>>, h: int, y: int, i: int)
    requires
        is_finisher(rows, y, i),
        y < h <= rows.len(),
    ensures
        rects_below(rows, h).contains(finished_rect(rows, y, i)),
    decreases h,
{
    broadcast use vstd::seq_lib::lemma_seq_concat_contains_all_elements;

    if y < h - 1 {
        lemma_finisher_emitted(rows, h - 1, y, i);
    } else {
        lemma_row_finisher_emitted(rows, y, rows[y].len() as int, i);
    }
}

/// The place, row and index, of the plate that finished a merged rectangle.
proof fn lemma_merged_rect_finisher(rows: Seq<Seq<PlateView>>, k: int) -> (place: (int, int))
    requires
        0 <= k < merged_rects(rows).len(),
    ensures
        is_finisher(rows, place.0, place.1),
        merged_rects(rows)[k] == finished_rect(rows, place.0, place.1),
{
    let height = rows.len() as int;
    assert(merged_rects(rows) =~= rects_so_far(rows, height, 0));
    lemma_rects_so_far(rows, height, 0);
    assert(finished_before(rows, rects_so_far(rows, height, 0)[k], height, 0));
    choose|yy: int, i: int|
        #[trigger] is_finisher(rows, yy, i) && (yy < height || (yy == height && i < 0))
            && merged_rects(rows)[k] == finished_rect(rows, yy, i)
}

/// The merged rectangles cover the tiles of the plates and no others: a tile
/// lies in one of the rectangles exactly when a plate of its row spans its
/// column.
pub proof fn lemma_merged_rects_cover_plates(rows: Seq<Seq<PlateView>>, x: int, y: int)
    ensures
        rects_cover(merged_rects(rows), x, y) <==> plates_cover(rows, x, y),
{
    let rects = merged_rects(rows);
    if rects_cover(rects, x, y) {
        // The rectangle is the pile of a plate, which every row of the pile
        // holds.
        let k = choose|k: int| 0 <= k < rects.len() && #[trigger] rects[k].covers(x, y);
        let (top, i) = lemma_merged_rect_finisher(rows, k);
        let plate = rows[top][i];
        assert(row_has(rows, top, plate));
        lemma_pile_bottom(rows, plate, top);
        assert(row_has(rows, y, plate) && plate.spans(x));
    }
    if plates_cover(rows, x, y) {
        // Follow the plate up to the top of its pile: there its first
        // occurrence in the row finishes a rectangle that reaches down to
        // row `y`.
        let plate = choose|plate: PlateView| #[trigger] row_has(rows, y, plate) && plate.spans(x);
        let top = pile_top(rows, plate, y);
        lemma_pile_top(rows, plate, y);
        assert(row_has(rows, top, plate));
        let n = choose|n: int| 0 <= n < rows[top].len() && rows[top][n] == plate;
        let i = lemma_first_occurrence(rows[top], plate, n);
        assert(is_finisher(rows, top, i));
        lemma_finisher_emitted(rows, rows.len() as int, top, i);
        let k = choose|k: int| 0 <= k < rects.len() && rects[k] == finished_rect(rows, top, i);
        lemma_pile_bottom(rows, plate, top);
        assert(rects[k].covers(x, y));
    }
}

/// Every merged rectangle is the pile of one plate, taken at its full height:
/// the plate stands in the rectangle's top row and in every row down to its
/// bottom, and stands neither in the row above nor in the row below.
pub proof fn lemma_merged_rect_is_pile(rows: Seq<Seq<PlateView>>, k: int) -> (plate: PlateView)
    requires
        0 <= k < merged_rects(rows).len(),
    ensures
        plate.left == merged_rects(rows)[k].left,
        plate.right == merged_rects(rows)[k].right,
        0 <= merged_rects(rows)[k].bottom <= merged_rects(rows)[k].top < rows.len(),
        forall|y: int|
            merged_rects(rows)[k].bottom <= y <= merged_rects(rows)[k].top ==> row_has(
                rows,
                y,
                plate,
            ),
        !row_has(rows, merged_rects(rows)[k].top + 1, plate),
        !row_has(rows, merged_rects(rows)[k].bottom - 1, plate),
{
    let (top, i) = lemma_merged_rect_finisher(rows, k);
    let plate = rows[top][i];
    assert(row_has(rows, top, plate));
    lemma_pile_bottom(rows, plate, top);
    plate
}

/// Where no two plates of a row overlap, no two merged rectangles do.
pub proof fn lemma_merged_rects_apart(rows: Seq<Seq<PlateView>>)
    requires
        rows_apart(rows),
    ensures
        pairwise_apart(merged_rects(rows)),
{
    lemma_rects_so_far(rows, rows.len() as int, 0);
    assert(merged_rects(rows) =~= rects_so_far(rows, rows.len() as int, 0));
}

/// The rectangles in progress while the plates of row `y` are checked against
/// the next row up, once the first `n` of them are done: the ones that grew
/// through row `y`, less the finished ones.
spec fn closing(rows: Seq<Seq<PlateView>>, y: int, n: int) -> Map<PlateView, RectView> {
    Map::new(
        |p: PlateView| row_has(rows, y, p) && (row_has(rows, y + 1, p) || !rows[y].take(n).contains(p)),
        |p: PlateView| pile_rect(rows, p, y),
    )
}

/// The rectangles in progress while the plates of row `y` are taken in, once
/// the first `n` of them are done: what came up from row `y - 1`, and what
/// those plates grew or started.
spec fn growing(rows: Seq<Seq<PlateView>>, y: int, n: int) -> Map<PlateView, RectView> {
    Map::new(
        |p: PlateView|
            (row_has(rows, y - 1, p) && row_has(rows, y, p)) || rows[y].take(n).contains(p),
        |p: PlateView|
            if rows[y].take(n).contains(p) {
                pile_rect(rows, p, y)
            } else {
                pile_rect(rows, p, y - 1)
            },
    )
}

proof fn lemma_take_next_contains<A>(s: Seq<A>, i: int, a: A)
    requires
        0 <= i < s.len(),
    ensures
        s.take(i + 1).contains(a) <==> s.take(i).contains(a) || s[i] == a,
{
    let shorter = s.take(i);
    let longer = s.take(i + 1);
    if shorter.contains(a) {
        let j = choose|j: int| 0 <= j < shorter.len() && shorter[j] == a;
        assert(longer[j] == a);
    }
    if s[i] == a {
        assert(longer[i] == a);
    }
    if longer.contains(a) {
        let j = choose|j: int| 0 <= j < longer.len() && longer[j] == a;
        if j < i {
            assert(shorter[j] == a);
        }
    }
}

/// Whether a row holds a plate with the bounds of `plate`.
fn row_contains(row: &Vec<Plate>, plate: Plate) -> (found: bool)
    ensures
        found == row.deep_view().contains(plate@),
{
    let mut i: usize = 0;
    while i < row.len()
        invariant
            i <= row.len(),
            !row.deep_view().take(i as int).contains(plate@),
        decreases row.len() - i,
    {
        if row[i].left == plate.left && row[i].right == plate.right {
            assert(row.deep_view()[i as int] == plate@);
            return true;
        }
        proof {
            lemma_take_next_contains(row.deep_view(), i as int, plate@);
        }
        i += 1;
    }
    assert(row.deep_view().take(row.len() as int) =~= row.deep_view());
    false
}

/// Moves the rectangles that end in row `y` from the map to the output: those
/// of the plates of row `y` that the next row up does not hold.
fn close_finished(
    open: &mut OpenRects,
    plate_stack: &Vec<Vec<Plate>>,
    y: usize,
    rects: &mut Vec<Rect>,
)
    requires
        y < plate_stack.len(),
        open_rects(*old(open)) == closing(plate_stack.deep_view(), y as int, 0),
        old(rects).deep_view() == rects_below(plate_stack.deep_view(), y as int),
    ensures
        open_rects(*final(open)) == closing(
            plate_stack.deep_view(),
            y as int,
            plate_stack[y as int].len() as int,
        ),
        final(rects).deep_view() == rects_below(plate_stack.deep_view(), y + 1),
{
    let ghost rows = plate_stack.deep_view();
    let row = &plate_stack[y];
    let mut i: usize = 0;
    while i < row.len()
        invariant
            i <= row.len(),
            y < plate_stack.len(),
            rows == plate_stack.deep_view(),
            rows[y as int] == row.deep_view(),
            open_rects(*open) == closing(rows, y as int, i as int),
            rects.deep_view() == rects_below(rows, y as int) + row_rects(rows, y as int, i as int),
        decreases row.len() - i,
    {
        let plate = row[i];
        let ghost before = rects.deep_view();
        let mut goes_on = false;
        if y + 1 < plate_stack.len() {
            goes_on = row_contains(&plate_stack[y + 1], plate);
        }
        if !goes_on {
            match open.remove(plate) {
                Some(rect) => {
                    rects.push(rect);
                    assert(rects.deep_view() =~= before.push(rect@));
                },
                None => {},
            }
        }
        proof {
            assert forall|p: PlateView|
                rows[y as int].take(i + 1).contains(p) <==> rows[y as int].take(i as int).contains(
                    p,
                ) || p == plate@ by {
                lemma_take_next_contains(rows[y as int], i as int, p);
            }
            assert(open_rects(*open) =~= closing(rows, y as int, i + 1));
            assert(rects.deep_view() =~= rects_below(rows, y as int) + row_rects(
                rows,
                y as int,
                i + 1,
            ));
        }
        i += 1;
    }
}

/// Takes the plates of row `y` in: a plate that has a rectangle in progress
/// raises its top to row `y`, any other starts a rectangle one row high.
fn grow_or_open(open: &mut OpenRects, plate_stack: &Vec<Vec<Plate>>, y: usize)
    requires
        y < plate_stack.len() <= i32::MAX,
        open_rects(*old(open)) == growing(plate_stack.deep_view(), y as int, 0),
    ensures
        open_rects(*final(open)) == growing(
            plate_stack.deep_view(),
            y as int,
            plate_stack[y as int].len() as int,
        ),
{
    let ghost rows = plate_stack.deep_view();
    let row = &plate_stack[y];
    let mut i: usize = 0;
    while i < row.len()
        invariant
            i <= row.len(),
            y < plate_stack.len() <= i32::MAX,
            rows == plate_stack.deep_view(),
            rows[y as int] == row.deep_view(),
            open_rects(*open) == growing(rows, y as int, i as int),
        decreases row.len() - i,
    {
        let plate = row[i];
        let rect = match open.get(plate) {
            Some(rect) => Rect {
                left: rect.left,
                right: rect.right,
                top: y as i32,
                bottom: rect.bottom,
            },
            None => Rect { left: plate.left, right: plate.right, top: y as i32, bottom: y as i32 },
        };
        open.insert(plate, rect);
        proof {
            assert forall|p: PlateView|
                rows[y as int].take(i + 1).contains(p) <==> rows[y as int].take(i as int).contains(
                    p,
                ) || p == plate@ by {
                lemma_take_next_contains(rows[y as int], i as int, p);
            }
            assert(rect@ == pile_rect(rows, plate@, y as int));
            assert(open_rects(*open) =~= growing(rows, y as int, i + 1));
        }
        i += 1;
    }
}

/// Merges the plates of consecutive rows into rectangles. `plate_stack` holds
/// the plates of each row, row 0 first; after its last row the rectangles
/// that reach it are finished as by an empty row. `plate_stack` has at most
/// `i32::MAX` rows, so that a `Rect` holds the index of each.
///
/// The rectangles come in the order in which they are finished: by their top
/// row, and within one top row in the order of that row's plates. They cover
/// the tiles of the plates and no others, and where no two plates of a row
/// overlap, no two rectangles do.
pub fn merge_plates(plate_stack: &Vec<Vec<Plate>>) -> (rects: Vec<Rect>)
    requires
        plate_stack.len() <= i32::MAX,
    ensures
        rects.deep_view() == merged_rects(plate_stack.deep_view()),
        forall|x: int, y: int| #[trigger]
            rects_cover(rects.deep_view(), x, y) <==> plates_cover(plate_stack.deep_view(), x, y),
        rows_apart(plate_stack.deep_view()) ==> pairwise_apart(rects.deep_view()),
{
    let ghost rows = plate_stack.deep_view();
    let mut open = OpenRects::new();
    let mut rects: Vec<Rect> = Vec::new();
    let mut y: usize = 0;
    // Before row `y` is taken in, the map holds what grew through row
    // `y - 1`, and the output what ended below it. Below row 0 lies no row, so
    // at first both are empty.
    assert(open_rects(open) =~= closing(rows, -1, 0));
    while y < plate_stack.len()
        invariant
            y <= plate_stack.len() <= i32::MAX,
            rows == plate_stack.deep_view(),
            open_rects(open) == closing(rows, y - 1, 0),
            rects.deep_view() == rects_below(rows, y - 1),
        decreases plate_stack.len() - y,
    {
        if y > 0 {
            close_finished(&mut open, plate_stack, y - 1, &mut rects);
            assert(rows[y - 1].take(rows[y - 1].len() as int) =~= rows[y - 1]);
        }
        assert(open_rects(open) =~= growing(rows, y as int, 0));
        grow_or_open(&mut open, plate_stack, y);
        assert(rows[y as int].take(rows[y as int].len() as int) =~= rows[y as int]);
        assert(open_rects(open) =~= closing(rows, y as int, 0));
        y += 1;
    }
    if y > 0 {
        close_finished(&mut open, plate_stack, y - 1, &mut rects);
    }
    proof {
        assert forall|x: int, y: int| #[trigger]
            rects_cover(rects.deep_view(), x, y) <==> plates_cover(rows, x, y) by {
            lemma_merged_rects_cover_plates(rows, x, y);
        }
        if rows_apart(rows) {
            lemma_merged_rects_apart(rows);
        }
    }
    rects
}

} // verus!
