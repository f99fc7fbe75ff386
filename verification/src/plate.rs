//! Plates: the horizontal runs of wall tiles within one row.

use crate::grid::{GridCoord, WallSet};
use vstd::prelude::*;

verus! {

/// A run of contiguous wall tiles within a single row, from column `left` to
/// column `right`, both included. Two plates are equal when their bounds are,
/// whatever rows they were found in.
#[derive(Clone, Copy, Debug, PartialEq, Eq, Structural, Hash, Default)]
pub struct Plate {
    pub left: i32,
    pub right: i32,
}

/// The interval of columns that a [`Plate`] stands for.
pub struct PlateView {
    pub left: int,
    pub right: int,
}

impl PlateView {
    /// Whether column `x` lies within the plate.
    pub open spec fn spans(self, x: int) -> bool {
        self.left <= x <= self.right
    }
}

impl View for Plate {
    type V = PlateView;

    open spec fn view(&self) -> PlateView {
        PlateView { left: self.left as int, right: self.right as int }
    }
}

impl DeepView for Plate {
    type V = PlateView;

    open spec fn deep_view(&self) -> PlateView {
        self@
    }
}

/// The column at which the run of wall tiles that reaches column `x` of row
/// `y` begins. Columns left of 0 are never looked at.
pub open spec fn run_start(walls: Set<(int, int)>, y: int, x: int) -> int
    decreases x,
{
    if x > 0 && walls.contains((x - 1, y)) {
        run_start(walls, y, x - 1)
    } else {
        x
    }
}

/// Whether a run of wall tiles of row `y` ends at column `x`: the tile is a
/// wall and its right neighbour is not.
pub open spec fn run_ends_at(walls: Set<(int, int)>, y: int, x: int) -> bool {
    walls.contains((x, y)) && !walls.contains((x + 1, y))
}

/// The plates of row `y` that end left of column `width`, from left to right.
///
/// These are the runs that a scan of the columns `0..=width` closes: column
/// `width` itself is looked at, as the right neighbour of the last column, and
/// a run that goes on through it is not a plate.
pub open spec fn row_plates(walls: Set<(int, int)>, y: int, width: int) -> Seq<PlateView>
    decreases width,
{
    if width <= 0 {
        Seq::empty()
    } else {
        let before = row_plates(walls, y, width - 1);
        if run_ends_at(walls, y, width - 1) {
            before.push(PlateView { left: run_start(walls, y, width - 1), right: width - 1 })
        } else {
            before
        }
    }
}

/// The plates of the rows `0..height`, row 0 first.
pub open spec fn plate_stack(
    walls: Set<(int, int)>,
    width: int,
    height: int,
) -> Seq<Seq<PlateView>> {
    Seq::new(if height > 0 { height as nat } else { 0 }, |y: int| row_plates(walls, y, width))
}

/// Whether `plate` is a run of wall tiles of row `y` that can grow neither
/// way and that ends left of column `width`: every tile of it is a wall, the
/// tile to its right is none, and to its left lies the edge of the grid or a
/// tile that is no wall.
pub open spec fn is_closed_run(
    walls: Set<(int, int)>,
    y: int,
    width: int,
    plate: PlateView,
) -> bool {
    &&& 0 <= plate.left <= plate.right < width
    &&& forall|x: int| plate.left <= x <= plate.right ==> walls.contains((x, y))
    &&& !walls.contains((plate.right + 1, y))
    &&& (plate.left == 0 || !walls.contains((plate.left - 1, y)))
}

/// From its start up to column `x`, a run holds wall tiles only, and it
/// starts at the edge of the grid or right of a tile that is no wall.
pub proof fn lemma_run_start(walls: Set<(int, int)>, y: int, x: int)
    requires
        0 <= x,
    ensures
        0 <= run_start(walls, y, x) <= x,
        forall|c: int| run_start(walls, y, x) <= c < x ==> walls.contains((c, y)),
        run_start(walls, y, x) == 0 || !walls.contains((run_start(walls, y, x) - 1, y)),
    decreases x,
{
    if x > 0 && walls.contains((x - 1, y)) {
        lemma_run_start(walls, y, x - 1);
    }
}

/// The plates of a row are its closed runs, each once, from left to right,
/// with at least one tile that is no wall between two of them.
pub proof fn lemma_row_plates_are_closed_runs(walls: Set<(int, int)>, y: int, width: int)
    ensures
        forall|plate: PlateView| #[trigger]
            row_plates(walls, y, width).contains(plate) <==> is_closed_run(walls, y, width, plate),
        forall|i: int, j: int|
            0 <= i < j < row_plates(walls, y, width).len() ==> (#[trigger] row_plates(
                walls,
                y,
                width,
            )[i]).right + 1 < (#[trigger] row_plates(walls, y, width)[j]).left,
    decreases width,
{
    broadcast use vstd::seq_lib::lemma_seq_contains_after_push;

    if width > 0 {
        // The plates that end left of the last column come first. The run
        // that ends at the last column, if there is one, is closed by
        // `lemma_run_start`, and it lies right of every earlier plate, past
        // the tile that closes that plate.
        let last = width - 1;
        let plates = row_plates(walls, y, width);
        let before = row_plates(walls, y, last);
        lemma_row_plates_are_closed_runs(walls, y, last);
        lemma_run_start(walls, y, last);
        assert forall|i: int, j: int| 0 <= i < j < plates.len() implies (#[trigger] plates[i]).right
            + 1 < (#[trigger] plates[j]).left by {
            if j == before.len() {
                assert(before.contains(plates[i]));
            }
        }
    }
}

/// Two plates of one row that share a column are the same plate.
pub proof fn lemma_row_plates_apart(
    walls: Set<(int, int)>,
    y: int,
    width: int,
    first: PlateView,
    second: PlateView,
    x: int,
)
    requires
        row_plates(walls, y, width).contains(first),
        row_plates(walls, y, width).contains(second),
        first.spans(x),
        second.spans(x),
    ensures
        first == second,
{
    // Both are closed runs: neither can end before the other does, nor start
    // after the other does.
    lemma_row_plates_are_closed_runs(walls, y, width);
}

/// The column at which the run of wall tiles that holds column `x` of row `y`
/// ends, looking no further than column `limit`.
pub open spec fn run_end(walls: Set<(int, int)>, y: int, x: int, limit: int) -> int
    decreases limit - x,
{
    if x < limit && walls.contains((x + 1, y)) {
        run_end(walls, y, x + 1, limit)
    } else {
        x
    }
}

/// Every wall tile of a row lies in one of the row's plates, unless its run
/// goes on through column `width`, beyond the last column of the grid.
pub proof fn lemma_wall_tile_in_plate(walls: Set<(int, int)>, y: int, width: int, x: int) -> (plate:
    PlateView)
    requires
        0 <= x < width,
        walls.contains((x, y)),
        !walls.contains((width, y)),
    ensures
        row_plates(walls, y, width).contains(plate),
        plate.spans(x),
{
    // The run goes from `x` to the right as far as `end`, which lies left of
    // column `width`, and from `end` to the left as far as its start.
    let end = run_end(walls, y, x, width);
    lemma_run_end(walls, y, x, width);
    lemma_run_start(walls, y, end);
    let plate = PlateView { left: run_start(walls, y, end), right: end };
    assert(is_closed_run(walls, y, width, plate));
    lemma_row_plates_are_closed_runs(walls, y, width);
    plate
}

proof fn lemma_run_end(walls: Set<(int, int)>, y: int, x: int, limit: int)
    requires
        x <= limit,
        walls.contains((x, y)),
    ensures
        x <= run_end(walls, y, x, limit) <= limit,
        forall|c: int| x <= c <= run_end(walls, y, x, limit) ==> walls.contains((c, y)),
        run_end(walls, y, x, limit) == limit || !walls.contains(
            (run_end(walls, y, x, limit) + 1, y),
        ),
    decreases limit - x,
{
    if x < limit && walls.contains((x + 1, y)) {
        lemma_run_end(walls, y, x + 1, limit);
    }
}

/// Whether two sets of wall tiles hold the same tiles of row `y` in the
/// columns `0..=width`, the ones that a scan of the row looks at.
pub open spec fn same_row(
    walls: Set<(int, int)>,
    others: Set<(int, int)>,
    y: int,
    width: int,
) -> bool {
    forall|x: int| 0 <= x <= width ==> (walls.contains((x, y)) <==> others.contains((x, y)))
}

/// The plates of a row depend on nothing but the tiles that the scan of the
/// row looks at.
pub proof fn lemma_same_row_same_plates(
    walls: Set<(int, int)>,
    others: Set<(int, int)>,
    y: int,
    width: int,
)
    requires
        same_row(walls, others, y, width),
    ensures
        row_plates(walls, y, width) == row_plates(others, y, width),
    decreases width,
{
    if width > 0 {
        lemma_same_row_same_plates(walls, others, y, width - 1);
        lemma_same_row_same_start(walls, others, y, width, width - 1);
    }
}

proof fn lemma_same_row_same_start(
    walls: Set<(int, int)>,
    others: Set<(int, int)>,
    y: int,
    width: int,
    x: int,
)
    requires
        same_row(walls, others, y, width),
        x <= width,
    ensures
        run_start(walls, y, x) == run_start(others, y, x),
    decreases x,
{
    if x > 0 {
        lemma_same_row_same_start(walls, others, y, width, x - 1);
    }
}

/// Merges the wall tiles of row `y` into plates, scanning the columns from 0
/// to `width`. Column `width` lies beyond the last column of the grid and
/// serves to close a run that touches the right edge.
///
/// The plates are the closed runs of the row, each once and from left to
/// right. A row without wall tiles has none, and so has a grid without
/// columns.
pub fn build_row_plates(walls: &WallSet, y: i32, width: i32) -> (plates: Vec<Plate>)
    ensures
        plates.deep_view() == row_plates(walls@, y as int, width as int),
        forall|plate: PlateView| #[trigger]
            plates.deep_view().contains(plate) <==> is_closed_run(
                walls@,
                y as int,
                width as int,
                plate,
            ),
        forall|i: int, j: int|
            0 <= i < j < plates.len() ==> (#[trigger] plates[i]).right + 1 < (
            #[trigger] plates[j]).left,
{
    let mut plates: Vec<Plate> = Vec::new();
    proof {
        lemma_row_plates_are_closed_runs(walls@, y as int, width as int);
    }
    if width < 0 {
        return plates;
    }
    let mut plate_start: Option<i32> = None;
    let mut x: i32 = 0;
    loop
        invariant_except_break
            0 <= x <= width,
            plates.deep_view() == row_plates(walls@, y as int, x - 1),
            match plate_start {
                Some(s) => x > 0 && walls@.contains((x - 1, y as int)) && s == run_start(
                    walls@,
                    y as int,
                    x - 1,
                ),
                None => x == 0 || !walls@.contains((x - 1, y as int)),
            },
        ensures
            plates.deep_view() == row_plates(walls@, y as int, width as int),
        decreases width - x,
    {
        let ghost closed = plates.deep_view();
        let is_wall = walls.contains(GridCoord { x, y });
        match (plate_start, is_wall) {
            (Some(s), false) => {
                let plate = Plate { left: s, right: x - 1 };
                plates.push(plate);
                plate_start = None;
                assert(plates.deep_view() =~= closed.push(plate@));
            },
            (None, true) => {
                plate_start = Some(x);
            },
            _ => {},
        }
        if x == width {
            break;
        }
        x += 1;
    }
    proof {
        assert forall|i: int, j: int| 0 <= i < j < plates.len() implies (#[trigger] plates[i]).right
            + 1 < (#[trigger] plates[j]).left by {
            assert(plates.deep_view()[i] == plates[i]@);
            assert(plates.deep_view()[j] == plates[j]@);
        }
    }
    plates
}

/// Builds the plates of every row of a grid `width` tiles wide and `height`
/// tiles high, row 0 first.
pub fn build_plate_stack(walls: &WallSet, width: i32, height: i32) -> (stack: Vec<Vec<Plate>>)
    ensures
        stack.deep_view() == plate_stack(walls@, width as int, height as int),
{
    let mut stack: Vec<Vec<Plate>> = Vec::new();
    let mut y: i32 = 0;
    while y < height
        invariant
            0 <= y,
            y <= height || y == 0,
            stack.deep_view() == plate_stack(walls@, width as int, y as int),
        decreases height - y,
    {
        let ghost below = stack.deep_view();
        let row = build_row_plates(walls, y, width);
        stack.push(row);
        assert(stack.deep_view() =~= below.push(row.deep_view()));
        y += 1;
    }
    stack
}

} // verus!
