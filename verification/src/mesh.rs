//! From the wall tiles of a level to its rectangles.

use crate::grid::WallSet;
use crate::merge::{
    lemma_merged_rect_is_pile, lemma_merged_rects_apart, lemma_merged_rects_cover_plates,
    merge_plates, merged_rects, pairwise_apart, rects_cover, row_has, rows_apart,
};
use crate::plate::{
    build_plate_stack, is_closed_run, lemma_row_plates_apart, lemma_row_plates_are_closed_runs,
    lemma_same_row_same_plates, lemma_wall_tile_in_plate, plate_stack, same_row, PlateView,
};
use crate::rect::{Rect, RectView};
use vstd::prelude::*;

verus! {

/// The rectangles of a level `width` tiles wide and `height` tiles high: the
/// plates of each row, merged across the rows.
pub open spec fn wall_rects(walls: Set<(int, int)>, width: int, height: int) -> Seq<RectView> {
    merged_rects(plate_stack(walls, width, height))
}

/// Builds the rectangles that cover the wall tiles of a level `width` tiles
/// wide and `height` tiles high. The list depends on nothing but the set of
/// wall tiles and the two dimensions. No two of its rectangles overlap, they
/// cover wall tiles of the grid only, and where all the wall tiles lie within
/// the grid, they cover every one of them. Each is a pile of equal plates at
/// its full height.
pub fn build_wall_rects(walls: &WallSet, width: i32, height: i32) -> (rects: Vec<Rect>)
    ensures
        rects.deep_view() == wall_rects(walls@, width as int, height as int),
        pairwise_apart(rects.deep_view()),
        forall|x: int, y: int| #[trigger]
            rects_cover(rects.deep_view(), x, y) ==> walls@.contains((x, y)) && 0 <= x < width
                && 0 <= y < height,
        within_grid(walls@, width as int, height as int) ==> forall|x: int, y: int|
            walls@.contains((x, y)) ==> #[trigger] rects_cover(rects.deep_view(), x, y),
        forall|k: int|
            0 <= k < rects.len() ==> is_full_pile(
                walls@,
                width as int,
                height as int,
                #[trigger] rects.deep_view()[k],
            ),
{
    let stack = build_plate_stack(walls, width, height);
    // One row of plates per row of the grid: no more than `i32::MAX`.
    assert(stack.len() == stack.deep_view().len());
    let rects = merge_plates(&stack);
    proof {
        lemma_rects_disjoint(walls@, width as int, height as int);
        lemma_rects_hold_walls_only(walls@, width as int, height as int);
        if within_grid(walls@, width as int, height as int) {
            lemma_rects_cover_walls(walls@, width as int, height as int);
        }
        assert forall|k: int| 0 <= k < rects.len() implies is_full_pile(
            walls@,
            width as int,
            height as int,
            #[trigger] rects.deep_view()[k],
        ) by {
            lemma_rect_is_full_pile(walls@, width as int, height as int, k);
        }
    }
    rects
}

/// Whether every wall tile lies within the grid: in a column from 0 up to,
/// not including, `width`, and in a row from 0 up to, not including, `height`.
pub open spec fn within_grid(walls: Set<(int, int)>, width: int, height: int) -> bool {
    forall|x: int, y: int| #[trigger] walls.contains((x, y)) ==> 0 <= x < width && 0 <= y < height
}

/// In every row of a level, two plates that share a column are equal.
pub proof fn lemma_plate_stack_apart(walls: Set<(int, int)>, width: int, height: int)
    ensures
        rows_apart(plate_stack(walls, width, height)),
{
    let rows = plate_stack(walls, width, height);
    assert forall|y: int, first: PlateView, second: PlateView, x: int|
        #![trigger row_has(rows, y, first), row_has(rows, y, second), first.spans(x)]
        row_has(rows, y, first) && row_has(rows, y, second) && first.spans(x) && second.spans(
            x,
        ) implies first == second by {
        lemma_row_plates_apart(walls, y, width, first, second, x);
    }
}

/// A rectangle covers wall tiles only, and only tiles of the grid: this holds
/// of every set of wall tiles, also of one that reaches beyond the grid.
pub proof fn lemma_rects_hold_walls_only(walls: Set<(int, int)>, width: int, height: int)
    ensures
        forall|x: int, y: int| #[trigger]
            rects_cover(wall_rects(walls, width, height), x, y) ==> walls.contains((x, y)) && 0
                <= x < width && 0 <= y < height,
{
    let rows = plate_stack(walls, width, height);
    assert forall|x: int, y: int| #[trigger]
        rects_cover(wall_rects(walls, width, height), x, y) implies walls.contains((x, y)) && 0
        <= x < width && 0 <= y < height by {
        // The tile lies in a plate of its row, and a plate holds wall tiles
        // only.
        lemma_merged_rects_cover_plates(rows, x, y);
        let plate = choose|plate: PlateView| #[trigger] row_has(rows, y, plate) && plate.spans(x);
        lemma_row_plates_are_closed_runs(walls, y, width);
        assert(is_closed_run(walls, y, width, plate));
    }
}

/// Coverage: where the wall tiles lie within the grid, the rectangles cover
/// every wall tile and nothing else.
pub proof fn lemma_rects_cover_walls(walls: Set<(int, int)>, width: int, height: int)
    requires
        within_grid(walls, width, height),
    ensures
        forall|x: int, y: int|
            #![trigger rects_cover(wall_rects(walls, width, height), x, y)]
            #![trigger walls.contains((x, y))]
            rects_cover(wall_rects(walls, width, height), x, y) <==> walls.contains((x, y)),
{
    let rows = plate_stack(walls, width, height);
    lemma_rects_hold_walls_only(walls, width, height);
    assert forall|x: int, y: int| walls.contains((x, y)) implies rects_cover(
        wall_rects(walls, width, height),
        x,
        y,
    ) by {
        let plate = lemma_wall_tile_in_plate(walls, y, width, x);
        assert(row_has(rows, y, plate));
        lemma_merged_rects_cover_plates(rows, x, y);
    }
}

/// Disjointness: no two of the rectangles have a tile in common.
pub proof fn lemma_rects_disjoint(walls: Set<(int, int)>, width: int, height: int)
    ensures
        pairwise_apart(wall_rects(walls, width, height)),
{
    lemma_plate_stack_apart(walls, width, height);
    lemma_merged_rects_apart(plate_stack(walls, width, height));
}

/// Whether `rect` is a pile of equal plates at its full height: in every one
/// of its rows its columns are a closed run of wall tiles, so that it can
/// grow neither to the left nor to the right; and they are none in the row
/// above its top nor in the row below its bottom, as far as those rows lie in
/// the grid, so that it can grow neither up nor down.
pub open spec fn is_full_pile(
    walls: Set<(int, int)>,
    width: int,
    height: int,
    rect: RectView,
) -> bool {
    let plate = PlateView { left: rect.left, right: rect.right };
    &&& 0 <= rect.bottom <= rect.top < height
    &&& forall|y: int| rect.bottom <= y <= rect.top ==> is_closed_run(walls, y, width, plate)
    &&& rect.top + 1 < height ==> !is_closed_run(walls, rect.top + 1, width, plate)
    &&& 0 < rect.bottom ==> !is_closed_run(walls, rect.bottom - 1, width, plate)
}

/// Each rectangle is a pile of equal plates at its full height. Rows whose
/// runs differ, if only by a column, are never merged.
pub proof fn lemma_rect_is_full_pile(walls: Set<(int, int)>, width: int, height: int, k: int)
    requires
        0 <= k < wall_rects(walls, width, height).len(),
    ensures
        is_full_pile(walls, width, height, wall_rects(walls, width, height)[k]),
{
    let rows = plate_stack(walls, width, height);
    let rect = wall_rects(walls, width, height)[k];
    let plate = lemma_merged_rect_is_pile(rows, k);
    assert forall|y: int| rect.bottom <= y <= rect.top implies is_closed_run(
        walls,
        y,
        width,
        plate,
    ) by {
        assert(row_has(rows, y, plate));
        lemma_row_plates_are_closed_runs(walls, y, width);
    }
    if rect.top + 1 < height {
        lemma_row_plates_are_closed_runs(walls, rect.top + 1, width);
    }
    if 0 < rect.bottom {
        lemma_row_plates_are_closed_runs(walls, rect.bottom - 1, width);
    }
}

/// Reproducibility: the rectangles, and their order, depend on nothing but
/// the tiles in the rows of the grid, up to the column just beyond its right
/// edge. Two snapshots of a level that hold the same tiles there give the
/// same list.
pub proof fn lemma_same_tiles_same_rects(
    walls: Set<(int, int)>,
    others: Set<(int, int)>,
    width: int,
    height: int,
)
    requires
        forall|y: int| 0 <= y < height ==> same_row(walls, others, y, width),
    ensures
        wall_rects(walls, width, height) == wall_rects(others, width, height),
{
    assert forall|y: int| 0 <= y < height implies #[trigger] plate_stack(walls, width, height)[y]
        == plate_stack(others, width, height)[y] by {
        lemma_same_row_same_plates(walls, others, y, width);
    }
    assert(plate_stack(walls, width, height) =~= plate_stack(others, width, height));
}

/// A wall tile of the grid whose neighbours to the left, to the right, above
/// and below are no walls has a rectangle of its own, one tile wide and one
/// tile high. The neighbours that count are those that the scan looks at:
/// the ones in the grid, and the one in the column just beyond its right
/// edge.
pub proof fn lemma_isolated_tile_is_one_rect(
    walls: Set<(int, int)>,
    width: int,
    height: int,
    x: int,
    y: int,
) -> (k: int)
    requires
        0 <= x < width,
        0 <= y < height,
        walls.contains((x, y)),
        x == 0 || !walls.contains((x - 1, y)),
        !walls.contains((x + 1, y)),
        y == 0 || !walls.contains((x, y - 1)),
        y + 1 == height || !walls.contains((x, y + 1)),
    ensures
        0 <= k < wall_rects(walls, width, height).len(),
        wall_rects(walls, width, height)[k] == (RectView { left: x, right: x, top: y, bottom: y }),
{
    let rows = plate_stack(walls, width, height);
    let rects = wall_rects(walls, width, height);
    // The tile is a plate of its row by itself, so a rectangle covers it.
    let tile = PlateView { left: x, right: x };
    assert(is_closed_run(walls, y, width, tile));
    lemma_row_plates_are_closed_runs(walls, y, width);
    assert(row_has(rows, y, tile) && tile.spans(x));
    lemma_merged_rects_cover_plates(rows, x, y);
    let k = choose|k: int| 0 <= k < rects.len() && #[trigger] rects[k].covers(x, y);
    // That rectangle is a pile of the plate that spans the tile, which is the
    // tile itself; and the pile goes neither up nor down, where the plate
    // would have to stand on a tile that is no wall.
    let plate = PlateView { left: rects[k].left, right: rects[k].right };
    lemma_rect_is_full_pile(walls, width, height, k);
    lemma_row_plates_apart(walls, y, width, plate, tile, x);
    if rects[k].top > y {
        assert(is_closed_run(walls, y + 1, width, plate));
    }
    if rects[k].bottom < y {
        assert(is_closed_run(walls, y - 1, width, plate));
    }
    k
}

/// The tiles of a rectangle, as a set of wall tiles.
pub open spec fn block_tiles(block: RectView) -> Set<(int, int)> {
    Set::new(|tile: (int, int)| block.covers(tile.0, tile.1))
}

/// A level whose wall tiles form one solid rectangle has that rectangle and
/// no other: so it is with a single tile, with a row or a pile of rows
/// walled from edge to edge, and with a grid walled all over.
pub proof fn lemma_solid_block_is_one_rect(block: RectView, width: int, height: int)
    requires
        0 <= block.left <= block.right < width,
        0 <= block.bottom <= block.top < height,
    ensures
        wall_rects(block_tiles(block), width, height) == seq![block],
{
    let walls = block_tiles(block);
    let rects = wall_rects(walls, width, height);
    // In each of its rows the block is a closed run.
    let solid = PlateView { left: block.left, right: block.right };
    assert forall|y: int| block.bottom <= y <= block.top implies is_closed_run(
        walls,
        y,
        width,
        solid,
    ) by {
        assert forall|x: int| solid.left <= x <= solid.right implies walls.contains((x, y)) by {
            assert(block.covers(x, y));
        }
    }
    // A rectangle is a pile of closed runs at its full height. Its corners
    // are wall tiles, so it lies within the block; its run cannot stop short
    // of the block's sides, nor its pile short of the block's top or bottom.
    assert forall|k: int| 0 <= k < rects.len() implies rects[k] == block by {
        let rect = rects[k];
        let plate = PlateView { left: rect.left, right: rect.right };
        lemma_rect_is_full_pile(walls, width, height, k);
        assert(is_closed_run(walls, rect.top, width, plate));
        assert(is_closed_run(walls, rect.bottom, width, plate));
        assert(walls.contains((plate.left, rect.top)));
        assert(walls.contains((plate.right, rect.bottom)));
        assert(plate == solid);
    }
    // There is a rectangle, since the block's tiles are covered, and no
    // second one, since it would overlap the first.
    lemma_rects_cover_walls(walls, width, height);
    assert(walls.contains((block.left, block.bottom)));
    assert(rects_cover(rects, block.left, block.bottom));
    lemma_rects_disjoint(walls, width, height);
    if rects.len() > 1 {
        assert(rects[0].covers(block.left, block.bottom) && rects[1].covers(
            block.left,
            block.bottom,
        ));
    }
    assert(rects =~= seq![block]);
}

/// A level without wall tiles has no rectangles.
pub proof fn lemma_no_walls_no_rects(width: int, height: int)
    ensures
        wall_rects(Set::empty(), width, height) == Seq::<RectView>::empty(),
{
    let walls = Set::<(int, int)>::empty();
    let rects = wall_rects(walls, width, height);
    if rects.len() > 0 {
        lemma_rect_is_full_pile(walls, width, height, 0);
        let plate = PlateView { left: rects[0].left, right: rects[0].right };
        // A rectangle would hold a wall tile in its top row.
        assert(is_closed_run(walls, rects[0].top, width, plate));
        assert(walls.contains((plate.left, rects[0].top)));
    }
    assert(rects =~= Seq::<RectView>::empty());
}

} // verus!
