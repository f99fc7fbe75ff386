//! Rectangles of wall tiles, in grid-cell units.

use vstd::prelude::*;

verus! {

/// A rectangle of wall tiles. All four bounds are inclusive tile indices;
/// `bottom` is the lowest row and `top` the highest.
#[derive(Clone, Copy, Debug, PartialEq, Eq, Structural)]
pub struct Rect {
    pub left: i32,
    pub right: i32,
    pub top: i32,
    pub bottom: i32,
}

/// The mathematical rectangle that a [`Rect`] stands for.
pub struct RectView {
    pub left: int,
    pub right: int,
    pub top: int,
    pub bottom: int,
}

impl RectView {
    /// Whether the tile at column `x`, row `y` lies inside the rectangle.
    pub open spec fn covers(self, x: int, y: int) -> bool {
        self.left <= x <= self.right && self.bottom <= y <= self.top
    }

    /// Whether the two rectangles have a tile in common.
    pub open spec fn overlaps(self, other: RectView) -> bool {
        exists|x: int, y: int| self.covers(x, y) && other.covers(x, y)
    }

    /// The number of tile columns of the rectangle.
    pub open spec fn columns(self) -> int {
        self.right - self.left + 1
    }

    /// The number of tile rows of the rectangle.
    pub open spec fn rows(self) -> int {
        self.top - self.bottom + 1
    }
}

/// The collider of a rectangle of tiles, in pixels, relative to the origin of
/// the level. A collider is described by its half-extents and its centre, and
/// with an odd tile size those are halves of a pixel: so each length is held
/// doubled here, as a whole number.
#[derive(Clone, Copy, Debug, PartialEq, Eq, Structural)]
pub struct ColliderBox {
    /// Twice the half-extent along x: the full width.
    pub width: i64,
    /// Twice the half-extent along y: the full height.
    pub height: i64,
    /// Twice the x coordinate of the centre.
    pub twice_center_x: i64,
    /// Twice the y coordinate of the centre.
    pub twice_center_y: i64,
}

impl View for Rect {
    type V = RectView;

    open spec fn view(&self) -> RectView {
        RectView {
            left: self.left as int,
            right: self.right as int,
            top: self.top as int,
            bottom: self.bottom as int,
        }
    }
}

proof fn lemma_scaled_fits(cells: int, grid_size: int)
    by (nonlinear_arith)
    requires
        -0x1_0000_0000 < cells <= 0x1_0000_0000,
        -0x8000_0000 <= grid_size < 0x8000_0000,
    ensures
        -0x8000_0000_0000_0000 <= cells * grid_size < 0x8000_0000_0000_0000,
{
}

impl Rect {
    /// Maps the rectangle to its collider, for square tiles `grid_size`
    /// pixels wide. The collider spans whole tiles: its half-extents are
    /// `(right - left + 1) * grid_size / 2` and `(top - bottom + 1) *
    /// grid_size / 2`, its centre lies at `(left + right + 1) * grid_size / 2`
    /// and `(bottom + top + 1) * grid_size / 2`.
    pub fn collider_box(&self, grid_size: i32) -> (collider: ColliderBox)
        ensures
            collider.width == self@.columns() * grid_size,
            collider.height == self@.rows() * grid_size,
            collider.twice_center_x == (self.left + self.right + 1) * grid_size,
            collider.twice_center_y == (self.bottom + self.top + 1) * grid_size,
    {
        let scale: i64 = grid_size as i64;
        let columns: i64 = self.right as i64 - self.left as i64 + 1;
        let rows: i64 = self.top as i64 - self.bottom as i64 + 1;
        let across: i64 = self.left as i64 + self.right as i64 + 1;
        let upward: i64 = self.bottom as i64 + self.top as i64 + 1;
        proof {
            lemma_scaled_fits(columns as int, scale as int);
            lemma_scaled_fits(rows as int, scale as int);
            lemma_scaled_fits(across as int, scale as int);
            lemma_scaled_fits(upward as int, scale as int);
        }
        ColliderBox {
            width: columns * scale,
            height: rows * scale,
            twice_center_x: across * scale,
            twice_center_y: upward * scale,
        }
    }
}

impl DeepView for Rect {
    type V = RectView;

    open spec fn deep_view(&self) -> RectView {
        self@
    }
}

} // verus!
