//! The wall tiles of one level.

use vstd::prelude::*;

verus! {

/// One tile cell of a level's grid: column `x`, row `y`.
#[derive(Clone, Copy, Debug, PartialEq, Eq, Structural, Hash, Default)]
pub struct GridCoord {
    pub x: i32,
    pub y: i32,
}

impl View for GridCoord {
    type V = (int, int);

    open spec fn view(&self) -> (int, int) {
        (self.x as int, self.y as int)
    }
}

/// The set of wall tiles of one level, kept in the engine's hash set,
/// `bevy::utils::HashSet`, so that a cell is looked up in constant time.
///
/// Verus does not look inside: what the set holds is [`wall_cells`], and
/// what the functions that reach into it do is stated, not proved.
#[verifier::external_body]
pub struct WallSet {
    cells: bevy::utils::HashSet<(i32, i32)>,
}

/// The cells that a [`WallSet`] holds, as (column, row) pairs.
pub uninterp spec fn wall_cells(walls: WallSet) -> Set<(int, int)>;

impl View for WallSet {
    type V = Set<(int, int)>;

    open spec fn view(&self) -> Set<(int, int)> {
        wall_cells(*self)
    }
}

/// The cells that occur in a list of grid coordinates.
pub open spec fn cell_set(cells: Seq<GridCoord>) -> Set<(int, int)> {
    Set::new(|c: (int, int)| exists|i: int| 0 <= i < cells.len() && #[trigger] cells[i]@ == c)
}

impl WallSet {
    /// `HashSet::default` of hashbrown, through `bevy::utils::HashSet`: the
    /// new set holds no cell.
    #[verifier::external_body]
    fn empty() -> (walls: WallSet)
        ensures
            wall_cells(walls) == Set::<(int, int)>::empty(),
    {
        WallSet { cells: bevy::utils::HashSet::default() }
    }

    /// `HashSet::insert` of hashbrown: afterwards the set holds the cell
    /// `(x, y)` and whatever it held before. This rests on `Eq` and `Hash` of
    /// a pair of `i32`, by which two pairs are one item of the set exactly
    /// when they are equal.
    #[verifier::external_body]
    fn insert(&mut self, x: i32, y: i32)
        ensures
            wall_cells(*final(self)) == wall_cells(*old(self)).insert((x as int, y as int)),
    {
        self.cells.insert((x, y));
    }

    /// `HashSet::contains` of hashbrown: whether the set holds the cell
    /// `(x, y)`.
    #[verifier::external_body]
    fn has(&self, x: i32, y: i32) -> (found: bool)
        ensures
            found == wall_cells(*self).contains((x as int, y as int)),
    {
        self.cells.contains(&(x, y))
    }

    /// Collects the wall tiles of a level. A cell that is listed twice is
    /// held once.
    pub fn from_cells(cells: &Vec<GridCoord>) -> (walls: WallSet)
        ensures
            walls@ == cell_set(cells@),
    {
        let mut walls = WallSet::empty();
        let mut i: usize = 0;
        while i < cells.len()
            invariant
                i <= cells.len(),
                walls@ == cell_set(cells@.take(i as int)),
            decreases cells.len() - i,
        {
            let cell = cells[i];
            walls.insert(cell.x, cell.y);
            proof {
                let before = cells@.take(i as int);
                let after = cells@.take(i + 1);
                assert(after[i as int]@ == cell@);
                assert forall|c: (int, int)| cell_set(after).contains(c) implies cell_set(
                    before,
                ).insert(cell@).contains(c) by {
                    let j = choose|j: int| 0 <= j < after.len() && after[j]@ == c;
                    if j < i {
                        assert(before[j]@ == c);
                    }
                }
                assert forall|c: (int, int)| cell_set(before).contains(c) implies cell_set(
                    after,
                ).contains(c) by {
                    let j = choose|j: int| 0 <= j < before.len() && before[j]@ == c;
                    assert(after[j]@ == c);
                }
                assert(cell_set(after) =~= cell_set(before).insert(cell@));
            }
            i += 1;
        }
        assert(cells@.take(cells.len() as int) =~= cells@);
        walls
    }

    /// Tells whether `cell` is a wall tile.
    pub fn contains(&self, cell: GridCoord) -> (found: bool)
        ensures
            found == self@.contains(cell@),
    {
        self.has(cell.x, cell.y)
    }
}

} // verus!
