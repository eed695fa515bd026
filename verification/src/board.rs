//! The grid: sixteen cells in row-major order, and the coordinate mapping.

use vstd::prelude::*;

verus! {

/// Cells along one side of the grid.
pub const ROWS: usize = 4;

/// Cells on the whole grid.
pub const CELLS: usize = 16;

/// Position of the cell in column `x` and row `y` within the cell list.
pub open spec fn coord_spec(x: int, y: int) -> int {
    x + y * 4
}

/// Maps column `x` and row `y` to the cell's position in the cell list.
pub fn coord(x: usize, y: usize) -> (i: usize)
    requires
        x < ROWS,
        y < ROWS,
    ensures
        i == coord_spec(x as int, y as int),
        i < CELLS,
{
    x + y * ROWS
}

/// The grid. A cell holds 0 when it is empty and the tile's value otherwise.
#[derive(Clone, Copy, Debug, PartialEq, Eq)]
pub struct Board {
    pub cells: [u32; 16],
}

impl View for Board {
    type V = Seq<nat>;

    /// The sixteen cell values as natural numbers, in row-major order.
    open spec fn view(&self) -> Seq<nat> {
        Seq::new(16, |i: int| self.cells[i] as nat)
    }
}

/// No cell holds a tile.
pub open spec fn all_empty(cells: Seq<nat>) -> bool {
    forall|i: int| 0 <= i < cells.len() ==> cells[i] == 0
}

/// Every cell holds a tile.
pub open spec fn full(cells: Seq<nat>) -> bool {
    forall|i: int| 0 <= i < cells.len() ==> cells[i] != 0
}

/// Number of tiles among the first `i` cells.
pub open spec fn tiles_before(cells: Seq<nat>, i: int) -> nat
    decreases i,
{
    if i <= 0 {
        0
    } else {
        tiles_before(cells, i - 1) + if cells[i - 1] != 0 {
            1nat
        } else {
            0nat
        }
    }
}

/// Number of empty cells among the first `i` cells.
pub open spec fn empties_before(cells: Seq<nat>, i: int) -> nat
    decreases i,
{
    if i <= 0 {
        0
    } else {
        empties_before(cells, i - 1) + if cells[i - 1] == 0 {
            1nat
        } else {
            0nat
        }
    }
}

/// Number of cells that hold a tile.
pub open spec fn tile_count(cells: Seq<nat>) -> nat {
    tiles_before(cells, cells.len() as int)
}

/// Number of empty cells.
pub open spec fn empty_count(cells: Seq<nat>) -> nat {
    empties_before(cells, cells.len() as int)
}

/// The count of empty cells before a position never shrinks as the position
/// moves on, and an empty cell in between makes it grow.
pub proof fn lemma_empties_monotone(cells: Seq<nat>, a: int, b: int)
    requires
        a <= b,
    ensures
        empties_before(cells, a) <= empties_before(cells, b),
        forall|c: int| a <= c < b && 0 <= c && cells[c] == 0 ==> empties_before(cells, a)
            < empties_before(cells, b),
    decreases b - a,
{
    if a < b {
        lemma_empties_monotone(cells, a, b - 1);
    }
}

/// Putting a tile into an empty cell makes one tile more and one empty cell
/// less.
pub proof fn lemma_tile_added(cells: Seq<nat>, c: int, v: nat)
    requires
        0 <= c < cells.len(),
        cells[c] == 0,
        v > 0,
    ensures
        tile_count(cells.update(c, v)) == tile_count(cells) + 1,
        empty_count(cells.update(c, v)) + 1 == empty_count(cells),
{
    lemma_counts_after_update(cells, c, v, cells.len() as int);
}

/// The counts up to position `i` after a tile was put into the empty cell `c`.
proof fn lemma_counts_after_update(cells: Seq<nat>, c: int, v: nat, i: int)
    requires
        0 <= c < cells.len(),
        cells[c] == 0,
        v > 0,
        0 <= i <= cells.len(),
    ensures
        tiles_before(cells.update(c, v), i) == tiles_before(cells, i) + if c < i {
            1nat
        } else {
            0nat
        },
        empties_before(cells.update(c, v), i) + (if c < i {
            1nat
        } else {
            0nat
        }) == empties_before(cells, i),
    decreases i,
{
    if i > 0 {
        lemma_counts_after_update(cells, c, v, i - 1);
    }
}

/// Whether `v` is the value of a tile: a power of two, 2 or more.
pub open spec fn is_tile(v: nat) -> bool
    decreases v,
{
    v == 2 || (v > 2 && v % 2 == 0 && is_tile(v / 2))
}

/// Every cell is empty or holds the value of a tile.
pub open spec fn valid_tiles(cells: Seq<nat>) -> bool {
    forall|i: int| 0 <= i < cells.len() ==> cells[i] == 0 || is_tile(#[trigger] cells[i])
}

/// Twice the value of a tile is the value of a tile.
pub proof fn lemma_double_tile(v: nat)
    requires
        is_tile(v),
    ensures
        is_tile(2 * v),
{
    assert((2 * v) / 2 == v);
}

impl Board {
    /// A grid without tiles.
    pub fn empty() -> (b: Board)
        ensures
            b@ == Seq::new(16, |i: int| 0nat),
            all_empty(b@),
    {
        Board { cells: [0u32; 16] }
    }

    /// The grid that holds `cells`, in row-major order.
    pub fn from_cells(cells: [u32; 16]) -> (b: Board)
        ensures
            b.cells == cells,
            b@ == Seq::new(16, |i: int| cells[i] as nat),
    {
        Board { cells }
    }

    /// Value of the cell in column `x`, row `y`.
    pub fn get(&self, x: usize, y: usize) -> (v: u32)
        requires
            x < ROWS,
            y < ROWS,
        ensures
            v == self@[coord_spec(x as int, y as int)],
    {
        self.cells[coord(x, y)]
    }

    /// Stores `v` in the cell in column `x`, row `y`; every other cell keeps its value.
    pub fn set(&mut self, x: usize, y: usize, v: u32)
        requires
            x < ROWS,
            y < ROWS,
        ensures
            final(self)@ == old(self)@.update(coord_spec(x as int, y as int), v as nat),
    {
        let i: usize = coord(x, y);
        self.cells[i] = v;
    }

    /// Whether the two grids hold the same value in every cell.
    pub fn same(&self, other: &Board) -> (b: bool)
        ensures
            b == (self@ == other@),
    {
        let mut i: usize = 0;
        while i < CELLS
            invariant
                i <= CELLS,
                forall|j: int| 0 <= j < i ==> self@[j] == other@[j],
            decreases CELLS - i,
        {
            if self.cells[i] != other.cells[i] {
                assert(self@[i as int] != other@[i as int]);
                return false;
            }
            i += 1;
        }
        assert(self@ =~= other@);
        true
    }
}

} // verus!
