//! Loss detection: a grid is lost when no move alters it.

use vstd::prelude::*;
use crate::board::{all_empty, coord_spec, full, Board};
use crate::engine::{changes, line_cell, line_index, line_of, line_pos, moved, slide, Direction};
use crate::move_proofs::{
    all_tiles, has_equal_neighbours, lemma_blocked_line, lemma_empty_line, lemma_fixed_line,
    lemma_moved_lines,
};

verus! {

/// No move, in any of the four directions, alters the grid.
pub open spec fn stuck(cells: Seq<nat>) -> bool {
    &&& moved(cells, Direction::Up) == cells
    &&& moved(cells, Direction::Down) == cells
    &&& moved(cells, Direction::Left) == cells
    &&& moved(cells, Direction::Right) == cells
}

/// Whether the grid is lost: no move in any direction would alter it.
pub fn is_lost(board: &Board) -> (lost: bool)
    ensures
        lost == stuck(board@),
{
    !changes(board, Direction::Up) && !changes(board, Direction::Down) && !changes(
        board,
        Direction::Left,
    ) && !changes(board, Direction::Right)
}

/// `stuck` speaks of every direction.
pub proof fn lemma_stuck_every_direction(cells: Seq<nat>)
    ensures
        stuck(cells) <==> forall|dir: Direction| moved(cells, dir) == cells,
{
    if stuck(cells) {
        assert forall|dir: Direction| moved(cells, dir) == cells by {
            match dir {
                Direction::Up => {},
                Direction::Down => {},
                Direction::Left => {},
                Direction::Right => {},
            }
        }
    }
}

/// No two cells that touch, side by side or one above the other, hold the
/// same value.
pub open spec fn no_equal_neighbours(cells: Seq<nat>) -> bool {
    &&& forall|x: int, y: int|
        0 <= x < 3 && 0 <= y < 4 ==> cells[#[trigger] coord_spec(x, y)] != cells[coord_spec(
            x + 1,
            y,
        )]
    &&& forall|x: int, y: int|
        0 <= x < 4 && 0 <= y < 3 ==> cells[#[trigger] coord_spec(x, y)] != cells[coord_spec(
            x,
            y + 1,
        )]
}

/// A move whose every line stays as it is leaves the grid as it is.
proof fn lemma_fixed_lines(cells: Seq<nat>, dir: Direction)
    requires
        cells.len() == 16,
        forall|l: int| 0 <= l < 4 ==> slide(#[trigger] line_of(cells, dir, l)) == line_of(cells, dir, l),
    ensures
        moved(cells, dir) == cells,
{
    assert forall|i: int| 0 <= i < 16 implies moved(cells, dir)[i] == cells[i] by {
        let l = line_index(dir, i);
        let k = line_pos(dir, i);
        assert(line_cell(dir, l, k) == i);
        assert(slide(line_of(cells, dir, l)) == line_of(cells, dir, l));
        assert(line_of(cells, dir, l)[k] == cells[i]);
    }
    assert(moved(cells, dir) =~= cells);
}

/// A full grid on which no two touching cells hold the same value is lost.
pub proof fn lemma_blocked_is_stuck(cells: Seq<nat>)
    requires
        cells.len() == 16,
        full(cells),
        no_equal_neighbours(cells),
    ensures
        stuck(cells),
{
    assert forall|dir: Direction| moved(cells, dir) == cells by {
        assert forall|l: int| 0 <= l < 4 implies slide(#[trigger] line_of(cells, dir, l))
            == line_of(cells, dir, l) by {
            let line = line_of(cells, dir, l);
            assert(all_tiles(line)) by {
                assert forall|k: int| 0 <= k < 4 implies #[trigger] line[k] > 0 by {
                    assert(cells[line_cell(dir, l, k)] != 0);
                }
            }
            assert(!has_equal_neighbours(line)) by {
                assert forall|k: int| 0 <= k < 3 implies #[trigger] line[k] != line[k + 1] by {
                    match dir {
                        Direction::Up => {
                            assert(cells[coord_spec(l, k)] != cells[coord_spec(l, k + 1)]);
                        },
                        Direction::Down => {
                            assert(cells[coord_spec(l, 2 - k)] != cells[coord_spec(l, 2 - k + 1)]);
                        },
                        Direction::Left => {
                            assert(cells[coord_spec(k, l)] != cells[coord_spec(k + 1, l)]);
                        },
                        Direction::Right => {
                            assert(cells[coord_spec(2 - k, l)] != cells[coord_spec(2 - k + 1, l)]);
                        },
                    }
                }
            }
            lemma_blocked_line(line);
        }
        lemma_fixed_lines(cells, dir);
    }
    lemma_stuck_every_direction(cells);
}

/// A grid without tiles is lost as well: no move alters it.
pub proof fn lemma_empty_is_stuck(cells: Seq<nat>)
    requires
        cells.len() == 16,
        all_empty(cells),
    ensures
        stuck(cells),
{
    assert forall|dir: Direction| moved(cells, dir) == cells by {
        assert forall|l: int| 0 <= l < 4 implies slide(#[trigger] line_of(cells, dir, l))
            == line_of(cells, dir, l) by {
            lemma_empty_line(line_of(cells, dir, l));
        }
        lemma_fixed_lines(cells, dir);
    }
    lemma_stuck_every_direction(cells);
}

/// A line of four cells that neither its slide nor the slide of its reverse
/// alters is either without tiles or without empty cells.
proof fn lemma_uniform_line(a: Seq<nat>, b: Seq<nat>)
    requires
        a.len() == 4,
        b.len() == 4,
        forall|k: int| 0 <= k < 4 ==> #[trigger] b[k] == a[3 - k],
        slide(a) == a,
        slide(b) == b,
    ensures
        forall|j: int, k: int| 0 <= j < 4 && 0 <= k < 4 ==> (#[trigger] a[j] == 0 <==> #[trigger] a[k] == 0),
{
    lemma_fixed_line(a);
    lemma_fixed_line(b);
    assert(a[0] == 0 ==> a[1] == 0);
    assert(a[1] == 0 ==> a[2] == 0);
    assert(a[2] == 0 ==> a[3] == 0);
    assert(b[0] == 0 ==> b[1] == 0);
    assert(b[1] == 0 ==> b[2] == 0);
    assert(b[2] == 0 ==> b[3] == 0);
    assert(b[0] == a[3] && b[1] == a[2] && b[2] == a[1] && b[3] == a[0]);
}

/// Every line of the grid, along every direction, stays as it is when it
/// slides.
pub open spec fn lines_fixed(cells: Seq<nat>) -> bool {
    forall|dir: Direction, l: int|
        0 <= l < 4 ==> slide(#[trigger] line_of(cells, dir, l)) == line_of(cells, dir, l)
}

/// A grid is lost exactly when each of its lines stays as it is.
pub proof fn lemma_stuck_lines(cells: Seq<nat>)
    requires
        cells.len() == 16,
    ensures
        stuck(cells) <==> lines_fixed(cells),
{
    lemma_stuck_every_direction(cells);
    if stuck(cells) {
        assert forall|dir: Direction, l: int| 0 <= l < 4 implies slide(
            #[trigger] line_of(cells, dir, l),
        ) == line_of(cells, dir, l) by {
            lemma_moved_lines(cells, dir, l);
        }
    }
    if lines_fixed(cells) {
        assert forall|dir: Direction| moved(cells, dir) == cells by {
            lemma_fixed_lines(cells, dir);
        }
    }
}

/// Where every line stays as it is, a column is either without tiles or
/// without empty cells.
proof fn lemma_fixed_column(cells: Seq<nat>, x: int, y: int, z: int)
    requires
        lines_fixed(cells),
        0 <= x < 4,
        0 <= y < 4,
        0 <= z < 4,
    ensures
        cells[coord_spec(x, y)] == 0 <==> cells[coord_spec(x, z)] == 0,
{
    let up = line_of(cells, Direction::Up, x);
    let down = line_of(cells, Direction::Down, x);
    assert forall|k: int| 0 <= k < 4 implies #[trigger] down[k] == up[3 - k] by {}
    lemma_uniform_line(up, down);
    assert(up[y] == cells[coord_spec(x, y)]);
    assert(up[z] == cells[coord_spec(x, z)]);
}

/// Where every line stays as it is, a row is either without tiles or
/// without empty cells.
proof fn lemma_fixed_row(cells: Seq<nat>, y: int, x: int, z: int)
    requires
        lines_fixed(cells),
        0 <= x < 4,
        0 <= y < 4,
        0 <= z < 4,
    ensures
        cells[coord_spec(x, y)] == 0 <==> cells[coord_spec(z, y)] == 0,
{
    let left = line_of(cells, Direction::Left, y);
    let right = line_of(cells, Direction::Right, y);
    assert forall|k: int| 0 <= k < 4 implies #[trigger] right[k] == left[3 - k] by {}
    lemma_uniform_line(left, right);
    assert(left[x] == cells[coord_spec(x, y)]);
    assert(left[z] == cells[coord_spec(z, y)]);
}

/// Where every line stays as it is, a grid that holds a tile is full.
proof fn lemma_fixed_is_uniform(cells: Seq<nat>)
    requires
        cells.len() == 16,
        lines_fixed(cells),
        !all_empty(cells),
    ensures
        full(cells),
{
    let t = choose|i: int| 0 <= i < 16 && cells[i] != 0;
    assert forall|e: int| 0 <= e < 16 implies cells[e] != 0 by {
        let (tx, ty) = (t % 4, t / 4);
        let (ex, ey) = (e % 4, e / 4);
        assert(coord_spec(tx, ty) == t && coord_spec(ex, ey) == e);
        lemma_fixed_column(cells, tx, ty, ey);
        lemma_fixed_row(cells, ey, tx, ex);
    }
}

/// Where every line stays as it is, no two touching cells of a full grid
/// hold the same value.
proof fn lemma_fixed_is_blocked(cells: Seq<nat>)
    requires
        cells.len() == 16,
        lines_fixed(cells),
        full(cells),
    ensures
        no_equal_neighbours(cells),
{
    assert forall|dir: Direction, l: int| 0 <= l < 4 implies !has_equal_neighbours(
        #[trigger] line_of(cells, dir, l),
    ) by {
        let line = line_of(cells, dir, l);
        assert(all_tiles(line)) by {
            assert forall|k: int| 0 <= k < 4 implies #[trigger] line[k] > 0 by {
                assert(cells[line_cell(dir, l, k)] != 0);
            }
        }
        lemma_fixed_line(line);
    }
    assert forall|x: int, y: int| 0 <= x < 3 && 0 <= y < 4 implies cells[#[trigger] coord_spec(
        x,
        y,
    )] != cells[coord_spec(x + 1, y)] by {
        let line = line_of(cells, Direction::Left, y);
        assert(!has_equal_neighbours(line));
        assert(line[x] == cells[coord_spec(x, y)]);
        assert(line[x + 1] == cells[coord_spec(x + 1, y)]);
    }
    assert forall|x: int, y: int| 0 <= x < 4 && 0 <= y < 3 implies cells[#[trigger] coord_spec(
        x,
        y,
    )] != cells[coord_spec(x, y + 1)] by {
        let line = line_of(cells, Direction::Up, x);
        assert(!has_equal_neighbours(line));
        assert(line[y] == cells[coord_spec(x, y)]);
        assert(line[y + 1] == cells[coord_spec(x, y + 1)]);
    }
}

/// A grid that holds a tile and has an empty cell is not lost.
pub proof fn lemma_room_is_not_stuck(cells: Seq<nat>)
    requires
        cells.len() == 16,
        !all_empty(cells),
        !full(cells),
    ensures
        !stuck(cells),
{
    lemma_stuck_lines(cells);
    if lines_fixed(cells) {
        lemma_fixed_is_uniform(cells);
    }
}

/// The lost grids are exactly these: the grid without tiles, and the full
/// grids on which no two touching cells hold the same value.
pub proof fn lemma_stuck_grids(cells: Seq<nat>)
    requires
        cells.len() == 16,
    ensures
        stuck(cells) <==> all_empty(cells) || (full(cells) && no_equal_neighbours(cells)),
{
    lemma_stuck_lines(cells);
    if all_empty(cells) {
        lemma_empty_is_stuck(cells);
    } else if full(cells) && no_equal_neighbours(cells) {
        lemma_blocked_is_stuck(cells);
    }
    if lines_fixed(cells) && !all_empty(cells) {
        lemma_fixed_is_uniform(cells);
        lemma_fixed_is_blocked(cells);
    }
}

} // verus!
