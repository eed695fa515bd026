//! What holds of every session: undo and redo, the spawn after a move, the
//! fresh grid after a reset, and the validity of the grids.

use vstd::prelude::*;
use crate::board::{all_empty, lemma_empties_monotone, tile_count, tiles_before, valid_tiles};
use crate::detector::{lemma_room_is_not_stuck, stuck};
use crate::engine::{gain, moved, Direction};
use crate::move_proofs::{lemma_move_keeps_tiles, lemma_move_leaves_room};
use crate::session::{empty_cells, op_direction, step_spec, Op, SessionState};
use crate::spawner::{
    lemma_spawn_adds_one, lemma_spawn_keeps_tiles, spawn, spawn_cell, tile_value, value_draw,
};

verus! {

/// The operation that asks for a move toward `dir`.
pub open spec fn move_op(dir: Direction) -> Op {
    match dir {
        Direction::Up => Op::Up,
        Direction::Down => Op::Down,
        Direction::Left => Op::Left,
        Direction::Right => Op::Right,
    }
}

/// A move that alters the grid is followed by exactly one spawn: the new
/// grid is the moved grid with a tile of value 2 or 4 in one cell that the
/// move left empty. Every other cell is as the move left it, and the score
/// has grown by the move's gain.
pub proof fn lemma_move_then_spawn(s: SessionState, dir: Direction, draws: Seq<u32>)
    requires
        s.board.len() == 16,
        s.redo != Some(dir),
        moved(s.board, dir) != s.board,
    ensures
        ({
            let after = step_spec(s, move_op(dir), draws);
            let slid = moved(s.board, dir);
            let c = spawn_cell(slid, draws);
            let v = tile_value(value_draw(slid, draws));
            &&& 0 <= c < 16
            &&& slid[c] == 0
            &&& v == 2 || v == 4
            &&& after.board == slid.update(c, v)
            &&& forall|i: int| 0 <= i < 16 && i != c ==> after.board[i] == slid[i]
            &&& tile_count(after.board) == tile_count(slid) + 1
            &&& after.score == s.score + gain(s.board, dir)
        }),
{
    lemma_move_leaves_room(s.board, dir);
    lemma_spawn_adds_one(moved(s.board, dir), draws);
}

/// Undo after a move that altered the grid brings back the grid and the
/// score from before the move. A second undo in a row, or the direction of
/// the move pressed again, brings back the grid and the score from after it.
pub proof fn lemma_undo_redo(
    s: SessionState,
    dir: Direction,
    draws: Seq<u32>,
    later: Seq<u32>,
    latest: Seq<u32>,
)
    requires
        s.redo != Some(dir),
        moved(s.board, dir) != s.board,
    ensures
        ({
            let after = step_spec(s, move_op(dir), draws);
            let undone = step_spec(after, Op::Undo, later);
            let redone = step_spec(undone, Op::Undo, latest);
            let again = step_spec(undone, move_op(dir), latest);
            &&& undone.board == s.board
            &&& undone.score == s.score
            &&& redone.board == after.board
            &&& redone.score == after.score
            &&& again.board == after.board
            &&& again.score == after.score
        }),
{
}

/// Undo is a swap: two in a row bring back the grid and the score, whatever
/// came before.
pub proof fn lemma_undo_twice(s: SessionState, draws: Seq<u32>, later: Seq<u32>)
    ensures
        ({
            let twice = step_spec(step_spec(s, Op::Undo, draws), Op::Undo, later);
            &&& twice.board == s.board
            &&& twice.score == s.score
            &&& twice.prev_board == s.prev_board
            &&& twice.prev_score == s.prev_score
        }),
{
}

/// Reset gives score 0 and a grid with exactly one tile, of value 2 or 4;
/// such a grid is not lost.
pub proof fn lemma_reset(s: SessionState, draws: Seq<u32>)
    ensures
        ({
            let after = step_spec(s, Op::Reset, draws);
            let c = spawn_cell(empty_cells(), draws);
            &&& after.score == 0
            &&& after.board.len() == 16
            &&& tile_count(after.board) == 1
            &&& 0 <= c < 16
            &&& after.board[c] == 2 || after.board[c] == 4
            &&& forall|i: int| 0 <= i < 16 && i != c ==> after.board[i] == 0
            &&& !stuck(after.board)
        }),
{
    lemma_fresh_grid(draws);
}

/// An empty grid with one spawned tile holds exactly one tile, of value 2 or
/// 4, and is not lost.
pub proof fn lemma_fresh_grid(draws: Seq<u32>)
    ensures
        ({
            let grid = spawn(empty_cells(), draws);
            let c = spawn_cell(empty_cells(), draws);
            &&& grid.len() == 16
            &&& tile_count(grid) == 1
            &&& 0 <= c < 16
            &&& grid[c] == 2 || grid[c] == 4
            &&& forall|i: int| 0 <= i < 16 && i != c ==> grid[i] == 0
            &&& !stuck(grid)
        }),
{
    let blank = empty_cells();
    lemma_no_tiles_counted(blank, 16);
    lemma_empties_monotone(blank, 0, 16);
    assert(blank[0] == 0);
    lemma_spawn_adds_one(blank, draws);
    let grid = spawn(blank, draws);
    let c = spawn_cell(blank, draws);
    assert(grid[c] != 0);
    let other = if c == 0 {
        1int
    } else {
        0int
    };
    assert(grid[other] == 0);
    lemma_room_is_not_stuck(grid);
}

/// A grid without tiles counts no tile.
proof fn lemma_no_tiles_counted(cells: Seq<nat>, i: int)
    requires
        all_empty(cells),
        0 <= i <= cells.len(),
    ensures
        tiles_before(cells, i) == 0,
    decreases i,
{
    if i > 0 {
        lemma_no_tiles_counted(cells, i - 1);
    }
}

/// No operation breaks the grids: where the current grid and the snapshot
/// have sixteen cells, each empty or a power of two, they still have after
/// the operation.
pub proof fn lemma_step_keeps_tiles(s: SessionState, op: Op, draws: Seq<u32>)
    requires
        s.board.len() == 16,
        s.prev_board.len() == 16,
        valid_tiles(s.board),
        valid_tiles(s.prev_board),
    ensures
        step_spec(s, op, draws).board.len() == 16,
        step_spec(s, op, draws).prev_board.len() == 16,
        valid_tiles(step_spec(s, op, draws).board),
        valid_tiles(step_spec(s, op, draws).prev_board),
{
    match op_direction(op) {
        Some(dir) => {
            lemma_move_keeps_tiles(s.board, dir);
            lemma_spawn_keeps_tiles(moved(s.board, dir), draws);
            lemma_spawn_adds_one(moved(s.board, dir), draws);
        },
        None => {
            lemma_spawn_keeps_tiles(empty_cells(), draws);
            lemma_spawn_adds_one(empty_cells(), draws);
        },
    }
}

/// A move never lowers the score.
pub proof fn lemma_score_grows(s: SessionState, dir: Direction, draws: Seq<u32>)
    requires
        s.redo != Some(dir),
    ensures
        step_spec(s, move_op(dir), draws).score >= s.score,
{
}

} // verus!
