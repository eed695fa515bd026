//! The move rule: every line of the grid slides toward one edge, and equal
//! neighbours combine once.

use vstd::prelude::*;
use crate::board::{coord, coord_spec, Board, CELLS, ROWS};

verus! {

/// The edge that tiles slide toward.
#[derive(Clone, Copy, Debug, PartialEq, Eq, Structural)]
pub enum Direction {
    Up,
    Down,
    Left,
    Right,
}

/// Position in the cell list of the `k`-th cell of line `l`, counted from the
/// edge that tiles slide toward. Lines are columns for `Up` and `Down`, rows
/// for `Left` and `Right`.
pub open spec fn line_cell(dir: Direction, l: int, k: int) -> int {
    match dir {
        Direction::Up => coord_spec(l, k),
        Direction::Down => coord_spec(l, 3 - k),
        Direction::Left => coord_spec(k, l),
        Direction::Right => coord_spec(3 - k, l),
    }
}

/// The line that the cell at position `i` belongs to.
pub open spec fn line_index(dir: Direction, i: int) -> int {
    match dir {
        Direction::Up | Direction::Down => i % 4,
        Direction::Left | Direction::Right => i / 4,
    }
}

/// How far the cell at position `i` lies from the edge that tiles slide toward.
pub open spec fn line_pos(dir: Direction, i: int) -> int {
    match dir {
        Direction::Up => i / 4,
        Direction::Down => 3 - i / 4,
        Direction::Left => i % 4,
        Direction::Right => 3 - i % 4,
    }
}

/// The four cells of line `l`, nearest to the target edge first.
pub open spec fn line_of(cells: Seq<nat>, dir: Direction, l: int) -> Seq<nat> {
    Seq::new(4, |k: int| cells[line_cell(dir, l, k)])
}

/// The tiles of a line in order, with the empty cells left out.
pub open spec fn tiles(line: Seq<nat>) -> Seq<nat>
    decreases line.len(),
{
    if line.len() == 0 {
        line
    } else if line[0] == 0 {
        tiles(line.skip(1))
    } else {
        seq![line[0]] + tiles(line.skip(1))
    }
}

/// Combines equal neighbours, pair by pair from the front. A tile that came
/// out of a pair does not combine again.
pub open spec fn merged(t: Seq<nat>) -> Seq<nat>
    decreases t.len(),
{
    if t.len() == 0 {
        t
    } else if t.len() >= 2 && t[0] == t[1] {
        seq![2 * t[0]] + merged(t.skip(2))
    } else {
        seq![t[0]] + merged(t.skip(1))
    }
}

/// Sum of the values of the tiles that `merged` creates: a pair of tiles of
/// value `v` counts `2 * v`.
pub open spec fn merge_gain(t: Seq<nat>) -> nat
    decreases t.len(),
{
    if t.len() == 0 {
        0
    } else if t.len() >= 2 && t[0] == t[1] {
        2 * t[0] + merge_gain(t.skip(2))
    } else {
        merge_gain(t.skip(1))
    }
}

/// A line after the move: its tiles combined, packed at the front, and the
/// rest of the line empty.
pub open spec fn slide(line: Seq<nat>) -> Seq<nat> {
    let m = merged(tiles(line));
    Seq::new(
        line.len(),
        |k: int|
            if k < m.len() {
                m[k]
            } else {
                0
            },
    )
}

/// What one line adds to the score.
pub open spec fn slide_gain(line: Seq<nat>) -> nat {
    merge_gain(tiles(line))
}

/// The grid after a move toward `dir`.
pub open spec fn moved(cells: Seq<nat>, dir: Direction) -> Seq<nat> {
    Seq::new(16, |i: int| slide(line_of(cells, dir, line_index(dir, i)))[line_pos(dir, i)])
}

/// What a move toward `dir` adds to the score.
pub open spec fn gain(cells: Seq<nat>, dir: Direction) -> nat {
    slide_gain(line_of(cells, dir, 0)) + slide_gain(line_of(cells, dir, 1)) + slide_gain(
        line_of(cells, dir, 2),
    ) + slide_gain(line_of(cells, dir, 3))
}

/// The move can be carried out in 32 bits: every tile of the new grid and the
/// new score fit.
pub open spec fn move_fits(cells: Seq<nat>, dir: Direction, score: nat) -> bool {
    &&& forall|i: int| 0 <= i < 16 ==> #[trigger] moved(cells, dir)[i] <= u32::MAX
    &&& score + gain(cells, dir) <= u32::MAX
}

/// The first `n` entries of `acc`.
spec fn packed(acc: [u64; 4], n: int) -> Seq<nat> {
    Seq::new(n as nat, |j: int| acc[j] as nat)
}

/// The cells of a line as natural numbers.
spec fn line_view(line: [u32; 4]) -> Seq<nat> {
    Seq::new(4, |k: int| line[k] as nat)
}

/// The cells of a slid line as natural numbers.
spec fn wide_view(line: [u64; 4]) -> Seq<nat> {
    Seq::new(4, |k: int| line[k] as nat)
}

/// Slides one line. The result is computed in 64 bits, where no sum of two
/// 32-bit tiles overflows.
fn slide_line(line: [u32; 4]) -> (out: ([u64; 4], u64))
    ensures
        wide_view(out.0) == slide(line_view(line)),
        out.1 == slide_gain(line_view(line)),
        out.1 <= 0x8_0000_0000,
{
    let ghost cells = line_view(line);
    let mut acc: [u64; 4] = [0u64; 4];
    let mut n: usize = 0;
    let mut fresh: bool = false;
    let mut won: u64 = 0;
    let mut k: usize = 0;
    assert(cells.skip(0) =~= cells);
    assert(packed(acc, 0) + merged(tiles(cells)) =~= merged(tiles(cells)));
    while k < ROWS
        invariant
            k <= ROWS,
            n <= k,
            cells == line_view(line),
            forall|j: int| n <= j < 4 ==> #[trigger] acc[j] == 0,
            forall|j: int| 0 <= j < n ==> 0 < #[trigger] acc[j] && acc[j] <= 2 * u32::MAX,
            fresh ==> n > 0 && acc[n - 1] <= u32::MAX,
            won <= k * 0x2_0000_0000,
            merged(tiles(cells)) == if fresh {
                packed(acc, n - 1) + merged(seq![acc[n - 1] as nat] + tiles(cells.skip(k as int)))
            } else {
                packed(acc, n as int) + merged(tiles(cells.skip(k as int)))
            },
            merge_gain(tiles(cells)) == won + if fresh {
                merge_gain(seq![acc[n - 1] as nat] + tiles(cells.skip(k as int)))
            } else {
                merge_gain(tiles(cells.skip(k as int)))
            },
        decreases ROWS - k,
    {
        let el: u32 = line[k];
        let ghost rest = tiles(cells.skip(k as int));
        let ghost next = tiles(cells.skip(k as int + 1));
        assert(cells.skip(k as int).skip(1) =~= cells.skip(k as int + 1));
        assert(cells.skip(k as int)[0] == el as nat);
        if el != 0 {
            assert(rest == seq![el as nat] + next);
            if fresh && acc[n - 1] == el as u64 {
                let ghost pair = seq![acc[n - 1] as nat] + rest;
                assert(pair.skip(2) =~= next);
                assert(pair[0] == pair[1]);
                let ghost before = packed(acc, n - 1);
                acc[n - 1] = 2 * (el as u64);
                won = won + 2 * (el as u64);
                fresh = false;
                assert(packed(acc, n as int) =~= before + seq![2 * (el as nat)]);
                assert(before + (seq![2 * (el as nat)] + merged(next)) =~= packed(acc, n as int)
                    + merged(next));
            } else {
                if fresh {
                    let ghost pair = seq![acc[n - 1] as nat] + rest;
                    assert(pair.skip(1) =~= rest);
                    assert(pair[0] != pair[1]);
                    assert(packed(acc, n - 1) + (seq![acc[n - 1] as nat] + merged(rest))
                        =~= packed(acc, n as int) + merged(rest));
                }
                let ghost before = packed(acc, n as int);
                acc[n] = el as u64;
                n = n + 1;
                fresh = true;
                assert(packed(acc, n - 1) =~= before);
            }
        } else {
            assert(rest == next);
        }
        k = k + 1;
    }
    proof {
        assert(cells.skip(4) =~= Seq::<nat>::empty());
        assert(tiles(cells.skip(4)) =~= Seq::<nat>::empty());
        if fresh {
            let one = seq![acc[n - 1] as nat] + tiles(cells.skip(4));
            assert(one.skip(1) =~= Seq::<nat>::empty());
            assert(merged(one.skip(1)) =~= Seq::<nat>::empty());
            assert(merge_gain(one.skip(1)) == 0);
            assert(merged(one) =~= seq![acc[n - 1] as nat]);
            assert(merge_gain(one) == 0);
            assert(packed(acc, n - 1) + seq![acc[n - 1] as nat] =~= packed(acc, n as int));
        } else {
            assert(packed(acc, n as int) + merged(tiles(cells.skip(4))) =~= packed(acc, n as int));
        }
        assert(merged(tiles(cells)) == packed(acc, n as int));
        assert(wide_view(acc) =~= slide(cells));
    }
    (acc, won)
}

/// The cells of a slid grid as natural numbers.
spec fn grid_view(cells: [u64; 16]) -> Seq<nat> {
    Seq::new(16, |i: int| cells[i] as nat)
}

/// What the lines before line `l` add to the score.
spec fn gain_before(cells: Seq<nat>, dir: Direction, l: int) -> nat {
    (if l > 0 {
        slide_gain(line_of(cells, dir, 0))
    } else {
        0
    }) + (if l > 1 {
        slide_gain(line_of(cells, dir, 1))
    } else {
        0
    }) + (if l > 2 {
        slide_gain(line_of(cells, dir, 2))
    } else {
        0
    }) + (if l > 3 {
        slide_gain(line_of(cells, dir, 3))
    } else {
        0
    })
}

/// Position in the cell list of the `k`-th cell of line `l`.
fn cell_of(dir: Direction, l: usize, k: usize) -> (i: usize)
    requires
        l < ROWS,
        k < ROWS,
    ensures
        i == line_cell(dir, l as int, k as int),
        i < CELLS,
        line_index(dir, i as int) == l,
        line_pos(dir, i as int) == k,
{
    match dir {
        Direction::Up => coord(l, k),
        Direction::Down => coord(l, 3 - k),
        Direction::Left => coord(k, l),
        Direction::Right => coord(3 - k, l),
    }
}

/// Slides all four lines of the grid, in 64 bits. Returns the new cells and
/// what the move adds to the score.
fn slide_all(board: &Board, dir: Direction) -> (out: ([u64; 16], u64))
    ensures
        grid_view(out.0) == moved(board@, dir),
        out.1 == gain(board@, dir),
        out.1 <= 0x20_0000_0000,
{
    let mut cells: [u64; 16] = [0u64; 16];
    let mut won: u64 = 0;
    let mut l: usize = 0;
    while l < ROWS
        invariant
            l <= ROWS,
            forall|i: int|
                0 <= i < 16 && line_index(dir, i) < l ==> #[trigger] cells[i] as nat == moved(
                    board@,
                    dir,
                )[i],
            won == gain_before(board@, dir, l as int),
            won <= l * 0x8_0000_0000,
        decreases ROWS - l,
    {
        let i0: usize = cell_of(dir, l, 0);
        let i1: usize = cell_of(dir, l, 1);
        let i2: usize = cell_of(dir, l, 2);
        let i3: usize = cell_of(dir, l, 3);
        let line: [u32; 4] = [board.cells[i0], board.cells[i1], board.cells[i2], board.cells[i3]];
        assert(line_view(line) =~= line_of(board@, dir, l as int));
        let (slid, g) = slide_line(line);
        assert(forall|k: int| 0 <= k < 4 ==> slid[k] as nat == #[trigger] wide_view(slid)[k]);
        cells[i0] = slid[0];
        cells[i1] = slid[1];
        cells[i2] = slid[2];
        cells[i3] = slid[3];
        won = won + g;
        l = l + 1;
    }
    assert(grid_view(cells) =~= moved(board@, dir));
    (cells, won)
}

/// Applies a move toward `dir`: every line slides and combines, and the score
/// grows by the value of each tile that a pair combined into.
pub fn move_board(board: &mut Board, dir: Direction, score: &mut u32)
    requires
        move_fits(old(board)@, dir, *old(score) as nat),
    ensures
        final(board)@ == moved(old(board)@, dir),
        *final(score) == *old(score) + gain(old(board)@, dir),
{
    let (cells, won) = slide_all(board, dir);
    let ghost before = board@;
    let mut i: usize = 0;
    while i < CELLS
        invariant
            i <= CELLS,
            grid_view(cells) == moved(before, dir),
            forall|j: int| 0 <= j < 16 ==> #[trigger] moved(before, dir)[j] <= u32::MAX,
            forall|j: int| 0 <= j < i ==> #[trigger] board.cells[j] as nat == moved(before, dir)[j],
        decreases CELLS - i,
    {
        assert(cells[i as int] as nat == grid_view(cells)[i as int]);
        board.cells[i] = cells[i] as u32;
        i = i + 1;
    }
    assert(board@ =~= moved(before, dir));
    *score = *score + won as u32;
}

/// The move toward `dir` on a copy: the new grid and score, or `None` when a
/// tile or the score would not fit in 32 bits.
pub fn try_move(board: &Board, dir: Direction, score: u32) -> (r: Option<(Board, u32)>)
    ensures
        r is Some <==> move_fits(board@, dir, score as nat),
        r matches Some((b, s)) ==> b@ == moved(board@, dir) && s == score + gain(board@, dir),
{
    let (cells, won) = slide_all(board, dir);
    if won > (u32::MAX - score) as u64 {
        return None;
    }
    let mut next = Board::empty();
    let mut i: usize = 0;
    while i < CELLS
        invariant
            i <= CELLS,
            grid_view(cells) == moved(board@, dir),
            forall|j: int| 0 <= j < i ==> #[trigger] next.cells[j] as nat == moved(board@, dir)[j],
        decreases CELLS - i,
    {
        assert(cells[i as int] as nat == grid_view(cells)[i as int]);
        if cells[i] > u32::MAX as u64 {
            return None;
        }
        next.cells[i] = cells[i] as u32;
        i = i + 1;
    }
    assert(next@ =~= moved(board@, dir));
    assert forall|j: int| 0 <= j < 16 implies #[trigger] moved(board@, dir)[j] <= u32::MAX by {
        assert(next.cells[j] as nat == moved(board@, dir)[j]);
    }
    Some((next, score + won as u32))
}

/// Whether a move toward `dir` would alter any cell.
pub fn changes(board: &Board, dir: Direction) -> (b: bool)
    ensures
        b == (moved(board@, dir) != board@),
{
    let (cells, _won) = slide_all(board, dir);
    let mut i: usize = 0;
    while i < CELLS
        invariant
            i <= CELLS,
            grid_view(cells) == moved(board@, dir),
            forall|j: int| 0 <= j < i ==> #[trigger] moved(board@, dir)[j] == board@[j],
        decreases CELLS - i,
    {
        assert(cells[i as int] as nat == grid_view(cells)[i as int]);
        if cells[i] != board.cells[i] as u64 {
            assert(moved(board@, dir)[i as int] != board@[i as int]);
            return true;
        }
        i = i + 1;
    }
    assert(moved(board@, dir) =~= board@);
    false
}

} // verus!
