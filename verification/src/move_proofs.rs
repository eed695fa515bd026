//! What holds of every move: facts about one line, and from them the facts
//! about the grid.

use vstd::prelude::*;
use crate::board::{
    empty_count, is_tile, lemma_double_tile, lemma_empties_monotone, valid_tiles,
};
use crate::engine::{
    gain, line_cell, line_index, line_of, line_pos, merge_gain, merged, move_fits, moved, slide,
    slide_gain, tiles, Direction,
};

verus! {

/// Every value of the sequence is a tile.
pub open spec fn all_tiles(t: Seq<nat>) -> bool {
    forall|i: int| 0 <= i < t.len() ==> #[trigger] t[i] > 0
}

/// Two neighbours somewhere in the sequence are equal.
pub open spec fn has_equal_neighbours(t: Seq<nat>) -> bool {
    exists|i: int| 0 <= i < t.len() - 1 && #[trigger] t[i] == t[i + 1]
}

/// The tiles of a line are tiles, no more of them than the line has cells,
/// and as many only where the line has no empty cell.
pub proof fn lemma_tiles(line: Seq<nat>)
    ensures
        all_tiles(tiles(line)),
        tiles(line).len() <= line.len(),
        tiles(line).len() == line.len() <==> all_tiles(line),
        all_tiles(line) ==> tiles(line) == line,
    decreases line.len(),
{
    if line.len() > 0 {
        let rest = line.skip(1);
        lemma_tiles(rest);
        if all_tiles(rest) && line[0] != 0 {
            assert forall|i: int| 0 <= i < line.len() implies #[trigger] line[i] > 0 by {
                if i > 0 {
                    assert(rest[i - 1] > 0);
                }
            }
            assert(tiles(line) =~= line);
        }
        if all_tiles(line) {
            assert forall|i: int| 0 <= i < rest.len() implies #[trigger] rest[i] > 0 by {
                assert(line[i + 1] > 0);
            }
        }
    }
}

/// Combining keeps tiles tiles and never makes a line longer. It keeps the
/// length exactly where no two neighbours are equal, and then it changes
/// nothing and gains nothing; any pair that combines gains something.
pub proof fn lemma_merged(t: Seq<nat>)
    requires
        all_tiles(t),
    ensures
        all_tiles(merged(t)),
        merged(t).len() <= t.len(),
        merged(t).len() == t.len() <==> !has_equal_neighbours(t),
        merged(t).len() == t.len() <==> merge_gain(t) == 0,
        merged(t).len() == t.len() ==> merged(t) == t,
    decreases t.len(),
{
    if t.len() > 0 {
        if t.len() >= 2 && t[0] == t[1] {
            let rest = t.skip(2);
            assert(all_tiles(rest)) by {
                assert forall|i: int| 0 <= i < rest.len() implies #[trigger] rest[i] > 0 by {
                    assert(t[i + 2] > 0);
                }
            }
            lemma_merged(rest);
            assert(t[0] > 0);
            assert(t[0int] == t[0int + 1]);
        } else {
            let rest = t.skip(1);
            assert(all_tiles(rest)) by {
                assert forall|i: int| 0 <= i < rest.len() implies #[trigger] rest[i] > 0 by {
                    assert(t[i + 1] > 0);
                }
            }
            lemma_merged(rest);
            assert(t[0] > 0);
            if has_equal_neighbours(rest) {
                let i = choose|i: int| 0 <= i < rest.len() - 1 && #[trigger] rest[i] == rest[i + 1];
                assert(t[i + 1] == t[i + 1 + 1]);
            }
            if has_equal_neighbours(t) {
                let i = choose|i: int| 0 <= i < t.len() - 1 && #[trigger] t[i] == t[i + 1];
                assert(i > 0);
                assert(rest[i - 1] == rest[i - 1 + 1]);
            }
            if merged(rest) == rest {
                assert(merged(t) =~= t);
            }
        }
    }
}

/// Tiles packed at the front of a line: `m`, then empty cells up to `n`.
pub open spec fn packed_line(m: Seq<nat>, n: nat) -> Seq<nat> {
    Seq::new(
        n,
        |k: int|
            if k < m.len() {
                m[k]
            } else {
                0
            },
    )
}

/// The tiles of a packed line are the tiles that were packed.
pub proof fn lemma_tiles_packed(m: Seq<nat>, n: nat)
    requires
        all_tiles(m),
        m.len() <= n,
    ensures
        tiles(packed_line(m, n)) == m,
    decreases n,
{
    let line = packed_line(m, n);
    if n > 0 {
        if m.len() > 0 {
            let rest = m.skip(1);
            assert(line.skip(1) =~= packed_line(rest, (n - 1) as nat));
            assert(all_tiles(rest)) by {
                assert forall|i: int| 0 <= i < rest.len() implies #[trigger] rest[i] > 0 by {
                    assert(m[i + 1] > 0);
                }
            }
            lemma_tiles_packed(rest, (n - 1) as nat);
            assert(m[0] > 0);
            assert(tiles(line) =~= m);
        } else {
            assert(line.skip(1) =~= packed_line(m, (n - 1) as nat));
            lemma_tiles_packed(m, (n - 1) as nat);
        }
    } else {
        assert(tiles(line) =~= m);
    }
}

/// A line that its own slide leaves as it is gains nothing, and its tiles
/// stand packed at the front: after an empty cell only empty cells follow.
pub proof fn lemma_fixed_line(line: Seq<nat>)
    requires
        slide(line) == line,
    ensures
        slide_gain(line) == 0,
        forall|k: int| 0 <= k < line.len() - 1 && #[trigger] line[k] == 0 ==> line[k + 1] == 0,
        all_tiles(line) ==> !has_equal_neighbours(line),
{
    let t = tiles(line);
    lemma_tiles(line);
    lemma_merged(t);
    assert(slide(line) =~= packed_line(merged(t), line.len()));
    lemma_tiles_packed(merged(t), line.len());
    assert forall|k: int| 0 <= k < line.len() - 1 && #[trigger] line[k] == 0 implies line[k + 1]
        == 0 by {
        assert(slide(line)[k] == 0);
        if k < merged(t).len() {
            assert(merged(t)[k] > 0);
        }
        assert(slide(line)[k + 1] == 0);
    }
}

/// A line that its slide alters has an empty cell at its far end afterwards.
pub proof fn lemma_altered_line(line: Seq<nat>)
    requires
        line.len() > 0,
        slide(line) != line,
    ensures
        slide(line)[line.len() - 1] == 0,
{
    let t = tiles(line);
    lemma_tiles(line);
    lemma_merged(t);
    if merged(t).len() == line.len() {
        assert(slide(line) =~= line);
    }
}

/// A line without empty cells and without equal neighbours stays as it is.
pub proof fn lemma_blocked_line(line: Seq<nat>)
    requires
        all_tiles(line),
        !has_equal_neighbours(line),
    ensures
        slide(line) == line,
{
    lemma_tiles(line);
    lemma_merged(line);
    assert(slide(line) =~= line);
}

/// A line without tiles stays as it is.
pub proof fn lemma_empty_line(line: Seq<nat>)
    requires
        forall|k: int| 0 <= k < line.len() ==> #[trigger] line[k] == 0,
    ensures
        slide(line) == line,
{
    assert(tiles(line) =~= Seq::<nat>::empty()) by {
        lemma_no_tiles(line);
    }
    assert(slide(line) =~= line);
}

/// A line of empty cells has no tiles.
proof fn lemma_no_tiles(line: Seq<nat>)
    requires
        forall|k: int| 0 <= k < line.len() ==> #[trigger] line[k] == 0,
    ensures
        tiles(line).len() == 0,
    decreases line.len(),
{
    if line.len() > 0 {
        assert(line[0] == 0);
        assert forall|k: int| 0 <= k < line.skip(1).len() implies #[trigger] line.skip(1)[k]
            == 0 by {
            assert(line[k + 1] == 0);
        }
        lemma_no_tiles(line.skip(1));
    }
}

/// The lines of the moved grid are the slid lines of the grid.
pub proof fn lemma_moved_lines(cells: Seq<nat>, dir: Direction, l: int)
    requires
        0 <= l < 4,
    ensures
        line_of(moved(cells, dir), dir, l) == slide(line_of(cells, dir, l)),
{
    assert forall|k: int| 0 <= k < 4 implies line_of(moved(cells, dir), dir, l)[k] == slide(
        line_of(cells, dir, l),
    )[k] by {
        let i = line_cell(dir, l, k);
        assert(line_index(dir, i) == l && line_pos(dir, i) == k);
    }
    assert(line_of(moved(cells, dir), dir, l) =~= slide(line_of(cells, dir, l)));
}

/// A move that leaves the grid as it is adds nothing to the score, and a
/// second move in the same direction does the same again: nothing.
pub proof fn lemma_idle_move(cells: Seq<nat>, dir: Direction)
    requires
        cells.len() == 16,
        moved(cells, dir) == cells,
    ensures
        gain(cells, dir) == 0,
        moved(moved(cells, dir), dir) == cells,
        gain(moved(cells, dir), dir) == 0,
{
    assert forall|l: int| 0 <= l < 4 implies slide_gain(#[trigger] line_of(cells, dir, l))
        == 0 by {
        lemma_moved_lines(cells, dir, l);
        lemma_fixed_line(line_of(cells, dir, l));
    }
    assert(slide_gain(line_of(cells, dir, 0)) == 0);
    assert(slide_gain(line_of(cells, dir, 1)) == 0);
    assert(slide_gain(line_of(cells, dir, 2)) == 0);
    assert(slide_gain(line_of(cells, dir, 3)) == 0);
}

/// A move that alters the grid leaves at least one cell empty.
pub proof fn lemma_move_leaves_room(cells: Seq<nat>, dir: Direction)
    requires
        cells.len() == 16,
        moved(cells, dir) != cells,
    ensures
        empty_count(moved(cells, dir)) > 0,
{
    let after = moved(cells, dir);
    if forall|i: int| 0 <= i < 16 ==> after[i] == cells[i] {
        assert(after =~= cells);
    }
    let i = choose|i: int| 0 <= i < 16 && after[i] != cells[i];
    let l = line_index(dir, i);
    let k = line_pos(dir, i);
    let line = line_of(cells, dir, l);
    assert(line_cell(dir, l, k) == i);
    assert(line[k] == cells[i]);
    lemma_altered_line(line);
    let far = line_cell(dir, l, 3);
    assert(line_index(dir, far) == l && line_pos(dir, far) == 3);
    assert(after[far] == 0);
    lemma_empties_monotone(after, 0, 16);
}

/// The tiles of a line of valid cells are valid tiles.
proof fn lemma_tiles_valid(line: Seq<nat>)
    requires
        valid_tiles(line),
    ensures
        forall|i: int| 0 <= i < tiles(line).len() ==> is_tile(#[trigger] tiles(line)[i]),
    decreases line.len(),
{
    if line.len() > 0 {
        let rest = line.skip(1);
        assert forall|i: int| 0 <= i < rest.len() implies rest[i] == 0 || is_tile(
            #[trigger] rest[i],
        ) by {
            assert(line[i + 1] == 0 || is_tile(line[i + 1]));
        }
        lemma_tiles_valid(rest);
        assert(line[0] == 0 || is_tile(line[0]));
        assert forall|i: int| 0 <= i < tiles(line).len() implies is_tile(
            #[trigger] tiles(line)[i],
        ) by {
            if line[0] == 0 {
                assert(is_tile(tiles(rest)[i]));
            } else if i > 0 {
                assert(is_tile(tiles(rest)[i - 1]));
            }
        }
    }
}

/// Combining valid tiles gives valid tiles.
proof fn lemma_merged_valid(t: Seq<nat>)
    requires
        forall|i: int| 0 <= i < t.len() ==> is_tile(#[trigger] t[i]),
    ensures
        forall|i: int| 0 <= i < merged(t).len() ==> is_tile(#[trigger] merged(t)[i]),
    decreases t.len(),
{
    if t.len() > 0 {
        assert(is_tile(t[0]));
        if t.len() >= 2 && t[0] == t[1] {
            let rest = t.skip(2);
            assert forall|i: int| 0 <= i < rest.len() implies is_tile(#[trigger] rest[i]) by {
                assert(is_tile(t[i + 2]));
            }
            lemma_merged_valid(rest);
            lemma_double_tile(t[0]);
            assert forall|i: int| 0 <= i < merged(t).len() implies is_tile(
                #[trigger] merged(t)[i],
            ) by {
                if i > 0 {
                    assert(is_tile(merged(rest)[i - 1]));
                }
            }
        } else {
            let rest = t.skip(1);
            assert forall|i: int| 0 <= i < rest.len() implies is_tile(#[trigger] rest[i]) by {
                assert(is_tile(t[i + 1]));
            }
            lemma_merged_valid(rest);
            assert forall|i: int| 0 <= i < merged(t).len() implies is_tile(
                #[trigger] merged(t)[i],
            ) by {
                if i > 0 {
                    assert(is_tile(merged(rest)[i - 1]));
                }
            }
        }
    }
}

/// A move keeps the grid valid: where every cell was empty or held a power
/// of two, every cell still does.
pub proof fn lemma_move_keeps_tiles(cells: Seq<nat>, dir: Direction)
    requires
        cells.len() == 16,
        valid_tiles(cells),
    ensures
        valid_tiles(moved(cells, dir)),
{
    assert forall|i: int| 0 <= i < 16 implies moved(cells, dir)[i] == 0 || is_tile(
        #[trigger] moved(cells, dir)[i],
    ) by {
        let line = line_of(cells, dir, line_index(dir, i));
        assert forall|k: int| 0 <= k < 4 implies line[k] == 0 || is_tile(#[trigger] line[k]) by {
            let c = line_cell(dir, line_index(dir, i), k);
            assert(cells[c] == 0 || is_tile(cells[c]));
        }
        lemma_tiles_valid(line);
        lemma_merged_valid(tiles(line));
        let k = line_pos(dir, i);
        if k < merged(tiles(line)).len() {
            assert(is_tile(merged(tiles(line))[k]));
        }
    }
}

/// The sum of the values of a sequence.
pub open spec fn total(s: Seq<nat>) -> nat
    decreases s.len(),
{
    if s.len() == 0 {
        0
    } else {
        s[0] + total(s.skip(1))
    }
}

/// No value of a sequence is more than the sum of all.
pub proof fn lemma_total_bounds(s: Seq<nat>, i: int)
    requires
        0 <= i < s.len(),
    ensures
        s[i] <= total(s),
    decreases s.len(),
{
    if i > 0 {
        lemma_total_bounds(s.skip(1), i - 1);
    }
}

/// Leaving out the empty cells does not change the sum.
proof fn lemma_total_tiles(line: Seq<nat>)
    ensures
        total(tiles(line)) == total(line),
    decreases line.len(),
{
    if line.len() > 0 {
        lemma_total_tiles(line.skip(1));
        if line[0] != 0 {
            let t = seq![line[0]] + tiles(line.skip(1));
            assert(t.skip(1) =~= tiles(line.skip(1)));
        }
    }
}

/// Combining does not change the sum, and gains no more than the sum.
proof fn lemma_total_merged(t: Seq<nat>)
    ensures
        total(merged(t)) == total(t),
        merge_gain(t) <= total(t),
    decreases t.len(),
{
    if t.len() > 0 {
        let m = merged(t);
        if t.len() >= 2 && t[0] == t[1] {
            let rest = t.skip(2);
            lemma_total_merged(rest);
            assert(m.skip(1) =~= merged(rest));
            assert(total(m) == m[0] + total(m.skip(1)));
            assert(t.skip(1).skip(1) =~= rest);
            assert(total(t) == t[0] + total(t.skip(1)));
            assert(total(t.skip(1)) == t.skip(1)[0] + total(t.skip(1).skip(1)));
        } else {
            let rest = t.skip(1);
            lemma_total_merged(rest);
            assert(m.skip(1) =~= merged(rest));
            assert(total(m) == m[0] + total(m.skip(1)));
            assert(total(t) == t[0] + total(rest));
        }
    }
}

/// Empty cells behind the tiles do not change the sum.
proof fn lemma_total_packed(m: Seq<nat>, n: nat)
    requires
        m.len() <= n,
    ensures
        total(packed_line(m, n)) == total(m),
    decreases n,
{
    let line = packed_line(m, n);
    if n > 0 {
        if m.len() > 0 {
            assert(line.skip(1) =~= packed_line(m.skip(1), (n - 1) as nat));
            lemma_total_packed(m.skip(1), (n - 1) as nat);
        } else {
            assert(line.skip(1) =~= packed_line(m, (n - 1) as nat));
            lemma_total_packed(m, (n - 1) as nat);
        }
    }
}

/// A slid line holds the same sum as before, and gains no more than that.
pub proof fn lemma_slide_keeps_total(line: Seq<nat>)
    ensures
        total(slide(line)) == total(line),
        slide_gain(line) <= total(line),
{
    lemma_tiles(line);
    lemma_total_tiles(line);
    lemma_merged(tiles(line));
    lemma_total_merged(tiles(line));
    assert(slide(line) =~= packed_line(merged(tiles(line)), line.len()));
    lemma_total_packed(merged(tiles(line)), line.len());
}

/// The sum of a line of four cells.
proof fn lemma_total_four(line: Seq<nat>)
    requires
        line.len() == 4,
    ensures
        total(line) == line[0] + line[1] + line[2] + line[3],
{
    lemma_total_step(line, 0);
    lemma_total_step(line, 1);
    lemma_total_step(line, 2);
    lemma_total_step(line, 3);
    assert(line.skip(0) =~= line);
}

/// The sum from position `k` on is the value there and the sum after it.
proof fn lemma_total_step(s: Seq<nat>, k: int)
    requires
        0 <= k < s.len(),
    ensures
        total(s.skip(k)) == s[k] + total(s.skip(k + 1)),
{
    assert(s.skip(k).skip(1) =~= s.skip(k + 1));
}

/// The sum of a grid is the sum of its four lines, along any direction.
proof fn lemma_total_by_lines(cells: Seq<nat>, dir: Direction)
    requires
        cells.len() == 16,
    ensures
        total(cells) == total(line_of(cells, dir, 0)) + total(line_of(cells, dir, 1)) + total(
            line_of(cells, dir, 2),
        ) + total(line_of(cells, dir, 3)),
{
    lemma_total_four(line_of(cells, dir, 0));
    lemma_total_four(line_of(cells, dir, 1));
    lemma_total_four(line_of(cells, dir, 2));
    lemma_total_four(line_of(cells, dir, 3));
    lemma_total_step(cells, 0);
    lemma_total_step(cells, 1);
    lemma_total_step(cells, 2);
    lemma_total_step(cells, 3);
    lemma_total_step(cells, 4);
    lemma_total_step(cells, 5);
    lemma_total_step(cells, 6);
    lemma_total_step(cells, 7);
    lemma_total_step(cells, 8);
    lemma_total_step(cells, 9);
    lemma_total_step(cells, 10);
    lemma_total_step(cells, 11);
    lemma_total_step(cells, 12);
    lemma_total_step(cells, 13);
    lemma_total_step(cells, 14);
    lemma_total_step(cells, 15);
    assert(cells.skip(0) =~= cells);
    assert(total(cells.skip(16)) == 0);
}

/// A move keeps the sum of all tiles, and adds no more than that sum to the
/// score.
pub proof fn lemma_move_keeps_total(cells: Seq<nat>, dir: Direction)
    requires
        cells.len() == 16,
    ensures
        total(moved(cells, dir)) == total(cells),
        gain(cells, dir) <= total(cells),
{
    lemma_total_by_lines(cells, dir);
    lemma_total_by_lines(moved(cells, dir), dir);
    lemma_moved_lines(cells, dir, 0);
    lemma_moved_lines(cells, dir, 1);
    lemma_moved_lines(cells, dir, 2);
    lemma_moved_lines(cells, dir, 3);
    lemma_slide_keeps_total(line_of(cells, dir, 0));
    lemma_slide_keeps_total(line_of(cells, dir, 1));
    lemma_slide_keeps_total(line_of(cells, dir, 2));
    lemma_slide_keeps_total(line_of(cells, dir, 3));
}

/// A move fits in 32 bits, whatever its direction, where the sum of all
/// tiles and the score together do.
pub proof fn lemma_small_grids_fit(cells: Seq<nat>, dir: Direction, score: nat)
    requires
        cells.len() == 16,
        score + total(cells) <= u32::MAX,
    ensures
        move_fits(cells, dir, score),
{
    lemma_move_keeps_total(cells, dir);
    assert forall|i: int| 0 <= i < 16 implies #[trigger] moved(cells, dir)[i] <= u32::MAX by {
        lemma_total_bounds(moved(cells, dir), i);
    }
}

} // verus!
