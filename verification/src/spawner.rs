//! The tile spawner: one new tile, of value 2 or 4, in an empty cell that a
//! sequence of draws picks.

use vstd::prelude::*;
use crate::board::{
    empties_before, empty_count, is_tile, lemma_empties_monotone, lemma_tile_added, tile_count,
    valid_tiles, Board, CELLS,
};

verus! {

/// A source of 32-bit draws. Draws come from a script while it lasts, and from
/// the thread's random number generator after that. The source remembers
/// every value it has handed out.
pub struct Dice {
    script: Vec<u32>,
    at: usize,
    rolled: Ghost<Seq<u32>>,
}

/// One draw of `rand::random::<u32>()`, the thread-local generator of the
/// `rand` crate. Nothing is claimed of the value.
#[verifier::external_body]
fn random_u32() -> u32 {
    rand::random::<u32>()
}

impl Dice {
    /// Every value handed out so far, oldest first.
    pub closed spec fn rolled(&self) -> Seq<u32> {
        self.rolled@
    }

    /// The scripted values that have not been handed out yet.
    pub closed spec fn queued(&self) -> Seq<u32> {
        if self.at <= self.script@.len() {
            self.script@.skip(self.at as int)
        } else {
            Seq::empty()
        }
    }

    /// The values handed out since the source was in the state `before`.
    pub open spec fn since(&self, before: Dice) -> Seq<u32> {
        self.rolled().skip(before.rolled().len() as int)
    }

    /// The source has got from the state `before` to this one by handing out
    /// values: the earlier ones are still remembered, and the new ones came
    /// from the script as far as it reached.
    pub open spec fn follows(&self, before: Dice) -> bool {
        let k = before.rolled().len() as int;
        let n = self.rolled().len() - k;
        let q = before.queued();
        &&& n >= 0
        &&& self.rolled().take(k) == before.rolled()
        &&& forall|j: int| 0 <= j < n && j < q.len() ==> self.rolled()[k + j] == q[j]
        &&& self.queued() == q.skip(
            if n < q.len() {
                n
            } else {
                q.len() as int
            },
        )
    }

    /// A source of random draws.
    pub fn new() -> (dice: Dice)
        ensures
            dice.rolled() == Seq::<u32>::empty(),
            dice.queued() == Seq::<u32>::empty(),
    {
        let dice = Dice { script: Vec::new(), at: 0, rolled: Ghost(Seq::empty()) };
        assert(dice.queued() =~= Seq::<u32>::empty());
        dice
    }

    /// A source that hands out the values of `script` first, in order.
    pub fn scripted(script: Vec<u32>) -> (dice: Dice)
        ensures
            dice.rolled() == Seq::<u32>::empty(),
            dice.queued() == script@,
    {
        let dice = Dice { script, at: 0, rolled: Ghost(Seq::empty()) };
        assert(dice.queued() =~= script@);
        dice
    }

    /// Hands out the next value: the next one of the script, or a random one
    /// when the script has run out.
    pub fn roll(&mut self) -> (r: u32)
        ensures
            final(self).rolled() == old(self).rolled().push(r),
            old(self).queued().len() > 0 ==> r == old(self).queued()[0] && final(self).queued()
                == old(self).queued().skip(1),
            old(self).queued().len() == 0 ==> final(self).queued().len() == 0,
            final(self).follows(*old(self)),
            final(self).since(*old(self)) == seq![r],
    {
        let r: u32 = if self.at < self.script.len() {
            let r = self.script[self.at];
            assert(self.script@.skip(self.at as int).skip(1) =~= self.script@.skip(self.at + 1));
            self.at = self.at + 1;
            r
        } else {
            random_u32()
        };
        proof {
            self.rolled@ = self.rolled@.push(r);
        }
        assert(self.rolled().take(old(self).rolled().len() as int) =~= old(self).rolled());
        assert(self.since(*old(self)) =~= seq![r]);
        assert(old(self).queued().skip(0) =~= old(self).queued());
        r
    }

    /// Handing out values composes: a source that follows `mid`, which follows
    /// `first`, follows `first`, and the values since `first` are those up to
    /// `mid` and then those since `mid`.
    pub proof fn lemma_follows_trans(self, mid: Dice, first: Dice)
        requires
            self.follows(mid),
            mid.follows(first),
        ensures
            self.follows(first),
            self.since(first) == mid.since(first) + self.since(mid),
    {
        let k = first.rolled().len() as int;
        let m = mid.rolled().len() as int;
        let q = first.queued();
        assert(self.rolled().take(k) =~= first.rolled()) by {
            assert forall|j: int| 0 <= j < k implies self.rolled()[j] == first.rolled()[j] by {
                assert(self.rolled().take(m)[j] == mid.rolled()[j]);
                assert(mid.rolled().take(k)[j] == first.rolled()[j]);
            }
        }
        assert forall|j: int| 0 <= j < self.rolled().len() - k && j < q.len() implies self.rolled()[k
            + j] == q[j] by {
            if k + j < m {
                assert(self.rolled().take(m)[k + j] == mid.rolled()[k + j]);
            } else {
                assert(mid.queued()[k + j - m] == q[j]);
            }
        }
        let m1 = if m - k < q.len() {
            m - k
        } else {
            q.len() as int
        };
        let m2 = if self.rolled().len() - m < mid.queued().len() {
            self.rolled().len() - m
        } else {
            mid.queued().len() as int
        };
        assert(q.skip(m1).skip(m2) =~= q.skip(m1 + m2));
        assert(self.since(first) =~= mid.since(first) + self.since(mid)) by {
            assert forall|j: int| 0 <= j < m - k implies self.since(first)[j] == mid.since(first)[j] by {
                assert(self.rolled().take(m)[k + j] == mid.rolled()[k + j]);
            }
        }
    }
    /// A source follows itself, with no value handed out in between.
    pub proof fn lemma_follows_refl(self)
        ensures
            self.follows(self),
            self.since(self) == Seq::<u32>::empty(),
    {
        assert(self.rolled().take(self.rolled().len() as int) =~= self.rolled());
        assert(self.queued().skip(0) =~= self.queued());
        assert(self.since(self) =~= Seq::<u32>::empty());
    }
}

/// Whether a draw of the first pass picks the cell it was made for: one draw
/// in three does.
pub open spec fn accepts(draw: u32) -> bool {
    draw % 3 == 0
}

/// The value of the new tile that a draw stands for: 2 and 4, each for half
/// of the draws.
pub open spec fn tile_value(draw: u32) -> nat {
    if draw % 2 == 0 {
        2
    } else {
        4
    }
}

/// Number of draws from position `from` on that come before the first
/// accepted one; all of them, where none is accepted.
pub open spec fn misses(draws: Seq<u32>, from: int) -> nat
    decreases draws.len() - from,
{
    if from < 0 || from >= draws.len() || accepts(draws[from]) {
        0
    } else {
        1 + misses(draws, from + 1)
    }
}

/// Position of the empty cell, at or after `from`, that has exactly `n` empty
/// cells before it on the grid; the length of `cells` where there is none.
pub open spec fn nth_empty(cells: Seq<nat>, n: nat, from: int) -> int
    decreases cells.len() - from,
{
    if from < 0 || from >= cells.len() {
        cells.len() as int
    } else if cells[from] == 0 && empties_before(cells, from) == n {
        from
    } else {
        nth_empty(cells, n, from + 1)
    }
}

/// The cell that one spawn on the grid `cells` picks, where `draws` are the
/// values that come up.
///
/// Every empty cell in turn gets one draw, and the first accepted draw picks
/// its cell. Where none of these draws is accepted, the first empty cell is
/// picked.
pub open spec fn spawn_cell(cells: Seq<nat>, draws: Seq<u32>) -> int {
    let h = misses(draws, 0);
    if h < empty_count(cells) {
        nth_empty(cells, h, 0)
    } else {
        nth_empty(cells, 0, 0)
    }
}

/// The draw that gives the new tile's value: the one after the draw that
/// picked the cell, or after the draws of all the empty cells.
pub open spec fn value_draw(cells: Seq<nat>, draws: Seq<u32>) -> u32 {
    let e = empty_count(cells);
    let h = misses(draws, 0);
    if h < e {
        draws[h as int + 1]
    } else {
        draws[e as int]
    }
}

/// The grid after one spawn that made the draws `draws`, in order: the
/// picked cell holds the new tile. A full grid stays as it is.
pub open spec fn spawn(cells: Seq<nat>, draws: Seq<u32>) -> Seq<nat> {
    if empty_count(cells) == 0 {
        cells
    } else {
        cells.update(spawn_cell(cells, draws), tile_value(value_draw(cells, draws)))
    }
}

/// Number of draws that one spawn makes on the grid `cells`, where `draws`
/// are the values that come up.
pub open spec fn draws_used(cells: Seq<nat>, draws: Seq<u32>) -> nat {
    let e = empty_count(cells);
    let h = misses(draws, 0);
    if e == 0 {
        0
    } else if h < e {
        h + 2
    } else {
        e + 1
    }
}

/// The draws before position `k` are all rejected, so the first accepted one
/// is not among them.
proof fn lemma_misses_at_least(draws: Seq<u32>, from: int, k: int)
    requires
        0 <= from <= k <= draws.len(),
        forall|j: int| from <= j < k ==> !accepts(#[trigger] draws[j]),
    ensures
        misses(draws, from) >= k - from,
        k < draws.len() && accepts(draws[k]) ==> misses(draws, from) == k - from,
    decreases k - from,
{
    if from < k {
        lemma_misses_at_least(draws, from + 1, k);
    }
}

/// An empty cell with `n` empty cells before it is the one that `nth_empty`
/// finds.
proof fn lemma_nth_empty(cells: Seq<nat>, n: nat, from: int, c: int)
    requires
        0 <= from <= c < cells.len(),
        cells[c] == 0,
        empties_before(cells, c) == n,
    ensures
        nth_empty(cells, n, from) == c,
    decreases c - from,
{
    if from < c {
        lemma_empties_monotone(cells, from + 1, c);
        lemma_nth_empty(cells, n, from + 1, c);
    }
}

/// The value of the new tile that a draw stands for.
pub fn tile_for(draw: u32) -> (v: u32)
    ensures
        v == tile_value(draw),
{
    if draw % 2 == 0 {
        2
    } else {
        4
    }
}

/// Whether a draw of the first pass picks the cell it was made for.
pub fn is_hit(draw: u32) -> (b: bool)
    ensures
        b == accepts(draw),
{
    draw % 3 == 0
}

/// Puts one new tile on the grid, in an empty cell, or leaves a full grid as
/// it is. The draws that `dice` hands out decide the cell and the value.
pub fn generate_tiles(board: &mut Board, dice: &mut Dice)
    ensures
        final(dice).follows(*old(dice)),
        final(board)@ == spawn(old(board)@, final(dice).since(*old(dice))),
        final(dice).since(*old(dice)).len() == draws_used(
            old(board)@,
            final(dice).since(*old(dice)),
        ),
{
    let ghost cells = board@;
    let ghost start = *dice;
    proof {
        start.lemma_follows_refl();
    }
    let mut i: usize = 0;
    while i < CELLS
        invariant
            i <= CELLS,
            board@ == cells,
            cells == old(board)@,
            start == *old(dice),
            dice.follows(start),
            dice.since(start).len() == empties_before(cells, i as int),
            forall|j: int| 0 <= j < dice.since(start).len() ==> !accepts(#[trigger] dice.since(start)[j]),
        decreases CELLS - i,
    {
        if board.cells[i] == 0 {
            let ghost before = *dice;
            let r = dice.roll();
            proof {
                dice.lemma_follows_trans(before, start);
            }
            if is_hit(r) {
                let ghost picked = *dice;
                let v = dice.roll();
                board.cells[i] = tile_for(v);
                proof {
                    dice.lemma_follows_trans(picked, start);
                    let draws = dice.since(start);
                    let h = empties_before(cells, i as int);
                    assert(draws == before.since(start) + seq![r] + seq![v]);
                    assert(draws[h as int] == r);
                    assert(draws[h as int + 1] == v);
                    lemma_misses_at_least(draws, 0, h as int);
                    lemma_nth_empty(cells, h, 0, i as int);
                    lemma_empties_monotone(cells, i as int + 1, 16);
                    assert(board@ =~= cells.update(i as int, tile_value(v)));
                }
                return ;
            }
        }
        i = i + 1;
    }
    let mut i: usize = 0;
    while i < CELLS
        invariant
            i <= CELLS,
            board@ == cells,
            cells == old(board)@,
            start == *old(dice),
            dice.follows(start),
            dice.since(start).len() == empty_count(cells),
            forall|j: int| 0 <= j < dice.since(start).len() ==> !accepts(#[trigger] dice.since(start)[j]),
            empties_before(cells, i as int) == 0,
        decreases CELLS - i,
    {
        if board.cells[i] == 0 {
            let ghost before = *dice;
            let v = dice.roll();
            board.cells[i] = tile_for(v);
            proof {
                dice.lemma_follows_trans(before, start);
                let draws = dice.since(start);
                let e = empty_count(cells);
                assert(draws == before.since(start) + seq![v]);
                assert(draws[e as int] == v);
                lemma_misses_at_least(draws, 0, e as int);
                lemma_nth_empty(cells, 0, 0, i as int);
                lemma_empties_monotone(cells, i as int + 1, 16);
                assert(board@ =~= cells.update(i as int, tile_value(v)));
            }
            return ;
        }
        i = i + 1;
    }
    proof {
        lemma_misses_at_least(dice.since(start), 0, 0);
    }
}

/// Where more than `n` cells before position `i` are empty, one of them has
/// exactly `n` empty cells before it.
proof fn lemma_find_empty(cells: Seq<nat>, n: nat, i: int) -> (c: int)
    requires
        0 <= i <= cells.len(),
        empties_before(cells, i) > n,
    ensures
        0 <= c < i,
        cells[c] == 0,
        empties_before(cells, c) == n,
    decreases i,
{
    if empties_before(cells, i - 1) > n {
        lemma_find_empty(cells, n, i - 1)
    } else {
        i - 1
    }
}

/// One spawn on a grid with an empty cell puts a tile of value 2 or 4 into
/// one empty cell and changes no other cell, so the grid has one tile more.
/// A full grid stays as it is.
pub proof fn lemma_spawn_adds_one(cells: Seq<nat>, draws: Seq<u32>)
    ensures
        empty_count(cells) == 0 ==> spawn(cells, draws) == cells,
        empty_count(cells) > 0 ==> {
            let c = spawn_cell(cells, draws);
            let v = tile_value(value_draw(cells, draws));
            &&& 0 <= c < cells.len()
            &&& cells[c] == 0
            &&& v == 2 || v == 4
            &&& spawn(cells, draws) == cells.update(c, v)
            &&& forall|i: int| 0 <= i < cells.len() && i != c ==> spawn(cells, draws)[i] == cells[i]
            &&& tile_count(spawn(cells, draws)) == tile_count(cells) + 1
        },
{
    if empty_count(cells) > 0 {
        let h = misses(draws, 0);
        let n = if h < empty_count(cells) {
            h
        } else {
            0
        };
        let c = lemma_find_empty(cells, n, cells.len() as int);
        lemma_nth_empty(cells, n, 0, c);
        lemma_tile_added(cells, c, tile_value(value_draw(cells, draws)));
    }
}

/// A spawn keeps the grid valid: the new tile is a power of two.
pub proof fn lemma_spawn_keeps_tiles(cells: Seq<nat>, draws: Seq<u32>)
    requires
        valid_tiles(cells),
    ensures
        valid_tiles(spawn(cells, draws)),
{
    lemma_spawn_adds_one(cells, draws);
    assert(is_tile(2)) by {
        reveal_with_fuel(is_tile, 2);
    }
    assert(is_tile(4)) by {
        reveal_with_fuel(is_tile, 3);
    }
    assert forall|i: int| 0 <= i < spawn(cells, draws).len() implies spawn(cells, draws)[i] == 0
        || is_tile(#[trigger] spawn(cells, draws)[i]) by {
        assert(cells[i] == 0 || is_tile(cells[i]));
    }
}

} // verus!
