//! The game session: the current grid and score, one earlier snapshot for
//! undo and redo, and the rule that turns each operation into the next state.

use vstd::prelude::*;
use crate::board::Board;
use crate::detector::{is_lost, stuck};
use crate::engine::{gain, move_fits, moved, try_move, Direction};
use crate::spawner::{draws_used, generate_tiles, spawn, Dice};

verus! {

/// One operation, as the input side hands it over.
#[derive(Clone, Copy, Debug, PartialEq, Eq, Structural)]
pub enum Op {
    Up,
    Down,
    Left,
    Right,
    Quit,
    Noop,
    Reset,
    Undo,
    Confirm,
}

/// What an operation did to the session.
#[derive(Clone, Copy, Debug, PartialEq, Eq, Structural)]
pub enum Outcome {
    /// The session ends.
    Quit,
    /// The operation means nothing during a game; nothing changed.
    Ignored,
    /// The operation was carried out; `lost` tells whether the grid that is
    /// current now can still be altered by a move.
    Played { lost: bool },
}

/// The direction that an operation moves toward, if it is a move.
pub open spec fn op_direction(op: Op) -> Option<Direction> {
    match op {
        Op::Up => Some(Direction::Up),
        Op::Down => Some(Direction::Down),
        Op::Left => Some(Direction::Left),
        Op::Right => Some(Direction::Right),
        _ => None,
    }
}

/// The session as a mathematical value.
pub struct SessionState {
    /// The current grid.
    pub board: Seq<nat>,
    /// The current score.
    pub score: nat,
    /// The grid of the snapshot.
    pub prev_board: Seq<nat>,
    /// The score of the snapshot.
    pub prev_score: nat,
    /// The direction of the latest operation, where that was a direction.
    pub last: Option<Direction>,
    /// The direction that, pressed now, takes back the latest undo.
    pub redo: Option<Direction>,
}

/// A grid without tiles.
pub open spec fn empty_cells() -> Seq<nat> {
    Seq::new(16, |i: int| 0nat)
}

/// Current state and snapshot change places.
pub open spec fn swapped(s: SessionState) -> SessionState {
    SessionState {
        board: s.prev_board,
        score: s.prev_score,
        prev_board: s.board,
        prev_score: s.score,
        last: s.last,
        redo: s.redo,
    }
}

/// The session after `op`, where the spawner made the draws `draws`.
///
/// - `Quit`, `Noop` and `Confirm` change nothing.
/// - `Reset` starts over with one spawned tile and score 0; the snapshot and
///   the two remembered directions stay.
/// - `Undo` swaps the current state with the snapshot. The direction of the
///   latest operation becomes the redo direction, and no latest direction is
///   left, so that a second `Undo` in a row clears the redo direction.
/// - The redo direction swaps as well, and is then cleared.
/// - Any other direction is a move. Where it alters the grid, the state
///   before it becomes the snapshot, the score grows by the move's gain, and
///   one tile is spawned. The redo direction is cleared either way.
pub open spec fn step_spec(s: SessionState, op: Op, draws: Seq<u32>) -> SessionState {
    match op {
        Op::Quit | Op::Noop | Op::Confirm => s,
        Op::Reset => SessionState { board: spawn(empty_cells(), draws), score: 0, ..s },
        Op::Undo => SessionState { last: None, redo: s.last, ..swapped(s) },
        _ => {
            let dir = op_direction(op)->Some_0;
            if s.redo == Some(dir) {
                SessionState { last: Some(dir), redo: None, ..swapped(s) }
            } else if moved(s.board, dir) != s.board {
                SessionState {
                    board: spawn(moved(s.board, dir), draws),
                    score: s.score + gain(s.board, dir),
                    prev_board: s.board,
                    prev_score: s.score,
                    last: Some(dir),
                    redo: None,
                }
            } else {
                SessionState { last: Some(dir), redo: None, ..s }
            }
        },
    }
}

/// Number of draws that the spawner makes during `op`.
pub open spec fn step_draws(s: SessionState, op: Op, draws: Seq<u32>) -> nat {
    match op {
        Op::Quit | Op::Noop | Op::Confirm | Op::Undo => 0,
        Op::Reset => draws_used(empty_cells(), draws),
        _ => {
            let dir = op_direction(op)->Some_0;
            if s.redo != Some(dir) && moved(s.board, dir) != s.board {
                draws_used(moved(s.board, dir), draws)
            } else {
                0
            }
        },
    }
}

/// What `op` reports, given the state it led to.
pub open spec fn outcome_spec(op: Op, after: SessionState) -> Outcome {
    match op {
        Op::Quit => Outcome::Quit,
        Op::Noop | Op::Confirm => Outcome::Ignored,
        _ => Outcome::Played { lost: stuck(after.board) },
    }
}

/// `op` can be carried out in 32 bits: where it is a move, the tiles of the
/// new grid and the new score fit.
pub open spec fn step_fits(s: SessionState, op: Op) -> bool {
    match op_direction(op) {
        Some(dir) => s.redo != Some(dir) ==> move_fits(s.board, dir, s.score),
        None => true,
    }
}

/// A game in progress.
pub struct Session {
    board: Board,
    score: u32,
    prev_board: Board,
    prev_score: u32,
    last: Option<Direction>,
    redo: Option<Direction>,
}

impl View for Session {
    type V = SessionState;

    closed spec fn view(&self) -> SessionState {
        SessionState {
            board: self.board@,
            score: self.score as nat,
            prev_board: self.prev_board@,
            prev_score: self.prev_score as nat,
            last: self.last,
            redo: self.redo,
        }
    }
}

/// Whether `slot` holds the direction `dir`.
fn holds(slot: Option<Direction>, dir: Direction) -> (b: bool)
    ensures
        b == (slot == Some(dir)),
{
    match slot {
        Some(d) => d == dir,
        None => false,
    }
}

impl Op {
    /// The direction that the operation moves toward, if it is a move.
    pub fn direction(self) -> (d: Option<Direction>)
        ensures
            d == op_direction(self),
    {
        match self {
            Op::Up => Some(Direction::Up),
            Op::Down => Some(Direction::Down),
            Op::Left => Some(Direction::Left),
            Op::Right => Some(Direction::Right),
            _ => None,
        }
    }
}

impl Session {
    /// Starts a session: on the saved grid with `score`, or, where there is
    /// none, on an empty grid with one spawned tile. The snapshot is the
    /// starting grid with score 0.
    pub fn start(saved: Option<Board>, score: u32, dice: &mut Dice) -> (s: Session)
        ensures
            final(dice).follows(*old(dice)),
            s@.board == match saved {
                Some(b) => b@,
                None => spawn(empty_cells(), final(dice).since(*old(dice))),
            },
            final(dice).since(*old(dice)).len() == match saved {
                Some(b) => 0,
                None => draws_used(empty_cells(), final(dice).since(*old(dice))),
            },
            s@.score == score,
            s@.prev_board == s@.board,
            s@.prev_score == 0,
            s@.last is None,
            s@.redo is None,
    {
        let board = match saved {
            Some(b) => {
                proof {
                    dice.lemma_follows_refl();
                }
                b
            },
            None => {
                let mut b = Board::empty();
                generate_tiles(&mut b, dice);
                b
            },
        };
        Session { board, score, prev_board: board, prev_score: 0, last: None, redo: None }
    }

    /// The current grid.
    pub fn board(&self) -> (b: Board)
        ensures
            b@ == self@.board,
    {
        self.board
    }

    /// The current score.
    pub fn score(&self) -> (n: u32)
        ensures
            n == self@.score,
    {
        self.score
    }

    /// Whether `op` can be carried out in 32 bits.
    pub fn fits(&self, op: Op) -> (b: bool)
        ensures
            b == step_fits(self@, op),
    {
        match op.direction() {
            Some(dir) => holds(self.redo, dir) || try_move(&self.board, dir, self.score).is_some(),
            None => true,
        }
    }

    /// Current state and snapshot change places.
    fn swap(&mut self)
        ensures
            final(self)@ == swapped(old(self)@),
    {
        let board = self.board;
        let score = self.score;
        self.board = self.prev_board;
        self.score = self.prev_score;
        self.prev_board = board;
        self.prev_score = score;
    }

    /// Carries out one operation.
    pub fn step(&mut self, op: Op, dice: &mut Dice) -> (out: Outcome)
        requires
            step_fits(old(self)@, op),
        ensures
            final(dice).follows(*old(dice)),
            final(self)@ == step_spec(old(self)@, op, final(dice).since(*old(dice))),
            final(dice).since(*old(dice)).len() == step_draws(
                old(self)@,
                op,
                final(dice).since(*old(dice)),
            ),
            out == outcome_spec(op, final(self)@),
    {
        proof {
            dice.lemma_follows_refl();
        }
        match op {
            Op::Quit => {
                return Outcome::Quit;
            },
            Op::Noop | Op::Confirm => {
                return Outcome::Ignored;
            },
            Op::Reset => {
                let mut fresh = Board::empty();
                generate_tiles(&mut fresh, dice);
                self.board = fresh;
                self.score = 0;
            },
            Op::Undo => {
                self.swap();
                self.redo = self.last;
                self.last = None;
            },
            _ => {
                let dir = op.direction().unwrap();
                if holds(self.redo, dir) {
                    self.swap();
                } else {
                    let (mut next, score) = try_move(&self.board, dir, self.score).unwrap();
                    if !next.same(&self.board) {
                        generate_tiles(&mut next, dice);
                        self.prev_board = self.board;
                        self.prev_score = self.score;
                        self.board = next;
                        self.score = score;
                    }
                }
                self.redo = None;
                self.last = Some(dir);
            },
        }
        Outcome::Played { lost: is_lost(&self.board) }
    }

    /// Carries out one operation where it fits in 32 bits; otherwise returns
    /// `None` and changes nothing.
    pub fn try_step(&mut self, op: Op, dice: &mut Dice) -> (out: Option<Outcome>)
        ensures
            out is Some <==> step_fits(old(self)@, op),
            out is None ==> final(self)@ == old(self)@ && *final(dice) == *old(dice),
            out matches Some(o) ==> {
                &&& final(dice).follows(*old(dice))
                &&& final(self)@ == step_spec(old(self)@, op, final(dice).since(*old(dice)))
                &&& final(dice).since(*old(dice)).len() == step_draws(
                    old(self)@,
                    op,
                    final(dice).since(*old(dice)),
                )
                &&& o == outcome_spec(op, final(self)@)
            },
    {
        if self.fits(op) {
            Some(self.step(op, dice))
        } else {
            None
        }
    }
}

} // verus!
