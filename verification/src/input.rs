//! The keys: which operation each input byte stands for.

use vstd::prelude::*;
use crate::session::Op;

verus! {

/// The operation that an input byte stands for. The letters `w`, `a`, `s`
/// and `d` and the last byte of an arrow key's escape sequence (`A` to `D`)
/// are the four directions; `q` quits, `r` resets, `z` and `u` undo, and the
/// return key confirms. Every other byte stands for nothing.
pub open spec fn key_spec(b: u8) -> Op {
    if b == 119 || b == 65 {
        Op::Up
    } else if b == 97 || b == 68 {
        Op::Left
    } else if b == 115 || b == 66 {
        Op::Down
    } else if b == 100 || b == 67 {
        Op::Right
    } else if b == 113 {
        Op::Quit
    } else if b == 114 {
        Op::Reset
    } else if b == 122 || b == 117 {
        Op::Undo
    } else if b == 13 {
        Op::Confirm
    } else {
        Op::Noop
    }
}

/// The operation that the input byte `b` stands for.
pub fn key_op(b: u8) -> (op: Op)
    ensures
        op == key_spec(b),
{
    match b {
        // `w`, or `A` at the end of the escape sequence of the up arrow
        119 | 65 => Op::Up,
        // `a`, or `D` (left arrow)
        97 | 68 => Op::Left,
        // `s`, or `B` (down arrow)
        115 | 66 => Op::Down,
        // `d`, or `C` (right arrow)
        100 | 67 => Op::Right,
        // `q`
        113 => Op::Quit,
        // `r`
        114 => Op::Reset,
        // `z`, `u`
        122 | 117 => Op::Undo,
        // return
        13 => Op::Confirm,
        _ => Op::Noop,
    }
}

} // verus!
