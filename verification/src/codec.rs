//! The text records: a saved game as one decimal number per line, the score
//! first and the sixteen cells after it, and the best score as one number.

use vstd::prelude::*;
use crate::board::{Board, CELLS};

verus! {

/// The byte that ends a line.
pub const NEWLINE: u8 = 10;

/// The byte that may stand before the line end and is then part of it.
pub const RETURN: u8 = 13;

/// The plus sign, which may stand before a number.
pub const PLUS: u8 = 43;

/// The digit zero.
pub const ZERO: u8 = 48;

/// Whether the byte is a decimal digit.
pub open spec fn is_digit(b: u8) -> bool {
    48 <= b <= 57
}

/// The number that a string of digits denotes; 0 for the empty string.
pub open spec fn value_of(s: Seq<u8>) -> nat
    decreases s.len(),
{
    if s.len() == 0 {
        0
    } else {
        value_of(s.drop_last()) * 10 + (s.last() - 48) as nat
    }
}

/// The digits of a number, after a plus sign that may stand before them.
pub open spec fn unsigned_part(s: Seq<u8>) -> Seq<u8> {
    if s.len() > 0 && s[0] == 43 {
        s.skip(1)
    } else {
        s
    }
}

/// The number that a line denotes: one or more decimal digits, after an
/// optional plus sign, with a value that fits in 32 bits. `None` for any
/// other line.
pub open spec fn parse_number(s: Seq<u8>) -> Option<nat> {
    let body = unsigned_part(s);
    if body.len() > 0 && (forall|i: int| 0 <= i < body.len() ==> is_digit(#[trigger] body[i]))
        && value_of(body) <= u32::MAX {
        Some(value_of(body))
    } else {
        None
    }
}

/// The decimal digits of a number, without leading zeros.
pub open spec fn digits(n: nat) -> Seq<u8>
    decreases n,
{
    if n < 10 {
        seq![(48 + n) as u8]
    } else {
        digits(n / 10).push((48 + n % 10) as u8)
    }
}

/// Position of the first line end at or after `from`; the length of the text
/// where there is none.
pub open spec fn line_end(text: Seq<u8>, from: int) -> int
    decreases text.len() - from,
{
    if from < 0 || from >= text.len() {
        text.len() as int
    } else if text[from] == 10 {
        from
    } else {
        line_end(text, from + 1)
    }
}

/// A line without the return byte that stood before its line end.
pub open spec fn without_return(line: Seq<u8>) -> Seq<u8> {
    if line.len() > 0 && line.last() == 13 {
        line.drop_last()
    } else {
        line
    }
}

/// The lines of a text. A line ends at a newline, or at a return followed by
/// a newline; neither belongs to the line. The last line need not be ended,
/// and an empty text has no lines.
pub open spec fn lines(text: Seq<u8>) -> Seq<Seq<u8>>
    decreases text.len(),
{
    if text.len() == 0 {
        Seq::empty()
    } else {
        let end = line_end(text, 0);
        if end < 0 || end >= text.len() {
            seq![text]
        } else {
            seq![without_return(text.take(end))] + lines(text.skip(end + 1))
        }
    }
}

/// Appending a digit multiplies the value by ten and adds the digit, so the
/// value never shrinks as digits are appended.
proof fn lemma_value_grows(s: Seq<u8>, n: int)
    requires
        0 <= n <= s.len(),
        forall|i: int| 0 <= i < s.len() ==> is_digit(#[trigger] s[i]),
    ensures
        value_of(s.take(n)) <= value_of(s),
    decreases s.len() - n,
{
    if n < s.len() {
        assert(s.take(n + 1).drop_last() =~= s.take(n));
        lemma_value_grows(s, n + 1);
    } else {
        assert(s.take(n) =~= s);
    }
}

/// Reads the number that the bytes of `text` from `start` up to `end` denote.
pub fn read_number(text: &[u8], start: usize, end: usize) -> (r: Option<u32>)
    requires
        start <= end <= text.len(),
    ensures
        match r {
            Some(n) => parse_number(text@.subrange(start as int, end as int)) == Some(n as nat),
            None => parse_number(text@.subrange(start as int, end as int)) is None,
        },
{
    let ghost line = text@.subrange(start as int, end as int);
    let mut i: usize = start;
    if i < end && text[i] == PLUS {
        i = i + 1;
    }
    let ghost body = unsigned_part(line);
    let first: usize = i;
    assert(body =~= text@.subrange(first as int, end as int));
    if i == end {
        return None;
    }
    let mut acc: u64 = 0;
    assert(body.take(0) =~= Seq::<u8>::empty());
    while i < end
        invariant
            start <= first <= i <= end <= text.len(),
            body == text@.subrange(first as int, end as int),
            body == unsigned_part(text@.subrange(start as int, end as int)),
            forall|j: int| 0 <= j < i - first ==> is_digit(#[trigger] body[j]),
            acc == value_of(body.take(i - first)),
            acc <= u32::MAX,
        decreases end - i,
    {
        let b: u8 = text[i];
        assert(b == body[i - first]);
        if b < ZERO || b > ZERO + 9 {
            assert(!is_digit(body[i - first]));
            return None;
        }
        assert(body.take(i - first + 1).drop_last() =~= body.take(i - first));
        acc = acc * 10 + (b - ZERO) as u64;
        i = i + 1;
        if acc > u32::MAX as u64 {
            proof {
                if forall|j: int| 0 <= j < body.len() ==> is_digit(#[trigger] body[j]) {
                    lemma_value_grows(body, i - first);
                }
            }
            return None;
        }
    }
    assert(body.take(i - first) =~= body);
    Some(acc as u32)
}

/// The score that the lines of a record give: the number on the first line,
/// or 0 where there is no first line or it denotes no number.
pub open spec fn score_of(ls: Seq<Seq<u8>>) -> nat {
    if ls.len() > 0 && parse_number(ls[0]) is Some {
        parse_number(ls[0])->Some_0
    } else {
        0
    }
}

/// The grid that the lines of a record give: the numbers on the sixteen
/// lines after the first. There is no grid unless exactly sixteen lines
/// follow the first and each of them denotes a number.
pub open spec fn cells_of(ls: Seq<Seq<u8>>) -> Option<Seq<nat>> {
    if ls.len() == 17 && (forall|i: int| 1 <= i < 17 ==> parse_number(#[trigger] ls[i]) is Some) {
        Some(Seq::new(16, |i: int| parse_number(ls[i + 1])->Some_0))
    } else {
        None
    }
}

/// The search for a line end stops at the first newline.
proof fn lemma_line_end_at(text: Seq<u8>, from: int, k: int)
    requires
        0 <= from <= k <= text.len(),
        forall|j: int| from <= j < k ==> #[trigger] text[j] != 10,
        k < text.len() ==> text[k] == 10,
    ensures
        line_end(text, from) == k,
    decreases k - from,
{
    if from < k {
        lemma_line_end_at(text, from + 1, k);
    }
}

/// Reads a saved game: the score, and the grid where the record holds one.
pub fn decode(text: &[u8]) -> (r: (u32, Option<Board>))
    ensures
        r.0 == score_of(lines(text@)),
        match r.1 {
            Some(b) => cells_of(lines(text@)) == Some(b@),
            None => cells_of(lines(text@)) is None,
        },
{
    let len: usize = text.len();
    let mut pos: usize = 0;
    let mut n: usize = 0;
    let mut score: u32 = 0;
    let mut cells: [u32; 16] = [0u32; 16];
    let mut ok: bool = true;
    let ghost mut seen: Seq<Seq<u8>> = Seq::empty();
    let ghost mut bad: int = 0;
    assert(text@.skip(0) =~= text@);
    assert(seen + lines(text@) =~= lines(text@));
    while pos < len
        invariant
            pos <= len,
            len == text@.len(),
            n == seen.len(),
            n <= pos,
            lines(text@) == seen + lines(text@.skip(pos as int)),
            score == score_of(seen),
            ok ==> (forall|i: int| 1 <= i < n && i < 17 ==> parse_number(#[trigger] seen[i]) is Some),
            !ok ==> 1 <= bad < n && bad < 17 && parse_number(seen[bad]) is None,
            forall|i: int|
                1 <= i < n && i < 17 && parse_number(seen[i]) is Some ==> #[trigger] cells[i - 1]
                    == parse_number(seen[i])->Some_0,
        decreases len - pos,
    {
        let ghost rest = text@.skip(pos as int);
        let mut end: usize = pos;
        while end < len && text[end] != NEWLINE
            invariant
                pos <= end <= len,
                len == text@.len(),
                forall|j: int| pos <= j < end ==> #[trigger] text@[j] != 10,
            decreases len - end,
        {
            end = end + 1;
        }
        proof {
            assert forall|j: int| 0 <= j < end - pos implies #[trigger] rest[j] != 10 by {
                assert(rest[j] == text@[pos + j]);
            }
            lemma_line_end_at(rest, 0, end - pos);
        }
        let stop: usize = if end < len && end > pos && text[end - 1] == RETURN {
            (end - 1) as usize
        } else {
            end
        };
        let next: usize = if end < len {
            end + 1
        } else {
            end
        };
        let ghost line = text@.subrange(pos as int, stop as int);
        proof {
            if end < len {
                assert(rest.take(end - pos) =~= text@.subrange(pos as int, end as int));
                assert(without_return(rest.take(end - pos)) =~= line);
                assert(rest.skip(end - pos + 1) =~= text@.skip(next as int));
            } else {
                assert(rest =~= line);
                assert(text@.skip(next as int) =~= Seq::<u8>::empty());
                assert(lines(text@.skip(next as int)) =~= Seq::<Seq<u8>>::empty());
            }
            assert(lines(rest) =~= seq![line] + lines(text@.skip(next as int)));
            assert(seen + lines(rest) =~= seen.push(line) + lines(text@.skip(next as int)));
        }
        let number = read_number(text, pos, stop);
        if n == 0 {
            score = match number {
                Some(v) => v,
                None => 0,
            };
        } else if n <= CELLS {
            match number {
                Some(v) => {
                    cells[n - 1] = v;
                },
                None => {
                    proof {
                        if ok {
                            bad = n as int;
                        }
                    }
                    ok = false;
                },
            }
        }
        proof {
            seen = seen.push(line);
        }
        n = n + 1;
        pos = next;
    }
    assert(text@.skip(len as int) =~= Seq::<u8>::empty());
    assert(lines(text@) =~= seen);
    if ok && n == CELLS + 1 {
        let board = Board::from_cells(cells);
        assert(board@ =~= cells_of(seen)->Some_0);
        (score, Some(board))
    } else {
        (score, None)
    }
}

/// The cell lines of a record from cell `from` on: the digits of each cell,
/// with a newline between one cell and the next.
pub open spec fn joined(cells: Seq<nat>, from: int) -> Seq<u8>
    decreases cells.len() - from,
{
    if from < 0 || from >= cells.len() {
        Seq::empty()
    } else if from == cells.len() - 1 {
        digits(cells[from])
    } else {
        digits(cells[from]) + seq![10u8] + joined(cells, from + 1)
    }
}

/// The record of a game: the digits of the score, a newline, and the cell
/// lines where there is a grid.
pub open spec fn record(score: nat, cells: Option<Seq<nat>>) -> Seq<u8> {
    digits(score) + seq![10u8] + match cells {
        Some(c) => joined(c, 0),
        None => Seq::empty(),
    }
}

/// The cells of a grid that may be absent.
pub open spec fn cells_view(board: Option<Board>) -> Option<Seq<nat>> {
    match board {
        Some(b) => Some(b@),
        None => None,
    }
}

/// Appends the decimal digits of `n`.
pub fn push_digits(out: &mut Vec<u8>, n: u32)
    ensures
        final(out)@ == old(out)@ + digits(n as nat),
    decreases n,
{
    if n >= 10 {
        push_digits(out, n / 10);
    }
    let ghost before = out@;
    out.push(ZERO + (n % 10) as u8);
    assert(out@ =~= old(out)@ + digits(n as nat)) by {
        if n >= 10 {
            assert(before == old(out)@ + digits((n / 10) as nat));
        }
    }
}

/// Writes a game as a record.
pub fn encode(score: u32, board: &Option<Board>) -> (out: Vec<u8>)
    ensures
        out@ == record(score as nat, cells_view(*board)),
{
    let mut out: Vec<u8> = Vec::new();
    push_digits(&mut out, score);
    out.push(NEWLINE);
    assert(out@ =~= digits(score as nat) + seq![10u8]);
    match board {
        Some(b) => {
            let mut i: usize = 0;
            assert(out@ + joined(b@, 0) =~= record(score as nat, cells_view(*board)));
            while i < CELLS
                invariant
                    i <= CELLS,
                    b@.len() == 16,
                    out@ + joined(b@, i as int) == record(score as nat, cells_view(*board)),
                decreases CELLS - i,
            {
                let ghost before = out@;
                push_digits(&mut out, b.cells[i]);
                if i + 1 < CELLS {
                    out.push(NEWLINE);
                    assert(out@ + joined(b@, i + 1) =~= before + joined(b@, i as int));
                } else {
                    assert(out@ + joined(b@, i + 1) =~= before + joined(b@, i as int));
                }
                i = i + 1;
            }
            assert(out@ + joined(b@, 16) =~= out@);
        },
        None => {
            assert(out@ =~= record(score as nat, cells_view(*board)));
        },
    }
    out
}

/// The digits of a number are digits, at least one, and denote the number.
pub proof fn lemma_digits(n: nat)
    ensures
        digits(n).len() >= 1,
        forall|i: int| 0 <= i < digits(n).len() ==> is_digit(#[trigger] digits(n)[i]),
        value_of(digits(n)) == n,
    decreases n,
{
    let d = digits(n);
    if n < 10 {
        assert(d.drop_last() =~= Seq::<u8>::empty());
        assert(d.last() == (48 + n) as u8);
        assert(value_of(d.drop_last()) == 0);
    } else {
        lemma_digits(n / 10);
        assert(d.drop_last() =~= digits(n / 10));
        assert(d.last() == (48 + n % 10) as u8);
        assert(value_of(d) == value_of(d.drop_last()) * 10 + (d.last() - 48) as nat);
        assert(n == (n / 10) * 10 + n % 10);
    }
}

/// Reading the digits of a 32-bit number gives the number back.
pub proof fn lemma_digits_parse(n: nat)
    requires
        n <= u32::MAX,
    ensures
        parse_number(digits(n)) == Some(n),
{
    lemma_digits(n);
    assert(is_digit(digits(n)[0]));
}

/// A text that begins with a line of digits and a newline has that line
/// first, and the lines of the rest after it.
proof fn lemma_lines_first(a: Seq<u8>, rest: Seq<u8>)
    requires
        forall|i: int| 0 <= i < a.len() ==> is_digit(#[trigger] a[i]),
    ensures
        lines(a + seq![10u8] + rest) == seq![a] + lines(rest),
{
    let text = a + seq![10u8] + rest;
    assert forall|j: int| 0 <= j < a.len() implies #[trigger] text[j] != 10 by {
        assert(is_digit(a[j]));
    }
    lemma_line_end_at(text, 0, a.len() as int);
    assert(text.take(a.len() as int) =~= a);
    assert(text.skip(a.len() as int + 1) =~= rest);
    if a.len() > 0 {
        assert(is_digit(a[a.len() - 1]));
    }
}

/// A text of digits alone is one line.
proof fn lemma_lines_single(a: Seq<u8>)
    requires
        a.len() > 0,
        forall|i: int| 0 <= i < a.len() ==> is_digit(#[trigger] a[i]),
    ensures
        lines(a) == seq![a],
{
    assert forall|j: int| 0 <= j < a.len() implies #[trigger] a[j] != 10 by {
        assert(is_digit(a[j]));
    }
    lemma_line_end_at(a, 0, a.len() as int);
}

/// The cell lines of a record are the digits of the cells, one line each.
proof fn lemma_lines_joined(cells: Seq<nat>, from: int)
    requires
        0 <= from <= cells.len(),
    ensures
        lines(joined(cells, from)) == Seq::new(
            (cells.len() - from) as nat,
            |i: int| digits(cells[from + i]),
        ),
    decreases cells.len() - from,
{
    let want = Seq::new((cells.len() - from) as nat, |i: int| digits(cells[from + i]));
    if from == cells.len() {
        assert(lines(joined(cells, from)) =~= want);
    } else {
        lemma_digits(cells[from]);
        if from == cells.len() - 1 {
            lemma_lines_single(digits(cells[from]));
            assert(lines(joined(cells, from)) =~= want);
        } else {
            lemma_lines_first(digits(cells[from]), joined(cells, from + 1));
            lemma_lines_joined(cells, from + 1);
            assert(lines(joined(cells, from)) =~= want);
        }
    }
}

/// Reading a written record gives back the score and the grid: for every
/// 32-bit score, and for every grid of sixteen 32-bit cells or none.
pub proof fn lemma_round_trip(score: nat, cells: Option<Seq<nat>>)
    requires
        score <= u32::MAX,
        cells matches Some(c) ==> c.len() == 16 && forall|i: int|
            0 <= i < 16 ==> #[trigger] c[i] <= u32::MAX,
    ensures
        score_of(lines(record(score, cells))) == score,
        cells_of(lines(record(score, cells))) == cells,
{
    lemma_digits(score);
    lemma_digits_parse(score);
    match cells {
        Some(c) => {
            lemma_lines_first(digits(score), joined(c, 0));
            lemma_lines_joined(c, 0);
            let ls = lines(record(score, cells));
            assert(ls.len() == 17);
            assert forall|i: int| 1 <= i < 17 implies parse_number(#[trigger] ls[i]) == Some(
                c[i - 1],
            ) by {
                lemma_digits_parse(c[i - 1]);
            }
            assert(cells_of(ls)->Some_0 =~= c);
        },
        None => {
            lemma_lines_first(digits(score), Seq::empty());
            assert(lines(Seq::<u8>::empty()) =~= Seq::<Seq<u8>>::empty());
            assert(lines(record(score, cells)) =~= seq![digits(score)]);
        },
    }
}

/// Reads the record of the best score: the number that the whole text
/// denotes, or 0 where it denotes none.
pub fn decode_high_score(text: &[u8]) -> (high: u32)
    ensures
        high == match parse_number(text@) {
            Some(n) => n,
            None => 0,
        },
{
    assert(text@.subrange(0, text@.len() as int) =~= text@);
    match read_number(text, 0, text.len()) {
        Some(n) => n,
        None => 0,
    }
}

/// Writes the record of the best score: its decimal digits.
pub fn encode_high_score(high: u32) -> (out: Vec<u8>)
    ensures
        out@ == digits(high as nat),
{
    let mut out: Vec<u8> = Vec::new();
    push_digits(&mut out, high);
    assert(out@ =~= digits(high as nat));
    out
}

/// The best score after a session that ended with `score`.
pub fn best_score(high: u32, score: u32) -> (best: u32)
    ensures
        best >= high,
        best >= score,
        best == high || best == score,
{
    if score > high {
        score
    } else {
        high
    }
}

} // verus!
