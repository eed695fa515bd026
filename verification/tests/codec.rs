use rs_2048::board::Board;
use rs_2048::codec::{
    best_score, decode, decode_high_score, encode, encode_high_score, push_digits, read_number,
};

fn sample() -> Board {
    Board::from_cells([2, 0, 4, 8, 0, 0, 16, 32, 64, 128, 256, 512, 1024, 2048, 4096, 0])
}

#[test]
fn a_record_is_one_number_per_line() {
    let text = encode(1234, &Some(sample()));
    assert_eq!(
        text,
        b"1234\n2\n0\n4\n8\n0\n0\n16\n32\n64\n128\n256\n512\n1024\n2048\n4096\n0".to_vec()
    );
}

#[test]
fn a_record_without_a_grid_is_the_score_line() {
    assert_eq!(encode(7, &None), b"7\n".to_vec());
    assert_eq!(encode(0, &None), b"0\n".to_vec());
}

#[test]
fn digits_of_numbers() {
    let mut out = Vec::new();
    push_digits(&mut out, 0);
    out.push(b' ');
    push_digits(&mut out, 9);
    out.push(b' ');
    push_digits(&mut out, 10);
    out.push(b' ');
    push_digits(&mut out, 1005);
    out.push(b' ');
    push_digits(&mut out, u32::MAX);
    assert_eq!(out, b"0 9 10 1005 4294967295".to_vec());
}

#[test]
fn reading_a_written_record_gives_it_back() {
    let boards = [
        Board::empty(),
        sample(),
        Board::from_cells([u32::MAX; 16]),
        Board::from_cells([2, 4, 2, 4, 4, 2, 4, 2, 2, 4, 2, 4, 4, 2, 4, 2]),
    ];
    for board in boards {
        for score in [0u32, 1, 9, 10, 99, 100, 65536, u32::MAX] {
            assert_eq!(decode(&encode(score, &Some(board))), (score, Some(board)));
        }
    }
}

#[test]
fn reading_a_record_without_a_grid_gives_the_score() {
    for score in [0u32, 5, 4096, u32::MAX] {
        assert_eq!(decode(&encode(score, &None)), (score, None));
    }
}

#[test]
fn an_empty_text_holds_nothing() {
    assert_eq!(decode(b""), (0, None));
}

#[test]
fn a_bad_score_line_counts_as_zero() {
    let text = b"x12\n2\n0\n0\n0\n0\n0\n0\n0\n0\n0\n0\n0\n0\n0\n0\n4";
    let mut cells = [0u32; 16];
    cells[0] = 2;
    cells[15] = 4;
    assert_eq!(decode(text), (0, Some(Board::from_cells(cells))));
    let text = b"\n2\n0\n0\n0\n0\n0\n0\n0\n0\n0\n0\n0\n0\n0\n0\n4";
    assert_eq!(decode(text), (0, Some(Board::from_cells(cells))));
}

#[test]
fn a_bad_cell_line_discards_the_grid_and_keeps_the_score() {
    let text = b"31\n2\n0\n0\n0\n0\n0\n0\nfour\n0\n0\n0\n0\n0\n0\n0\n4";
    assert_eq!(decode(text), (31, None));
    let text = b"31\n2\n0\n0\n0\n0\n0\n0\n\n0\n0\n0\n0\n0\n0\n0\n4";
    assert_eq!(decode(text), (31, None));
    let text = b"31\n2\n0\n0\n0\n0\n0\n0\n-1\n0\n0\n0\n0\n0\n0\n0\n4";
    assert_eq!(decode(text), (31, None));
    let text = b"31\n2\n0\n0\n0\n0\n0\n0\n 8\n0\n0\n0\n0\n0\n0\n0\n4";
    assert_eq!(decode(text), (31, None));
    let text = b"31\n2\n0\n0\n0\n0\n0\n0\n4294967296\n0\n0\n0\n0\n0\n0\n0\n4";
    assert_eq!(decode(text), (31, None));
}

#[test]
fn a_wrong_number_of_cell_lines_discards_the_grid() {
    let text = b"31\n2\n0\n0\n0\n0\n0\n0\n0\n0\n0\n0\n0\n0\n0\n0";
    assert_eq!(decode(text), (31, None));
    let text = b"31\n2\n0\n0\n0\n0\n0\n0\n0\n0\n0\n0\n0\n0\n0\n0\n4\n8";
    assert_eq!(decode(text), (31, None));
    let text = b"31\n2\n0\n0\n0\n0\n0\n0\n0\n0\n0\n0\n0\n0\n0\n0\n4\n\n";
    assert_eq!(decode(text), (31, None));
    assert_eq!(decode(b"31"), (31, None));
}

#[test]
fn line_ends_may_carry_a_return_and_the_last_may_be_there_or_not() {
    let mut cells = [0u32; 16];
    cells[0] = 2;
    cells[15] = 4;
    let want = (31, Some(Board::from_cells(cells)));
    let text = b"31\n2\n0\n0\n0\n0\n0\n0\n0\n0\n0\n0\n0\n0\n0\n0\n4\n";
    assert_eq!(decode(text), want);
    let text =
        b"31\r\n2\r\n0\r\n0\r\n0\r\n0\r\n0\r\n0\r\n0\r\n0\r\n0\r\n0\r\n0\r\n0\r\n0\r\n0\r\n4\r\n";
    assert_eq!(decode(text), want);
    let text = b"31\n2\n0\n0\n0\n0\n0\n0\n0\n0\n0\n0\n0\n0\n0\n0\n4\r";
    assert_eq!(decode(text), (31, None));
}

#[test]
fn numbers_may_carry_a_plus_sign_and_leading_zeros() {
    let mut cells = [0u32; 16];
    cells[0] = 2;
    cells[1] = u32::MAX;
    cells[15] = 4;
    let text = b"+031\n+2\n4294967295\n0\n0\n0\n0\n0\n0\n0\n0\n0\n0\n0\n0\n00\n0004";
    assert_eq!(decode(text), (31, Some(Board::from_cells(cells))));
}

#[test]
fn numbers_are_read_from_a_part_of_the_text() {
    let text = b"ab123cd";
    assert_eq!(read_number(text, 2, 5), Some(123));
    assert_eq!(read_number(text, 2, 6), None);
    assert_eq!(read_number(text, 2, 2), None);
    assert_eq!(read_number(b"+", 0, 1), None);
    assert_eq!(read_number(b"++1", 0, 3), None);
    assert_eq!(read_number(b"-0", 0, 2), None);
    assert_eq!(read_number(b"4294967295", 0, 10), Some(u32::MAX));
    assert_eq!(read_number(b"4294967296", 0, 10), None);
    assert_eq!(read_number(b"99999999999999999999999", 0, 23), None);
    assert_eq!(read_number(b"00000000000000000000007", 0, 23), Some(7));
}

#[test]
fn the_best_score_is_one_number() {
    assert_eq!(decode_high_score(b"123"), 123);
    assert_eq!(decode_high_score(b""), 0);
    assert_eq!(decode_high_score(b"12\n"), 0);
    assert_eq!(decode_high_score(b"abc"), 0);
    assert_eq!(decode_high_score(b"4294967296"), 0);
    assert_eq!(encode_high_score(0), b"0".to_vec());
    assert_eq!(encode_high_score(20480), b"20480".to_vec());
    for high in [0u32, 7, 1000, u32::MAX] {
        assert_eq!(decode_high_score(&encode_high_score(high)), high);
    }
}

#[test]
fn the_best_score_never_falls() {
    assert_eq!(best_score(100, 40), 100);
    assert_eq!(best_score(100, 100), 100);
    assert_eq!(best_score(100, 101), 101);
    assert_eq!(best_score(0, 0), 0);
}
