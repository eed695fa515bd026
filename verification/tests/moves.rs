use rs_2048::board::{coord, Board};
use rs_2048::detector::is_lost;
use rs_2048::engine::{changes, move_board, try_move, Direction};

fn grid(cells: [u32; 16]) -> Board {
    Board::from_cells(cells)
}

fn row(a: u32, b: u32, c: u32, d: u32) -> Board {
    grid([a, b, c, d, 0, 0, 0, 0, 0, 0, 0, 0, 0, 0, 0, 0])
}

fn after(board: Board, dir: Direction, score: u32) -> (Board, u32) {
    let mut b = board;
    let mut s = score;
    assert!(try_move(&board, dir, score).is_some());
    move_board(&mut b, dir, &mut s);
    (b, s)
}

#[test]
fn coord_is_row_major() {
    assert_eq!(coord(0, 0), 0);
    assert_eq!(coord(3, 0), 3);
    assert_eq!(coord(0, 1), 4);
    assert_eq!(coord(2, 3), 14);
    assert_eq!(coord(3, 3), 15);
}

#[test]
fn coord_is_a_bijection() {
    let mut seen = [false; 16];
    for y in 0..4 {
        for x in 0..4 {
            let i = coord(x, y);
            assert!(!seen[i]);
            seen[i] = true;
        }
    }
    assert!(seen.iter().all(|s| *s));
}

#[test]
fn get_and_set_use_the_mapping() {
    let mut b = Board::empty();
    b.set(2, 1, 8);
    assert_eq!(b.get(2, 1), 8);
    assert_eq!(b.cells[6], 8);
    assert_eq!(b.cells.iter().filter(|v| **v != 0).count(), 1);
    assert!(b.same(&b.clone()));
    assert!(!b.same(&Board::empty()));
}

#[test]
fn four_twos_left() {
    let (b, s) = after(row(2, 2, 2, 2), Direction::Left, 0);
    assert_eq!(b, row(4, 4, 0, 0));
    assert_eq!(s, 8);
}

#[test]
fn two_pairs_left() {
    let (b, s) = after(row(2, 2, 4, 4), Direction::Left, 0);
    assert_eq!(b, row(4, 8, 0, 0));
    assert_eq!(s, 12);
}

#[test]
fn four_twos_right() {
    let (b, s) = after(row(2, 2, 2, 2), Direction::Right, 5);
    assert_eq!(b, row(0, 0, 4, 4));
    assert_eq!(s, 13);
}

#[test]
fn three_equal_tiles_merge_the_pair_nearest_the_edge() {
    let (b, s) = after(row(2, 2, 2, 0), Direction::Left, 0);
    assert_eq!(b, row(4, 2, 0, 0));
    assert_eq!(s, 4);
    let (b, s) = after(row(2, 2, 2, 0), Direction::Right, 0);
    assert_eq!(b, row(0, 0, 2, 4));
    assert_eq!(s, 4);
}

#[test]
fn a_merged_tile_does_not_merge_again() {
    let (b, s) = after(row(2, 2, 4, 0), Direction::Left, 0);
    assert_eq!(b, row(4, 4, 0, 0));
    assert_eq!(s, 4);
    let (b, s) = after(row(4, 2, 2, 0), Direction::Left, 0);
    assert_eq!(b, row(4, 4, 0, 0));
    assert_eq!(s, 4);
}

#[test]
fn tiles_slide_over_gaps() {
    let (b, s) = after(row(0, 2, 0, 2), Direction::Left, 0);
    assert_eq!(b, row(4, 0, 0, 0));
    assert_eq!(s, 4);
    let (b, s) = after(row(2, 0, 0, 4), Direction::Left, 7);
    assert_eq!(b, row(2, 4, 0, 0));
    assert_eq!(s, 7);
}

#[test]
fn columns_move_up_and_down() {
    let start = grid([2, 0, 0, 4, 2, 0, 0, 0, 4, 8, 0, 0, 4, 8, 0, 4]);
    let (b, s) = after(start, Direction::Up, 0);
    assert_eq!(b, grid([4, 16, 0, 8, 8, 0, 0, 0, 0, 0, 0, 0, 0, 0, 0, 0]));
    assert_eq!(s, 4 + 8 + 16 + 8);
    let (b, s) = after(start, Direction::Down, 0);
    assert_eq!(b, grid([0, 0, 0, 0, 0, 0, 0, 0, 4, 0, 0, 0, 8, 16, 0, 8]));
    assert_eq!(s, 36);
}

#[test]
fn every_row_moves_on_its_own() {
    let start = grid([2, 2, 0, 0, 0, 4, 4, 0, 8, 0, 0, 8, 2, 4, 8, 16]);
    let (b, s) = after(start, Direction::Left, 100);
    assert_eq!(b, grid([4, 0, 0, 0, 8, 0, 0, 0, 16, 0, 0, 0, 2, 4, 8, 16]));
    assert_eq!(s, 100 + 4 + 8 + 16);
}

#[test]
fn a_move_that_changes_nothing_adds_nothing() {
    let start = grid([2, 4, 0, 0, 8, 0, 0, 0, 0, 0, 0, 0, 0, 0, 0, 0]);
    assert!(!changes(&start, Direction::Left));
    let (b, s) = after(start, Direction::Left, 9);
    assert_eq!(b, start);
    assert_eq!(s, 9);
    let (b, s) = after(b, Direction::Left, s);
    assert_eq!(b, start);
    assert_eq!(s, 9);
    assert!(!changes(&start, Direction::Up));
    assert!(changes(&start, Direction::Right));
    assert!(changes(&start, Direction::Down));
}

#[test]
fn try_move_gives_what_move_board_does() {
    let start = grid([2, 2, 4, 4, 0, 0, 0, 0, 0, 0, 0, 0, 0, 0, 0, 0]);
    let (b, s) = try_move(&start, Direction::Left, 3).unwrap();
    assert_eq!(b, row(4, 8, 0, 0));
    assert_eq!(s, 15);
    assert_eq!(start, row(2, 2, 4, 4));
}

#[test]
fn try_move_refuses_a_tile_that_does_not_fit() {
    let big = 0x8000_0000u32;
    assert!(try_move(&row(big, big, 0, 0), Direction::Left, 0).is_none());
    assert!(try_move(&row(big, 2, big, 0), Direction::Left, 0).is_some());
}

#[test]
fn try_move_refuses_a_score_that_does_not_fit() {
    assert!(try_move(&row(2, 2, 0, 0), Direction::Left, u32::MAX - 3).is_none());
    let (b, s) = try_move(&row(2, 2, 0, 0), Direction::Left, u32::MAX - 4).unwrap();
    assert_eq!(b, row(4, 0, 0, 0));
    assert_eq!(s, u32::MAX);
    let half = 0x4000_0000u32;
    assert!(try_move(&row(half, half, half, half), Direction::Left, 0).is_none());
    assert!(try_move(&row(half, half, 0, 0), Direction::Left, 0).is_some());
}

#[test]
fn a_grid_with_room_is_not_lost() {
    assert!(!is_lost(&row(2, 0, 0, 0)));
    assert!(!is_lost(&grid([2, 4, 2, 4, 4, 2, 4, 2, 2, 4, 2, 4, 4, 2, 4, 0])));
}

#[test]
fn a_full_grid_without_equal_neighbours_is_lost() {
    assert!(is_lost(&grid([2, 4, 2, 4, 4, 2, 4, 2, 2, 4, 2, 4, 4, 2, 4, 2])));
    assert!(is_lost(&grid([2, 4, 8, 16, 32, 64, 128, 256, 2, 4, 8, 16, 32, 64, 128, 256])));
}

#[test]
fn a_full_grid_with_an_equal_pair_is_not_lost() {
    assert!(!is_lost(&grid([2, 4, 2, 4, 4, 2, 4, 2, 2, 4, 2, 4, 4, 2, 4, 4])));
    assert!(!is_lost(&grid([2, 4, 2, 4, 4, 2, 4, 2, 2, 4, 2, 4, 2, 8, 4, 2])));
}

#[test]
fn no_move_alters_the_grid_without_tiles() {
    let blank = Board::empty();
    assert!(!changes(&blank, Direction::Up));
    assert!(!changes(&blank, Direction::Down));
    assert!(!changes(&blank, Direction::Left));
    assert!(!changes(&blank, Direction::Right));
    assert!(is_lost(&blank));
}

#[test]
fn a_move_keeps_the_sum_of_the_tiles() {
    let start = grid([2, 2, 4, 4, 8, 0, 8, 16, 0, 0, 0, 2, 32, 32, 32, 32]);
    let sum: u32 = start.cells.iter().sum();
    for dir in [Direction::Up, Direction::Down, Direction::Left, Direction::Right] {
        let (b, s) = after(start, dir, 0);
        assert_eq!(b.cells.iter().sum::<u32>(), sum);
        assert!(s <= sum);
    }
}
