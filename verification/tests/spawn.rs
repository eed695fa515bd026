use rs_2048::board::Board;
use rs_2048::spawner::{generate_tiles, is_hit, tile_for, Dice};

fn tiles_on(board: &Board) -> usize {
    board.cells.iter().filter(|v| **v != 0).count()
}

#[test]
fn one_draw_in_three_picks_its_cell() {
    assert!(is_hit(0));
    assert!(!is_hit(1));
    assert!(!is_hit(2));
    assert!(is_hit(3));
    assert!(is_hit(u32::MAX));
    assert!(!is_hit(u32::MAX - 1));
}

#[test]
fn a_draw_stands_for_two_or_four() {
    assert_eq!(tile_for(0), 2);
    assert_eq!(tile_for(1), 4);
    assert_eq!(tile_for(2), 2);
    assert_eq!(tile_for(u32::MAX), 4);
}

#[test]
fn the_script_comes_first() {
    let mut dice = Dice::scripted(vec![7, 8, 9]);
    assert_eq!(dice.roll(), 7);
    assert_eq!(dice.roll(), 8);
    assert_eq!(dice.roll(), 9);
    let _ = dice.roll();
}

#[test]
fn the_first_accepted_draw_picks_the_cell() {
    let mut board = Board::empty();
    let mut dice = Dice::scripted(vec![1, 2, 3, 1, 99]);
    generate_tiles(&mut board, &mut dice);
    let mut want = [0u32; 16];
    want[2] = 4;
    assert_eq!(board.cells, want);
    assert_eq!(dice.roll(), 99);
}

#[test]
fn cells_with_tiles_get_no_draw() {
    let mut board = Board::from_cells([2, 2, 0, 0, 0, 0, 0, 0, 0, 0, 0, 0, 0, 0, 0, 0]);
    let mut dice = Dice::scripted(vec![0, 4, 99]);
    generate_tiles(&mut board, &mut dice);
    assert_eq!(board.cells, [2, 2, 2, 0, 0, 0, 0, 0, 0, 0, 0, 0, 0, 0, 0, 0]);
    assert_eq!(dice.roll(), 99);
}

#[test]
fn without_an_accepted_draw_the_first_empty_cell_is_picked() {
    let mut board = Board::from_cells([2, 4, 8, 16, 32, 0, 2, 4, 8, 0, 2, 4, 8, 16, 32, 64]);
    let mut dice = Dice::scripted(vec![1, 1, 7, 99]);
    generate_tiles(&mut board, &mut dice);
    assert_eq!(board.cells, [2, 4, 8, 16, 32, 4, 2, 4, 8, 0, 2, 4, 8, 16, 32, 64]);
    assert_eq!(dice.roll(), 99);
}

#[test]
fn the_second_pass_draws_once_on_an_empty_grid() {
    let mut board = Board::empty();
    let mut script = vec![1u32; 16];
    script.push(6);
    script.push(99);
    let mut dice = Dice::scripted(script);
    generate_tiles(&mut board, &mut dice);
    let mut want = [0u32; 16];
    want[0] = 2;
    assert_eq!(board.cells, want);
    assert_eq!(dice.roll(), 99);
}

#[test]
fn a_full_grid_stays_and_takes_no_draw() {
    let cells = [2, 4, 8, 16, 32, 64, 2, 4, 8, 16, 2, 4, 8, 16, 32, 64];
    let mut board = Board::from_cells(cells);
    let mut dice = Dice::scripted(vec![5, 6]);
    generate_tiles(&mut board, &mut dice);
    assert_eq!(board.cells, cells);
    assert_eq!(dice.roll(), 5);
}

#[test]
fn random_draws_add_exactly_one_tile() {
    let mut dice = Dice::new();
    for _ in 0..200 {
        let mut board = Board::from_cells([0, 2, 0, 4, 0, 0, 8, 0, 0, 0, 0, 0, 16, 0, 0, 0]);
        let before = board;
        generate_tiles(&mut board, &mut dice);
        assert_eq!(tiles_on(&board), tiles_on(&before) + 1);
        let mut changed = 0;
        for i in 0..16 {
            if board.cells[i] != before.cells[i] {
                changed += 1;
                assert_eq!(before.cells[i], 0);
                assert!(board.cells[i] == 2 || board.cells[i] == 4);
            }
        }
        assert_eq!(changed, 1);
    }
}

#[test]
fn random_draws_fill_the_grid_one_tile_at_a_time() {
    let mut dice = Dice::new();
    let mut board = Board::empty();
    for n in 1..=16 {
        generate_tiles(&mut board, &mut dice);
        assert_eq!(tiles_on(&board), n);
    }
    let full = board;
    generate_tiles(&mut board, &mut dice);
    assert_eq!(board, full);
}
