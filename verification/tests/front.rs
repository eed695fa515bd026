use rs_2048::display::{tile_color, tile_label, Rgb};
use rs_2048::input::key_op;
use rs_2048::menu::{menu_step, Entry, MenuAction};
use rs_2048::session::Op;

#[test]
fn letters_and_arrows_are_directions() {
    assert_eq!(key_op(b'w'), Op::Up);
    assert_eq!(key_op(b'a'), Op::Left);
    assert_eq!(key_op(b's'), Op::Down);
    assert_eq!(key_op(b'd'), Op::Right);
    assert_eq!(key_op(65), Op::Up);
    assert_eq!(key_op(66), Op::Down);
    assert_eq!(key_op(67), Op::Right);
    assert_eq!(key_op(68), Op::Left);
}

#[test]
fn the_other_keys() {
    assert_eq!(key_op(b'q'), Op::Quit);
    assert_eq!(key_op(b'r'), Op::Reset);
    assert_eq!(key_op(b'z'), Op::Undo);
    assert_eq!(key_op(b'u'), Op::Undo);
    assert_eq!(key_op(13), Op::Confirm);
}

#[test]
fn every_other_byte_stands_for_nothing() {
    let known = b"wasdqrzuABCD\r";
    for b in 0..=255u8 {
        if !known.contains(&b) {
            assert_eq!(key_op(b), Op::Noop);
        }
    }
    assert_eq!(key_op(27), Op::Noop);
    assert_eq!(key_op(b'['), Op::Noop);
    assert_eq!(key_op(b'W'), Op::Noop);
}

#[test]
fn up_and_down_go_to_the_other_entry() {
    assert_eq!(menu_step(Entry::NewGame, Op::Up, true), (Entry::SavedGame, MenuAction::Show));
    assert_eq!(menu_step(Entry::NewGame, Op::Down, true), (Entry::SavedGame, MenuAction::Show));
    assert_eq!(menu_step(Entry::SavedGame, Op::Up, true), (Entry::NewGame, MenuAction::Show));
    assert_eq!(menu_step(Entry::SavedGame, Op::Down, true), (Entry::NewGame, MenuAction::Show));
}

#[test]
fn without_a_saved_game_only_the_new_game_can_be_chosen() {
    assert_eq!(menu_step(Entry::NewGame, Op::Up, false), (Entry::NewGame, MenuAction::Show));
    assert_eq!(menu_step(Entry::NewGame, Op::Down, false), (Entry::NewGame, MenuAction::Show));
    assert_eq!(menu_step(Entry::SavedGame, Op::Noop, false), (Entry::NewGame, MenuAction::Show));
    assert_eq!(menu_step(Entry::SavedGame, Op::Confirm, false), (Entry::NewGame, MenuAction::Play));
}

#[test]
fn confirm_plays_and_quit_leaves() {
    assert_eq!(menu_step(Entry::NewGame, Op::Confirm, true), (Entry::NewGame, MenuAction::Play));
    assert_eq!(
        menu_step(Entry::SavedGame, Op::Confirm, true),
        (Entry::SavedGame, MenuAction::Play)
    );
    assert_eq!(menu_step(Entry::SavedGame, Op::Quit, true), (Entry::SavedGame, MenuAction::Quit));
    assert_eq!(menu_step(Entry::SavedGame, Op::Quit, false), (Entry::SavedGame, MenuAction::Quit));
}

#[test]
fn other_operations_leave_the_menu_as_it_is() {
    for op in [Op::Left, Op::Right, Op::Reset, Op::Undo, Op::Noop] {
        assert_eq!(menu_step(Entry::NewGame, op, true), (Entry::NewGame, MenuAction::Show));
        assert_eq!(menu_step(Entry::SavedGame, op, true), (Entry::SavedGame, MenuAction::Show));
    }
}

#[test]
fn tiles_have_their_colours() {
    assert_eq!(tile_color(0), Rgb { r: 40, g: 40, b: 40 });
    assert_eq!(tile_color(2), Rgb { r: 102, g: 153, b: 204 });
    assert_eq!(tile_color(4), Rgb { r: 179, g: 198, b: 161 });
    assert_eq!(tile_color(8), Rgb { r: 255, g: 242, b: 117 });
    assert_eq!(tile_color(16), Rgb { r: 255, g: 191, b: 92 });
    assert_eq!(tile_color(32), Rgb { r: 255, g: 140, b: 66 });
    assert_eq!(tile_color(64), Rgb { r: 255, g: 100, b: 61 });
    assert_eq!(tile_color(128), Rgb { r: 255, g: 60, b: 56 });
    assert_eq!(tile_color(256), Rgb { r: 209, g: 61, b: 64 });
    assert_eq!(tile_color(512), Rgb { r: 162, g: 62, b: 72 });
    assert_eq!(tile_color(1024), Rgb { r: 170, g: 80, b: 89 });
    assert_eq!(tile_color(2048), Rgb { r: 178, g: 96, b: 104 });
    assert_eq!(tile_color(4096), Rgb { r: 178, g: 96, b: 104 });
    assert_eq!(tile_color(3), Rgb { r: 178, g: 96, b: 104 });
}

#[test]
fn a_tile_is_labelled_with_its_value() {
    assert_eq!(tile_label(0), Vec::<u8>::new());
    assert_eq!(tile_label(2), b"2".to_vec());
    assert_eq!(tile_label(2048), b"2048".to_vec());
}
