//! The menu before a game: two entries, of which the second can be chosen
//! only while a saved game exists.

use vstd::prelude::*;
use crate::session::Op;

verus! {

/// An entry of the menu.
#[derive(Clone, Copy, Debug, PartialEq, Eq, Structural)]
pub enum Entry {
    NewGame,
    SavedGame,
}

/// What the program does after an operation in the menu.
#[derive(Clone, Copy, Debug, PartialEq, Eq, Structural)]
pub enum MenuAction {
    /// Leave the program.
    Quit,
    /// Show the menu again.
    Show,
    /// Start the game of the highlighted entry.
    Play,
}

/// The other entry.
pub open spec fn other(entry: Entry) -> Entry {
    match entry {
        Entry::NewGame => Entry::SavedGame,
        Entry::SavedGame => Entry::NewGame,
    }
}

/// The entry that is highlighted after `op`. `Up` and `Down` both go to the
/// other entry; the saved game cannot be highlighted while there is none.
/// `Quit` leaves the highlight where it is.
pub open spec fn next_entry(entry: Entry, op: Op, has_save: bool) -> Entry {
    if op == Op::Quit {
        entry
    } else {
        let turned = if op == Op::Up || op == Op::Down {
            other(entry)
        } else {
            entry
        };
        if turned == Entry::SavedGame && !has_save {
            Entry::NewGame
        } else {
            turned
        }
    }
}

/// What follows `op` in the menu.
pub open spec fn menu_action(op: Op) -> MenuAction {
    match op {
        Op::Quit => MenuAction::Quit,
        Op::Confirm => MenuAction::Play,
        _ => MenuAction::Show,
    }
}

/// Carries out one operation in the menu: the entry that is highlighted
/// afterwards, and what the program does next.
pub fn menu_step(entry: Entry, op: Op, has_save: bool) -> (r: (Entry, MenuAction))
    ensures
        r.0 == next_entry(entry, op, has_save),
        r.1 == menu_action(op),
        r.0 == Entry::SavedGame ==> has_save || op == Op::Quit,
{
    match op {
        Op::Quit => (entry, MenuAction::Quit),
        _ => {
            let turned = match op {
                Op::Up | Op::Down => match entry {
                    Entry::NewGame => Entry::SavedGame,
                    Entry::SavedGame => Entry::NewGame,
                },
                _ => entry,
            };
            let settled = match turned {
                Entry::SavedGame => if has_save {
                    Entry::SavedGame
                } else {
                    Entry::NewGame
                },
                Entry::NewGame => Entry::NewGame,
            };
            let action = match op {
                Op::Confirm => MenuAction::Play,
                _ => MenuAction::Show,
            };
            (settled, action)
        },
    }
}

} // verus!
