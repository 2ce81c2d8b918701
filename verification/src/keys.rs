//! What each key does, told without a terminal: a table from the key and the situation in
//! which it is pressed to the action that follows.

use crate::navigation::{digit_value, Screen};
use vstd::prelude::*;

verus! {

/// A key of the keyboard, as far as the program tells keys apart.
#[derive(Debug, Clone, Copy, PartialEq, Eq, Structural)]
pub enum Key {
    Char(char),
    Esc,
    Home,
    Up,
    Down,
    PageUp,
    PageDown,
    Left,
    Right,
    Enter,
    /// Any other key.
    Other,
}

/// The situation in which a key is pressed.
#[derive(Debug, Clone, Copy, PartialEq, Eq, Structural)]
pub struct Situation {
    /// The screen that is shown.
    pub screen: Screen,
    /// Whether digits of an item number have been typed.
    pub typing: bool,
    /// Whether the tree view shows a directory below the root of the scan.
    pub below_root: bool,
}

/// What the program does on a key.
#[derive(Debug, Clone, Copy, PartialEq, Eq, Structural)]
pub enum Action {
    Quit,
    /// Back to the screen before.
    GoBack,
    /// Up one directory in the tree view.
    LeaveDirectory,
    ShowHelp,
    GoHome,
    /// Opens the screen with this number of the home menu.
    OpenScreen(usize),
    /// Takes the digit into the item number.
    TypeDigit(char),
    MoveUp,
    MoveDown,
    TreeUp,
    TreeDown,
    DuplicateUp,
    DuplicateDown,
    PageUp,
    PageDown,
    JumpUp,
    JumpDown,
    MoveLeft,
    MoveRight,
    ToggleSelection,
    SelectAll,
    SelectNone,
    /// Moves the cursor to the item whose number was typed.
    JumpToTyped,
    EnterDirectory,
    Confirm,
    DeleteSelected,
    ToggleSort,
    TogglePreview,
    OpenFile,
    Nothing,
}

/// The action of a digit key.
pub open spec fn digit_action(c: char, screen: Screen) -> Action {
    match screen {
        Screen::Home => if digit_value(c) == Some(1nat) {
            Action::OpenScreen(1)
        } else if digit_value(c) == Some(2nat) {
            Action::OpenScreen(2)
        } else {
            Action::Nothing
        },
        Screen::StorageCleanup => Action::TypeDigit(c),
        _ => Action::Nothing,
    }
}

/// The action of a character key.
pub open spec fn char_action(c: char, control: bool, at: Situation) -> Action {
    if c == 'q' || c == 'Q' {
        Action::Quit
    } else if c == 'h' || c == '?' {
        Action::ShowHelp
    } else if c == 'g' || c == 'G' {
        Action::GoHome
    } else if digit_value(c) is Some {
        digit_action(c, at.screen)
    } else if c == 'k' {
        upward(at.screen)
    } else if c == 'j' {
        downward(at.screen)
    } else if c == 'u' && control {
        Action::JumpUp
    } else if c == 'd' && control {
        Action::JumpDown
    } else if c == 'l' {
        Action::MoveRight
    } else if c == ' ' {
        Action::ToggleSelection
    } else if c == 'a' {
        Action::SelectAll
    } else if c == 'n' {
        Action::SelectNone
    } else if c == 'd' {
        Action::DeleteSelected
    } else if c == 's' || c == 'S' {
        Action::ToggleSort
    } else if c == 'p' || c == 'P' {
        if at.screen == Screen::DiskTreeMap {
            Action::TogglePreview
        } else {
            Action::Nothing
        }
    } else if c == 'o' || c == 'O' {
        if at.screen == Screen::DiskTreeMap {
            Action::OpenFile
        } else {
            Action::Nothing
        }
    } else {
        Action::Nothing
    }
}

/// One item up, in the list of the screen.
pub open spec fn upward(screen: Screen) -> Action {
    match screen {
        Screen::DiskTreeMap => Action::TreeUp,
        Screen::DuplicateFinder => Action::DuplicateUp,
        _ => Action::MoveUp,
    }
}

/// One item down, in the list of the screen.
pub open spec fn downward(screen: Screen) -> Action {
    match screen {
        Screen::DiskTreeMap => Action::TreeDown,
        Screen::DuplicateFinder => Action::DuplicateDown,
        _ => Action::MoveDown,
    }
}

/// The action that follows on a key, pressed with or without the control key, in a
/// situation.
pub open spec fn bound_action(key: Key, control: bool, at: Situation) -> Action {
    match key {
        Key::Char(c) => char_action(c, control, at),
        Key::Esc => if at.screen == Screen::DiskTreeMap && at.below_root {
            Action::LeaveDirectory
        } else {
            Action::GoBack
        },
        Key::Home => Action::GoHome,
        Key::Up => upward(at.screen),
        Key::Down => downward(at.screen),
        Key::PageUp => Action::PageUp,
        Key::PageDown => Action::PageDown,
        Key::Left => Action::MoveLeft,
        Key::Right => Action::MoveRight,
        Key::Enter => if at.typing {
            Action::JumpToTyped
        } else if at.screen == Screen::DiskTreeMap {
            Action::EnterDirectory
        } else {
            Action::Confirm
        },
        Key::Other => Action::Nothing,
    }
}

/// Whether the digits that were typed are dropped before the action is taken.
pub open spec fn drops_typed_digits(action: Action) -> bool {
    match action {
        Action::GoBack
        | Action::LeaveDirectory
        | Action::GoHome
        | Action::MoveUp
        | Action::MoveDown
        | Action::TreeUp
        | Action::TreeDown
        | Action::DuplicateUp
        | Action::DuplicateDown
        | Action::PageUp
        | Action::PageDown
        | Action::JumpUp
        | Action::JumpDown
        | Action::ToggleSelection
        | Action::SelectAll
        | Action::SelectNone
        | Action::DeleteSelected
        | Action::ToggleSort => true,
        _ => false,
    }
}

fn is_digit(c: char) -> (digit: bool)
    ensures
        digit == digit_value(c) is Some,
{
    c == '0' || c == '1' || c == '2' || c == '3' || c == '4' || c == '5' || c == '6' || c == '7'
        || c == '8' || c == '9'
}

fn action_upward(screen: Screen) -> (action: Action)
    ensures
        action == upward(screen),
{
    match screen {
        Screen::DiskTreeMap => Action::TreeUp,
        Screen::DuplicateFinder => Action::DuplicateUp,
        _ => Action::MoveUp,
    }
}

fn action_downward(screen: Screen) -> (action: Action)
    ensures
        action == downward(screen),
{
    match screen {
        Screen::DiskTreeMap => Action::TreeDown,
        Screen::DuplicateFinder => Action::DuplicateDown,
        _ => Action::MoveDown,
    }
}

fn action_for_char(c: char, control: bool, at: Situation) -> (action: Action)
    ensures
        action == char_action(c, control, at),
{
    let in_tree = match at.screen {
        Screen::DiskTreeMap => true,
        _ => false,
    };
    if c == 'q' || c == 'Q' {
        Action::Quit
    } else if c == 'h' || c == '?' {
        Action::ShowHelp
    } else if c == 'g' || c == 'G' {
        Action::GoHome
    } else if is_digit(c) {
        match at.screen {
            Screen::Home => if c == '1' {
                Action::OpenScreen(1)
            } else if c == '2' {
                Action::OpenScreen(2)
            } else {
                Action::Nothing
            },
            Screen::StorageCleanup => Action::TypeDigit(c),
            _ => Action::Nothing,
        }
    } else if c == 'k' {
        action_upward(at.screen)
    } else if c == 'j' {
        action_downward(at.screen)
    } else if c == 'u' && control {
        Action::JumpUp
    } else if c == 'd' && control {
        Action::JumpDown
    } else if c == 'l' {
        Action::MoveRight
    } else if c == ' ' {
        Action::ToggleSelection
    } else if c == 'a' {
        Action::SelectAll
    } else if c == 'n' {
        Action::SelectNone
    } else if c == 'd' {
        Action::DeleteSelected
    } else if c == 's' || c == 'S' {
        Action::ToggleSort
    } else if c == 'p' || c == 'P' {
        if in_tree {
            Action::TogglePreview
        } else {
            Action::Nothing
        }
    } else if c == 'o' || c == 'O' {
        if in_tree {
            Action::OpenFile
        } else {
            Action::Nothing
        }
    } else {
        Action::Nothing
    }
}

/// The action that follows on a key.
pub fn action_for(key: Key, control: bool, at: Situation) -> (action: Action)
    ensures
        action == bound_action(key, control, at),
{
    let in_tree = match at.screen {
        Screen::DiskTreeMap => true,
        _ => false,
    };
    match key {
        Key::Char(c) => action_for_char(c, control, at),
        Key::Esc => if in_tree && at.below_root {
            Action::LeaveDirectory
        } else {
            Action::GoBack
        },
        Key::Home => Action::GoHome,
        Key::Up => action_upward(at.screen),
        Key::Down => action_downward(at.screen),
        Key::PageUp => Action::PageUp,
        Key::PageDown => Action::PageDown,
        Key::Left => Action::MoveLeft,
        Key::Right => Action::MoveRight,
        Key::Enter => if at.typing {
            Action::JumpToTyped
        } else if in_tree {
            Action::EnterDirectory
        } else {
            Action::Confirm
        },
        Key::Other => Action::Nothing,
    }
}

/// Whether the digits that were typed are dropped before the action is taken.
pub fn clears_number(action: Action) -> (clears: bool)
    ensures
        clears == drops_typed_digits(action),
{
    match action {
        Action::GoBack
        | Action::LeaveDirectory
        | Action::GoHome
        | Action::MoveUp
        | Action::MoveDown
        | Action::TreeUp
        | Action::TreeDown
        | Action::DuplicateUp
        | Action::DuplicateDown
        | Action::PageUp
        | Action::PageDown
        | Action::JumpUp
        | Action::JumpDown
        | Action::ToggleSelection
        | Action::SelectAll
        | Action::SelectNone
        | Action::DeleteSelected
        | Action::ToggleSort => true,
        _ => false,
    }
}

} // verus!
