//! Keyboard bindings: the keys the session cares about and the intents they
//! map to.

use vstd::prelude::*;

verus! {

/// A key press, already reduced to the keys the launcher reacts to.
pub enum Key {
    ArrowUp,
    ArrowDown,
    Enter,
    Escape,
    /// Any other key.
    Other,
}

/// A navigation or submission intent bound to a key.
pub enum KeyAction {
    SelectPrevious,
    SelectNext,
    Submit,
    EscapePressed,
}

/// The binding table: arrows move the selection, enter submits, escape
/// cancels; other keys carry no action.
pub fn map_key_to_action(key: Key) -> (r: Option<KeyAction>)
    ensures
        r == match key {
            Key::ArrowUp => Some(KeyAction::SelectPrevious),
            Key::ArrowDown => Some(KeyAction::SelectNext),
            Key::Enter => Some(KeyAction::Submit),
            Key::Escape => Some(KeyAction::EscapePressed),
            Key::Other => None::<KeyAction>,
        },
{
    match key {
        Key::ArrowUp => Some(KeyAction::SelectPrevious),
        Key::ArrowDown => Some(KeyAction::SelectNext),
        Key::Enter => Some(KeyAction::Submit),
        Key::Escape => Some(KeyAction::EscapePressed),
        Key::Other => None,
    }
}

} // verus!
