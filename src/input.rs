//! Key events as the simulation loop sees them, and the quit decision.

use vstd::prelude::*;

verus! {

/// The character that ends the simulation when pressed.
pub const QUIT_KEY: char = 'q';

/// What happened to a key.
#[derive(Debug, Clone, Copy, PartialEq, Eq, Structural)]
pub enum KeyKind {
    Press,
    Repeat,
    Release,
}

/// Which key: a character key, or any other key.
#[derive(Debug, Clone, Copy, PartialEq, Eq, Structural)]
pub enum Key {
    Char(char),
    Other,
}

/// A terminal input event: a key event, or anything else (resize, mouse, focus, paste).
#[derive(Debug, Clone, Copy, PartialEq, Eq, Structural)]
pub enum InputEvent {
    Key { key: Key, kind: KeyKind },
    Other,
}

/// The event is a press of the quit key.
pub open spec fn quits(event: InputEvent) -> bool {
    event == (InputEvent::Key { key: Key::Char(QUIT_KEY), kind: KeyKind::Press })
}

/// Whether the event ends the simulation: only a press of the quit key does;
/// its release or repeat, other keys and other events do not.
pub fn is_quit_event(event: &InputEvent) -> (r: bool)
    ensures
        r == quits(*event),
{
    match event {
        InputEvent::Key { key: Key::Char(c), kind: KeyKind::Press } => *c == QUIT_KEY,
        _ => false,
    }
}

} // verus!
