//! What the terminal reports: keys and changes of the window's size.

use vstd::prelude::*;

verus! {

/// A key.
#[derive(Clone, Copy, Debug, PartialEq, Eq, Hash, Structural)]
pub enum KeyCode {
    Backspace,
    Enter,
    Left,
    Right,
    Up,
    Down,
    Home,
    End,
    PageUp,
    PageDown,
    Tab,
    BackTab,
    Delete,
    Insert,
    /// A function key, by its number.
    F(u8),
    /// A key that gives a character.
    Char(char),
    Null,
    Esc,
    /// Any other key.
    Other,
}

/// The modifier keys that were held down with a key.
#[derive(Clone, Copy, Debug, PartialEq, Eq, Hash, Structural)]
pub struct KeyModifiers {
    pub shift: bool,
    pub control: bool,
    pub alt: bool,
    /// A modifier other than these three.
    pub other: bool,
}

impl KeyModifiers {
    /// No modifier key.
    pub open spec fn none() -> KeyModifiers {
        KeyModifiers { shift: false, control: false, alt: false, other: false }
    }

    /// The control key alone.
    pub open spec fn only_control() -> KeyModifiers {
        KeyModifiers { shift: false, control: true, alt: false, other: false }
    }

    /// No modifier key.
    pub fn empty() -> (r: KeyModifiers)
        ensures
            r == KeyModifiers::none(),
    {
        KeyModifiers { shift: false, control: false, alt: false, other: false }
    }

    /// Whether no modifier key was held down.
    pub fn is_empty(&self) -> (r: bool)
        ensures
            r == (*self == KeyModifiers::none()),
    {
        !self.shift && !self.control && !self.alt && !self.other
    }

    /// Whether the control key was held down, and no other modifier key.
    pub fn is_control(&self) -> (r: bool)
        ensures
            r == (*self == KeyModifiers::only_control()),
    {
        !self.shift && self.control && !self.alt && !self.other
    }
}

/// A key press.
#[derive(Clone, Copy, Debug, PartialEq, Eq, Hash, Structural)]
pub struct KeyEvent {
    pub code: KeyCode,
    pub modifiers: KeyModifiers,
}

impl KeyEvent {
    /// The key `code` with no modifier key.
    pub fn new(code: KeyCode) -> (r: KeyEvent)
        ensures
            r == (KeyEvent { code, modifiers: KeyModifiers::none() }),
    {
        KeyEvent { code, modifiers: KeyModifiers::empty() }
    }

    /// The press of the key that gives `c`, with no modifier key.
    pub open spec fn plain(c: char) -> KeyEvent {
        KeyEvent { code: KeyCode::Char(c), modifiers: KeyModifiers::none() }
    }
}

/// An input event.
#[derive(Clone, Copy, Debug, PartialEq, Eq, Hash, Structural)]
pub enum Event {
    /// A key was pressed.
    Key(KeyEvent),
    /// The window now has so many columns and rows.
    Resize(u16, u16),
    /// Anything else that a terminal may report.
    Other,
}

} // verus!
