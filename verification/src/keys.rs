//! Keys as the controller sees them: a code, the two modifiers it reads,
//! and whether the terminal's quit chord was pressed.
use vstd::prelude::*;

verus! {

/// The key codes the controller distinguishes.
#[derive(Debug, Clone, Copy, PartialEq, Eq, Structural)]
pub enum KeyCode {
    Char(char),
    Enter,
    Esc,
    Backspace,
    Delete,
    Left,
    Right,
    Up,
    Down,
    Home,
    End,
    Tab,
    BackTab,
    PageUp,
    PageDown,
    Other,
}

/// A key press.
#[derive(Debug, Clone, Copy, PartialEq, Eq, Structural)]
pub struct Key {
    pub code: KeyCode,
    /// The Control modifier is held.
    pub ctrl: bool,
    /// The Shift modifier is held.
    pub shift: bool,
    /// The press is the terminal's quit chord.
    pub quit: bool,
}

/// The value of a decimal digit character.
pub open spec fn digit_value(c: char) -> int {
    (c as u32) - ('0' as u32)
}

/// Whether `c` is an ASCII decimal digit.
pub open spec fn is_digit(c: char) -> bool {
    '0' <= c <= '9'
}

} // verus!
