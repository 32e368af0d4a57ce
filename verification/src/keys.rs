//! The keys that the applications react to.

use vstd::prelude::*;

verus! {

/// A key press, as far as the applications distinguish keys.
#[derive(Clone, Copy, Debug, PartialEq, Eq, Structural)]
pub enum Key {
    Char(char),
    Up,
    Down,
    Left,
    Right,
    Enter,
    Tab,
    BackTab,
    Backspace,
    Esc,
    /// Any other key.
    Other,
}

} // verus!
