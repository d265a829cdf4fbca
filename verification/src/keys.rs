//! The keys the interactive screens react to.

use vstd::prelude::*;

verus! {

/// A key press, as the file browser and the tuner see it.
#[derive(Debug, Clone, Copy, PartialEq, Eq, Structural)]
pub enum Key {
    Char(char),
    Enter,
    Esc,
    Backspace,
    Up,
    Down,
    Left,
    Right,
    /// Any key that no screen binds.
    Other,
}

} // verus!
