//! What reaches the session: a key that was pressed, or a snapshot that was
//! observed.

use vstd::prelude::*;
use crate::dynamic_object::DynamicObject;

verus! {

/// A key, as far as the session tells keys apart.
#[derive(Clone, Copy, Debug, PartialEq, Eq, Structural)]
pub enum KeyCode {
    Char(char),
    Down,
    Up,
    Enter,
    Esc,
    Home,
    PageUp,
    PageDown,
    /// Any key that the session has no use for.
    Other,
}

/// One event of the session.
#[derive(Debug)]
pub enum Msg {
    Key(KeyCode),
    Obj(DynamicObject),
}

/// How many events may wait for the session at once.
pub const CHANNEL_CAPACITY: usize = 32;

} // verus!
