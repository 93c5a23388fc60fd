//! What the two boards tell each other.
use crate::button_array::KeyEvent;
use vstd::prelude::*;

verus! {

/// Marks the start of a text.
pub const STX: u8 = 0x02;

/// What the second board reports.
#[derive(Debug, Copy, Clone, PartialEq, Eq, Structural)]
pub enum SlaveEvent {
    /// Something happened to one of its keys.
    KeyEvent(KeyEvent),
    /// It is alive.
    Watchdog,
}

/// What the second board can be told to do.
#[derive(Debug, Copy, Clone, PartialEq, Eq, Structural)]
pub enum Command {
    Handshake,
    Reset,
}

} // verus!
