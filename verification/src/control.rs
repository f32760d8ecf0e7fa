//! Named constants for the ASCII control bytes the engine recognizes or emits.

use vstd::prelude::*;

verus! {

/// Bell: the universal "operation rejected" signal.
pub const BELL: u8 = 0x07;

/// Backspace.
pub const BS: u8 = 0x08;

/// Character tabulation: requests an autocomplete suggestion.
pub const TAB: u8 = 0x09;

/// Line feed.
pub const LF: u8 = 0x0a;

/// Carriage return: submits the current line.
pub const CR: u8 = 0x0d;

/// Escape: starts an ANSI control sequence.
pub const ESC: u8 = 0x1b;

/// Space.
pub const SP: u8 = 0x20;

/// Delete: treated like backspace.
pub const DEL: u8 = 0x7f;

/// `[`: the byte after `ESC` in a Control Sequence Introducer.
pub const CSI: u8 = 0x5b;

/// `A`: the CSI final byte for the up arrow.
pub const UP: u8 = 0x41;

/// `B`: the CSI final byte for the down arrow.
pub const DOWN: u8 = 0x42;

/// `C`: the CSI final byte for the right arrow.
pub const RIGHT: u8 = 0x43;

/// `D`: the CSI final byte for the left arrow.
pub const LEFT: u8 = 0x44;

} // verus!
