//! ASCII, byte by byte.

use vstd::prelude::*;

verus! {

/// Horizontal tab.
pub const HT: u8 = 0x09;

/// Line feed.
pub const LF: u8 = 0x0a;

/// Carriage return.
pub const CR: u8 = 0x0d;

/// Space.
pub const SP: u8 = 0x20;

/// `+`
pub const PLUS: u8 = 0x2b;

/// `0`
pub const DIGIT_0: u8 = 0x30;

/// `9`
pub const DIGIT_9: u8 = 0x39;

/// `;`
pub const SEMICOLON: u8 = 0x3b;

/// `A`
pub const UPPER_A: u8 = 0x41;

/// `F`
pub const UPPER_F: u8 = 0x46;

/// `Z`
pub const UPPER_Z: u8 = 0x5a;

/// `a`
pub const LOWER_A: u8 = 0x61;

/// `f`
pub const LOWER_F: u8 = 0x66;

/// `z`
pub const LOWER_Z: u8 = 0x7a;

/// Delete, the last ASCII character.
pub const DEL: u8 = 0x7f;

} // verus!
