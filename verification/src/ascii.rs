//! The ASCII characters that lines are read and written with.

use vstd::prelude::*;

verus! {

/// The line feed, which ends a line.
pub const NEWLINE: u8 = 10;

/// The space, which parts the fields of a line.
pub const SPACE: u8 = 32;

/// The opening round bracket.
pub const BRACKET_OPEN: u8 = 40;

/// The closing round bracket.
pub const BRACKET_CLOSE: u8 = 41;

/// The plus sign.
pub const PLUS: u8 = 43;

/// The comma.
pub const COMMA: u8 = 44;

/// The dot, with which a command starts.
pub const DOT: u8 = 46;

/// The digit zero; the other digits follow it in order.
pub const DIGIT_ZERO: u8 = 48;

/// The digit nine.
pub const DIGIT_NINE: u8 = 57;

} // verus!
