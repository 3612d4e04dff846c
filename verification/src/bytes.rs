//! Named byte values for the marker syntax.
//!
//! Templates are handled as UTF-8 bytes; every byte the syntax cares
//! about is ASCII, so multi-byte characters pass through untouched.

use vstd::prelude::*;

verus! {

/// `$`
pub const DOLLAR: u8 = 36;

/// `{`
pub const LBRACE: u8 = 123;

/// `}`
pub const RBRACE: u8 = 125;

/// `[`
pub const LBRACKET: u8 = 91;

/// `]`
pub const RBRACKET: u8 = 93;

/// `,`
pub const COMMA: u8 = 44;

/// `.`
pub const DOT: u8 = 46;

/// `_`
pub const UNDERSCORE: u8 = 95;

/// `0`
pub const DIGIT_ZERO: u8 = 48;

/// `9`
pub const DIGIT_NINE: u8 = 57;

/// `a`
pub const LOWER_A: u8 = 97;

/// `z`
pub const LOWER_Z: u8 = 122;

/// `A`
pub const UPPER_A: u8 = 65;

/// `Z`
pub const UPPER_Z: u8 = 90;

/// space
pub const SPACE: u8 = 32;

/// tab
pub const TAB: u8 = 9;

/// line feed
pub const LINE_FEED: u8 = 10;

/// form feed
pub const FORM_FEED: u8 = 12;

/// carriage return
pub const CARRIAGE_RETURN: u8 = 13;

} // verus!
