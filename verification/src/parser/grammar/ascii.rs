//! The codes of the characters that the grammar names.

use vstd::prelude::*;

verus! {

/// A blank.
pub const SPACE: u8 = 32;

/// A tab.
pub const TAB: u8 = 9;

/// The end of a line.
pub const NEWLINE: u8 = 10;

/// A carriage return.
pub const RETURN: u8 = 13;

/// `_`.
pub const UNDERSCORE: u8 = 95;

/// `;`, which begins a comment.
pub const SEMICOLON: u8 = 59;

/// `:`, which may follow a label.
pub const COLON: u8 = 58;

/// `,`, which parts two fields.
pub const COMMA: u8 = 44;

/// `.`, which parts opcode and modifier.
pub const DOT: u8 = 46;

/// `(`.
pub const OPEN: u8 = 40;

/// `)`.
pub const CLOSE: u8 = 41;

/// `+`.
pub const PLUS: u8 = 43;

/// `-`.
pub const MINUS: u8 = 45;

/// `*`.
pub const STAR: u8 = 42;

/// `/`.
pub const SLASH: u8 = 47;

/// `%`.
pub const PERCENT: u8 = 37;

/// `!`.
pub const BANG: u8 = 33;

/// `<`.
pub const LESS: u8 = 60;

/// `>`.
pub const GREATER: u8 = 62;

/// `=`.
pub const EQUALS: u8 = 61;

/// `&`.
pub const AMPERSAND: u8 = 38;

/// `|`.
pub const BAR: u8 = 124;

/// `#`.
pub const HASH: u8 = 35;

/// `$`.
pub const DOLLAR: u8 = 36;

/// `@`.
pub const AT: u8 = 64;

/// `{`.
pub const OPEN_BRACE: u8 = 123;

/// `}`.
pub const CLOSE_BRACE: u8 = 125;

/// The digit `0`; the other digits follow it.
pub const ZERO: u8 = 48;

/// The digit `9`.
pub const NINE: u8 = 57;

// The lower-case letters that the words of the language are written with. The
// upper-case ones lie 32 below them.
pub const A: u8 = 97;

pub const B: u8 = 98;

pub const C: u8 = 99;

pub const D: u8 = 100;

pub const E: u8 = 101;

pub const F: u8 = 102;

pub const G: u8 = 103;

pub const I: u8 = 105;

pub const J: u8 = 106;

pub const L: u8 = 108;

pub const M: u8 = 109;

pub const N: u8 = 110;

pub const O: u8 = 111;

pub const P: u8 = 112;

pub const Q: u8 = 113;

pub const R: u8 = 114;

pub const S: u8 = 115;

pub const T: u8 = 116;

pub const U: u8 = 117;

pub const V: u8 = 118;

pub const X: u8 = 120;

pub const Z: u8 = 122;

/// The upper-case letter `A`.
pub const UPPER_A: u8 = 65;

/// The upper-case letter `Z`.
pub const UPPER_Z: u8 = 90;

/// How far a lower-case letter lies above its upper-case form.
pub const CASE: u8 = 32;

} // verus!
