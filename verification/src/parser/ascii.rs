//! The bytes that the source language is written in.

use vstd::prelude::*;

verus! {

pub const TAB: u8 = 9;
pub const NEWLINE: u8 = 10;
pub const RETURN: u8 = 13;
pub const SPACE: u8 = 32;
pub const LEFT_PAREN: u8 = 40;
pub const RIGHT_PAREN: u8 = 41;
pub const STAR: u8 = 42;
pub const PLUS: u8 = 43;
pub const COMMA: u8 = 44;
pub const MINUS: u8 = 45;
pub const SLASH: u8 = 47;
pub const DIGIT_0: u8 = 48;
pub const DIGIT_9: u8 = 57;
pub const SEMICOLON: u8 = 59;
pub const LESS: u8 = 60;
pub const EQUALS: u8 = 61;
pub const UPPER_A: u8 = 65;
pub const UPPER_Z: u8 = 90;
pub const LEFT_BRACKET: u8 = 91;
pub const RIGHT_BRACKET: u8 = 93;
pub const UNDERSCORE: u8 = 95;
pub const LOWER_A: u8 = 97;
pub const LOWER_Z: u8 = 122;
pub const LEFT_BRACE: u8 = 123;
pub const RIGHT_BRACE: u8 = 125;

/// Whether `c` separates tokens and means nothing else.
pub open spec fn is_space(c: u8) -> bool {
    c == SPACE || c == TAB || c == NEWLINE || c == RETURN
}

/// Whether `c` is a decimal digit.
pub open spec fn is_digit(c: u8) -> bool {
    DIGIT_0 <= c <= DIGIT_9
}

/// Whether a word may start with `c`.
pub open spec fn is_letter(c: u8) -> bool {
    UPPER_A <= c <= UPPER_Z || LOWER_A <= c <= LOWER_Z || c == UNDERSCORE
}

/// Whether `c` may stand inside a word.
pub open spec fn is_word_byte(c: u8) -> bool {
    is_letter(c) || is_digit(c)
}

/// Whether `c` separates tokens and means nothing else.
#[verifier::when_used_as_spec(is_space)]
pub fn space(c: u8) -> (b: bool)
    ensures
        b == is_space(c),
{
    c == SPACE || c == TAB || c == NEWLINE || c == RETURN
}

/// Whether `c` is a decimal digit.
#[verifier::when_used_as_spec(is_digit)]
pub fn digit(c: u8) -> (b: bool)
    ensures
        b == is_digit(c),
{
    DIGIT_0 <= c && c <= DIGIT_9
}

/// Whether a word may start with `c`.
#[verifier::when_used_as_spec(is_letter)]
pub fn letter(c: u8) -> (b: bool)
    ensures
        b == is_letter(c),
{
    (UPPER_A <= c && c <= UPPER_Z) || (LOWER_A <= c && c <= LOWER_Z) || c == UNDERSCORE
}

/// Whether `c` may stand inside a word.
#[verifier::when_used_as_spec(is_word_byte)]
pub fn word_byte(c: u8) -> (b: bool)
    ensures
        b == is_word_byte(c),
{
    letter(c) || digit(c)
}

} // verus!
