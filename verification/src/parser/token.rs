//! Tokens and what can be wrong with a text.

use vstd::prelude::*;
use vstd::string::StringExecFns;
use crate::ast::Ident;
use super::ascii::DIGIT_0;

verus! {

/// One token of the source language.
#[derive(Clone, Copy, Debug, PartialEq, Eq, Structural, Hash)]
pub enum Token {
    /// A number without a sign.
    Num(i64),
    /// A word that is no keyword, as its handle.
    Name(Ident),
    Let,
    Const,
    Fn,
    If,
    Else,
    While,
    Break,
    Continue,
    Return,
    Out,
    LeftParen,
    RightParen,
    LeftBrace,
    RightBrace,
    LeftBracket,
    RightBracket,
    Comma,
    Semicolon,
    /// `=`
    Assign,
    Plus,
    Minus,
    Star,
    /// `<`
    Less,
    /// `==`
    Equal,
}

/// Why a text is no program.
#[derive(Clone, Copy, Debug, PartialEq, Eq, Structural, Hash)]
pub enum ParseError {
    /// The byte at `at` starts no token.
    UnexpectedByte { at: usize },
    /// The number that starts at the byte `at` is too large.
    NumberTooLarge { at: usize },
    /// The token with the number `index`, counted from 0, cannot stand where
    /// it stands.
    UnexpectedToken { index: usize },
    /// The text ends where more has to follow.
    UnexpectedEnd,
}

/// The character of a digit below ten.
pub open spec fn digit_char(d: nat) -> char {
    ((DIGIT_0 + d) as u8) as char
}

/// A number as it is written in decimal.
pub open spec fn decimal_text(n: nat) -> Seq<char>
    decreases n,
{
    if n < 10 {
        seq![digit_char(n)]
    } else {
        decimal_text(n / 10).push(digit_char(n % 10))
    }
}

/// Appends `n` in decimal to `text`.
fn push_decimal(text: &mut String, n: usize)
    ensures
        final(text)@ == old(text)@ + decimal_text(n as nat),
    decreases n,
{
    if n >= 10 {
        push_decimal(text, n / 10);
    }
    let d = (n % 10) as u8;
    text.push((DIGIT_0 + d) as char);
    assert(text@ =~= old(text)@ + decimal_text(n as nat));
}

impl ParseError {
    /// The message for this error.
    pub open spec fn message(self) -> Seq<char> {
        match self {
            ParseError::UnexpectedByte { at } => "Unexpected character at byte "@ + decimal_text(
                at as nat,
            ),
            ParseError::NumberTooLarge { at } => "Number too large at byte "@ + decimal_text(
                at as nat,
            ),
            ParseError::UnexpectedToken { index } => "Unexpected token, number "@ + decimal_text(
                index as nat,
            ),
            ParseError::UnexpectedEnd => "Unexpected end of input"@,
        }
    }

    /// Spells the error out for a reader.
    pub fn render(&self) -> (text: String)
        ensures
            text@ == self.message(),
    {
        match self {
            ParseError::UnexpectedByte { at } => {
                let mut text = String::from_str("Unexpected character at byte ");
                push_decimal(&mut text, *at);
                text
            },
            ParseError::NumberTooLarge { at } => {
                let mut text = String::from_str("Number too large at byte ");
                push_decimal(&mut text, *at);
                text
            },
            ParseError::UnexpectedToken { index } => {
                let mut text = String::from_str("Unexpected token, number ");
                push_decimal(&mut text, *index);
                text
            },
            ParseError::UnexpectedEnd => String::from_str("Unexpected end of input"),
        }
    }
}

} // verus!
