//! From bytes to tokens.
//!
//! Blanks separate tokens. A run of digits is a number. A run of letters,
//! digits and underscores that starts with no digit is a word: a keyword, or
//! else a name, which is interned. Everything else is punctuation.

use vstd::prelude::*;
use vstd::string::StringExecFns;
use crate::ast::Ident;
use crate::env::{find, interned, Environment};
use super::ascii::{
    digit, is_digit, is_letter, is_space, is_word_byte, letter, space, word_byte, COMMA, DIGIT_0,
    EQUALS, LEFT_BRACE, LEFT_BRACKET, LEFT_PAREN, LESS, MINUS, PLUS, RIGHT_BRACE, RIGHT_BRACKET,
    RIGHT_PAREN, SEMICOLON, STAR,
};
use super::token::{ParseError, Token};

verus! {

/// What is taken for granted of `String::push` of the standard library: it
/// puts the character at the end of the text and changes nothing else.
pub assume_specification[ String::push ](text: &mut String, c: char)
    ensures
        final(text)@ == old(text)@.push(c),
;

/// The tokens of a text and the names that occur in it, each at the number
/// of its handle.
pub struct Lexed {
    pub tokens: Seq<Token>,
    pub names: Seq<Seq<char>>,
}

/// Where the run of digits, or of word bytes if `word` is set, that starts
/// at `pos` ends.
pub open spec fn run_end(text: Seq<u8>, pos: int, word: bool) -> int
    decreases text.len() - pos,
{
    if 0 <= pos < text.len() && (if word {
        is_word_byte(text[pos])
    } else {
        is_digit(text[pos])
    }) {
        run_end(text, pos + 1, word)
    } else {
        pos
    }
}

/// A run ends after its start if it has a first byte, and inside the text.
pub proof fn lemma_run_end(text: Seq<u8>, pos: int, word: bool)
    requires
        0 <= pos <= text.len(),
    ensures
        pos <= run_end(text, pos, word) <= text.len(),
        pos < text.len() && (if word {
            is_word_byte(text[pos])
        } else {
            is_digit(text[pos])
        }) ==> pos < run_end(text, pos, word),
    decreases text.len() - pos,
{
    if pos < text.len() && (if word {
        is_word_byte(text[pos])
    } else {
        is_digit(text[pos])
    }) {
        lemma_run_end(text, pos + 1, word);
    }
}

/// The number that a run of digits spells.
pub open spec fn decimal(digits: Seq<u8>) -> nat
    decreases digits.len(),
{
    if digits.len() == 0 {
        0
    } else {
        (decimal(digits.drop_last()) * 10 + (digits.last() - DIGIT_0)) as nat
    }
}

/// The characters of a word.
pub open spec fn chars_of(bytes: Seq<u8>) -> Seq<char> {
    Seq::new(bytes.len(), |i: int| bytes[i] as char)
}

/// The keyword that a word is, if it is one.
pub open spec fn keyword(word: Seq<char>) -> Option<Token> {
    if word == "let"@ {
        Some(Token::Let)
    } else if word == "const"@ {
        Some(Token::Const)
    } else if word == "fn"@ {
        Some(Token::Fn)
    } else if word == "if"@ {
        Some(Token::If)
    } else if word == "else"@ {
        Some(Token::Else)
    } else if word == "while"@ {
        Some(Token::While)
    } else if word == "break"@ {
        Some(Token::Break)
    } else if word == "continue"@ {
        Some(Token::Continue)
    } else if word == "return"@ {
        Some(Token::Return)
    } else if word == "out"@ {
        Some(Token::Out)
    } else {
        None
    }
}

/// The punctuation that starts at `pos`, with its length.
pub open spec fn symbol(text: Seq<u8>, pos: int) -> Option<(Token, int)> {
    let c = text[pos];
    if c == EQUALS {
        if pos + 1 < text.len() && text[pos + 1] == EQUALS {
            Some((Token::Equal, 2))
        } else {
            Some((Token::Assign, 1))
        }
    } else if c == LEFT_PAREN {
        Some((Token::LeftParen, 1))
    } else if c == RIGHT_PAREN {
        Some((Token::RightParen, 1))
    } else if c == LEFT_BRACE {
        Some((Token::LeftBrace, 1))
    } else if c == RIGHT_BRACE {
        Some((Token::RightBrace, 1))
    } else if c == LEFT_BRACKET {
        Some((Token::LeftBracket, 1))
    } else if c == RIGHT_BRACKET {
        Some((Token::RightBracket, 1))
    } else if c == COMMA {
        Some((Token::Comma, 1))
    } else if c == SEMICOLON {
        Some((Token::Semicolon, 1))
    } else if c == PLUS {
        Some((Token::Plus, 1))
    } else if c == MINUS {
        Some((Token::Minus, 1))
    } else if c == STAR {
        Some((Token::Star, 1))
    } else if c == LESS {
        Some((Token::Less, 1))
    } else {
        None
    }
}

/// What the text from `pos` on adds to the tokens and names found so far.
pub open spec fn lex_from(
    text: Seq<u8>,
    pos: int,
    tokens: Seq<Token>,
    names: Seq<Seq<char>>,
) -> Result<Lexed, ParseError>
    decreases text.len() - pos,
{
    if pos < 0 || pos >= text.len() {
        Ok(Lexed { tokens, names })
    } else if is_space(text[pos]) {
        lex_from(text, pos + 1, tokens, names)
    } else if is_digit(text[pos]) {
        let end = run_end(text, pos, false);
        let value = decimal(text.subrange(pos, end));
        if value > i64::MAX {
            Err(ParseError::NumberTooLarge { at: pos as usize })
        } else {
            proof {
                lemma_run_end(text, pos, false);
            }
            lex_from(text, end, tokens.push(Token::Num(value as i64)), names)
        }
    } else if is_letter(text[pos]) {
        let end = run_end(text, pos, true);
        let word = chars_of(text.subrange(pos, end));
        proof {
            lemma_run_end(text, pos, true);
        }
        match keyword(word) {
            Some(token) => lex_from(text, end, tokens.push(token), names),
            None => lex_from(
                text,
                end,
                tokens.push(Token::Name(Ident { id: find(names, word) as usize })),
                interned(names, word),
            ),
        }
    } else {
        match symbol(text, pos) {
            Some((token, width)) => lex_from(text, pos + width, tokens.push(token), names),
            None => Err(ParseError::UnexpectedByte { at: pos as usize }),
        }
    }
}

/// The tokens and names of a text.
pub open spec fn lexed(text: Seq<u8>) -> Result<Lexed, ParseError> {
    lex_from(text, 0, seq![], seq![])
}

/// The keyword that a word is, if it is one.
fn keyword_of(word: &String) -> (r: Option<Token>)
    ensures
        r == keyword(word@),
{
    if *word == String::from_str("let") {
        Some(Token::Let)
    } else if *word == String::from_str("const") {
        Some(Token::Const)
    } else if *word == String::from_str("fn") {
        Some(Token::Fn)
    } else if *word == String::from_str("if") {
        Some(Token::If)
    } else if *word == String::from_str("else") {
        Some(Token::Else)
    } else if *word == String::from_str("while") {
        Some(Token::While)
    } else if *word == String::from_str("break") {
        Some(Token::Break)
    } else if *word == String::from_str("continue") {
        Some(Token::Continue)
    } else if *word == String::from_str("return") {
        Some(Token::Return)
    } else if *word == String::from_str("out") {
        Some(Token::Out)
    } else {
        None
    }
}

/// The punctuation that starts at `pos`, with its length.
fn symbol_at(text: &[u8], pos: usize) -> (r: Option<(Token, usize)>)
    requires
        pos < text@.len(),
    ensures
        match r {
            Some((token, width)) => symbol(text@, pos as int) == Some((token, width as int))
                && 1 <= width && pos + width <= text@.len(),
            None => symbol(text@, pos as int) is None,
        },
{
    let c = text[pos];
    if c == EQUALS {
        if pos + 1 < text.len() && text[pos + 1] == EQUALS {
            Some((Token::Equal, 2))
        } else {
            Some((Token::Assign, 1))
        }
    } else if c == LEFT_PAREN {
        Some((Token::LeftParen, 1))
    } else if c == RIGHT_PAREN {
        Some((Token::RightParen, 1))
    } else if c == LEFT_BRACE {
        Some((Token::LeftBrace, 1))
    } else if c == RIGHT_BRACE {
        Some((Token::RightBrace, 1))
    } else if c == LEFT_BRACKET {
        Some((Token::LeftBracket, 1))
    } else if c == RIGHT_BRACKET {
        Some((Token::RightBracket, 1))
    } else if c == COMMA {
        Some((Token::Comma, 1))
    } else if c == SEMICOLON {
        Some((Token::Semicolon, 1))
    } else if c == PLUS {
        Some((Token::Plus, 1))
    } else if c == MINUS {
        Some((Token::Minus, 1))
    } else if c == STAR {
        Some((Token::Star, 1))
    } else if c == LESS {
        Some((Token::Less, 1))
    } else {
        None
    }
}

/// Reads the number that starts at `pos` and gives it with the place where
/// it ends, or nothing if it is too large.
fn number_at(text: &[u8], pos: usize) -> (r: (Option<i64>, usize))
    requires
        pos < text@.len(),
        is_digit(text@[pos as int]),
    ensures
        r.1 == run_end(text@, pos as int, false),
        pos < r.1 <= text@.len(),
        match r.0 {
            Some(value) => value == decimal(text@.subrange(pos as int, r.1 as int)),
            None => decimal(text@.subrange(pos as int, r.1 as int)) > i64::MAX,
        },
{
    let mut end = pos;
    let mut value: i64 = 0;
    let mut fits = true;
    proof {
        lemma_run_end(text@, pos as int, false);
        assert(text@.subrange(pos as int, pos as int) =~= Seq::<u8>::empty());
    }
    while end < text.len() && digit(text[end])
        invariant
            pos <= end <= text@.len(),
            run_end(text@, end as int, false) == run_end(text@, pos as int, false),
            0 <= value,
            fits ==> value == decimal(text@.subrange(pos as int, end as int)),
            !fits ==> decimal(text@.subrange(pos as int, end as int)) > i64::MAX,
        decreases text.len() - end,
    {
        let d = (text[end] - DIGIT_0) as i64;
        proof {
            let longer = text@.subrange(pos as int, end + 1);
            assert(longer.drop_last() =~= text@.subrange(pos as int, end as int));
            assert(longer.last() == text@[end as int]);
        }
        if fits {
            if value > (i64::MAX - d) / 10 {
                fits = false;
            } else {
                value = value * 10 + d;
            }
        }
        end = end + 1;
    }
    if fits {
        (Some(value), end)
    } else {
        (None, end)
    }
}

/// Reads the word that starts at `pos` and gives it with the place where it
/// ends.
fn word_at(text: &[u8], pos: usize) -> (r: (String, usize))
    requires
        pos < text@.len(),
        is_letter(text@[pos as int]),
    ensures
        r.1 == run_end(text@, pos as int, true),
        pos < r.1 <= text@.len(),
        r.0@ == chars_of(text@.subrange(pos as int, r.1 as int)),
{
    let mut end = pos;
    let mut word = String::new();
    proof {
        lemma_run_end(text@, pos as int, true);
        assert(chars_of(text@.subrange(pos as int, pos as int)) =~= Seq::<char>::empty());
    }
    while end < text.len() && word_byte(text[end])
        invariant
            pos <= end <= text@.len(),
            run_end(text@, end as int, true) == run_end(text@, pos as int, true),
            word@ == chars_of(text@.subrange(pos as int, end as int)),
        decreases text.len() - end,
    {
        word.push(text[end] as char);
        proof {
            assert(chars_of(text@.subrange(pos as int, end + 1)) =~= chars_of(
                text@.subrange(pos as int, end as int),
            ).push(text@[end as int] as char));
        }
        end = end + 1;
    }
    (word, end)
}

/// Splits a text into tokens and interns its names.
pub fn lex(text: &[u8]) -> (r: Result<(Vec<Token>, Environment), ParseError>)
    ensures
        match r {
            Ok((tokens, env)) => lexed(text@) == Ok::<Lexed, ParseError>(
                Lexed { tokens: tokens@, names: env@ },
            ) && env.wf(),
            Err(e) => lexed(text@) == Err::<Lexed, ParseError>(e),
        },
{
    let mut tokens: Vec<Token> = Vec::new();
    let mut env = Environment::new();
    let mut pos: usize = 0;
    while pos < text.len()
        invariant
            pos <= text@.len(),
            env.wf(),
            lex_from(text@, pos as int, tokens@, env@) == lexed(text@),
        decreases text.len() - pos,
    {
        let c = text[pos];
        if space(c) {
            pos = pos + 1;
        } else if digit(c) {
            let (value, end) = number_at(text, pos);
            match value {
                Some(value) => {
                    tokens.push(Token::Num(value));
                },
                None => {
                    return Err(ParseError::NumberTooLarge { at: pos });
                },
            }
            pos = end;
        } else if letter(c) {
            let (word, end) = word_at(text, pos);
            match keyword_of(&word) {
                Some(token) => {
                    tokens.push(token);
                },
                None => {
                    let name = env.intern(word.as_str());
                    tokens.push(Token::Name(name));
                },
            }
            pos = end;
        } else {
            match symbol_at(text, pos) {
                Some((token, width)) => {
                    tokens.push(token);
                    pos = pos + width;
                },
                None => {
                    return Err(ParseError::UnexpectedByte { at: pos });
                },
            }
        }
    }
    Ok((tokens, env))
}

} // verus!
