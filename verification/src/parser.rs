//! From source text to a syntax tree.

pub mod ascii;
pub mod comments;
pub mod grammar;
pub mod lexer;
pub mod progress;
pub mod reader;
pub mod token;
