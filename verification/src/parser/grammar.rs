//! The grammar of the source language, as a function from tokens to the shape
//! of the tree.
//!
//! ```text
//! program := stmt*
//! stmt    := "let" NAME ";" | "let" NAME "=" expr ";" | "let" NAME "[" expr "]" ";"
//!          | "const" NAME "=" expr ";"
//!          | "fn" NAME "(" [NAME {"," NAME}] ")" block
//!          | "if" expr block ["else" block] | "while" expr block | block
//!          | "break" ";" | "continue" ";" | "return" [expr] ";" | "out" expr ";"
//!          | NAME "=" expr ";" | NAME "[" expr "]" "=" expr ";" | expr ";"
//! block   := "{" stmt* "}"
//! expr    := sum [("<" | "==") sum]
//! sum     := term {("+" | "-") term}
//! term    := atom {"*" atom}
//! atom    := NUM | "-" atom | "(" expr ")" | NAME | NAME "[" expr "]"
//!          | NAME "(" [expr {"," expr}] ")"
//! ```
//!
//! Each function reads from the token with the number `pos` and gives what it
//! read with the number of the token after it. `-a` stands for `0 - a`.

use vstd::prelude::*;
use crate::ast::{BinOp, Ident};
use crate::shape::{ExprShape, StmtShape};
use super::lexer::lexed;
use super::token::{ParseError, Token};

verus! {

/// What was read, and the number of the token after it.
pub struct Parsed<T> {
    pub value: T,
    pub next: int,
}

/// The token with the number `pos`, if there is one.
pub open spec fn peek(tokens: Seq<Token>, pos: int) -> Option<Token> {
    if 0 <= pos < tokens.len() {
        Some(tokens[pos])
    } else {
        None
    }
}

/// The error for what stands at `pos` and cannot stand there.
pub open spec fn unexpected(tokens: Seq<Token>, pos: int) -> ParseError {
    if 0 <= pos < tokens.len() {
        ParseError::UnexpectedToken { index: pos as usize }
    } else {
        ParseError::UnexpectedEnd
    }
}

/// `value`, if `token` stands at `pos`, which is then read too.
pub open spec fn closed_by<T>(tokens: Seq<Token>, pos: int, token: Token, value: T) -> Result<
    Parsed<T>,
    ParseError,
> {
    if peek(tokens, pos) == Some(token) {
        Ok(Parsed { value, next: pos + 1 })
    } else {
        Err(unexpected(tokens, pos))
    }
}

/// `result`, if it has read at least one token from `pos` on and none beyond
/// the end. Every part of the grammar does; the case that one does not is
/// there for the definitions to be well founded.
pub open spec fn advancing<T>(
    result: Result<Parsed<T>, ParseError>,
    tokens: Seq<Token>,
    pos: int,
) -> Result<Parsed<T>, ParseError> {
    match result {
        Ok(p) => if pos < p.next <= tokens.len() {
            Ok(p)
        } else {
            Err(unexpected(tokens, pos))
        },
        Err(e) => Err(e),
    }
}

/// `left op right`
pub open spec fn binary(op: BinOp, left: ExprShape, right: ExprShape) -> ExprShape {
    ExprShape::Binary(op, Box::new(left), Box::new(right))
}

/// A number, a name with what belongs to it, or an expression in parentheses.
pub open spec fn atom(tokens: Seq<Token>, pos: int) -> Result<Parsed<ExprShape>, ParseError>
    decreases tokens.len() - pos, 1int,
{
    match peek(tokens, pos) {
        Some(Token::Num(n)) => Ok(Parsed { value: ExprShape::Num(n), next: pos + 1 }),
        Some(Token::Minus) => match advancing(atom(tokens, pos + 1), tokens, pos + 1) {
            Err(e) => Err(e),
            Ok(a) => Ok(
                Parsed { value: binary(BinOp::Sub, ExprShape::Num(0), a.value), next: a.next },
            ),
        },
        Some(Token::LeftParen) => match advancing(expr(tokens, pos + 1), tokens, pos + 1) {
            Err(e) => Err(e),
            Ok(e) => closed_by(tokens, e.next, Token::RightParen, e.value),
        },
        Some(Token::Name(name)) => match peek(tokens, pos + 1) {
            Some(Token::LeftBracket) => match advancing(expr(tokens, pos + 2), tokens, pos + 2) {
                Err(e) => Err(e),
                Ok(i) => closed_by(
                    tokens,
                    i.next,
                    Token::RightBracket,
                    ExprShape::Index(name, Box::new(i.value)),
                ),
            },
            Some(Token::LeftParen) => match args(tokens, pos + 2) {
                Err(e) => Err(e),
                Ok(a) => Ok(Parsed { value: ExprShape::Call(name, a.value), next: a.next }),
            },
            _ => Ok(Parsed { value: ExprShape::Var(name), next: pos + 1 }),
        },
        _ => Err(unexpected(tokens, pos)),
    }
}

/// The arguments of a call and the `)` after them; `pos` is after the `(`.
pub open spec fn args(tokens: Seq<Token>, pos: int) -> Result<Parsed<Seq<ExprShape>>, ParseError>
    decreases tokens.len() - pos, 6int,
{
    if peek(tokens, pos) == Some(Token::RightParen) {
        Ok(Parsed { value: seq![], next: pos + 1 })
    } else {
        args_rest(tokens, pos, seq![])
    }
}

/// The arguments from `pos` on, added to those in `before`.
pub open spec fn args_rest(tokens: Seq<Token>, pos: int, before: Seq<ExprShape>) -> Result<
    Parsed<Seq<ExprShape>>,
    ParseError,
>
    decreases tokens.len() - pos, 5int,
{
    match advancing(expr(tokens, pos), tokens, pos) {
        Err(e) => Err(e),
        Ok(e) => match peek(tokens, e.next) {
            Some(Token::Comma) => args_rest(tokens, e.next + 1, before.push(e.value)),
            Some(Token::RightParen) => Ok(
                Parsed { value: before.push(e.value), next: e.next + 1 },
            ),
            _ => Err(unexpected(tokens, e.next)),
        },
    }
}

/// A product.
pub open spec fn term(tokens: Seq<Token>, pos: int) -> Result<Parsed<ExprShape>, ParseError>
    decreases tokens.len() - pos, 2int,
{
    match advancing(atom(tokens, pos), tokens, pos) {
        Err(e) => Err(e),
        Ok(a) => term_rest(tokens, a.next, a.value),
    }
}

/// The factors from `pos` on, applied to `left`.
pub open spec fn term_rest(tokens: Seq<Token>, pos: int, left: ExprShape) -> Result<
    Parsed<ExprShape>,
    ParseError,
>
    decreases tokens.len() - pos, 7int,
{
    match peek(tokens, pos) {
        Some(Token::Star) => match advancing(atom(tokens, pos + 1), tokens, pos + 1) {
            Err(e) => Err(e),
            Ok(r) => term_rest(tokens, r.next, binary(BinOp::Mul, left, r.value)),
        },
        _ => Ok(Parsed { value: left, next: pos }),
    }
}

/// A sum or a difference.
pub open spec fn sum(tokens: Seq<Token>, pos: int) -> Result<Parsed<ExprShape>, ParseError>
    decreases tokens.len() - pos, 3int,
{
    match advancing(term(tokens, pos), tokens, pos) {
        Err(e) => Err(e),
        Ok(t) => sum_rest(tokens, t.next, t.value),
    }
}

/// The operator of a sum that a token is.
pub open spec fn sum_op(token: Option<Token>) -> Option<BinOp> {
    match token {
        Some(Token::Plus) => Some(BinOp::Add),
        Some(Token::Minus) => Some(BinOp::Sub),
        _ => None,
    }
}

/// The terms from `pos` on, applied to `left`.
pub open spec fn sum_rest(tokens: Seq<Token>, pos: int, left: ExprShape) -> Result<
    Parsed<ExprShape>,
    ParseError,
>
    decreases tokens.len() - pos, 7int,
{
    match sum_op(peek(tokens, pos)) {
        Some(op) => match advancing(term(tokens, pos + 1), tokens, pos + 1) {
            Err(e) => Err(e),
            Ok(r) => sum_rest(tokens, r.next, binary(op, left, r.value)),
        },
        None => Ok(Parsed { value: left, next: pos }),
    }
}

/// The operator of a comparison that a token is.
pub open spec fn compare_op(token: Option<Token>) -> Option<BinOp> {
    match token {
        Some(Token::Less) => Some(BinOp::Less),
        Some(Token::Equal) => Some(BinOp::Equal),
        _ => None,
    }
}

/// An expression.
pub open spec fn expr(tokens: Seq<Token>, pos: int) -> Result<Parsed<ExprShape>, ParseError>
    decreases tokens.len() - pos, 4int,
{
    match advancing(sum(tokens, pos), tokens, pos) {
        Err(e) => Err(e),
        Ok(l) => match compare_op(peek(tokens, l.next)) {
            Some(op) => match advancing(sum(tokens, l.next + 1), tokens, l.next + 1) {
                Err(e) => Err(e),
                Ok(r) => Ok(Parsed { value: binary(op, l.value, r.value), next: r.next }),
            },
            None => Ok(l),
        },
    }
}

/// An expression and the `;` after it.
pub open spec fn expr_semicolon(tokens: Seq<Token>, pos: int) -> Result<
    Parsed<ExprShape>,
    ParseError,
> {
    match advancing(expr(tokens, pos), tokens, pos) {
        Err(e) => Err(e),
        Ok(e) => closed_by(tokens, e.next, Token::Semicolon, e.value),
    }
}

/// An expression and the `;` after it, made a statement by `make`.
pub open spec fn expr_stmt(
    tokens: Seq<Token>,
    pos: int,
    make: spec_fn(ExprShape) -> StmtShape,
) -> Result<Parsed<StmtShape>, ParseError> {
    match expr_semicolon(tokens, pos) {
        Err(e) => Err(e),
        Ok(e) => Ok(Parsed { value: make(e.value), next: e.next }),
    }
}

/// The parameters of a function and the `)` after them; `pos` is after the
/// `(`.
pub open spec fn params(tokens: Seq<Token>, pos: int) -> Result<Parsed<Seq<Ident>>, ParseError> {
    if peek(tokens, pos) == Some(Token::RightParen) {
        Ok(Parsed { value: seq![], next: pos + 1 })
    } else {
        params_rest(tokens, pos, seq![])
    }
}

/// The parameters from `pos` on, added to those in `before`.
pub open spec fn params_rest(tokens: Seq<Token>, pos: int, before: Seq<Ident>) -> Result<
    Parsed<Seq<Ident>>,
    ParseError,
>
    decreases tokens.len() - pos,
{
    match peek(tokens, pos) {
        Some(Token::Name(name)) => match peek(tokens, pos + 1) {
            Some(Token::Comma) => params_rest(tokens, pos + 2, before.push(name)),
            Some(Token::RightParen) => Ok(Parsed { value: before.push(name), next: pos + 2 }),
            _ => Err(unexpected(tokens, pos + 1)),
        },
        _ => Err(unexpected(tokens, pos)),
    }
}

/// What follows `let`.
pub open spec fn let_stmt(tokens: Seq<Token>, pos: int) -> Result<Parsed<StmtShape>, ParseError> {
    match peek(tokens, pos) {
        Some(Token::Name(name)) => match peek(tokens, pos + 1) {
            Some(Token::Semicolon) => Ok(
                Parsed { value: StmtShape::Let(name, None), next: pos + 2 },
            ),
            Some(Token::Assign) => expr_stmt(
                tokens,
                pos + 2,
                |e: ExprShape| StmtShape::Let(name, Some(e)),
            ),
            Some(Token::LeftBracket) => match advancing(expr(tokens, pos + 2), tokens, pos + 2) {
                Err(e) => Err(e),
                Ok(n) => if peek(tokens, n.next) == Some(Token::RightBracket) {
                    closed_by(
                        tokens,
                        n.next + 1,
                        Token::Semicolon,
                        StmtShape::LetArray(name, n.value),
                    )
                } else {
                    Err(unexpected(tokens, n.next))
                },
            },
            _ => Err(unexpected(tokens, pos + 1)),
        },
        _ => Err(unexpected(tokens, pos)),
    }
}

/// What follows `const`.
pub open spec fn const_stmt(tokens: Seq<Token>, pos: int) -> Result<Parsed<StmtShape>, ParseError> {
    match peek(tokens, pos) {
        Some(Token::Name(name)) => if peek(tokens, pos + 1) == Some(Token::Assign) {
            expr_stmt(tokens, pos + 2, |e: ExprShape| StmtShape::Const(name, e))
        } else {
            Err(unexpected(tokens, pos + 1))
        },
        _ => Err(unexpected(tokens, pos)),
    }
}

/// An assignment or an expression that stands as a statement.
pub open spec fn plain_stmt(tokens: Seq<Token>, pos: int) -> Result<Parsed<StmtShape>, ParseError> {
    match advancing(expr(tokens, pos), tokens, pos) {
        Err(e) => Err(e),
        Ok(e) => match peek(tokens, e.next) {
            Some(Token::Semicolon) => Ok(
                Parsed { value: StmtShape::Eval(e.value), next: e.next + 1 },
            ),
            Some(Token::Assign) => match e.value {
                ExprShape::Var(name) => expr_stmt(
                    tokens,
                    e.next + 1,
                    |v: ExprShape| StmtShape::Assign(name, v),
                ),
                ExprShape::Index(name, index) => expr_stmt(
                    tokens,
                    e.next + 1,
                    |v: ExprShape| StmtShape::AssignIndex(name, *index, v),
                ),
                _ => Err(unexpected(tokens, e.next)),
            },
            _ => Err(unexpected(tokens, e.next)),
        },
    }
}

/// A statement.
pub open spec fn stmt(tokens: Seq<Token>, pos: int) -> Result<Parsed<StmtShape>, ParseError>
    decreases tokens.len() - pos, 2int,
{
    match peek(tokens, pos) {
        Some(Token::Let) => let_stmt(tokens, pos + 1),
        Some(Token::Const) => const_stmt(tokens, pos + 1),
        Some(Token::Fn) => match peek(tokens, pos + 1) {
            Some(Token::Name(name)) => if peek(tokens, pos + 2) == Some(Token::LeftParen) {
                match advancing(params(tokens, pos + 3), tokens, pos + 3) {
                    Err(e) => Err(e),
                    Ok(p) => match block(tokens, p.next) {
                        Err(e) => Err(e),
                        Ok(b) => Ok(
                            Parsed { value: StmtShape::Func(name, p.value, b.value), next: b.next },
                        ),
                    },
                }
            } else {
                Err(unexpected(tokens, pos + 2))
            },
            _ => Err(unexpected(tokens, pos + 1)),
        },
        Some(Token::If) => match advancing(expr(tokens, pos + 1), tokens, pos + 1) {
            Err(e) => Err(e),
            Ok(c) => match advancing(block(tokens, c.next), tokens, c.next) {
                Err(e) => Err(e),
                Ok(t) => if peek(tokens, t.next) == Some(Token::Else) {
                    match block(tokens, t.next + 1) {
                        Err(e) => Err(e),
                        Ok(o) => Ok(
                            Parsed {
                                value: StmtShape::If(c.value, t.value, o.value),
                                next: o.next,
                            },
                        ),
                    }
                } else {
                    Ok(Parsed { value: StmtShape::If(c.value, t.value, seq![]), next: t.next })
                },
            },
        },
        Some(Token::While) => match advancing(expr(tokens, pos + 1), tokens, pos + 1) {
            Err(e) => Err(e),
            Ok(c) => match block(tokens, c.next) {
                Err(e) => Err(e),
                Ok(b) => Ok(Parsed { value: StmtShape::While(c.value, b.value), next: b.next }),
            },
        },
        Some(Token::LeftBrace) => match block(tokens, pos) {
            Err(e) => Err(e),
            Ok(b) => Ok(Parsed { value: StmtShape::Block(b.value), next: b.next }),
        },
        Some(Token::Break) => closed_by(tokens, pos + 1, Token::Semicolon, StmtShape::Break),
        Some(Token::Continue) => closed_by(tokens, pos + 1, Token::Semicolon, StmtShape::Continue),
        Some(Token::Return) => if peek(tokens, pos + 1) == Some(Token::Semicolon) {
            Ok(Parsed { value: StmtShape::Return(None), next: pos + 2 })
        } else {
            expr_stmt(tokens, pos + 1, |e: ExprShape| StmtShape::Return(Some(e)))
        },
        Some(Token::Out) => expr_stmt(tokens, pos + 1, |e: ExprShape| StmtShape::Output(e)),
        _ => plain_stmt(tokens, pos),
    }
}

/// `{`, statements and `}`.
pub open spec fn block(tokens: Seq<Token>, pos: int) -> Result<Parsed<Seq<StmtShape>>, ParseError>
    decreases tokens.len() - pos, 1int,
{
    if peek(tokens, pos) == Some(Token::LeftBrace) {
        block_rest(tokens, pos + 1, seq![])
    } else {
        Err(unexpected(tokens, pos))
    }
}

/// The statements from `pos` on up to the `}` of their block, added to those
/// in `before`.
pub open spec fn block_rest(tokens: Seq<Token>, pos: int, before: Seq<StmtShape>) -> Result<
    Parsed<Seq<StmtShape>>,
    ParseError,
>
    decreases tokens.len() - pos, 3int,
{
    if peek(tokens, pos) == Some(Token::RightBrace) {
        Ok(Parsed { value: before, next: pos + 1 })
    } else {
        match advancing(stmt(tokens, pos), tokens, pos) {
            Err(e) => Err(e),
            Ok(s) => block_rest(tokens, s.next, before.push(s.value)),
        }
    }
}

/// The statements from `pos` on up to the end of the text, added to those in
/// `before`.
pub open spec fn program_rest(tokens: Seq<Token>, pos: int, before: Seq<StmtShape>) -> Result<
    Seq<StmtShape>,
    ParseError,
>
    decreases tokens.len() - pos,
{
    if pos < 0 || pos >= tokens.len() {
        Ok(before)
    } else {
        match advancing(stmt(tokens, pos), tokens, pos) {
            Err(e) => Err(e),
            Ok(s) => program_rest(tokens, s.next, before.push(s.value)),
        }
    }
}

/// What a text says: the shape of its program and the names in it, each at
/// the number of its handle.
pub struct Reading {
    pub program: Seq<StmtShape>,
    pub names: Seq<Seq<char>>,
}

/// The program that a text without comments spells.
pub open spec fn parsed(text: Seq<u8>) -> Result<Reading, ParseError> {
    match lexed(text) {
        Err(e) => Err(e),
        Ok(l) => match program_rest(l.tokens, 0, seq![]) {
            Err(e) => Err(e),
            Ok(program) => Ok(Reading { program, names: l.names }),
        },
    }
}

} // verus!
