//! Every part of the grammar reads at least one token.
//!
//! The grammar accepts what a part has read only if the part has moved on.
//! That never rules anything out: each part that reads something moves on by
//! itself.

use vstd::prelude::*;
use crate::ast::{BinOp, Ident};
use crate::shape::{ExprShape, StmtShape};
use super::grammar::{
    advancing, args, args_rest, atom, binary, block, block_rest, const_stmt, expr, expr_semicolon,
    let_stmt, params, params_rest, peek, plain_stmt, stmt, sum, sum_op, sum_rest, term, term_rest,
    Parsed,
};
use super::token::{ParseError, Token};

verus! {

/// Whether `result`, read from `pos` on, ends after `pos` and within the
/// tokens.
pub open spec fn advances<T>(
    result: Result<Parsed<T>, ParseError>,
    tokens: Seq<Token>,
    pos: int,
) -> bool {
    result matches Ok(p) ==> pos < p.next <= tokens.len()
}

/// Whether `result`, read from `pos` on, ends at `pos` or after it and
/// within the tokens.
pub open spec fn stays<T>(
    result: Result<Parsed<T>, ParseError>,
    tokens: Seq<Token>,
    pos: int,
) -> bool {
    result matches Ok(p) ==> pos <= p.next <= tokens.len()
}

/// The arguments of a call read at least one token.
proof fn lemma_args_rest(tokens: Seq<Token>, pos: int, before: Seq<ExprShape>)
    ensures
        advances(args_rest(tokens, pos, before), tokens, pos),
    decreases tokens.len() - pos,
{
    if let Ok(e) = advancing(expr(tokens, pos), tokens, pos) {
        if tokens[e.next] == Token::Comma && e.next < tokens.len() {
            lemma_args_rest(tokens, e.next + 1, before.push(e.value));
        }
    }
}

/// The factors after the first read no token or more.
proof fn lemma_term_rest(tokens: Seq<Token>, pos: int, left: ExprShape)
    requires
        pos <= tokens.len(),
    ensures
        stays(term_rest(tokens, pos, left), tokens, pos),
    decreases tokens.len() - pos,
{
    if 0 <= pos < tokens.len() && tokens[pos] == Token::Star {
        if let Ok(r) = advancing(atom(tokens, pos + 1), tokens, pos + 1) {
            lemma_term_rest(tokens, r.next, binary(BinOp::Mul, left, r.value));
        }
    }
}

/// The terms after the first read no token or more.
proof fn lemma_sum_rest(tokens: Seq<Token>, pos: int, left: ExprShape)
    requires
        pos <= tokens.len(),
    ensures
        stays(sum_rest(tokens, pos, left), tokens, pos),
    decreases tokens.len() - pos,
{
    if let Some(op) = sum_op(peek(tokens, pos)) {
        if let Ok(r) = advancing(term(tokens, pos + 1), tokens, pos + 1) {
            lemma_sum_rest(tokens, r.next, binary(op, left, r.value));
        }
    }
}

/// The parameters of a function read at least one token.
proof fn lemma_params_rest(tokens: Seq<Token>, pos: int, before: Seq<Ident>)
    ensures
        advances(params_rest(tokens, pos, before), tokens, pos),
    decreases tokens.len() - pos,
{
    if 0 <= pos && pos + 1 < tokens.len() && tokens[pos] is Name && tokens[pos + 1]
        == Token::Comma {
        lemma_params_rest(tokens, pos + 2, before.push(tokens[pos]->Name_0));
    }
}

/// The statements of a block and its `}` read at least one token.
proof fn lemma_block_rest(tokens: Seq<Token>, pos: int, before: Seq<StmtShape>)
    ensures
        advances(block_rest(tokens, pos, before), tokens, pos),
    decreases tokens.len() - pos,
{
    if peek(tokens, pos) != Some(Token::RightBrace) {
        if let Ok(s) = advancing(stmt(tokens, pos), tokens, pos) {
            lemma_block_rest(tokens, s.next, before.push(s.value));
        }
    }
}

/// An expression reads at least one token.
pub proof fn lemma_expr_advances(tokens: Seq<Token>, pos: int)
    ensures
        advances(atom(tokens, pos), tokens, pos),
        advances(term(tokens, pos), tokens, pos),
        advances(sum(tokens, pos), tokens, pos),
        advances(expr(tokens, pos), tokens, pos),
        advances(args(tokens, pos), tokens, pos),
        advances(expr_semicolon(tokens, pos), tokens, pos),
        advancing(expr(tokens, pos), tokens, pos) == expr(tokens, pos),
{
    lemma_args_rest(tokens, pos, seq![]);
    lemma_args_rest(tokens, pos + 2, seq![]);
    if let Ok(a) = advancing(atom(tokens, pos), tokens, pos) {
        lemma_term_rest(tokens, a.next, a.value);
    }
    if let Ok(t) = advancing(term(tokens, pos), tokens, pos) {
        lemma_sum_rest(tokens, t.next, t.value);
    }
}

/// A statement and a block read at least one token.
pub proof fn lemma_stmt_advances(tokens: Seq<Token>, pos: int)
    ensures
        advances(block(tokens, pos), tokens, pos),
        advances(stmt(tokens, pos), tokens, pos),
        advancing(stmt(tokens, pos), tokens, pos) == stmt(tokens, pos),
{
    lemma_block_rest(tokens, pos + 1, seq![]);
    assert(advances(block(tokens, pos), tokens, pos));
    lemma_expr_advances(tokens, pos);
    lemma_expr_advances(tokens, pos + 1);
    lemma_expr_advances(tokens, pos + 2);
    lemma_expr_advances(tokens, pos + 3);
    match peek(tokens, pos) {
        Some(Token::Let) => {
            assert(advances(let_stmt(tokens, pos + 1), tokens, pos + 1));
        },
        Some(Token::Const) => {
            assert(advances(const_stmt(tokens, pos + 1), tokens, pos + 1));
        },
        Some(Token::Fn) => {
            lemma_params_rest(tokens, pos + 3, seq![]);
            if let Ok(p) = advancing(params(tokens, pos + 3), tokens, pos + 3) {
                lemma_block_rest(tokens, p.next + 1, seq![]);
            }
        },
        Some(Token::If) => {
            if let Ok(c) = advancing(expr(tokens, pos + 1), tokens, pos + 1) {
                if let Ok(t) = advancing(block(tokens, c.next), tokens, c.next) {
                    lemma_block_rest(tokens, t.next + 2, seq![]);
                }
            }
        },
        Some(Token::While) => {
            if let Ok(c) = advancing(expr(tokens, pos + 1), tokens, pos + 1) {
                lemma_block_rest(tokens, c.next + 1, seq![]);
            }
        },
        Some(Token::LeftBrace) => {},
        Some(Token::Break) => {},
        Some(Token::Continue) => {},
        Some(Token::Return) => {},
        Some(Token::Out) => {},
        _ => {
            if let Ok(e) = advancing(expr(tokens, pos), tokens, pos) {
                lemma_expr_advances(tokens, e.next + 1);
            }
            assert(advances(plain_stmt(tokens, pos), tokens, pos));
        },
    }
}

} // verus!
