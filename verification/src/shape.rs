//! Syntax trees as values of mathematics.
//!
//! A tree of [`crate::ast`] holds its lists in vectors. Its shape is the same
//! tree with sequences in their place. Two trees of one shape are the same
//! program: they compile to the same instructions.

use vstd::prelude::*;
use crate::ast::{BinOp, Expr, Ident, Program, Stmt};

verus! {

/// The shape of an expression.
pub enum ExprShape {
    Num(i64),
    Var(Ident),
    Index(Ident, Box<ExprShape>),
    Call(Ident, Seq<ExprShape>),
    Binary(BinOp, Box<ExprShape>, Box<ExprShape>),
}

/// The shape of a statement.
pub enum StmtShape {
    Let(Ident, Option<ExprShape>),
    LetArray(Ident, ExprShape),
    Const(Ident, ExprShape),
    Func(Ident, Seq<Ident>, Seq<StmtShape>),
    Assign(Ident, ExprShape),
    AssignIndex(Ident, ExprShape, ExprShape),
    If(ExprShape, Seq<StmtShape>, Seq<StmtShape>),
    While(ExprShape, Seq<StmtShape>),
    Block(Seq<StmtShape>),
    Break,
    Continue,
    Return(Option<ExprShape>),
    Output(ExprShape),
    Eval(ExprShape),
}

/// The shape of an expression.
pub open spec fn expr_shape(e: Expr) -> ExprShape
    decreases e,
{
    match e {
        Expr::Num(n) => ExprShape::Num(n),
        Expr::Var(name) => ExprShape::Var(name),
        Expr::Index(name, index) => ExprShape::Index(name, Box::new(expr_shape(*index))),
        Expr::Call(name, args) => ExprShape::Call(name, exprs_shape(args@)),
        Expr::Binary(op, left, right) => ExprShape::Binary(
            op,
            Box::new(expr_shape(*left)),
            Box::new(expr_shape(*right)),
        ),
    }
}

/// The shapes of a list of expressions.
pub open spec fn exprs_shape(es: Seq<Expr>) -> Seq<ExprShape>
    decreases es,
{
    if es.len() == 0 {
        seq![]
    } else {
        exprs_shape(es.drop_last()).push(expr_shape(es.last()))
    }
}

/// The shape of an expression that may be missing.
pub open spec fn option_shape(e: Option<Expr>) -> Option<ExprShape> {
    match e {
        None => None,
        Some(e) => Some(expr_shape(e)),
    }
}

/// The shape of a statement.
pub open spec fn stmt_shape(s: Stmt) -> StmtShape
    decreases s,
{
    match s {
        Stmt::Let(name, init) => StmtShape::Let(name, option_shape(init)),
        Stmt::LetArray(name, length) => StmtShape::LetArray(name, expr_shape(length)),
        Stmt::Const(name, init) => StmtShape::Const(name, expr_shape(init)),
        Stmt::Func(name, params, body) => StmtShape::Func(name, params@, stmts_shape(body@)),
        Stmt::Assign(name, value) => StmtShape::Assign(name, expr_shape(value)),
        Stmt::AssignIndex(name, index, value) => StmtShape::AssignIndex(
            name,
            expr_shape(index),
            expr_shape(value),
        ),
        Stmt::If(cond, then, otherwise) => StmtShape::If(
            expr_shape(cond),
            stmts_shape(then@),
            stmts_shape(otherwise@),
        ),
        Stmt::While(cond, body) => StmtShape::While(expr_shape(cond), stmts_shape(body@)),
        Stmt::Block(body) => StmtShape::Block(stmts_shape(body@)),
        Stmt::Break => StmtShape::Break,
        Stmt::Continue => StmtShape::Continue,
        Stmt::Return(value) => StmtShape::Return(option_shape(value)),
        Stmt::Output(value) => StmtShape::Output(expr_shape(value)),
        Stmt::Eval(value) => StmtShape::Eval(expr_shape(value)),
    }
}

/// The shapes of a list of statements.
pub open spec fn stmts_shape(stmts: Seq<Stmt>) -> Seq<StmtShape>
    decreases stmts,
{
    if stmts.len() == 0 {
        seq![]
    } else {
        stmts_shape(stmts.drop_last()).push(stmt_shape(stmts.last()))
    }
}

/// The shape of a program: the shapes of its statements.
pub open spec fn program_shape(program: Program) -> Seq<StmtShape> {
    stmts_shape(program.items@)
}

/// A list has as many shapes as members, and the shape of each is at its
/// place.
pub proof fn lemma_exprs_shape(es: Seq<Expr>)
    ensures
        exprs_shape(es).len() == es.len(),
        forall|i: int| 0 <= i < es.len() ==> #[trigger] exprs_shape(es)[i] == expr_shape(es[i]),
    decreases es.len(),
{
    if es.len() > 0 {
        lemma_exprs_shape(es.drop_last());
    }
}

/// A list has as many shapes as members, and the shape of each is at its
/// place.
pub proof fn lemma_stmts_shape(stmts: Seq<Stmt>)
    ensures
        stmts_shape(stmts).len() == stmts.len(),
        forall|i: int|
            0 <= i < stmts.len() ==> #[trigger] stmts_shape(stmts)[i] == stmt_shape(stmts[i]),
    decreases stmts.len(),
{
    if stmts.len() > 0 {
        lemma_stmts_shape(stmts.drop_last());
    }
}

} // verus!
