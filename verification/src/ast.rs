//! The abstract syntax tree of the source language.
//!
//! A program is a list of statements. Names occur in the tree as interned
//! handles ([`Ident`]); the table that maps a handle back to its spelling is
//! the [`Environment`](crate::env::Environment).

use vstd::prelude::*;

verus! {

/// Handle of an interned identifier.
///
/// Two handles are equal exactly when they stand for the same spelling in the
/// environment that produced them.
#[derive(Clone, Copy, Debug, PartialEq, Eq, Structural, Hash)]
pub struct Ident {
    pub id: usize,
}

/// A binary operator of the source language.
#[derive(Clone, Copy, Debug, PartialEq, Eq, Structural, Hash)]
pub enum BinOp {
    /// `a + b`
    Add,
    /// `a - b`
    Sub,
    /// `a * b`
    Mul,
    /// `a < b`, which is 1 when it holds and 0 when it does not
    Less,
    /// `a == b`, which is 1 when it holds and 0 when it does not
    Equal,
}

/// An expression.
#[derive(Debug, PartialEq, Eq)]
pub enum Expr {
    /// An integer literal.
    Num(i64),
    /// A name used as a value: a variable, a parameter or a constant.
    Var(Ident),
    /// `name[index]`
    Index(Ident, Box<Expr>),
    /// `name(arguments)`
    Call(Ident, Vec<Expr>),
    /// `left op right`
    Binary(BinOp, Box<Expr>, Box<Expr>),
}

/// A statement. Declarations are statements too.
#[derive(Debug, PartialEq, Eq)]
pub enum Stmt {
    /// `let name;` or `let name = value;`
    Let(Ident, Option<Expr>),
    /// `let name[length];` where `length` is a constant expression
    LetArray(Ident, Expr),
    /// `const name = value;` where `value` is a constant expression
    Const(Ident, Expr),
    /// `fn name(parameters) { body }`
    Func(Ident, Vec<Ident>, Vec<Stmt>),
    /// `name = value;`
    Assign(Ident, Expr),
    /// `name[index] = value;`
    AssignIndex(Ident, Expr, Expr),
    /// `if condition { then } else { otherwise }`; a missing `else` is an
    /// empty list
    If(Expr, Vec<Stmt>, Vec<Stmt>),
    /// `while condition { body }`
    While(Expr, Vec<Stmt>),
    /// `{ statements }`
    Block(Vec<Stmt>),
    /// `break;`
    Break,
    /// `continue;`
    Continue,
    /// `return;` or `return value;`
    Return(Option<Expr>),
    /// `out value;` writes the value to the machine's output
    Output(Expr),
    /// `value;` evaluates the expression and drops the result
    Eval(Expr),
}

/// A whole program: its top-level statements in source order.
#[derive(Debug, PartialEq, Eq)]
pub struct Program {
    pub items: Vec<Stmt>,
}

} // verus!
