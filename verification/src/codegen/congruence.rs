//! Trees of one shape compile alike.
//!
//! What a tree compiles to is a matter of its shape: which vectors hold its
//! lists makes no difference.

use vstd::prelude::*;
use crate::ast::{Expr, Program, Stmt};
use crate::control::{Control, Frame, FuncFrame, LoopFrame};
use crate::scope::{declare, enter, Binding, Scopes};
use crate::shape::{
    expr_shape, exprs_shape, lemma_exprs_shape, lemma_stmts_shape, option_shape, program_shape,
    stmt_shape, stmts_shape,
};
use super::model::{
    args_code, bind_params, const_value, expr_code, program_code, stmt_code, stmts_code,
};

verus! {

/// Constant expressions of one shape have one value.
pub proof fn lemma_const_same(a: Expr, b: Expr, scopes: Scopes)
    requires
        expr_shape(a) == expr_shape(b),
    ensures
        const_value(a, scopes) == const_value(b, scopes),
    decreases a,
{
    match (a, b) {
        (Expr::Binary(_, x1, x2), Expr::Binary(_, y1, y2)) => {
            lemma_const_same(*x1, *y1, scopes);
            lemma_const_same(*x2, *y2, scopes);
        },
        _ => {},
    }
}

/// Expressions of one shape have one code.
pub proof fn lemma_expr_same(a: Expr, b: Expr, scopes: Scopes, base: int)
    requires
        expr_shape(a) == expr_shape(b),
    ensures
        expr_code(a, scopes, base) == expr_code(b, scopes, base),
    decreases a,
{
    match (a, b) {
        (Expr::Index(_, i), Expr::Index(_, j)) => {
            lemma_expr_same(*i, *j, scopes, base);
        },
        (Expr::Call(_, x), Expr::Call(_, y)) => {
            lemma_exprs_shape(x@);
            lemma_exprs_shape(y@);
            lemma_args_same(x@, y@, scopes, base);
        },
        (Expr::Binary(_, x1, x2), Expr::Binary(_, y1, y2)) => {
            lemma_expr_same(*x1, *y1, scopes, base);
            if let Ok(m) = expr_code(*x1, scopes, base) {
                lemma_expr_same(*x2, *y2, scopes, base + m.code.len());
            }
        },
        _ => {},
    }
}

/// Lists of arguments of one shape have one code.
pub proof fn lemma_args_same(a: Seq<Expr>, b: Seq<Expr>, scopes: Scopes, base: int)
    requires
        exprs_shape(a) == exprs_shape(b),
    ensures
        a.len() == b.len(),
        args_code(a, scopes, base) == args_code(b, scopes, base),
    decreases a,
{
    lemma_exprs_shape(a);
    lemma_exprs_shape(b);
    if a.len() > 0 {
        assert(exprs_shape(a).drop_last() =~= exprs_shape(a.drop_last()));
        assert(exprs_shape(b).drop_last() =~= exprs_shape(b.drop_last()));
        assert(exprs_shape(a).last() == expr_shape(a.last()));
        assert(exprs_shape(b).last() == expr_shape(b.last()));
        lemma_args_same(a.drop_last(), b.drop_last(), scopes, base);
        if let Ok(before) = args_code(a.drop_last(), scopes, base) {
            lemma_expr_same(a.last(), b.last(), scopes, base + before.code.len());
        }
    }
}

/// An expression that may be missing: of one shape, of one code.
proof fn lemma_option_same(a: Option<Expr>, b: Option<Expr>, scopes: Scopes, base: int)
    requires
        option_shape(a) == option_shape(b),
    ensures
        a is Some == b is Some,
        a matches Some(x) ==> expr_code(x, scopes, base) == expr_code(b->Some_0, scopes, base),
{
    if let (Some(x), Some(y)) = (a, b) {
        lemma_expr_same(x, y, scopes, base);
    }
}

/// Statements of one shape that hold no statements have one code.
proof fn lemma_plain_same(a: Stmt, b: Stmt, scopes: Scopes, control: Control, base: int)
    requires
        stmt_shape(a) == stmt_shape(b),
        !(a is Func || a is If || a is While || a is Block),
    ensures
        stmt_code(a, scopes, control, base) == stmt_code(b, scopes, control, base),
{
    match (a, b) {
        (Stmt::Let(_, x), Stmt::Let(_, y)) => {
            lemma_option_same(x, y, scopes, base);
        },
        (Stmt::LetArray(_, x), Stmt::LetArray(_, y)) => {
            lemma_const_same(x, y, scopes);
        },
        (Stmt::Const(_, x), Stmt::Const(_, y)) => {
            lemma_const_same(x, y, scopes);
        },
        (Stmt::Assign(_, x), Stmt::Assign(_, y)) => {
            lemma_expr_same(x, y, scopes, base);
        },
        (Stmt::AssignIndex(_, i, x), Stmt::AssignIndex(_, j, y)) => {
            lemma_expr_same(i, j, scopes, base);
            if let Ok(m) = expr_code(i, scopes, base) {
                lemma_expr_same(x, y, scopes, base + m.code.len());
            }
        },
        (Stmt::Return(x), Stmt::Return(y)) => {
            lemma_option_same(x, y, scopes, base);
        },
        (Stmt::Output(x), Stmt::Output(y)) => {
            lemma_expr_same(x, y, scopes, base);
        },
        (Stmt::Eval(x), Stmt::Eval(y)) => {
            lemma_expr_same(x, y, scopes, base);
        },
        _ => {},
    }
}

/// Declarations of a function of one shape have one code.
proof fn lemma_func_same(a: Stmt, b: Stmt, scopes: Scopes, control: Control, base: int)
    requires
        stmt_shape(a) == stmt_shape(b),
        a is Func,
    ensures
        stmt_code(a, scopes, control, base) == stmt_code(b, scopes, control, base),
    decreases a, 0int,
{
    match (a, b) {
        (Stmt::Func(name, params, x), Stmt::Func(_, _, y)) => {
            let arity = params@.len() as int;
            let outer = declare(
                scopes,
                name,
                Binding::Func {
                    entry: (base + 3 + arity) as usize,
                    ret_addr: base as usize,
                    ret_val: (base + 1) as usize,
                    first_param: (base + 2) as usize,
                    arity: arity as usize,
                },
            );
            let frame = FuncFrame { ret_addr: base as usize, ret_val: (base + 1) as usize };
            if let Ok(inner) = bind_params(params@, enter(outer), base + 2) {
                lemma_stmts_same(
                    x@,
                    y@,
                    inner,
                    control.push(Frame::Func(frame)),
                    base + 3 + arity,
                );
            }
        },
        _ => {},
    }
}

/// Conditionals of one shape have one code.
proof fn lemma_if_same(a: Stmt, b: Stmt, scopes: Scopes, control: Control, base: int)
    requires
        stmt_shape(a) == stmt_shape(b),
        a is If,
    ensures
        stmt_code(a, scopes, control, base) == stmt_code(b, scopes, control, base),
    decreases a, 0int,
{
    match (a, b) {
        (Stmt::If(c, t, e), Stmt::If(d, u, f)) => {
            lemma_expr_same(c, d, scopes, base);
            if let Ok(m) = expr_code(c, scopes, base) {
                let test = base + m.code.len();
                lemma_stmts_same(t@, u@, enter(scopes), control, test + 1);
                if let Ok(o) = stmts_code(t@, enter(scopes), control, test + 1) {
                    lemma_stmts_same(e@, f@, enter(scopes), control, test + 1 + o.code.len() + 1);
                }
            }
        },
        _ => {},
    }
}

/// Loops of one shape have one code.
proof fn lemma_while_same(a: Stmt, b: Stmt, scopes: Scopes, control: Control, base: int)
    requires
        stmt_shape(a) == stmt_shape(b),
        a is While,
    ensures
        stmt_code(a, scopes, control, base) == stmt_code(b, scopes, control, base),
    decreases a, 0int,
{
    match (a, b) {
        (Stmt::While(c, x), Stmt::While(d, y)) => {
            lemma_expr_same(c, d, scopes, base);
            if let Ok(m) = expr_code(c, scopes, base) {
                let test = base + m.code.len();
                let frame = LoopFrame { cont: base as usize, brk: (test + 1) as usize };
                lemma_stmts_same(
                    x@,
                    y@,
                    enter(scopes),
                    control.push(Frame::Loop(frame)),
                    test + 2,
                );
            }
        },
        _ => {},
    }
}

/// Blocks of one shape have one code.
proof fn lemma_block_same(a: Stmt, b: Stmt, scopes: Scopes, control: Control, base: int)
    requires
        stmt_shape(a) == stmt_shape(b),
        a is Block,
    ensures
        stmt_code(a, scopes, control, base) == stmt_code(b, scopes, control, base),
    decreases a, 0int,
{
    match (a, b) {
        (Stmt::Block(x), Stmt::Block(y)) => {
            assert(decreases_to!(a => x@));
            lemma_stmts_same(x@, y@, enter(scopes), control, base);
        },
        _ => {},
    }
}

/// Statements of one shape have one code.
pub proof fn lemma_stmt_same(a: Stmt, b: Stmt, scopes: Scopes, control: Control, base: int)
    requires
        stmt_shape(a) == stmt_shape(b),
    ensures
        stmt_code(a, scopes, control, base) == stmt_code(b, scopes, control, base),
    decreases a, 1int,
{
    if a is Func {
        lemma_func_same(a, b, scopes, control, base);
    } else if a is If {
        lemma_if_same(a, b, scopes, control, base);
    } else if a is While {
        lemma_while_same(a, b, scopes, control, base);
    } else if a is Block {
        lemma_block_same(a, b, scopes, control, base);
    } else {
        lemma_plain_same(a, b, scopes, control, base);
    }
}

/// Lists of statements of one shape have one code.
pub proof fn lemma_stmts_same(
    a: Seq<Stmt>,
    b: Seq<Stmt>,
    scopes: Scopes,
    control: Control,
    base: int,
)
    requires
        stmts_shape(a) == stmts_shape(b),
    ensures
        stmts_code(a, scopes, control, base) == stmts_code(b, scopes, control, base),
    decreases a, 2int,
{
    lemma_stmts_shape(a);
    lemma_stmts_shape(b);
    if a.len() > 0 {
        assert(stmts_shape(a).drop_last() =~= stmts_shape(a.drop_last()));
        assert(stmts_shape(b).drop_last() =~= stmts_shape(b.drop_last()));
        assert(stmts_shape(a).last() == stmt_shape(a.last()));
        assert(stmts_shape(b).last() == stmt_shape(b.last()));
        lemma_stmts_same(a.drop_last(), b.drop_last(), scopes, control, base);
        if let Ok(before) = stmts_code(a.drop_last(), scopes, control, base) {
            lemma_stmt_same(a.last(), b.last(), before.scopes, control, base + before.code.len());
        }
    }
}

/// Programs of one shape compile to the same instructions or have the same
/// error.
pub proof fn lemma_program_same(a: Program, b: Program)
    requires
        program_shape(a) == program_shape(b),
    ensures
        program_code(a) == program_code(b),
{
    lemma_stmts_same(a.items@, b.items@, seq![Map::empty()], seq![], 0);
}

} // verus!
