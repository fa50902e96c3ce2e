//! Every violation of a program, in source order.
//!
//! The compiler stops at the first violation. What is defined here goes on
//! after one: it lists all of them, which takes no more than to know of each
//! name what kind of thing it is. A declaration that repeats a name of its
//! scope is listed and otherwise ignored, so the name keeps its first
//! meaning. [`lemma_first_violation`] ties the two together: the compiler
//! fails exactly on the programs that have a violation, and with the first.

use vstd::prelude::*;
use crate::ast::{Expr, Ident, Program, Stmt};
use crate::codegen::model::{
    args_code, bind_params, const_value, expr_code, program_code, stmt_code, stmts_code,
};
use crate::control::{current_function, current_loop, Control, Frame, FuncFrame, LoopFrame};
use crate::error::CompilerError;
use crate::scope::{declare, declared_here, enter, lookup, Binding, Scopes};

verus! {

/// What kind of thing a name stands for.
pub enum Kind {
    /// A variable or a parameter.
    Scalar,
    Array,
    Const,
    /// A function with its number of parameters.
    Func { arity: usize },
}

/// Scopes that record of each name its kind only.
pub type Kinds = Seq<Map<Ident, Kind>>;

/// The kind of a binding.
pub open spec fn kind_of(binding: Binding) -> Kind {
    match binding {
        Binding::Var { .. } => Kind::Scalar,
        Binding::Param { .. } => Kind::Scalar,
        Binding::Array { .. } => Kind::Array,
        Binding::Const { .. } => Kind::Const,
        Binding::Func { arity, .. } => Kind::Func { arity },
    }
}

/// The kinds of the names in a frame.
pub open spec fn frame_kinds(frame: Map<Ident, Binding>) -> Map<Ident, Kind> {
    Map::new(|name: Ident| frame.contains_key(name), |name: Ident| kind_of(frame[name]))
}

/// The kinds of the names in a stack of scopes.
pub open spec fn kinds_of(scopes: Scopes) -> Kinds {
    Seq::new(scopes.len(), |i: int| frame_kinds(scopes[i]))
}

/// The violations that a statement has, and the kinds that the next
/// statement sees.
pub struct Findings {
    pub errors: Seq<CompilerError>,
    pub kinds: Kinds,
}

/// The violations of a constant expression.
pub open spec fn const_violations(e: Expr, kinds: Kinds) -> Seq<CompilerError>
    decreases e,
{
    match e {
        Expr::Num(_) => seq![],
        Expr::Var(name) => match lookup(kinds, name) {
            Some(Kind::Const) => seq![],
            _ => seq![CompilerError::UndefinedOrNonConstInConstant],
        },
        Expr::Index(_, _) => seq![CompilerError::IndexInConstant],
        Expr::Call(_, _) => seq![CompilerError::FunctionCallInConstant],
        Expr::Binary(_, left, right) => const_violations(*left, kinds) + const_violations(
            *right,
            kinds,
        ),
    }
}

/// The violation of a name that has to be of a kind for which `fits` holds.
pub open spec fn name_violations(kinds: Kinds, name: Ident, fits: spec_fn(Kind) -> bool) -> Seq<
    CompilerError,
> {
    match lookup(kinds, name) {
        Some(kind) => if fits(kind) {
            seq![]
        } else {
            seq![CompilerError::UndefinedVariable(name)]
        },
        None => seq![CompilerError::UndefinedVariable(name)],
    }
}

/// The violations of an expression that is evaluated when the program runs.
pub open spec fn expr_violations(e: Expr, kinds: Kinds) -> Seq<CompilerError>
    decreases e,
{
    match e {
        Expr::Num(_) => seq![],
        Expr::Var(name) => name_violations(
            kinds,
            name,
            |kind: Kind| kind is Scalar || kind is Const,
        ),
        Expr::Index(name, index) => name_violations(kinds, name, |kind: Kind| kind is Array)
            + expr_violations(*index, kinds),
        Expr::Call(name, args) => name_violations(
            kinds,
            name,
            |kind: Kind| kind == (Kind::Func { arity: args@.len() as usize }),
        ) + args_violations(args@, kinds),
        Expr::Binary(_, left, right) => expr_violations(*left, kinds) + expr_violations(
            *right,
            kinds,
        ),
    }
}

/// The violations of the arguments of a call.
pub open spec fn args_violations(args: Seq<Expr>, kinds: Kinds) -> Seq<CompilerError>
    decreases args,
{
    if args.len() == 0 {
        seq![]
    } else {
        args_violations(args.drop_last(), kinds) + expr_violations(args.last(), kinds)
    }
}

/// What a declaration of `name` as a `kind` finds: a duplicate, which
/// changes nothing, or a new name.
pub open spec fn declare_findings(kinds: Kinds, name: Ident, kind: Kind) -> Findings {
    if declared_here(kinds, name) {
        Findings { errors: seq![CompilerError::DuplicateDeclaration(name)], kinds }
    } else {
        Findings { errors: seq![], kinds: declare(kinds, name, kind) }
    }
}

/// What the declarations of the parameters of a function find.
pub open spec fn params_findings(params: Seq<Ident>, kinds: Kinds) -> Findings
    decreases params.len(),
{
    if params.len() == 0 {
        Findings { errors: seq![], kinds }
    } else {
        let before = params_findings(params.drop_last(), kinds);
        let last = declare_findings(before.kinds, params.last(), Kind::Scalar);
        Findings { errors: before.errors + last.errors, kinds: last.kinds }
    }
}

/// What one statement has of violations, given the kinds of the names
/// around it and whether a loop of the current function and a function are
/// around it.
pub open spec fn stmt_findings(s: Stmt, kinds: Kinds, in_loop: bool, in_func: bool) -> Findings
    decreases s,
{
    match s {
        Stmt::Let(name, None) => declare_findings(kinds, name, Kind::Scalar),
        Stmt::Let(name, Some(init)) => {
            let d = declare_findings(kinds, name, Kind::Scalar);
            Findings { errors: d.errors + expr_violations(init, kinds), kinds: d.kinds }
        },
        Stmt::LetArray(name, length) => {
            let d = declare_findings(kinds, name, Kind::Array);
            Findings { errors: d.errors + const_violations(length, kinds), kinds: d.kinds }
        },
        Stmt::Const(name, init) => {
            let d = declare_findings(kinds, name, Kind::Const);
            Findings { errors: d.errors + const_violations(init, kinds), kinds: d.kinds }
        },
        Stmt::Func(name, params, body) => {
            let d = declare_findings(kinds, name, Kind::Func { arity: params@.len() as usize });
            let p = params_findings(params@, enter(d.kinds));
            let b = stmts_findings(body@, p.kinds, false, true);
            Findings { errors: d.errors + p.errors + b.errors, kinds: d.kinds }
        },
        Stmt::Assign(name, value) => Findings {
            errors: name_violations(kinds, name, |kind: Kind| kind is Scalar) + expr_violations(
                value,
                kinds,
            ),
            kinds,
        },
        Stmt::AssignIndex(name, index, value) => Findings {
            errors: name_violations(kinds, name, |kind: Kind| kind is Array) + expr_violations(
                index,
                kinds,
            ) + expr_violations(value, kinds),
            kinds,
        },
        Stmt::If(cond, then, otherwise) => Findings {
            errors: expr_violations(cond, kinds) + stmts_findings(
                then@,
                enter(kinds),
                in_loop,
                in_func,
            ).errors + stmts_findings(otherwise@, enter(kinds), in_loop, in_func).errors,
            kinds,
        },
        Stmt::While(cond, body) => Findings {
            errors: expr_violations(cond, kinds) + stmts_findings(
                body@,
                enter(kinds),
                true,
                in_func,
            ).errors,
            kinds,
        },
        Stmt::Block(body) => Findings {
            errors: stmts_findings(body@, enter(kinds), in_loop, in_func).errors,
            kinds,
        },
        Stmt::Break => Findings {
            errors: if in_loop {
                seq![]
            } else {
                seq![CompilerError::BreakOutsideLoop]
            },
            kinds,
        },
        Stmt::Continue => Findings {
            errors: if in_loop {
                seq![]
            } else {
                seq![CompilerError::ContinueOutsideLoop]
            },
            kinds,
        },
        Stmt::Return(None) => Findings {
            errors: if in_func {
                seq![]
            } else {
                seq![CompilerError::ReturnOutsideFunction]
            },
            kinds,
        },
        Stmt::Return(Some(value)) => Findings {
            errors: if in_func {
                expr_violations(value, kinds)
            } else {
                seq![CompilerError::ReturnOutsideFunction] + expr_violations(value, kinds)
            },
            kinds,
        },
        Stmt::Output(value) => Findings { errors: expr_violations(value, kinds), kinds },
        Stmt::Eval(value) => Findings { errors: expr_violations(value, kinds), kinds },
    }
}

/// What a list of statements in one scope frame has of violations.
pub open spec fn stmts_findings(
    stmts: Seq<Stmt>,
    kinds: Kinds,
    in_loop: bool,
    in_func: bool,
) -> Findings
    decreases stmts,
{
    if stmts.len() == 0 {
        Findings { errors: seq![], kinds }
    } else {
        let before = stmts_findings(stmts.drop_last(), kinds, in_loop, in_func);
        let last = stmt_findings(stmts.last(), before.kinds, in_loop, in_func);
        Findings { errors: before.errors + last.errors, kinds: last.kinds }
    }
}

/// All violations of a program, in source order.
pub open spec fn program_violations(program: Program) -> Seq<CompilerError> {
    stmts_findings(program.items@, seq![Map::empty()], false, false).errors
}

/// Whether a list of violations is empty, for `None`, or begins with the
/// given one.
pub open spec fn starts_with(errors: Seq<CompilerError>, first: Option<CompilerError>) -> bool {
    match first {
        None => errors.len() == 0,
        Some(x) => errors.len() > 0 && errors[0] == x,
    }
}

/// The error of a result, if it is one.
pub open spec fn error_of<T>(result: Result<T, CompilerError>) -> Option<CompilerError> {
    match result {
        Ok(_) => None,
        Err(x) => Some(x),
    }
}

/// A name is found among the kinds exactly when it is found among the
/// bindings, and with the kind of its binding.
pub proof fn lemma_kinds_lookup(scopes: Scopes, name: Ident)
    ensures
        lookup(kinds_of(scopes), name) == match lookup(scopes, name) {
            Some(binding) => Some(kind_of(binding)),
            None => None,
        },
        declared_here(kinds_of(scopes), name) == declared_here(scopes, name),
    decreases scopes.len(),
{
    if scopes.len() > 0 {
        assert(kinds_of(scopes).drop_last() =~= kinds_of(scopes.drop_last()));
        lemma_kinds_lookup(scopes.drop_last(), name);
    }
}

/// Declaring means the same for kinds as for bindings.
pub proof fn lemma_kinds_declare(scopes: Scopes, name: Ident, binding: Binding)
    requires
        scopes.len() > 0,
    ensures
        kinds_of(declare(scopes, name, binding)) == declare(
            kinds_of(scopes),
            name,
            kind_of(binding),
        ),
        declare(scopes, name, binding).len() == scopes.len(),
{
    assert(kinds_of(declare(scopes, name, binding)) =~~= declare(
        kinds_of(scopes),
        name,
        kind_of(binding),
    ));
}

/// Entering a frame means the same for kinds as for bindings.
pub proof fn lemma_kinds_enter(scopes: Scopes)
    ensures
        kinds_of(enter(scopes)) == enter(kinds_of(scopes)),
        enter(scopes).len() == scopes.len() + 1,
{
    assert(kinds_of(enter(scopes)) =~~= enter(kinds_of(scopes)));
}

/// A constant expression fails with the first of its violations.
pub proof fn lemma_const_violations(e: Expr, scopes: Scopes)
    ensures
        starts_with(const_violations(e, kinds_of(scopes)), error_of(const_value(e, scopes))),
    decreases e,
{
    match e {
        Expr::Var(name) => {
            lemma_kinds_lookup(scopes, name);
        },
        Expr::Binary(_, left, right) => {
            lemma_const_violations(*left, scopes);
            lemma_const_violations(*right, scopes);
        },
        _ => {},
    }
}

/// An expression fails with the first of its violations.
pub proof fn lemma_expr_violations(e: Expr, scopes: Scopes, base: int)
    ensures
        starts_with(expr_violations(e, kinds_of(scopes)), error_of(expr_code(e, scopes, base))),
    decreases e, 1int,
{
    match e {
        Expr::Num(_) => {},
        Expr::Var(name) => {
            lemma_kinds_lookup(scopes, name);
        },
        Expr::Index(name, index) => {
            lemma_kinds_lookup(scopes, name);
            lemma_expr_violations(*index, scopes, base);
        },
        Expr::Call(name, args) => {
            lemma_call_violations(name, args, scopes, base);
        },
        Expr::Binary(_, left, right) => {
            lemma_expr_violations(*left, scopes, base);
            if let Ok(a) = expr_code(*left, scopes, base) {
                lemma_expr_violations(*right, scopes, base + a.code.len());
            }
        },
    }
}

/// A call fails with the first of its violations.
proof fn lemma_call_violations(name: Ident, args: Vec<Expr>, scopes: Scopes, base: int)
    ensures
        starts_with(
            expr_violations(Expr::Call(name, args), kinds_of(scopes)),
            error_of(expr_code(Expr::Call(name, args), scopes, base)),
        ),
    decreases Expr::Call(name, args), 0int,
{
    let kinds = kinds_of(scopes);
    lemma_kinds_lookup(scopes, name);
    lemma_args_violations(args@, scopes, base);
    assert(args@.len() == args.len());
    let fits = |kind: Kind| kind == (Kind::Func { arity: args@.len() as usize });
    let callee = name_violations(kinds, name, fits);
    assert(expr_violations(Expr::Call(name, args), kinds) == callee + args_violations(
        args@,
        kinds,
    ));
    match lookup(scopes, name) {
        Some(Binding::Func { entry, ret_addr, ret_val, first_param, arity }) => {
            assert(lookup(kinds, name) == Some(Kind::Func { arity }));
            if arity != args@.len() {
                assert(!fits(Kind::Func { arity }));
                assert(callee == seq![CompilerError::UndefinedVariable(name)]);
            } else {
                assert(fits(Kind::Func { arity }));
                assert(callee == Seq::<CompilerError>::empty());
            }
        },
        Some(other) => {
            assert(!fits(kind_of(other)));
            assert(callee == seq![CompilerError::UndefinedVariable(name)]);
        },
        None => {
            assert(callee == seq![CompilerError::UndefinedVariable(name)]);
        },
    }
}

/// The arguments of a call fail with the first of their violations.
pub proof fn lemma_args_violations(args: Seq<Expr>, scopes: Scopes, base: int)
    ensures
        starts_with(
            args_violations(args, kinds_of(scopes)),
            error_of(args_code(args, scopes, base)),
        ),
    decreases args, 2int,
{
    if args.len() > 0 {
        lemma_args_violations(args.drop_last(), scopes, base);
        if let Ok(before) = args_code(args.drop_last(), scopes, base) {
            lemma_expr_violations(args.last(), scopes, base + before.code.len());
        }
    }
}

/// The parameters of a function fail with the first of their violations,
/// and without one they leave the kinds of what they bind.
pub proof fn lemma_params_findings(params: Seq<Ident>, scopes: Scopes, first: int)
    requires
        scopes.len() > 0,
    ensures
        starts_with(
            params_findings(params, kinds_of(scopes)).errors,
            error_of(bind_params(params, scopes, first)),
        ),
        bind_params(params, scopes, first) matches Ok(bound) ==> bound.len() == scopes.len()
            && params_findings(params, kinds_of(scopes)).kinds == kinds_of(bound),
    decreases params.len(),
{
    if params.len() > 0 {
        lemma_params_findings(params.drop_last(), scopes, first);
        if let Ok(bound) = bind_params(params.drop_last(), scopes, first) {
            lemma_kinds_lookup(bound, params.last());
            lemma_kinds_declare(
                bound,
                params.last(),
                Binding::Param { cell: (first + params.len() - 1) as usize },
            );
        }
    }
}

/// What the compiler and the list of violations say of one statement: the
/// compiler fails with the first violation, and without one the statement
/// leaves the kinds of what it binds.
pub open spec fn agree(s: Stmt, scopes: Scopes, control: Control, base: int) -> bool {
    let found = stmt_findings(
        s,
        kinds_of(scopes),
        current_loop(control) is Some,
        current_function(control) is Some,
    );
    &&& starts_with(found.errors, error_of(stmt_code(s, scopes, control, base)))
    &&& stmt_code(s, scopes, control, base) matches Ok(o) ==> o.scopes.len() == scopes.len()
        && found.kinds == kinds_of(o.scopes)
}

/// What the compiler and the list of violations say of a list of
/// statements.
pub open spec fn agree_all(stmts: Seq<Stmt>, scopes: Scopes, control: Control, base: int) -> bool {
    let found = stmts_findings(
        stmts,
        kinds_of(scopes),
        current_loop(control) is Some,
        current_function(control) is Some,
    );
    &&& starts_with(found.errors, error_of(stmts_code(stmts, scopes, control, base)))
    &&& stmts_code(stmts, scopes, control, base) matches Ok(o) ==> o.scopes.len() == scopes.len()
        && found.kinds == kinds_of(o.scopes)
}

/// The declaration of a variable fails with the first of its violations.
proof fn lemma_let_findings(
    name: Ident,
    init: Option<Expr>,
    scopes: Scopes,
    control: Control,
    base: int,
)
    requires
        scopes.len() > 0,
    ensures
        agree(Stmt::Let(name, init), scopes, control, base),
{
    lemma_kinds_lookup(scopes, name);
    match init {
        None => {
            lemma_kinds_declare(scopes, name, Binding::Var { cell: base as usize });
        },
        Some(init) => {
            lemma_expr_violations(init, scopes, base);
            if let Ok(v) = expr_code(init, scopes, base) {
                lemma_kinds_declare(
                    scopes,
                    name,
                    Binding::Var { cell: (base + v.code.len()) as usize },
                );
            }
        },
    }
}

/// The declaration of an array or a constant fails with the first of its
/// violations.
proof fn lemma_folded_findings(s: Stmt, scopes: Scopes, control: Control, base: int)
    requires
        scopes.len() > 0,
        s is LetArray || s is Const,
    ensures
        agree(s, scopes, control, base),
{
    match s {
        Stmt::LetArray(name, length) => {
            lemma_kinds_lookup(scopes, name);
            lemma_const_violations(length, scopes);
            lemma_kinds_declare(scopes, name, Binding::Array { slot: base as usize });
        },
        Stmt::Const(name, init) => {
            lemma_kinds_lookup(scopes, name);
            lemma_const_violations(init, scopes);
            if let Ok(value) = const_value(init, scopes) {
                lemma_kinds_declare(scopes, name, Binding::Const { value });
            }
        },
        _ => {},
    }
}

/// An assignment fails with the first of its violations.
proof fn lemma_assign_findings(s: Stmt, scopes: Scopes, control: Control, base: int)
    requires
        scopes.len() > 0,
        s is Assign || s is AssignIndex,
    ensures
        agree(s, scopes, control, base),
{
    match s {
        Stmt::Assign(name, value) => {
            lemma_kinds_lookup(scopes, name);
            lemma_expr_violations(value, scopes, base);
        },
        Stmt::AssignIndex(name, index, value) => {
            lemma_kinds_lookup(scopes, name);
            lemma_expr_violations(index, scopes, base);
            if let Ok(i) = expr_code(index, scopes, base) {
                lemma_expr_violations(value, scopes, base + i.code.len());
            }
        },
        _ => {},
    }
}

/// A statement that holds no statements and declares nothing fails with the
/// first of its violations.
proof fn lemma_simple_findings(s: Stmt, scopes: Scopes, control: Control, base: int)
    requires
        scopes.len() > 0,
        s is Break || s is Continue || s is Return || s is Output || s is Eval,
    ensures
        agree(s, scopes, control, base),
{
    match s {
        Stmt::Return(Some(value)) => {
            lemma_expr_violations(value, scopes, base);
        },
        Stmt::Output(value) => {
            lemma_expr_violations(value, scopes, base);
        },
        Stmt::Eval(value) => {
            lemma_expr_violations(value, scopes, base);
        },
        _ => {},
    }
}

/// The declaration of a function fails with the first of its violations.
proof fn lemma_func_findings(
    name: Ident,
    params: Vec<Ident>,
    body: Vec<Stmt>,
    scopes: Scopes,
    control: Control,
    base: int,
)
    requires
        scopes.len() > 0,
    ensures
        agree(Stmt::Func(name, params, body), scopes, control, base),
    decreases Stmt::Func(name, params, body), 0int,
{
    lemma_kinds_lookup(scopes, name);
    if !declared_here(scopes, name) {
        let arity = params@.len() as int;
        let binding = Binding::Func {
            entry: (base + 3 + arity) as usize,
            ret_addr: base as usize,
            ret_val: (base + 1) as usize,
            first_param: (base + 2) as usize,
            arity: arity as usize,
        };
        let outer = declare(scopes, name, binding);
        lemma_kinds_declare(scopes, name, binding);
        lemma_kinds_enter(outer);
        lemma_params_findings(params@, enter(outer), base + 2);
        if let Ok(inner) = bind_params(params@, enter(outer), base + 2) {
            let frame = FuncFrame { ret_addr: base as usize, ret_val: (base + 1) as usize };
            let inside = control.push(Frame::Func(frame));
            assert(current_loop(inside) is None);
            assert(current_function(inside) is Some);
            lemma_stmts_findings(body@, inner, inside, base + 3 + arity);
        }
    }
}

/// A conditional fails with the first of its violations.
proof fn lemma_if_findings(
    cond: Expr,
    then: Vec<Stmt>,
    otherwise: Vec<Stmt>,
    scopes: Scopes,
    control: Control,
    base: int,
)
    requires
        scopes.len() > 0,
    ensures
        agree(Stmt::If(cond, then, otherwise), scopes, control, base),
    decreases Stmt::If(cond, then, otherwise), 0int,
{
    lemma_expr_violations(cond, scopes, base);
    lemma_kinds_enter(scopes);
    if let Ok(c) = expr_code(cond, scopes, base) {
        let test = base + c.code.len();
        lemma_stmts_findings(then@, enter(scopes), control, test + 1);
        if let Ok(t) = stmts_code(then@, enter(scopes), control, test + 1) {
            lemma_stmts_findings(otherwise@, enter(scopes), control, test + 1 + t.code.len() + 1);
        }
    }
}

/// A loop fails with the first of its violations.
proof fn lemma_while_findings(
    cond: Expr,
    body: Vec<Stmt>,
    scopes: Scopes,
    control: Control,
    base: int,
)
    requires
        scopes.len() > 0,
    ensures
        agree(Stmt::While(cond, body), scopes, control, base),
    decreases Stmt::While(cond, body), 0int,
{
    lemma_expr_violations(cond, scopes, base);
    lemma_kinds_enter(scopes);
    if let Ok(c) = expr_code(cond, scopes, base) {
        let test = base + c.code.len();
        let frame = LoopFrame { cont: base as usize, brk: (test + 1) as usize };
        let inside = control.push(Frame::Loop(frame));
        assert(inside.drop_last() =~= control);
        assert(current_loop(inside) is Some);
        assert(current_function(inside) == current_function(control));
        lemma_stmts_findings(body@, enter(scopes), inside, test + 2);
    }
}

/// A block fails with the first of its violations.
proof fn lemma_block_findings(body: Vec<Stmt>, scopes: Scopes, control: Control, base: int)
    requires
        scopes.len() > 0,
    ensures
        agree(Stmt::Block(body), scopes, control, base),
    decreases Stmt::Block(body), 0int,
{
    lemma_kinds_enter(scopes);
    let block = Stmt::Block(body);
    assert(block->Block_0 == body);
    assert(decreases_to!(block => body@));
    lemma_stmts_findings(body@, enter(scopes), control, base);
}

/// A statement fails with the first of its violations, and without one it
/// leaves the kinds of what it binds.
pub proof fn lemma_stmt_findings(s: Stmt, scopes: Scopes, control: Control, base: int)
    requires
        scopes.len() > 0,
    ensures
        agree(s, scopes, control, base),
    decreases s, 1int,
{
    match s {
        Stmt::Let(name, init) => lemma_let_findings(name, init, scopes, control, base),
        Stmt::LetArray(_, _) => lemma_folded_findings(s, scopes, control, base),
        Stmt::Const(_, _) => lemma_folded_findings(s, scopes, control, base),
        Stmt::Func(name, params, body) => lemma_func_findings(
            name,
            params,
            body,
            scopes,
            control,
            base,
        ),
        Stmt::Assign(_, _) => lemma_assign_findings(s, scopes, control, base),
        Stmt::AssignIndex(_, _, _) => lemma_assign_findings(s, scopes, control, base),
        Stmt::If(cond, then, otherwise) => lemma_if_findings(
            cond,
            then,
            otherwise,
            scopes,
            control,
            base,
        ),
        Stmt::While(cond, body) => lemma_while_findings(cond, body, scopes, control, base),
        Stmt::Block(body) => lemma_block_findings(body, scopes, control, base),
        _ => lemma_simple_findings(s, scopes, control, base),
    }
}

/// A list of statements fails with the first of its violations, and without
/// one it leaves the kinds of what it binds.
pub proof fn lemma_stmts_findings(stmts: Seq<Stmt>, scopes: Scopes, control: Control, base: int)
    requires
        scopes.len() > 0,
    ensures
        agree_all(stmts, scopes, control, base),
    decreases stmts, 2int,
{
    if stmts.len() > 0 {
        lemma_stmts_findings(stmts.drop_last(), scopes, control, base);
        if let Ok(before) = stmts_code(stmts.drop_last(), scopes, control, base) {
            lemma_stmt_findings(stmts.last(), before.scopes, control, base + before.code.len());
        }
    }
}

/// The compiler fails exactly on the programs that have a violation, and
/// with the first of them in source order.
pub proof fn lemma_first_violation(program: Program)
    ensures
        starts_with(program_violations(program), error_of(program_code(program))),
{
    let global: Scopes = seq![Map::empty()];
    assert(kinds_of(global) =~~= seq![Map::<Ident, Kind>::empty()]);
    lemma_stmts_findings(program.items@, global, Seq::empty(), 0);
    assert(current_loop(Seq::<Frame>::empty()) is None);
    assert(current_function(Seq::<Frame>::empty()) is None);
}

/// A program with exactly one violation is rejected with that violation, and
/// no instructions come out.
pub proof fn lemma_single_violation(program: Program)
    requires
        program_violations(program).len() == 1,
    ensures
        program_code(program) == Err::<Seq<crate::target::Instr>, CompilerError>(
            program_violations(program)[0],
        ),
{
    lemma_first_violation(program);
}

} // verus!
