//! What holds of every compilation.

use vstd::prelude::*;
use crate::ast::{Expr, Ident, Program, Stmt};
use crate::control::{current_function, current_loop, Control, Frame, FuncFrame, LoopFrame};
use crate::error::CompilerError;
use crate::scope::{declare, declared_here, enter, lookup, Binding, Scopes};
use crate::target::{Instr, Operand};
use super::model::{compiles_to, const_value, expr_code, stmt_code, stmts_code, Emitted, Outcome};

verus! {

/// Whether two results of a compilation are the same: the same
/// instructions, or the same error.
pub open spec fn same_result(
    a: Result<Vec<Instr>, CompilerError>,
    b: Result<Vec<Instr>, CompilerError>,
) -> bool {
    match (a, b) {
        (Ok(x), Ok(y)) => x@ == y@,
        (Err(x), Err(y)) => x == y,
        _ => false,
    }
}

/// Compiling is deterministic: whatever two compilations of one program
/// return, they return the same.
pub proof fn lemma_deterministic(
    program: Program,
    first: Result<Vec<Instr>, CompilerError>,
    second: Result<Vec<Instr>, CompilerError>,
)
    requires
        compiles_to(program, first),
        compiles_to(program, second),
    ensures
        same_result(first, second),
{
}

/// Whether an expression is made of literals, names of constants and
/// operators only.
pub open spec fn is_constant(e: Expr, scopes: Scopes) -> bool
    decreases e,
{
    match e {
        Expr::Num(_) => true,
        Expr::Var(name) => lookup(scopes, name) matches Some(Binding::Const { .. }),
        Expr::Index(_, _) => false,
        Expr::Call(_, _) => false,
        Expr::Binary(_, left, right) => is_constant(*left, scopes) && is_constant(*right, scopes),
    }
}

/// Whether a call occurs in an expression, outside the index of an array
/// access and outside the arguments of another call.
pub open spec fn has_call(e: Expr) -> bool
    decreases e,
{
    match e {
        Expr::Call(_, _) => true,
        Expr::Binary(_, left, right) => has_call(*left) || has_call(*right),
        _ => false,
    }
}

/// Whether an array access occurs in an expression, outside the index of
/// another access and outside the arguments of a call.
pub open spec fn has_index(e: Expr) -> bool
    decreases e,
{
    match e {
        Expr::Index(_, _) => true,
        Expr::Binary(_, left, right) => has_index(*left) || has_index(*right),
        _ => false,
    }
}

/// Whether every name that an expression uses as a value, outside calls and
/// array accesses, is a constant.
pub open spec fn names_are_constants(e: Expr, scopes: Scopes) -> bool
    decreases e,
{
    match e {
        Expr::Var(name) => lookup(scopes, name) matches Some(Binding::Const { .. }),
        Expr::Binary(_, left, right) => names_are_constants(*left, scopes) && names_are_constants(
            *right,
            scopes,
        ),
        _ => true,
    }
}

/// A constant expression has a value exactly when it is made of literals,
/// constants and operators; otherwise its error is one of the three of
/// constant expressions. With no call in it the error is not that of a
/// call, with no array access not that of an access, and with constants for
/// all its names not that of a name.
pub proof fn lemma_const_value(e: Expr, scopes: Scopes)
    ensures
        const_value(e, scopes) is Ok <==> is_constant(e, scopes),
        const_value(e, scopes) matches Err(x) ==> x == CompilerError::FunctionCallInConstant || x
            == CompilerError::IndexInConstant || x == CompilerError::UndefinedOrNonConstInConstant,
        const_value(e, scopes) == Err::<i64, CompilerError>(CompilerError::FunctionCallInConstant)
            ==> has_call(e),
        const_value(e, scopes) == Err::<i64, CompilerError>(CompilerError::IndexInConstant)
            ==> has_index(e),
        const_value(e, scopes) == Err::<i64, CompilerError>(
            CompilerError::UndefinedOrNonConstInConstant,
        ) ==> !names_are_constants(e, scopes),
    decreases e,
{
    match e {
        Expr::Binary(_, left, right) => {
            lemma_const_value(*left, scopes);
            lemma_const_value(*right, scopes);
        },
        _ => {},
    }
}

/// A constant whose initializer is made of literals, earlier constants and
/// operators is folded when the program is compiled: its declaration leaves no
/// instruction and binds the name to the value.
pub proof fn lemma_constant_is_folded(
    name: Ident,
    init: Expr,
    scopes: Scopes,
    control: Control,
    base: int,
)
    requires
        !declared_here(scopes, name),
        is_constant(init, scopes),
    ensures
        const_value(init, scopes) is Ok,
        stmt_code(Stmt::Const(name, init), scopes, control, base) == Ok::<Outcome, CompilerError>(
            Outcome {
                code: Seq::empty(),
                scopes: declare(
                    scopes,
                    name,
                    Binding::Const { value: const_value(init, scopes)->Ok_0 },
                ),
            },
        ),
{
    lemma_const_value(init, scopes);
}

/// A use of a constant is its value: no instruction loads it.
pub proof fn lemma_constant_use(name: Ident, value: i64, scopes: Scopes, base: int)
    requires
        lookup(scopes, name) == Some(Binding::Const { value }),
    ensures
        expr_code(Expr::Var(name), scopes, base) == Ok::<Emitted, CompilerError>(
            Emitted { code: Seq::empty(), value: Operand::Imm(value) },
        ),
{
}

/// An initializer without calls and array accesses that uses a name which
/// is not a constant, be it undefined or bound to something else, is
/// rejected for that name.
pub proof fn lemma_constant_needs_constants(
    name: Ident,
    init: Expr,
    scopes: Scopes,
    control: Control,
    base: int,
)
    requires
        !declared_here(scopes, name),
        !has_call(init),
        !has_index(init),
        !names_are_constants(init, scopes),
    ensures
        stmt_code(Stmt::Const(name, init), scopes, control, base) == Err::<Outcome, CompilerError>(
            CompilerError::UndefinedOrNonConstInConstant,
        ),
{
    lemma_const_value(init, scopes);
    lemma_not_constant(init, scopes);
}

/// An initializer with a call in it, and otherwise only literals, constants
/// and operators, is rejected for the call.
pub proof fn lemma_constant_rejects_call(
    name: Ident,
    init: Expr,
    scopes: Scopes,
    control: Control,
    base: int,
)
    requires
        !declared_here(scopes, name),
        has_call(init),
        !has_index(init),
        names_are_constants(init, scopes),
    ensures
        stmt_code(Stmt::Const(name, init), scopes, control, base) == Err::<Outcome, CompilerError>(
            CompilerError::FunctionCallInConstant,
        ),
{
    lemma_const_value(init, scopes);
    lemma_not_constant(init, scopes);
}

/// An initializer with an array access in it, and otherwise only literals,
/// constants and operators, is rejected for the access.
pub proof fn lemma_constant_rejects_index(
    name: Ident,
    init: Expr,
    scopes: Scopes,
    control: Control,
    base: int,
)
    requires
        !declared_here(scopes, name),
        has_index(init),
        !has_call(init),
        names_are_constants(init, scopes),
    ensures
        stmt_code(Stmt::Const(name, init), scopes, control, base) == Err::<Outcome, CompilerError>(
            CompilerError::IndexInConstant,
        ),
{
    lemma_const_value(init, scopes);
    lemma_not_constant(init, scopes);
}

/// An expression with a call, an array access or a name that is not a
/// constant is not made of literals, constants and operators.
proof fn lemma_not_constant(e: Expr, scopes: Scopes)
    ensures
        has_call(e) || has_index(e) || !names_are_constants(e, scopes) ==> !is_constant(e, scopes),
    decreases e,
{
    match e {
        Expr::Binary(_, left, right) => {
            lemma_not_constant(*left, scopes);
            lemma_not_constant(*right, scopes);
        },
        _ => {},
    }
}

/// `break` and `continue` are legal exactly inside a loop of the current
/// function, and `return` exactly inside a function.
pub proof fn lemma_control_legality(scopes: Scopes, control: Control, base: int)
    ensures
        current_loop(control) is None ==> stmt_code(Stmt::Break, scopes, control, base) == Err::<
            Outcome,
            CompilerError,
        >(CompilerError::BreakOutsideLoop),
        current_loop(control) is None ==> stmt_code(Stmt::Continue, scopes, control, base) == Err::<
            Outcome,
            CompilerError,
        >(CompilerError::ContinueOutsideLoop),
        current_function(control) is None ==> stmt_code(Stmt::Return(None), scopes, control, base)
            == Err::<Outcome, CompilerError>(CompilerError::ReturnOutsideFunction),
        forall|value: Expr|
            current_function(control) is None ==> #[trigger] stmt_code(
                Stmt::Return(Some(value)),
                scopes,
                control,
                base,
            ) == Err::<Outcome, CompilerError>(CompilerError::ReturnOutsideFunction),
        current_loop(control) is Some ==> stmt_code(Stmt::Break, scopes, control, base) is Ok
            && stmt_code(Stmt::Continue, scopes, control, base) is Ok,
        current_function(control) is Some ==> stmt_code(Stmt::Return(None), scopes, control, base)
            is Ok,
{
}

/// A function body hides the loops around the declaration of the function:
/// right inside a function `break` and `continue` are errors, whatever is
/// around the function, and right inside a loop they are legal. `return` is
/// legal in a loop that stands in a function.
pub proof fn lemma_function_hides_loops(
    scopes: Scopes,
    control: Control,
    f: FuncFrame,
    l: LoopFrame,
    base: int,
)
    ensures
        stmt_code(Stmt::Break, scopes, control.push(Frame::Func(f)), base) == Err::<
            Outcome,
            CompilerError,
        >(CompilerError::BreakOutsideLoop),
        stmt_code(Stmt::Continue, scopes, control.push(Frame::Func(f)), base) == Err::<
            Outcome,
            CompilerError,
        >(CompilerError::ContinueOutsideLoop),
        stmt_code(Stmt::Break, scopes, control.push(Frame::Loop(l)), base) is Ok,
        stmt_code(Stmt::Continue, scopes, control.push(Frame::Loop(l)), base) is Ok,
        stmt_code(
            Stmt::Return(None),
            scopes,
            control.push(Frame::Func(f)).push(Frame::Loop(l)),
            base,
        ) is Ok,
{
    let inside = control.push(Frame::Func(f)).push(Frame::Loop(l));
    assert(inside.drop_last() =~= control.push(Frame::Func(f)));
}

/// At the top level of a program, and wherever no loop or function is
/// around, the three control statements are errors.
pub proof fn lemma_control_outside(scopes: Scopes, base: int)
    ensures
        stmt_code(Stmt::Break, scopes, Seq::empty(), base) == Err::<Outcome, CompilerError>(
            CompilerError::BreakOutsideLoop,
        ),
        stmt_code(Stmt::Continue, scopes, Seq::empty(), base) == Err::<Outcome, CompilerError>(
            CompilerError::ContinueOutsideLoop,
        ),
        stmt_code(Stmt::Return(None), scopes, Seq::empty(), base) == Err::<Outcome, CompilerError>(
            CompilerError::ReturnOutsideFunction,
        ),
{
}

/// The name that a statement declares in the scope it stands in.
pub open spec fn declared_name(s: Stmt) -> Option<Ident> {
    match s {
        Stmt::Let(name, _) => Some(name),
        Stmt::LetArray(name, _) => Some(name),
        Stmt::Const(name, _) => Some(name),
        Stmt::Func(name, _, _) => Some(name),
        _ => None,
    }
}

/// A declaration of a name that the innermost scope already has is a
/// duplicate, and a declaration that is accepted leaves its name declared in
/// the innermost scope.
pub proof fn lemma_declaration(s: Stmt, name: Ident, scopes: Scopes, control: Control, base: int)
    requires
        scopes.len() > 0,
        declared_name(s) == Some(name),
    ensures
        declared_here(scopes, name) ==> stmt_code(s, scopes, control, base) == Err::<
            Outcome,
            CompilerError,
        >(CompilerError::DuplicateDeclaration(name)),
        stmt_code(s, scopes, control, base) matches Ok(o) ==> declared_here(o.scopes, name),
{
}

/// Declaring a name twice in one scope is a duplicate declaration of that
/// name, whatever the two declarations are.
pub proof fn lemma_duplicate_in_scope(
    first: Stmt,
    second: Stmt,
    name: Ident,
    scopes: Scopes,
    control: Control,
    base: int,
)
    requires
        scopes.len() > 0,
        declared_name(first) == Some(name),
        declared_name(second) == Some(name),
        stmt_code(first, scopes, control, base) is Ok,
    ensures
        stmts_code(seq![first, second], scopes, control, base) == Err::<Outcome, CompilerError>(
            CompilerError::DuplicateDeclaration(name),
        ),
{
    let both = seq![first, second];
    let one = both.drop_last();
    assert(one =~= seq![first]);
    assert(one.drop_last() =~= Seq::<Stmt>::empty());
    assert(one.last() == first);
    assert(both.last() == second);
    let o = stmt_code(first, scopes, control, base)->Ok_0;
    assert(stmts_code(one.drop_last(), scopes, control, base) == Ok::<Outcome, CompilerError>(
        Outcome { code: Seq::empty(), scopes },
    ));
    assert(stmts_code(one, scopes, control, base) == Ok::<Outcome, CompilerError>(
        Outcome { code: Seq::<Instr>::empty() + o.code, scopes: o.scopes },
    ));
    lemma_declaration(first, name, scopes, control, base);
    let at = base + (Seq::<Instr>::empty() + o.code).len();
    lemma_declaration(second, name, o.scopes, control, at);
}

/// A name of an outer scope may be declared again in an inner scope: the
/// inner declaration is no duplicate, and after the block the name stands for
/// the outer binding again.
pub proof fn lemma_redeclare_in_inner_scope(
    name: Ident,
    outer: Binding,
    body: Vec<Stmt>,
    scopes: Scopes,
    control: Control,
    base: int,
)
    requires
        scopes.len() > 0,
        body@ == seq![Stmt::Let(name, None)],
    ensures
        stmt_code(Stmt::Let(name, None), enter(declare(scopes, name, outer)), control, base) is Ok,
        stmt_code(Stmt::Block(body), declare(scopes, name, outer), control, base) matches Ok(o)
            && lookup(o.scopes, name) == Some(outer),
{
    let outside = declare(scopes, name, outer);
    assert(body@.drop_last() =~= Seq::<Stmt>::empty());
    assert(body@.last() == Stmt::Let(name, None));
    assert(stmts_code(body@.drop_last(), enter(outside), control, base) == Ok::<
        Outcome,
        CompilerError,
    >(Outcome { code: Seq::empty(), scopes: enter(outside) }));
}

} // verus!
