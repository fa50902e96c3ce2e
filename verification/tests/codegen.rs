use compiler::ast::{BinOp, Expr, Ident, Program, Stmt};
use compiler::codegen::generator::generate;
use compiler::env::Environment;
use compiler::error::CompilerError;
use compiler::target::{Instr, Operand};

fn num(n: i64) -> Expr {
    Expr::Num(n)
}

fn var(name: Ident) -> Expr {
    Expr::Var(name)
}

fn binary(op: BinOp, left: Expr, right: Expr) -> Expr {
    Expr::Binary(op, Box::new(left), Box::new(right))
}

fn copy(src: Operand, dst: usize) -> Instr {
    Instr::Add { a: src, b: Operand::Imm(0), dst }
}

fn jump(target: usize) -> Instr {
    Instr::JumpIfTrue { cond: Operand::Imm(1), target: Operand::Code(target) }
}

fn cell() -> Instr {
    Instr::Alloc { cells: 1 }
}

fn compile(items: Vec<Stmt>) -> Result<Vec<Instr>, CompilerError> {
    generate(&Program { items }, &Environment::new())
}

fn names() -> (Ident, Ident, Ident) {
    let mut env = Environment::new();
    (env.intern("x"), env.intern("y"), env.intern("f"))
}

#[test]
fn empty_program_halts() {
    assert_eq!(compile(vec![]), Ok(vec![Instr::Halt]));
}

#[test]
fn let_and_output_emit_exact_code() {
    let (x, _, _) = names();
    let code = compile(vec![
        Stmt::Let(x, Some(num(1))),
        Stmt::Output(binary(BinOp::Add, var(x), num(2))),
    ]);
    assert_eq!(
        code,
        Ok(vec![
            cell(),
            copy(Operand::Imm(1), 0),
            cell(),
            copy(Operand::Cell(0), 2),
            cell(),
            Instr::Add { a: Operand::Cell(2), b: Operand::Imm(2), dst: 4 },
            Instr::Output { src: Operand::Cell(4) },
            Instr::Halt,
        ])
    );
}

#[test]
fn subtraction_is_multiplication_and_addition() {
    let code = compile(vec![Stmt::Output(binary(BinOp::Sub, num(7), num(3)))]);
    assert_eq!(
        code,
        Ok(vec![
            cell(),
            Instr::Mul { a: Operand::Imm(3), b: Operand::Imm(-1), dst: 0 },
            Instr::Add { a: Operand::Imm(7), b: Operand::Cell(0), dst: 0 },
            Instr::Output { src: Operand::Cell(0) },
            Instr::Halt,
        ])
    );
}

#[test]
fn comparison_operators_select_instructions() {
    let code = compile(vec![
        Stmt::Eval(binary(BinOp::Less, num(1), num(2))),
        Stmt::Eval(binary(BinOp::Equal, num(1), num(2))),
        Stmt::Eval(binary(BinOp::Mul, num(1), num(2))),
    ]);
    assert_eq!(
        code,
        Ok(vec![
            cell(),
            Instr::LessThan { a: Operand::Imm(1), b: Operand::Imm(2), dst: 0 },
            cell(),
            Instr::Equals { a: Operand::Imm(1), b: Operand::Imm(2), dst: 2 },
            cell(),
            Instr::Mul { a: Operand::Imm(1), b: Operand::Imm(2), dst: 4 },
            Instr::Halt,
        ])
    );
}

#[test]
fn while_loop_layout_and_targets() {
    let (x, _, _) = names();
    let code = compile(vec![
        Stmt::Let(x, None),
        Stmt::While(num(1), vec![Stmt::Break, Stmt::Continue]),
    ]);
    assert_eq!(
        code,
        Ok(vec![
            cell(),
            Instr::JumpIfTrue { cond: Operand::Imm(1), target: Operand::Code(3) },
            jump(6),
            jump(2),
            jump(1),
            jump(1),
            Instr::Halt,
        ])
    );
}

#[test]
fn if_else_layout_and_targets() {
    let code = compile(vec![Stmt::If(
        num(0),
        vec![Stmt::Output(num(1))],
        vec![Stmt::Output(num(2))],
    )]);
    assert_eq!(
        code,
        Ok(vec![
            Instr::JumpIfFalse { cond: Operand::Imm(0), target: Operand::Code(3) },
            Instr::Output { src: Operand::Imm(1) },
            jump(4),
            Instr::Output { src: Operand::Imm(2) },
            Instr::Halt,
        ])
    );
}

#[test]
fn function_declaration_and_call_layout() {
    let (x, _, f) = names();
    let code = compile(vec![
        Stmt::Func(f, vec![x], vec![Stmt::Return(Some(var(x)))]),
        Stmt::Output(Expr::Call(f, vec![num(5)])),
    ]);
    assert_eq!(
        code,
        Ok(vec![
            // return address, result, parameter
            cell(),
            cell(),
            cell(),
            // around the body
            jump(10),
            // body: return x
            cell(),
            copy(Operand::Cell(2), 4),
            copy(Operand::Cell(4), 1),
            Instr::JumpIfTrue { cond: Operand::Imm(1), target: Operand::Cell(0) },
            // end of body: return 0
            copy(Operand::Imm(0), 1),
            Instr::JumpIfTrue { cond: Operand::Imm(1), target: Operand::Cell(0) },
            // call f(5)
            copy(Operand::Imm(5), 2),
            copy(Operand::Code(13), 0),
            jump(4),
            cell(),
            copy(Operand::Cell(1), 13),
            Instr::Output { src: Operand::Cell(13) },
            Instr::Halt,
        ])
    );
}

#[test]
fn array_declaration_load_and_store() {
    let (x, _, _) = names();
    let code = compile(vec![
        Stmt::LetArray(x, num(4)),
        Stmt::AssignIndex(x, num(1), num(9)),
        Stmt::Output(Expr::Index(x, Box::new(num(1)))),
    ]);
    assert_eq!(
        code,
        Ok(vec![
            Instr::Alloc { cells: 4 },
            Instr::Store { slot: 0, index: Operand::Imm(1), src: Operand::Imm(9) },
            cell(),
            Instr::Load { slot: 0, index: Operand::Imm(1), dst: 2 },
            Instr::Output { src: Operand::Cell(2) },
            Instr::Halt,
        ])
    );
}

#[test]
fn array_of_negative_length_has_no_cells() {
    let (x, _, _) = names();
    let code = compile(vec![Stmt::LetArray(x, binary(BinOp::Sub, num(1), num(3)))]);
    assert_eq!(code, Ok(vec![Instr::Alloc { cells: 0 }, Instr::Halt]));
}

#[test]
fn constant_is_folded_and_leaves_no_code() {
    let (x, y, _) = names();
    let code = compile(vec![
        Stmt::Const(x, binary(BinOp::Add, num(2), num(3))),
        Stmt::Const(y, binary(BinOp::Mul, var(x), var(x))),
        Stmt::Output(var(y)),
    ]);
    assert_eq!(code, Ok(vec![Instr::Output { src: Operand::Imm(25) }, Instr::Halt]));
}

#[test]
fn constant_folding_wraps_around() {
    let (x, y, _) = names();
    let code = compile(vec![
        Stmt::Const(x, binary(BinOp::Add, num(i64::MAX), num(1))),
        Stmt::Const(y, binary(BinOp::Less, var(x), num(0))),
        Stmt::Output(var(x)),
        Stmt::Output(var(y)),
    ]);
    assert_eq!(
        code,
        Ok(vec![
            Instr::Output { src: Operand::Imm(i64::MIN) },
            Instr::Output { src: Operand::Imm(1) },
            Instr::Halt,
        ])
    );
}

#[test]
fn compiling_twice_gives_the_same() {
    let (x, _, f) = names();
    let items = || {
        vec![
            Stmt::Func(f, vec![x], vec![Stmt::Return(Some(var(x)))]),
            Stmt::Output(Expr::Call(f, vec![num(5)])),
        ]
    };
    assert_eq!(compile(items()), compile(items()));
    let broken = || vec![Stmt::Let(x, None), Stmt::Let(x, None)];
    assert_eq!(compile(broken()), compile(broken()));
}

#[test]
fn result_does_not_depend_on_the_environment() {
    let mut env = Environment::new();
    let x = env.intern("x");
    let program = Program { items: vec![Stmt::Let(x, Some(num(1)))] };
    assert_eq!(generate(&program, &env), generate(&program, &Environment::new()));
}

#[test]
fn duplicate_declaration_in_one_scope() {
    let (x, _, _) = names();
    assert_eq!(
        compile(vec![Stmt::Let(x, None), Stmt::Let(x, None)]),
        Err(CompilerError::DuplicateDeclaration(x))
    );
    assert_eq!(
        compile(vec![Stmt::Const(x, num(1)), Stmt::LetArray(x, num(2))]),
        Err(CompilerError::DuplicateDeclaration(x))
    );
    assert_eq!(
        compile(vec![Stmt::Block(vec![Stmt::Let(x, None), Stmt::Func(x, vec![], vec![])])]),
        Err(CompilerError::DuplicateDeclaration(x))
    );
}

#[test]
fn duplicate_parameter() {
    let (x, _, f) = names();
    assert_eq!(
        compile(vec![Stmt::Func(f, vec![x, x], vec![])]),
        Err(CompilerError::DuplicateDeclaration(x))
    );
}

#[test]
fn parameter_and_local_share_a_scope() {
    let (x, _, f) = names();
    assert_eq!(
        compile(vec![Stmt::Func(f, vec![x], vec![Stmt::Let(x, None)])]),
        Err(CompilerError::DuplicateDeclaration(x))
    );
}

#[test]
fn redeclaration_in_inner_scope_is_legal() {
    let (x, _, _) = names();
    let code = compile(vec![
        Stmt::Let(x, Some(num(1))),
        Stmt::Block(vec![Stmt::Let(x, Some(num(2))), Stmt::Assign(x, num(3))]),
        Stmt::Assign(x, num(4)),
    ]);
    assert_eq!(
        code,
        Ok(vec![
            cell(),
            copy(Operand::Imm(1), 0),
            cell(),
            copy(Operand::Imm(2), 2),
            // inside the block the name is the inner variable
            copy(Operand::Imm(3), 2),
            // after the block it is the outer variable again
            copy(Operand::Imm(4), 0),
            Instr::Halt,
        ])
    );
}

#[test]
fn inner_declaration_ends_with_its_block() {
    let (x, _, _) = names();
    assert_eq!(
        compile(vec![Stmt::Block(vec![Stmt::Let(x, None)]), Stmt::Output(var(x))]),
        Err(CompilerError::UndefinedVariable(x))
    );
}

#[test]
fn undefined_variable() {
    let (x, y, f) = names();
    assert_eq!(compile(vec![Stmt::Output(var(x))]), Err(CompilerError::UndefinedVariable(x)));
    assert_eq!(compile(vec![Stmt::Assign(y, num(1))]), Err(CompilerError::UndefinedVariable(y)));
    assert_eq!(
        compile(vec![Stmt::Eval(Expr::Call(f, vec![]))]),
        Err(CompilerError::UndefinedVariable(f))
    );
    assert_eq!(
        compile(vec![Stmt::AssignIndex(x, num(0), num(1))]),
        Err(CompilerError::UndefinedVariable(x))
    );
}

#[test]
fn name_of_another_kind_is_undefined_for_the_use() {
    let (x, y, f) = names();
    // a scalar is no array
    assert_eq!(
        compile(vec![Stmt::Let(x, None), Stmt::Eval(Expr::Index(x, Box::new(num(0))))]),
        Err(CompilerError::UndefinedVariable(x))
    );
    // a constant cannot be assigned to
    assert_eq!(
        compile(vec![Stmt::Const(y, num(1)), Stmt::Assign(y, num(2))]),
        Err(CompilerError::UndefinedVariable(y))
    );
    // a call has to give as many arguments as there are parameters
    assert_eq!(
        compile(vec![Stmt::Func(f, vec![x], vec![]), Stmt::Eval(Expr::Call(f, vec![]))]),
        Err(CompilerError::UndefinedVariable(f))
    );
    // a function is no value
    assert_eq!(
        compile(vec![Stmt::Func(f, vec![], vec![]), Stmt::Output(var(f))]),
        Err(CompilerError::UndefinedVariable(f))
    );
}

#[test]
fn break_outside_loop() {
    assert_eq!(compile(vec![Stmt::Break]), Err(CompilerError::BreakOutsideLoop));
    assert_eq!(
        compile(vec![Stmt::If(num(1), vec![Stmt::Break], vec![])]),
        Err(CompilerError::BreakOutsideLoop)
    );
}

#[test]
fn continue_outside_loop() {
    assert_eq!(compile(vec![Stmt::Continue]), Err(CompilerError::ContinueOutsideLoop));
    assert_eq!(
        compile(vec![Stmt::Block(vec![Stmt::Continue])]),
        Err(CompilerError::ContinueOutsideLoop)
    );
}

#[test]
fn return_outside_function() {
    assert_eq!(compile(vec![Stmt::Return(None)]), Err(CompilerError::ReturnOutsideFunction));
    assert_eq!(
        compile(vec![Stmt::While(num(1), vec![Stmt::Return(Some(num(1)))])]),
        Err(CompilerError::ReturnOutsideFunction)
    );
}

#[test]
fn function_body_hides_the_loop_around_it() {
    let (_, _, f) = names();
    assert_eq!(
        compile(vec![Stmt::While(num(1), vec![Stmt::Func(f, vec![], vec![Stmt::Break])])]),
        Err(CompilerError::BreakOutsideLoop)
    );
    assert_eq!(
        compile(vec![Stmt::While(num(1), vec![Stmt::Func(f, vec![], vec![Stmt::Continue])])]),
        Err(CompilerError::ContinueOutsideLoop)
    );
}

#[test]
fn break_in_loop_inside_function_is_legal() {
    let (_, _, f) = names();
    let code = compile(vec![Stmt::Func(
        f,
        vec![],
        vec![Stmt::While(num(1), vec![Stmt::Break, Stmt::Return(None)])],
    )]);
    assert!(code.is_ok());
}

#[test]
fn function_call_in_constant() {
    let (x, _, f) = names();
    assert_eq!(
        compile(vec![Stmt::Func(f, vec![], vec![]), Stmt::Const(x, Expr::Call(f, vec![]))]),
        Err(CompilerError::FunctionCallInConstant)
    );
    assert_eq!(
        compile(vec![Stmt::Const(x, binary(BinOp::Add, num(1), Expr::Call(f, vec![])))]),
        Err(CompilerError::FunctionCallInConstant)
    );
}

#[test]
fn index_in_constant() {
    let (x, y, _) = names();
    assert_eq!(
        compile(vec![Stmt::LetArray(y, num(2)), Stmt::Const(x, Expr::Index(y, Box::new(num(0))))]),
        Err(CompilerError::IndexInConstant)
    );
}

#[test]
fn undefined_or_variable_name_in_constant() {
    let (x, y, _) = names();
    assert_eq!(
        compile(vec![Stmt::Const(x, var(y))]),
        Err(CompilerError::UndefinedOrNonConstInConstant)
    );
    assert_eq!(
        compile(vec![Stmt::Let(y, Some(num(1))), Stmt::Const(x, var(y))]),
        Err(CompilerError::UndefinedOrNonConstInConstant)
    );
    assert_eq!(
        compile(vec![Stmt::Let(y, None), Stmt::LetArray(x, var(y))]),
        Err(CompilerError::UndefinedOrNonConstInConstant)
    );
}

#[test]
fn first_violation_in_source_order_wins() {
    let (x, y, f) = names();
    assert_eq!(
        compile(vec![Stmt::Output(var(y)), Stmt::Break, Stmt::Let(x, None), Stmt::Let(x, None)]),
        Err(CompilerError::UndefinedVariable(y))
    );
    assert_eq!(
        compile(vec![Stmt::Const(x, binary(BinOp::Add, var(y), Expr::Call(f, vec![])))]),
        Err(CompilerError::UndefinedOrNonConstInConstant)
    );
    assert_eq!(
        compile(vec![Stmt::Let(x, None), Stmt::Let(x, Some(var(y)))]),
        Err(CompilerError::DuplicateDeclaration(x))
    );
}

#[test]
fn initializer_sees_the_outer_variable() {
    let (x, _, _) = names();
    let code = compile(vec![
        Stmt::Let(x, Some(num(1))),
        Stmt::Block(vec![Stmt::Let(x, Some(var(x)))]),
    ]);
    assert_eq!(
        code,
        Ok(vec![
            cell(),
            copy(Operand::Imm(1), 0),
            cell(),
            copy(Operand::Cell(0), 2),
            cell(),
            copy(Operand::Cell(2), 4),
            Instr::Halt,
        ])
    );
}

#[test]
fn error_messages() {
    let mut env = Environment::new();
    let x = env.intern("counter");
    assert_eq!(
        CompilerError::DuplicateDeclaration(x).render(&env),
        "Duplicate declaration of variable: counter"
    );
    assert_eq!(CompilerError::UndefinedVariable(x).render(&env), "Undefined variable: counter");
    assert_eq!(CompilerError::BreakOutsideLoop.render(&env), "Break outside loop");
    assert_eq!(CompilerError::ContinueOutsideLoop.render(&env), "Continue outside loop");
    assert_eq!(CompilerError::ReturnOutsideFunction.render(&env), "Return outside function");
    assert_eq!(
        CompilerError::FunctionCallInConstant.render(&env),
        "Function call in const context"
    );
    assert_eq!(CompilerError::IndexInConstant.render(&env), "Array indexing in const context");
    assert_eq!(
        CompilerError::UndefinedOrNonConstInConstant.render(&env),
        "Undefined or un-const variable in const context"
    );
    assert_eq!(
        CompilerError::UndefinedVariable(Ident { id: 7 }).render(&env),
        "Undefined variable: "
    );
}
