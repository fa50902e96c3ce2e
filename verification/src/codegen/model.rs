//! What a program compiles to.
//!
//! Every function here takes the index `base` that the first instruction it
//! describes will have in the finished program, because jump targets and
//! cells are absolute indices. The first violation met in source order is the
//! result; instructions exist only for a program without any.

use vstd::prelude::*;
use crate::ast::{BinOp, Expr, Ident, Program, Stmt};
use crate::control::{current_function, current_loop, Control, Frame, FuncFrame, LoopFrame};
use crate::error::CompilerError;
use crate::scope::{declare, declared_here, enter, lookup, Binding, Scopes};
use crate::target::{alloc_one, copy, jump, jump_stored, Instr, Operand};

verus! {

/// The code of an expression and where its value is afterwards.
pub struct Emitted {
    pub code: Seq<Instr>,
    pub value: Operand,
}

/// The code of a list of arguments and where their values are afterwards.
pub struct EmittedArgs {
    pub code: Seq<Instr>,
    pub values: Seq<Operand>,
}

/// The code of a statement and the scopes after it.
pub struct Outcome {
    pub code: Seq<Instr>,
    pub scopes: Scopes,
}

/// The value of `x op y` on the target machine.
pub open spec fn apply(op: BinOp, x: i64, y: i64) -> i64 {
    match op {
        BinOp::Add => x.wrapping_add(y),
        BinOp::Sub => x.wrapping_sub(y),
        BinOp::Mul => x.wrapping_mul(y),
        BinOp::Less => if x < y { 1 } else { 0 },
        BinOp::Equal => if x == y { 1 } else { 0 },
    }
}

/// The value of a constant expression.
///
/// Only literals, names of constants and operators may occur in it.
pub open spec fn const_value(e: Expr, scopes: Scopes) -> Result<i64, CompilerError>
    decreases e,
{
    match e {
        Expr::Num(n) => Ok(n),
        Expr::Var(name) => match lookup(scopes, name) {
            Some(Binding::Const { value }) => Ok(value),
            _ => Err(CompilerError::UndefinedOrNonConstInConstant),
        },
        Expr::Index(_, _) => Err(CompilerError::IndexInConstant),
        Expr::Call(_, _) => Err(CompilerError::FunctionCallInConstant),
        Expr::Binary(op, left, right) => match const_value(*left, scopes) {
            Err(e) => Err(e),
            Ok(x) => match const_value(*right, scopes) {
                Err(e) => Err(e),
                Ok(y) => Ok(apply(op, x, y)),
            },
        },
    }
}

/// The cell behind a name that is used as a value or assigned to.
pub open spec fn scalar_cell(scopes: Scopes, name: Ident) -> Option<usize> {
    match lookup(scopes, name) {
        Some(Binding::Var { cell }) => Some(cell),
        Some(Binding::Param { cell }) => Some(cell),
        _ => None,
    }
}

/// The instructions that leave `a op b` in a new cell reserved at `at`.
pub open spec fn binary_code(op: BinOp, a: Operand, b: Operand, at: int) -> Seq<Instr> {
    let dst = at as usize;
    match op {
        BinOp::Add => seq![alloc_one(), Instr::Add { a, b, dst }],
        BinOp::Mul => seq![alloc_one(), Instr::Mul { a, b, dst }],
        BinOp::Less => seq![alloc_one(), Instr::LessThan { a, b, dst }],
        BinOp::Equal => seq![alloc_one(), Instr::Equals { a, b, dst }],
        BinOp::Sub => seq![
            alloc_one(),
            Instr::Mul { a: b, b: Operand::Imm(-1i64), dst },
            Instr::Add { a, b: Operand::Cell(dst), dst },
        ],
    }
}

/// The instructions of a call, once the arguments are evaluated: each
/// argument goes into its parameter cell, the address to come back to is
/// saved, control goes to the function, and on return the result is copied
/// into a new cell, which is reserved at `at + values.len() + 2`.
pub open spec fn call_code(
    values: Seq<Operand>,
    entry: usize,
    ret_addr: usize,
    ret_val: usize,
    first_param: usize,
    at: int,
) -> Seq<Instr> {
    let back = at + values.len() + 2;
    Seq::new(values.len(), |i: int| copy(values[i], first_param + i)) + seq![
        copy(Operand::Code(back as usize), ret_addr as int),
        jump(entry as int),
        alloc_one(),
        copy(Operand::Cell(ret_val), back),
    ]
}

/// The code of an expression that is evaluated when the program runs.
pub open spec fn expr_code(e: Expr, scopes: Scopes, base: int) -> Result<Emitted, CompilerError>
    decreases e,
{
    match e {
        Expr::Num(n) => Ok(Emitted { code: seq![], value: Operand::Imm(n) }),
        Expr::Var(name) => match lookup(scopes, name) {
            Some(Binding::Const { value }) => Ok(
                Emitted { code: seq![], value: Operand::Imm(value) },
            ),
            _ => match scalar_cell(scopes, name) {
                Some(cell) => Ok(
                    Emitted {
                        code: seq![alloc_one(), copy(Operand::Cell(cell), base)],
                        value: Operand::Cell(base as usize),
                    },
                ),
                None => Err(CompilerError::UndefinedVariable(name)),
            },
        },
        Expr::Index(name, index) => match lookup(scopes, name) {
            Some(Binding::Array { slot }) => match expr_code(*index, scopes, base) {
                Err(e) => Err(e),
                Ok(i) => {
                    let at = base + i.code.len();
                    Ok(
                        Emitted {
                            code: i.code + seq![
                                alloc_one(),
                                Instr::Load { slot, index: i.value, dst: at as usize },
                            ],
                            value: Operand::Cell(at as usize),
                        },
                    )
                },
            },
            _ => Err(CompilerError::UndefinedVariable(name)),
        },
        Expr::Call(name, args) => match lookup(scopes, name) {
            Some(Binding::Func { entry, ret_addr, ret_val, first_param, arity }) => {
                if arity != args@.len() {
                    Err(CompilerError::UndefinedVariable(name))
                } else {
                    match args_code(args@, scopes, base) {
                        Err(e) => Err(e),
                        Ok(a) => {
                            let at = base + a.code.len();
                            Ok(
                                Emitted {
                                    code: a.code + call_code(
                                        a.values,
                                        entry,
                                        ret_addr,
                                        ret_val,
                                        first_param,
                                        at,
                                    ),
                                    value: Operand::Cell((at + arity + 2) as usize),
                                },
                            )
                        },
                    }
                }
            },
            _ => Err(CompilerError::UndefinedVariable(name)),
        },
        Expr::Binary(op, left, right) => match expr_code(*left, scopes, base) {
            Err(e) => Err(e),
            Ok(a) => match expr_code(*right, scopes, base + a.code.len()) {
                Err(e) => Err(e),
                Ok(b) => {
                    let at = base + a.code.len() + b.code.len();
                    Ok(
                        Emitted {
                            code: a.code + b.code + binary_code(op, a.value, b.value, at),
                            value: Operand::Cell(at as usize),
                        },
                    )
                },
            },
        },
    }
}

/// The code that evaluates the arguments of a call, from left to right.
pub open spec fn args_code(args: Seq<Expr>, scopes: Scopes, base: int) -> Result<
    EmittedArgs,
    CompilerError,
>
    decreases args,
{
    if args.len() == 0 {
        Ok(EmittedArgs { code: seq![], values: seq![] })
    } else {
        match args_code(args.drop_last(), scopes, base) {
            Err(e) => Err(e),
            Ok(before) => match expr_code(args.last(), scopes, base + before.code.len()) {
                Err(e) => Err(e),
                Ok(last) => Ok(
                    EmittedArgs {
                        code: before.code + last.code,
                        values: before.values.push(last.value),
                    },
                ),
            },
        }
    }
}

/// The scopes after `name` is declared, if the innermost frame does not have
/// it yet.
pub open spec fn declare_new(scopes: Scopes, name: Ident, binding: Binding) -> Result<
    Scopes,
    CompilerError,
> {
    if declared_here(scopes, name) {
        Err(CompilerError::DuplicateDeclaration(name))
    } else {
        Ok(declare(scopes, name, binding))
    }
}

/// The scopes after the parameters of a function are declared in the
/// innermost frame, the first in the cell `first`.
pub open spec fn bind_params(params: Seq<Ident>, scopes: Scopes, first: int) -> Result<
    Scopes,
    CompilerError,
>
    decreases params.len(),
{
    if params.len() == 0 {
        Ok(scopes)
    } else {
        match bind_params(params.drop_last(), scopes, first) {
            Err(e) => Err(e),
            Ok(bound) => declare_new(
                bound,
                params.last(),
                Binding::Param { cell: (first + params.len() - 1) as usize },
            ),
        }
    }
}

/// The number of cells of an array of the given length.
pub open spec fn array_cells(length: i64) -> u64 {
    if length < 0 {
        0
    } else {
        length as u64
    }
}

/// The instructions that return from the function `f` with the value
/// `value`.
pub open spec fn return_code(f: FuncFrame, value: Operand) -> Seq<Instr> {
    seq![copy(value, f.ret_val as int), jump_stored(f.ret_addr as int)]
}

/// The code of one statement and the scopes that the next statement sees.
pub open spec fn stmt_code(s: Stmt, scopes: Scopes, control: Control, base: int) -> Result<
    Outcome,
    CompilerError,
>
    decreases s,
{
    match s {
        Stmt::Let(name, None) => {
            if declared_here(scopes, name) {
                Err(CompilerError::DuplicateDeclaration(name))
            } else {
                Ok(
                    Outcome {
                        code: seq![alloc_one()],
                        scopes: declare(scopes, name, Binding::Var { cell: base as usize }),
                    },
                )
            }
        },
        Stmt::Let(name, Some(init)) => {
            if declared_here(scopes, name) {
                Err(CompilerError::DuplicateDeclaration(name))
            } else {
                match expr_code(init, scopes, base) {
                    Err(e) => Err(e),
                    Ok(v) => {
                        let cell = base + v.code.len();
                        Ok(
                            Outcome {
                                code: v.code + seq![alloc_one(), copy(v.value, cell)],
                                scopes: declare(scopes, name, Binding::Var { cell: cell as usize }),
                            },
                        )
                    },
                }
            }
        },
        Stmt::LetArray(name, length) => {
            if declared_here(scopes, name) {
                Err(CompilerError::DuplicateDeclaration(name))
            } else {
                match const_value(length, scopes) {
                    Err(e) => Err(e),
                    Ok(n) => Ok(
                        Outcome {
                            code: seq![Instr::Alloc { cells: array_cells(n) }],
                            scopes: declare(scopes, name, Binding::Array { slot: base as usize }),
                        },
                    ),
                }
            }
        },
        Stmt::Const(name, init) => {
            if declared_here(scopes, name) {
                Err(CompilerError::DuplicateDeclaration(name))
            } else {
                match const_value(init, scopes) {
                    Err(e) => Err(e),
                    Ok(value) => Ok(
                        Outcome {
                            code: seq![],
                            scopes: declare(scopes, name, Binding::Const { value }),
                        },
                    ),
                }
            }
        },
        Stmt::Func(name, params, body) => {
            if declared_here(scopes, name) {
                Err(CompilerError::DuplicateDeclaration(name))
            } else {
                let arity = params@.len() as int;
                let first_param = base + 2;
                let guard = first_param + arity;
                let entry = guard + 1;
                let outer = declare(
                    scopes,
                    name,
                    Binding::Func {
                        entry: entry as usize,
                        ret_addr: base as usize,
                        ret_val: (base + 1) as usize,
                        first_param: first_param as usize,
                        arity: arity as usize,
                    },
                );
                let frame = FuncFrame { ret_addr: base as usize, ret_val: (base + 1) as usize };
                match bind_params(params@, enter(outer), first_param) {
                    Err(e) => Err(e),
                    Ok(inner) => match stmts_code(
                        body@,
                        inner,
                        control.push(Frame::Func(frame)),
                        entry,
                    ) {
                        Err(e) => Err(e),
                        Ok(b) => {
                            let end = entry + b.code.len() + 2;
                            Ok(
                                Outcome {
                                    code: Seq::new((arity + 2) as nat, |i: int| alloc_one())
                                        + seq![jump(end)] + b.code + return_code(
                                        frame,
                                        Operand::Imm(0),
                                    ),
                                    scopes: outer,
                                },
                            )
                        },
                    },
                }
            }
        },
        Stmt::Assign(name, value) => match scalar_cell(scopes, name) {
            None => Err(CompilerError::UndefinedVariable(name)),
            Some(cell) => match expr_code(value, scopes, base) {
                Err(e) => Err(e),
                Ok(v) => Ok(Outcome { code: v.code + seq![copy(v.value, cell as int)], scopes }),
            },
        },
        Stmt::AssignIndex(name, index, value) => match lookup(scopes, name) {
            Some(Binding::Array { slot }) => match expr_code(index, scopes, base) {
                Err(e) => Err(e),
                Ok(i) => match expr_code(value, scopes, base + i.code.len()) {
                    Err(e) => Err(e),
                    Ok(v) => Ok(
                        Outcome {
                            code: i.code + v.code + seq![
                                Instr::Store { slot, index: i.value, src: v.value },
                            ],
                            scopes,
                        },
                    ),
                },
            },
            _ => Err(CompilerError::UndefinedVariable(name)),
        },
        Stmt::If(cond, then, otherwise) => match expr_code(cond, scopes, base) {
            Err(e) => Err(e),
            Ok(c) => {
                let test = base + c.code.len();
                match stmts_code(then@, enter(scopes), control, test + 1) {
                    Err(e) => Err(e),
                    Ok(t) => {
                        let skip = test + 1 + t.code.len();
                        match stmts_code(otherwise@, enter(scopes), control, skip + 1) {
                            Err(e) => Err(e),
                            Ok(o) => {
                                let end = skip + 1 + o.code.len();
                                Ok(
                                    Outcome {
                                        code: c.code + seq![
                                            Instr::JumpIfFalse {
                                                cond: c.value,
                                                target: Operand::Code((skip + 1) as usize),
                                            },
                                        ] + t.code + seq![jump(end)] + o.code,
                                        scopes,
                                    },
                                )
                            },
                        }
                    },
                }
            },
        },
        Stmt::While(cond, body) => match expr_code(cond, scopes, base) {
            Err(e) => Err(e),
            Ok(c) => {
                let test = base + c.code.len();
                let brk = test + 1;
                let start = test + 2;
                let frame = LoopFrame { cont: base as usize, brk: brk as usize };
                match stmts_code(body@, enter(scopes), control.push(Frame::Loop(frame)), start) {
                    Err(e) => Err(e),
                    Ok(b) => {
                        let end = start + b.code.len() + 1;
                        Ok(
                            Outcome {
                                code: c.code + seq![
                                    Instr::JumpIfTrue {
                                        cond: c.value,
                                        target: Operand::Code(start as usize),
                                    },
                                    jump(end),
                                ] + b.code + seq![jump(base)],
                                scopes,
                            },
                        )
                    },
                }
            },
        },
        Stmt::Block(body) => match stmts_code(body@, enter(scopes), control, base) {
            Err(e) => Err(e),
            Ok(b) => Ok(Outcome { code: b.code, scopes }),
        },
        Stmt::Break => match current_loop(control) {
            None => Err(CompilerError::BreakOutsideLoop),
            Some(l) => Ok(Outcome { code: seq![jump(l.brk as int)], scopes }),
        },
        Stmt::Continue => match current_loop(control) {
            None => Err(CompilerError::ContinueOutsideLoop),
            Some(l) => Ok(Outcome { code: seq![jump(l.cont as int)], scopes }),
        },
        Stmt::Return(None) => match current_function(control) {
            None => Err(CompilerError::ReturnOutsideFunction),
            Some(f) => Ok(Outcome { code: return_code(f, Operand::Imm(0)), scopes }),
        },
        Stmt::Return(Some(value)) => match current_function(control) {
            None => Err(CompilerError::ReturnOutsideFunction),
            Some(f) => match expr_code(value, scopes, base) {
                Err(e) => Err(e),
                Ok(v) => Ok(Outcome { code: v.code + return_code(f, v.value), scopes }),
            },
        },
        Stmt::Output(value) => match expr_code(value, scopes, base) {
            Err(e) => Err(e),
            Ok(v) => Ok(Outcome { code: v.code + seq![Instr::Output { src: v.value }], scopes }),
        },
        Stmt::Eval(value) => match expr_code(value, scopes, base) {
            Err(e) => Err(e),
            Ok(v) => Ok(Outcome { code: v.code, scopes }),
        },
    }
}

/// The code of a list of statements that share one scope frame.
pub open spec fn stmts_code(
    stmts: Seq<Stmt>,
    scopes: Scopes,
    control: Control,
    base: int,
) -> Result<Outcome, CompilerError>
    decreases stmts,
{
    if stmts.len() == 0 {
        Ok(Outcome { code: seq![], scopes })
    } else {
        match stmts_code(stmts.drop_last(), scopes, control, base) {
            Err(e) => Err(e),
            Ok(before) => match stmt_code(
                stmts.last(),
                before.scopes,
                control,
                base + before.code.len(),
            ) {
                Err(e) => Err(e),
                Ok(last) => Ok(Outcome { code: before.code + last.code, scopes: last.scopes }),
            },
        }
    }
}

/// The instructions of a whole program: its statements in one global scope,
/// outside every loop and function, and a final `Halt`.
pub open spec fn program_code(program: Program) -> Result<Seq<Instr>, CompilerError> {
    match stmts_code(program.items@, seq![Map::empty()], seq![], 0) {
        Err(e) => Err(e),
        Ok(o) => Ok(o.code + seq![Instr::Halt]),
    }
}

/// Whether `result` is what compiling `program` gives.
pub open spec fn compiles_to(program: Program, result: Result<Vec<Instr>, CompilerError>) -> bool {
    match result {
        Ok(code) => program_code(program) == Ok::<Seq<Instr>, CompilerError>(code@),
        Err(e) => program_code(program) == Err::<Seq<Instr>, CompilerError>(e),
    }
}

} // verus!
