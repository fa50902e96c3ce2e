//! Compiled programs are consistent.
//!
//! Every cell that an instruction reads or writes is reserved by an `Alloc`
//! that stands before the instruction, and every jump and every stored
//! address leads to an instruction of the program.

use vstd::prelude::*;
use crate::ast::{BinOp, Expr, Ident, Program, Stmt};
use crate::control::{current_function, current_loop, Control, Frame, FuncFrame, LoopFrame};
use crate::error::CompilerError;
use crate::scope::{declare, enter, lookup, Binding, Scopes};
use crate::target::{alloc_one, copy, jump, Instr, Operand};
use super::model::{
    args_code, binary_code, bind_params, call_code, compiles_to, expr_code, program_code,
    return_code, scalar_cell, stmt_code, stmts_code,
};

verus! {

/// Whether `code` reserves a block at `cell`.
pub open spec fn reserved(code: Seq<Instr>, cell: usize) -> bool {
    cell < code.len() && code[cell as int] is Alloc
}

/// Whether an operand may stand in an instruction that follows `before`, in
/// a program whose instructions have the indices up to `bound`.
pub open spec fn operand_fits(before: Seq<Instr>, operand: Operand, bound: int) -> bool {
    match operand {
        Operand::Imm(_) => true,
        Operand::Code(target) => target <= bound,
        Operand::Cell(cell) => reserved(before, cell),
    }
}

/// Whether an instruction may follow `before`, in a program whose
/// instructions have the indices up to `bound`.
pub open spec fn instr_fits(before: Seq<Instr>, instr: Instr, bound: int) -> bool {
    match instr {
        Instr::Alloc { .. } => true,
        Instr::Add { a, b, dst } => operand_fits(before, a, bound) && operand_fits(
            before,
            b,
            bound,
        ) && reserved(before, dst),
        Instr::Mul { a, b, dst } => operand_fits(before, a, bound) && operand_fits(
            before,
            b,
            bound,
        ) && reserved(before, dst),
        Instr::LessThan { a, b, dst } => operand_fits(before, a, bound) && operand_fits(
            before,
            b,
            bound,
        ) && reserved(before, dst),
        Instr::Equals { a, b, dst } => operand_fits(before, a, bound) && operand_fits(
            before,
            b,
            bound,
        ) && reserved(before, dst),
        Instr::Load { slot, index, dst } => reserved(before, slot) && operand_fits(
            before,
            index,
            bound,
        ) && reserved(before, dst),
        Instr::Store { slot, index, src } => reserved(before, slot) && operand_fits(
            before,
            index,
            bound,
        ) && operand_fits(before, src, bound),
        Instr::JumpIfTrue { cond, target } => operand_fits(before, cond, bound) && operand_fits(
            before,
            target,
            bound,
        ),
        Instr::JumpIfFalse { cond, target } => operand_fits(before, cond, bound) && operand_fits(
            before,
            target,
            bound,
        ),
        Instr::Output { src } => operand_fits(before, src, bound),
        Instr::Halt => true,
    }
}

/// A program is consistent if each of its instructions may follow those
/// before it, and all addresses are indices of its instructions.
pub open spec fn consistent(code: Seq<Instr>) -> bool {
    forall|k: int|
        0 <= k < code.len() ==> instr_fits(code.take(k), #[trigger] code[k], code.len() - 1)
}

/// Whether the instructions of `part` may follow `before`, one after the
/// other.
pub open spec fn fits(before: Seq<Instr>, part: Seq<Instr>, bound: int) -> bool {
    forall|j: int|
        0 <= j < part.len() ==> instr_fits(before + part.take(j), #[trigger] part[j], bound)
}

/// Whether a value is an immediate or lies in a reserved cell.
pub open spec fn value_fits(before: Seq<Instr>, value: Operand) -> bool {
    match value {
        Operand::Imm(_) => true,
        Operand::Code(_) => false,
        Operand::Cell(cell) => reserved(before, cell),
    }
}

/// Whether what a binding refers to exists in `code`.
pub open spec fn binding_fits(code: Seq<Instr>, binding: Binding) -> bool {
    match binding {
        Binding::Var { cell } => reserved(code, cell),
        Binding::Param { cell } => reserved(code, cell),
        Binding::Array { slot } => reserved(code, slot),
        Binding::Const { .. } => true,
        Binding::Func { entry, ret_addr, ret_val, first_param, arity } => {
            &&& entry <= code.len()
            &&& reserved(code, ret_addr)
            &&& reserved(code, ret_val)
            &&& first_param + arity <= code.len()
            &&& forall|i: int|
                0 <= i < arity ==> #[trigger] code[first_param + i] is Alloc
        },
    }
}

/// Whether what the bindings in all scopes refer to exists in `code`.
pub open spec fn scopes_fit(scopes: Scopes, code: Seq<Instr>) -> bool {
    forall|i: int, name: Ident|
        0 <= i < scopes.len() && #[trigger] scopes[i].contains_key(name) ==> binding_fits(
            code,
            scopes[i][name],
        )
}

/// Whether what a frame of the control context refers to exists in `code`.
pub open spec fn frame_fits(code: Seq<Instr>, frame: Frame) -> bool {
    match frame {
        Frame::Loop(l) => l.cont <= code.len() && l.brk <= code.len(),
        Frame::Func(f) => reserved(code, f.ret_addr) && reserved(code, f.ret_val),
    }
}

/// Whether what the control context refers to exists in `code`.
pub open spec fn control_fits(control: Control, code: Seq<Instr>) -> bool {
    forall|i: int| 0 <= i < control.len() ==> frame_fits(code, #[trigger] control[i])
}

/// What fits after some code fits after more of it, and up to a larger
/// bound.
pub proof fn lemma_instr_fits_later(
    before: Seq<Instr>,
    more: Seq<Instr>,
    instr: Instr,
    bound: int,
    larger: int,
)
    requires
        instr_fits(before, instr, bound),
        bound <= larger,
    ensures
        instr_fits(before + more, instr, larger),
{
}

/// Parts that fit one after the other fit as one.
pub proof fn lemma_fits_append(
    before: Seq<Instr>,
    first: Seq<Instr>,
    second: Seq<Instr>,
    bound: int,
)
    requires
        fits(before, first, bound),
        fits(before + first, second, bound),
    ensures
        fits(before, first + second, bound),
{
    let whole = first + second;
    assert forall|j: int| 0 <= j < whole.len() implies instr_fits(
        before + whole.take(j),
        #[trigger] whole[j],
        bound,
    ) by {
        if j < first.len() {
            assert(whole.take(j) =~= first.take(j));
            assert(whole[j] == first[j]);
        } else {
            let k = j - first.len();
            assert(before + whole.take(j) =~= (before + first) + second.take(k));
            assert(whole[j] == second[k]);
        }
    }
}

/// A part that fits up to a bound fits up to a larger one.
pub proof fn lemma_fits_weaken(before: Seq<Instr>, part: Seq<Instr>, bound: int, larger: int)
    requires
        fits(before, part, bound),
        bound <= larger,
    ensures
        fits(before, part, larger),
{
    assert forall|j: int| 0 <= j < part.len() implies instr_fits(
        before + part.take(j),
        #[trigger] part[j],
        larger,
    ) by {
        lemma_instr_fits_later(before + part.take(j), Seq::empty(), part[j], bound, larger);
        assert(before + part.take(j) + Seq::<Instr>::empty() =~= before + part.take(j));
    }
}

/// A part that fits stays fitting when an instruction that fits follows it.
pub proof fn lemma_fits_push(before: Seq<Instr>, part: Seq<Instr>, instr: Instr, bound: int)
    requires
        fits(before, part, bound),
        instr_fits(before + part, instr, bound),
    ensures
        fits(before, part + seq![instr], bound),
        fits(before, part.push(instr), bound),
{
    let one = seq![instr];
    assert(one.take(0) =~= Seq::<Instr>::empty());
    assert(before + part + one.take(0) =~= before + part);
    assert(fits(before + part, one, bound));
    lemma_fits_append(before, part, one, bound);
    assert(part.push(instr) =~= part + one);
}

/// What the scopes and the control context refer to stays where it is when
/// code is appended.
pub proof fn lemma_env_fits_later(
    scopes: Scopes,
    control: Control,
    code: Seq<Instr>,
    more: Seq<Instr>,
)
    requires
        scopes_fit(scopes, code),
        control_fits(control, code),
    ensures
        scopes_fit(scopes, code + more),
        control_fits(control, code + more),
{
    let longer = code + more;
    assert forall|i: int, name: Ident|
        0 <= i < scopes.len() && #[trigger] scopes[i].contains_key(name) implies binding_fits(
        longer,
        scopes[i][name],
    ) by {
        let b = scopes[i][name];
        assert(binding_fits(code, b));
        if let Binding::Func { entry, ret_addr, ret_val, first_param, arity } = b {
            assert forall|k: int| 0 <= k < arity implies #[trigger] longer[first_param
                + k] is Alloc by {
                assert(code[first_param + k] is Alloc);
            }
        }
    }
    assert forall|i: int| 0 <= i < control.len() implies frame_fits(
        longer,
        #[trigger] control[i],
    ) by {
        assert(frame_fits(code, control[i]));
    }
}

/// A name that is found refers to what exists.
pub proof fn lemma_lookup_fits(scopes: Scopes, name: Ident, code: Seq<Instr>)
    requires
        scopes_fit(scopes, code),
    ensures
        lookup(scopes, name) matches Some(b) ==> binding_fits(code, b),
    decreases scopes.len(),
{
    if scopes.len() > 0 {
        if scopes.last().contains_key(name) {
            assert(scopes[scopes.len() - 1].contains_key(name));
        } else {
            let rest = scopes.drop_last();
            assert forall|i: int, other: Ident|
                0 <= i < rest.len() && #[trigger] rest[i].contains_key(other) implies binding_fits(
                code,
                rest[i][other],
            ) by {
                assert(scopes[i].contains_key(other));
            }
            lemma_lookup_fits(rest, name, code);
        }
    }
}

/// The current loop and the current function refer to what exists.
pub proof fn lemma_current_fits(control: Control, code: Seq<Instr>)
    requires
        control_fits(control, code),
    ensures
        current_loop(control) matches Some(l) ==> l.cont <= code.len() && l.brk <= code.len(),
        current_function(control) matches Some(f) ==> reserved(code, f.ret_addr) && reserved(
            code,
            f.ret_val,
        ),
    decreases control.len(),
{
    if control.len() > 0 {
        assert(frame_fits(code, control[control.len() - 1]));
        let rest = control.drop_last();
        assert forall|i: int| 0 <= i < rest.len() implies frame_fits(code, #[trigger] rest[i]) by {
            assert(frame_fits(code, control[i]));
        }
        lemma_current_fits(rest, code);
    }
}

/// Nothing fits after anything.
proof fn lemma_fits_nothing(before: Seq<Instr>, bound: int)
    ensures
        fits(before, Seq::empty(), bound),
{
}

/// A new cell and an instruction that may follow it fit.
proof fn lemma_fits_with_cell(before: Seq<Instr>, instr: Instr, bound: int)
    requires
        instr_fits(before + seq![alloc_one()], instr, bound),
    ensures
        fits(before, seq![alloc_one(), instr], bound),
        reserved(before + seq![alloc_one(), instr], before.len() as usize) || before.len()
            > usize::MAX,
{
    lemma_fits_nothing(before, bound);
    lemma_fits_push(before, Seq::empty(), alloc_one(), bound);
    assert(Seq::<Instr>::empty().push(alloc_one()) =~= seq![alloc_one()]);
    lemma_fits_push(before, seq![alloc_one()], instr, bound);
    assert(seq![alloc_one()].push(instr) =~= seq![alloc_one(), instr]);
}

/// A value that fits keeps fitting when code is appended.
proof fn lemma_value_fits_later(before: Seq<Instr>, more: Seq<Instr>, value: Operand, bound: int)
    requires
        value_fits(before, value),
    ensures
        value_fits(before + more, value),
        operand_fits(before + more, value, bound),
{
}

/// What an expression compiles to fits after code in which the bindings
/// exist, and its value lies in a cell that it reserved or is an immediate.
pub open spec fn expr_fits(e: Expr, scopes: Scopes, before: Seq<Instr>) -> bool {
    expr_code(e, scopes, before.len() as int) matches Ok(m) ==> before.len() + m.code.len()
        <= usize::MAX ==> fits(before, m.code, (before.len() + m.code.len()) as int) && value_fits(
        before + m.code,
        m.value,
    )
}

/// What a name that is used as a value compiles to fits.
proof fn lemma_var_fits(name: Ident, scopes: Scopes, before: Seq<Instr>)
    requires
        scopes_fit(scopes, before),
    ensures
        expr_fits(Expr::Var(name), scopes, before),
{
    lemma_lookup_fits(scopes, name, before);
    let base = before.len() as int;
    if let Ok(m) = expr_code(Expr::Var(name), scopes, base) {
        if base + m.code.len() <= usize::MAX {
            match scalar_cell(scopes, name) {
                Some(cell) => {
                    if !(lookup(scopes, name) is Some && lookup(scopes, name)->Some_0 is Const) {
                        let load = copy(Operand::Cell(cell), base);
                        assert(instr_fits(before + seq![alloc_one()], load, base + 2));
                        lemma_fits_with_cell(before, load, base + 2);
                    }
                },
                None => {},
            }
        }
    }
}

/// The instructions of an operator fit once its operands do.
proof fn lemma_binary_fits(op: BinOp, a: Operand, b: Operand, before: Seq<Instr>)
    requires
        value_fits(before, a),
        value_fits(before, b),
        before.len() + binary_code(op, a, b, before.len() as int).len() <= usize::MAX,
    ensures
        fits(
            before,
            binary_code(op, a, b, before.len() as int),
            (before.len() + binary_code(op, a, b, before.len() as int).len()) as int,
        ),
        reserved(before + binary_code(op, a, b, before.len() as int), before.len() as usize),
{
    let at = before.len() as int;
    let dst = at as usize;
    let code = binary_code(op, a, b, at);
    let bound = at + code.len();
    let cell = seq![alloc_one()];
    lemma_value_fits_later(before, cell, a, bound);
    lemma_value_fits_later(before, cell, b, bound);
    match op {
        BinOp::Sub => {
            let first = Instr::Mul { a: b, b: Operand::Imm(-1i64), dst };
            let second = Instr::Add { a, b: Operand::Cell(dst), dst };
            lemma_fits_with_cell(before, first, bound);
            lemma_value_fits_later(before, seq![alloc_one(), first], a, bound);
            assert(instr_fits(before + seq![alloc_one(), first], second, bound));
            lemma_fits_push(before, seq![alloc_one(), first], second, bound);
            assert(seq![alloc_one(), first].push(second) =~= code);
        },
        _ => {
            lemma_fits_with_cell(before, code[1], bound);
            assert(seq![alloc_one(), code[1]] =~= code);
        },
    }
}

/// The instructions that hand the arguments over fit.
proof fn lemma_stores_fit(
    values: Seq<Operand>,
    first_param: usize,
    before: Seq<Instr>,
    bound: int,
)
    requires
        forall|i: int| 0 <= i < values.len() ==> value_fits(before, #[trigger] values[i]),
        first_param + values.len() <= before.len() <= usize::MAX,
        forall|i: int| 0 <= i < values.len() ==> #[trigger] before[first_param + i] is Alloc,
    ensures
        fits(
            before,
            Seq::new(values.len(), |i: int| copy(values[i], first_param + i)),
            bound,
        ),
{
    let stores = Seq::new(values.len(), |i: int| copy(values[i], first_param + i));
    assert forall|j: int| 0 <= j < stores.len() implies instr_fits(
        before + stores.take(j),
        #[trigger] stores[j],
        bound,
    ) by {
        assert(value_fits(before, values[j]));
        assert(before[first_param + j] is Alloc);
        lemma_value_fits_later(before, stores.take(j), values[j], bound);
    }
}

/// The instructions of a call fit once its arguments do.
proof fn lemma_call_fits(
    values: Seq<Operand>,
    entry: usize,
    ret_addr: usize,
    ret_val: usize,
    first_param: usize,
    before: Seq<Instr>,
)
    requires
        forall|i: int| 0 <= i < values.len() ==> value_fits(before, #[trigger] values[i]),
        binding_fits(
            before,
            Binding::Func { entry, ret_addr, ret_val, first_param, arity: values.len() as usize },
        ),
        before.len() + values.len() + 4 <= usize::MAX,
    ensures
        ({
            let at = before.len() as int;
            let code = call_code(values, entry, ret_addr, ret_val, first_param, at);
            &&& code.len() == values.len() + 4
            &&& fits(before, code, (before.len() + code.len()) as int)
            &&& reserved(before + code, (before.len() + values.len() + 2) as usize)
        }),
{
    let at = before.len() as int;
    let code = call_code(values, entry, ret_addr, ret_val, first_param, at);
    let bound = at + values.len() + 4;
    let back = at + values.len() + 2;
    let stores = Seq::new(values.len(), |i: int| copy(values[i], first_param + i));
    assert forall|i: int| 0 <= i < values.len() implies #[trigger] before[first_param
        + i] is Alloc by {
    }
    lemma_stores_fit(values, first_param, before, bound);
    let link = copy(Operand::Code(back as usize), ret_addr as int);
    let go = jump(entry as int);
    let fetch = copy(Operand::Cell(ret_val), back);
    let s1 = stores.push(link);
    assert(instr_fits(before + stores, link, bound));
    lemma_fits_push(before, stores, link, bound);
    let s2 = s1.push(go);
    assert(instr_fits(before + s1, go, bound));
    lemma_fits_push(before, s1, go, bound);
    let s3 = s2.push(alloc_one());
    lemma_fits_push(before, s2, alloc_one(), bound);
    let s4 = s3.push(fetch);
    assert((before + s3)[back] == alloc_one());
    assert(instr_fits(before + s3, fetch, bound));
    lemma_fits_push(before, s3, fetch, bound);
    assert(s4 =~= code);
    assert((before + code)[back] == alloc_one());
}

/// What an expression compiles to fits.
pub proof fn lemma_expr_fits(e: Expr, scopes: Scopes, before: Seq<Instr>)
    requires
        scopes_fit(scopes, before),
    ensures
        expr_fits(e, scopes, before),
    decreases e,
{
    let base = before.len() as int;
    if let Ok(m) = expr_code(e, scopes, base) {
        if base + m.code.len() <= usize::MAX {
            match e {
                Expr::Num(_) => {},
                Expr::Var(name) => {
                    lemma_var_fits(name, scopes, before);
                },
                Expr::Index(name, index) => {
                    lemma_lookup_fits(scopes, name, before);
                    lemma_expr_fits(*index, scopes, before);
                    let i = expr_code(*index, scopes, base)->Ok_0;
                    let slot = lookup(scopes, name)->Some_0->slot;
                    let bound = base + m.code.len();
                    let at = base + i.code.len();
                    let load = Instr::Load { slot, index: i.value, dst: at as usize };
                    lemma_fits_weaken(before, i.code, at, bound);
                    lemma_value_fits_later(before + i.code, seq![alloc_one()], i.value, bound);
                    assert(reserved(before + i.code + seq![alloc_one()], slot));
                    lemma_fits_with_cell(before + i.code, load, bound);
                    lemma_fits_append(before, i.code, seq![alloc_one(), load], bound);
                    assert(before + m.code =~= before + i.code + seq![alloc_one(), load]);
                },
                Expr::Call(name, args) => {
                    lemma_lookup_fits(scopes, name, before);
                    lemma_args_fits(args@, scopes, before);
                    let a = args_code(args@, scopes, base)->Ok_0;
                    let b = lookup(scopes, name)->Some_0;
                    let bound = base + m.code.len();
                    if let Binding::Func { entry, ret_addr, ret_val, first_param, arity } = b {
                        let after = before + a.code;
                        lemma_env_fits_later(scopes, Seq::empty(), before, a.code);
                        lemma_lookup_fits(scopes, name, after);
                        lemma_call_fits(a.values, entry, ret_addr, ret_val, first_param, after);
                        let call = call_code(
                            a.values,
                            entry,
                            ret_addr,
                            ret_val,
                            first_param,
                            after.len() as int,
                        );
                        lemma_fits_weaken(before, a.code, base + a.code.len(), bound);
                        lemma_fits_append(before, a.code, call, bound);
                        assert(before + m.code =~= after + call);
                    }
                },
                Expr::Binary(op, left, right) => {
                    lemma_expr_fits(*left, scopes, before);
                    let a = expr_code(*left, scopes, base)->Ok_0;
                    let after_a = before + a.code;
                    lemma_env_fits_later(scopes, Seq::empty(), before, a.code);
                    lemma_expr_fits(*right, scopes, after_a);
                    let b = expr_code(*right, scopes, base + a.code.len())->Ok_0;
                    let after_b = after_a + b.code;
                    let bound = base + m.code.len();
                    let last = binary_code(op, a.value, b.value, after_b.len() as int);
                    lemma_value_fits_later(after_a, b.code, a.value, bound);
                    lemma_binary_fits(op, a.value, b.value, after_b);
                    lemma_fits_weaken(before, a.code, base + a.code.len(), bound);
                    let end_b = (after_a.len() + b.code.len()) as int;
                    lemma_fits_weaken(after_a, b.code, end_b, bound);
                    lemma_fits_append(before, a.code, b.code, bound);
                    assert(before + (a.code + b.code) =~= after_b);
                    lemma_fits_append(before, a.code + b.code, last, bound);
                    assert(before + m.code =~= after_b + last);
                },
            }
        }
    }
}

/// What the arguments of a call compile to fits, and so does each value.
pub proof fn lemma_args_fits(args: Seq<Expr>, scopes: Scopes, before: Seq<Instr>)
    requires
        scopes_fit(scopes, before),
    ensures
        args_code(args, scopes, before.len() as int) matches Ok(a) ==> before.len()
            + a.code.len() <= usize::MAX ==> {
            &&& a.values.len() == args.len()
            &&& fits(before, a.code, (before.len() + a.code.len()) as int)
            &&& forall|i: int|
                0 <= i < a.values.len() ==> value_fits(before + a.code, #[trigger] a.values[i])
        },
    decreases args,
{
    let base = before.len() as int;
    if args.len() > 0 {
        if let Ok(a) = args_code(args, scopes, base) {
            if base + a.code.len() <= usize::MAX {
                lemma_args_fits(args.drop_last(), scopes, before);
                let first = args_code(args.drop_last(), scopes, base)->Ok_0;
                let after = before + first.code;
                lemma_env_fits_later(scopes, Seq::empty(), before, first.code);
                lemma_expr_fits(args.last(), scopes, after);
                let last = expr_code(args.last(), scopes, base + first.code.len())->Ok_0;
                let bound = base + a.code.len();
                lemma_fits_weaken(before, first.code, base + first.code.len(), bound);
                lemma_fits_append(before, first.code, last.code, bound);
                assert(before + a.code =~= after + last.code);
                assert forall|i: int| 0 <= i < a.values.len() implies value_fits(
                    before + a.code,
                    #[trigger] a.values[i],
                ) by {
                    if i < first.values.len() {
                        assert(value_fits(after, first.values[i]));
                        lemma_value_fits_later(after, last.code, first.values[i], bound);
                    }
                }
            }
        }
    }
}

/// What a statement compiles to fits after code in which the bindings and
/// the control context exist, and so do the bindings after it.
pub open spec fn stmt_fits(s: Stmt, scopes: Scopes, control: Control, before: Seq<Instr>) -> bool {
    stmt_code(s, scopes, control, before.len() as int) matches Ok(o) ==> before.len()
        + o.code.len() <= usize::MAX ==> {
        &&& fits(before, o.code, (before.len() + o.code.len()) as int)
        &&& scopes_fit(o.scopes, before + o.code)
        &&& o.scopes.len() == scopes.len()
    }
}

/// What a list of statements compiles to fits, and so do the bindings after
/// it.
pub open spec fn stmts_fit(
    stmts: Seq<Stmt>,
    scopes: Scopes,
    control: Control,
    before: Seq<Instr>,
) -> bool {
    stmts_code(stmts, scopes, control, before.len() as int) matches Ok(o) ==> before.len()
        + o.code.len() <= usize::MAX ==> {
        &&& fits(before, o.code, (before.len() + o.code.len()) as int)
        &&& scopes_fit(o.scopes, before + o.code)
        &&& o.scopes.len() == scopes.len()
    }
}

/// A binding that exists may be declared.
proof fn lemma_declare_fits(scopes: Scopes, name: Ident, binding: Binding, code: Seq<Instr>)
    requires
        scopes.len() > 0,
        scopes_fit(scopes, code),
        binding_fits(code, binding),
    ensures
        scopes_fit(declare(scopes, name, binding), code),
        declare(scopes, name, binding).len() == scopes.len(),
{
    let after = declare(scopes, name, binding);
    assert forall|i: int, other: Ident|
        0 <= i < after.len() && #[trigger] after[i].contains_key(other) implies binding_fits(
        code,
        after[i][other],
    ) by {
        if i == scopes.len() - 1 && other == name {
        } else {
            assert(scopes[i].contains_key(other));
        }
    }
}

/// A new frame has nothing that could fail to exist.
proof fn lemma_enter_fits(scopes: Scopes, code: Seq<Instr>)
    requires
        scopes_fit(scopes, code),
    ensures
        scopes_fit(enter(scopes), code),
        enter(scopes).len() == scopes.len() + 1,
{
    let inside = enter(scopes);
    assert forall|i: int, name: Ident|
        0 <= i < inside.len() && #[trigger] inside[i].contains_key(name) implies binding_fits(
        code,
        inside[i][name],
    ) by {
        if i < scopes.len() {
            assert(scopes[i].contains_key(name));
        }
    }
}

/// One instruction that fits is a part that fits.
proof fn lemma_fits_one(before: Seq<Instr>, instr: Instr, bound: int)
    requires
        instr_fits(before, instr, bound),
    ensures
        fits(before, seq![instr], bound),
{
    lemma_fits_nothing(before, bound);
    assert(before + Seq::<Instr>::empty() =~= before);
    lemma_fits_push(before, Seq::empty(), instr, bound);
    assert(Seq::<Instr>::empty().push(instr) =~= seq![instr]);
}

/// What the declaration of a variable compiles to fits.
proof fn lemma_let_fits(
    name: Ident,
    init: Option<Expr>,
    scopes: Scopes,
    control: Control,
    before: Seq<Instr>,
)
    requires
        scopes.len() > 0,
        scopes_fit(scopes, before),
    ensures
        stmt_fits(Stmt::Let(name, init), scopes, control, before),
{
    let base = before.len() as int;
    if let Ok(o) = stmt_code(Stmt::Let(name, init), scopes, control, base) {
        if base + o.code.len() <= usize::MAX {
            let bound = base + o.code.len();
            let after = before + o.code;
            lemma_env_fits_later(scopes, Seq::empty(), before, o.code);
            match init {
                None => {
                    lemma_fits_one(before, alloc_one(), bound);
                    lemma_declare_fits(scopes, name, Binding::Var { cell: base as usize }, after);
                },
                Some(e) => {
                    lemma_expr_fits(e, scopes, before);
                    let v = expr_code(e, scopes, base)->Ok_0;
                    let cell = base + v.code.len();
                    let store = copy(v.value, cell);
                    lemma_value_fits_later(before + v.code, seq![alloc_one()], v.value, bound);
                    lemma_fits_with_cell(before + v.code, store, bound);
                    lemma_fits_weaken(before, v.code, cell, bound);
                    lemma_fits_append(before, v.code, seq![alloc_one(), store], bound);
                    assert(after =~= before + v.code + seq![alloc_one(), store]);
                    lemma_declare_fits(scopes, name, Binding::Var { cell: cell as usize }, after);
                },
            }
        }
    }
}

/// What the declaration of an array or a constant compiles to fits.
proof fn lemma_folded_fits(s: Stmt, scopes: Scopes, control: Control, before: Seq<Instr>)
    requires
        scopes.len() > 0,
        scopes_fit(scopes, before),
        s is LetArray || s is Const,
    ensures
        stmt_fits(s, scopes, control, before),
{
    let base = before.len() as int;
    if let Ok(o) = stmt_code(s, scopes, control, base) {
        if base + o.code.len() <= usize::MAX {
            let bound = base + o.code.len();
            let after = before + o.code;
            lemma_env_fits_later(scopes, Seq::empty(), before, o.code);
            match s {
                Stmt::LetArray(name, _) => {
                    lemma_fits_one(before, o.code[0], bound);
                    assert(o.code =~= seq![o.code[0]]);
                    lemma_declare_fits(scopes, name, Binding::Array { slot: base as usize }, after);
                },
                Stmt::Const(name, _) => {
                    let value = o.scopes.last()[name];
                    lemma_declare_fits(scopes, name, value, after);
                },
                _ => {},
            }
        }
    }
}

/// What an assignment compiles to fits.
proof fn lemma_assign_fits(s: Stmt, scopes: Scopes, control: Control, before: Seq<Instr>)
    requires
        scopes.len() > 0,
        scopes_fit(scopes, before),
        s is Assign || s is AssignIndex,
    ensures
        stmt_fits(s, scopes, control, before),
{
    let base = before.len() as int;
    if let Ok(o) = stmt_code(s, scopes, control, base) {
        if base + o.code.len() <= usize::MAX {
            let bound = base + o.code.len();
            lemma_env_fits_later(scopes, Seq::empty(), before, o.code);
            match s {
                Stmt::Assign(name, value) => {
                    lemma_lookup_fits(scopes, name, before);
                    lemma_expr_fits(value, scopes, before);
                    let v = expr_code(value, scopes, base)->Ok_0;
                    let cell = scalar_cell(scopes, name)->Some_0;
                    let store = copy(v.value, cell as int);
                    lemma_fits_weaken(before, v.code, base + v.code.len(), bound);
                    assert(instr_fits(before + v.code, store, bound));
                    lemma_fits_push(before, v.code, store, bound);
                },
                Stmt::AssignIndex(name, index, value) => {
                    lemma_lookup_fits(scopes, name, before);
                    lemma_expr_fits(index, scopes, before);
                    let i = expr_code(index, scopes, base)->Ok_0;
                    let mid = before + i.code;
                    lemma_env_fits_later(scopes, Seq::empty(), before, i.code);
                    lemma_expr_fits(value, scopes, mid);
                    let v = expr_code(value, scopes, base + i.code.len())->Ok_0;
                    let slot = lookup(scopes, name)->Some_0->slot;
                    let store = Instr::Store { slot, index: i.value, src: v.value };
                    lemma_fits_weaken(before, i.code, base + i.code.len(), bound);
                    lemma_fits_weaken(mid, v.code, (mid.len() + v.code.len()) as int, bound);
                    lemma_fits_append(before, i.code, v.code, bound);
                    lemma_value_fits_later(mid, v.code, i.value, bound);
                    assert(before + (i.code + v.code) =~= mid + v.code);
                    assert(instr_fits(before + (i.code + v.code), store, bound));
                    lemma_fits_push(before, i.code + v.code, store, bound);
                },
                _ => {},
            }
        }
    }
}

/// The instructions that return from a function fit.
proof fn lemma_return_fits(f: FuncFrame, value: Operand, before: Seq<Instr>, bound: int)
    requires
        reserved(before, f.ret_addr),
        reserved(before, f.ret_val),
        value_fits(before, value),
    ensures
        fits(before, return_code(f, value), bound),
{
    let first = copy(value, f.ret_val as int);
    lemma_fits_one(before, first, bound);
    lemma_fits_push(before, seq![first], return_code(f, value)[1], bound);
    assert(seq![first].push(return_code(f, value)[1]) =~= return_code(f, value));
}

/// What a statement that holds no statements and declares nothing compiles to
/// fits.
proof fn lemma_simple_fits(s: Stmt, scopes: Scopes, control: Control, before: Seq<Instr>)
    requires
        scopes.len() > 0,
        scopes_fit(scopes, before),
        control_fits(control, before),
        s is Break || s is Continue || s is Return || s is Output || s is Eval,
    ensures
        stmt_fits(s, scopes, control, before),
{
    let base = before.len() as int;
    if let Ok(o) = stmt_code(s, scopes, control, base) {
        if base + o.code.len() <= usize::MAX {
            let bound = base + o.code.len();
            lemma_env_fits_later(scopes, control, before, o.code);
            lemma_current_fits(control, before);
            match s {
                Stmt::Break => {
                    lemma_fits_one(before, o.code[0], bound);
                    assert(o.code =~= seq![o.code[0]]);
                },
                Stmt::Continue => {
                    lemma_fits_one(before, o.code[0], bound);
                    assert(o.code =~= seq![o.code[0]]);
                },
                Stmt::Return(None) => {
                    let f = current_function(control)->Some_0;
                    lemma_return_fits(f, Operand::Imm(0), before, bound);
                },
                Stmt::Return(Some(value)) => {
                    let f = current_function(control)->Some_0;
                    lemma_expr_fits(value, scopes, before);
                    let v = expr_code(value, scopes, base)->Ok_0;
                    lemma_return_fits(f, v.value, before + v.code, bound);
                    lemma_fits_weaken(before, v.code, base + v.code.len(), bound);
                    lemma_fits_append(before, v.code, return_code(f, v.value), bound);
                },
                Stmt::Output(value) => {
                    lemma_expr_fits(value, scopes, before);
                    let v = expr_code(value, scopes, base)->Ok_0;
                    lemma_fits_weaken(before, v.code, base + v.code.len(), bound);
                    lemma_fits_push(before, v.code, Instr::Output { src: v.value }, bound);
                },
                Stmt::Eval(value) => {
                    lemma_expr_fits(value, scopes, before);
                },
                _ => {},
            }
        }
    }
}

/// A frame that exists may be entered.
proof fn lemma_control_push_fits(control: Control, frame: Frame, code: Seq<Instr>)
    requires
        control_fits(control, code),
        frame_fits(code, frame),
    ensures
        control_fits(control.push(frame), code),
{
}

/// What a conditional compiles to fits.
proof fn lemma_if_fits(
    cond: Expr,
    then: Vec<Stmt>,
    otherwise: Vec<Stmt>,
    scopes: Scopes,
    control: Control,
    before: Seq<Instr>,
)
    requires
        scopes.len() > 0,
        scopes_fit(scopes, before),
        control_fits(control, before),
    ensures
        stmt_fits(Stmt::If(cond, then, otherwise), scopes, control, before),
    decreases Stmt::If(cond, then, otherwise), 0int,
{
    let base = before.len() as int;
    if let Ok(o) = stmt_code(Stmt::If(cond, then, otherwise), scopes, control, base) {
        if base + o.code.len() <= usize::MAX {
            let bound = base + o.code.len();
            lemma_expr_fits(cond, scopes, before);
            let c = expr_code(cond, scopes, base)->Ok_0;
            let test = base + c.code.len();
            let jz = Instr::JumpIfFalse {
                cond: c.value,
                target: Operand::Code((test + 1 + stmts_code(
                    then@,
                    enter(scopes),
                    control,
                    test + 1,
                )->Ok_0.code.len() + 1) as usize),
            };
            let head = c.code.push(jz);
            let after_head = before + head;
            lemma_fits_weaken(before, c.code, test, bound);
            lemma_value_fits_later(before + c.code, Seq::empty(), c.value, bound);
            assert(before + c.code + Seq::<Instr>::empty() =~= before + c.code);
            lemma_fits_push(before, c.code, jz, bound);
            lemma_env_fits_later(scopes, control, before, head);
            lemma_enter_fits(scopes, after_head);
            lemma_stmts_fit(then@, enter(scopes), control, after_head);
            let t = stmts_code(then@, enter(scopes), control, test + 1)->Ok_0;
            let skip = test + 1 + t.code.len();
            lemma_fits_weaken(after_head, t.code, skip, bound);
            lemma_fits_append(before, head, t.code, bound);
            let upto = (head + t.code).push(jump(bound));
            let after_upto = before + upto;
            lemma_fits_push(before, head + t.code, jump(bound), bound);
            lemma_env_fits_later(scopes, control, before, upto);
            lemma_enter_fits(scopes, after_upto);
            lemma_stmts_fit(otherwise@, enter(scopes), control, after_upto);
            let e = stmts_code(otherwise@, enter(scopes), control, skip + 1)->Ok_0;
            lemma_fits_weaken(after_upto, e.code, bound, bound);
            lemma_fits_append(before, upto, e.code, bound);
            assert(o.code =~= upto + e.code);
            lemma_env_fits_later(scopes, control, before, o.code);
        }
    }
}

/// What a loop compiles to fits.
proof fn lemma_while_fits(
    cond: Expr,
    body: Vec<Stmt>,
    scopes: Scopes,
    control: Control,
    before: Seq<Instr>,
)
    requires
        scopes.len() > 0,
        scopes_fit(scopes, before),
        control_fits(control, before),
    ensures
        stmt_fits(Stmt::While(cond, body), scopes, control, before),
    decreases Stmt::While(cond, body), 0int,
{
    let base = before.len() as int;
    if let Ok(o) = stmt_code(Stmt::While(cond, body), scopes, control, base) {
        if base + o.code.len() <= usize::MAX {
            let bound = base + o.code.len();
            lemma_expr_fits(cond, scopes, before);
            let c = expr_code(cond, scopes, base)->Ok_0;
            let test = base + c.code.len();
            let start = test + 2;
            let frame = LoopFrame { cont: base as usize, brk: (test + 1) as usize };
            let enter_body = Instr::JumpIfTrue {
                cond: c.value,
                target: Operand::Code(start as usize),
            };
            lemma_fits_weaken(before, c.code, test, bound);
            lemma_value_fits_later(before + c.code, Seq::empty(), c.value, bound);
            assert(before + c.code + Seq::<Instr>::empty() =~= before + c.code);
            lemma_fits_push(before, c.code, enter_body, bound);
            let head = c.code.push(enter_body);
            lemma_fits_push(before, head, jump(bound), bound);
            let upto = head.push(jump(bound));
            let after_upto = before + upto;
            lemma_env_fits_later(scopes, control, before, upto);
            lemma_enter_fits(scopes, after_upto);
            lemma_control_push_fits(control, Frame::Loop(frame), after_upto);
            lemma_stmts_fit(body@, enter(scopes), control.push(Frame::Loop(frame)), after_upto);
            let b = stmts_code(body@, enter(scopes), control.push(Frame::Loop(frame)), start)->Ok_0;
            lemma_fits_weaken(after_upto, b.code, start + b.code.len(), bound);
            lemma_fits_append(before, upto, b.code, bound);
            lemma_fits_push(before, upto + b.code, jump(base), bound);
            assert(o.code =~= (upto + b.code).push(jump(base)));
            lemma_env_fits_later(scopes, control, before, o.code);
        }
    }
}

/// What a block compiles to fits.
proof fn lemma_block_fits(body: Vec<Stmt>, scopes: Scopes, control: Control, before: Seq<Instr>)
    requires
        scopes.len() > 0,
        scopes_fit(scopes, before),
        control_fits(control, before),
    ensures
        stmt_fits(Stmt::Block(body), scopes, control, before),
    decreases Stmt::Block(body), 0int,
{
    let block = Stmt::Block(body);
    assert(block->Block_0 == body);
    assert(decreases_to!(block => body@));
    lemma_enter_fits(scopes, before);
    lemma_stmts_fit(body@, enter(scopes), control, before);
    if let Ok(o) = stmt_code(block, scopes, control, before.len() as int) {
        lemma_env_fits_later(scopes, control, before, o.code);
    }
}

/// The parameters of a function may be declared once their cells exist.
proof fn lemma_params_fit(params: Seq<Ident>, scopes: Scopes, first: int, code: Seq<Instr>)
    requires
        scopes.len() > 0,
        scopes_fit(scopes, code),
        0 <= first,
        first + params.len() <= code.len() <= usize::MAX,
        forall|i: int| 0 <= i < params.len() ==> #[trigger] code[first + i] is Alloc,
    ensures
        bind_params(params, scopes, first) matches Ok(bound) ==> scopes_fit(bound, code)
            && bound.len() == scopes.len(),
    decreases params.len(),
{
    if params.len() > 0 {
        lemma_params_fit(params.drop_last(), scopes, first, code);
        if let Ok(bound) = bind_params(params.drop_last(), scopes, first) {
            let cell = first + params.len() - 1;
            assert(code[first + (params.len() - 1)] is Alloc);
            lemma_declare_fits(bound, params.last(), Binding::Param { cell: cell as usize }, code);
        }
    }
}

/// What the declaration of a function compiles to fits.
proof fn lemma_func_fits(
    name: Ident,
    params: Vec<Ident>,
    body: Vec<Stmt>,
    scopes: Scopes,
    control: Control,
    before: Seq<Instr>,
)
    requires
        scopes.len() > 0,
        scopes_fit(scopes, before),
        control_fits(control, before),
    ensures
        stmt_fits(Stmt::Func(name, params, body), scopes, control, before),
    decreases Stmt::Func(name, params, body), 0int,
{
    let base = before.len() as int;
    if let Ok(o) = stmt_code(Stmt::Func(name, params, body), scopes, control, base) {
        if base + o.code.len() <= usize::MAX {
            let bound = base + o.code.len();
            let arity = params@.len() as int;
            let entry = base + 3 + arity;
            let binding = Binding::Func {
                entry: entry as usize,
                ret_addr: base as usize,
                ret_val: (base + 1) as usize,
                first_param: (base + 2) as usize,
                arity: arity as usize,
            };
            let outer = declare(scopes, name, binding);
            let frame = FuncFrame { ret_addr: base as usize, ret_val: (base + 1) as usize };
            let cells = Seq::new((arity + 2) as nat, |i: int| alloc_one());
            assert(fits(before, cells, bound));
            lemma_fits_push(before, cells, jump(bound), bound);
            let head = cells.push(jump(bound));
            let after_head = before + head;
            lemma_env_fits_later(scopes, control, before, head);
            assert(binding_fits(after_head, binding)) by {
                assert(after_head[base] is Alloc);
                assert(after_head[base + 1] is Alloc);
                assert forall|i: int| 0 <= i < arity implies #[trigger] after_head[base + 2
                    + i] is Alloc by {
                    assert(after_head[base + 2 + i] == cells[2 + i]);
                }
            }
            lemma_declare_fits(scopes, name, binding, after_head);
            lemma_enter_fits(outer, after_head);
            assert forall|i: int| 0 <= i < arity implies #[trigger] after_head[base + 2
                + i] is Alloc by {
                assert(after_head[base + 2 + i] == cells[2 + i]);
            }
            lemma_params_fit(params@, enter(outer), base + 2, after_head);
            let inner = bind_params(params@, enter(outer), base + 2)->Ok_0;
            lemma_control_push_fits(control, Frame::Func(frame), after_head);
            lemma_stmts_fit(body@, inner, control.push(Frame::Func(frame)), after_head);
            let b = stmts_code(body@, inner, control.push(Frame::Func(frame)), entry)->Ok_0;
            lemma_fits_weaken(after_head, b.code, entry + b.code.len(), bound);
            lemma_fits_append(before, head, b.code, bound);
            let upto = head + b.code;
            lemma_return_fits(frame, Operand::Imm(0), before + upto, bound);
            lemma_fits_append(before, upto, return_code(frame, Operand::Imm(0)), bound);
            assert(o.code =~= upto + return_code(frame, Operand::Imm(0)));
            let tail = b.code + return_code(frame, Operand::Imm(0));
            lemma_env_fits_later(outer, control, after_head, tail);
            assert(before + o.code =~= after_head + (b.code + return_code(frame, Operand::Imm(0))));
        }
    }
}

/// What a statement compiles to fits.
pub proof fn lemma_stmt_fits(s: Stmt, scopes: Scopes, control: Control, before: Seq<Instr>)
    requires
        scopes.len() > 0,
        scopes_fit(scopes, before),
        control_fits(control, before),
    ensures
        stmt_fits(s, scopes, control, before),
    decreases s, 1int,
{
    match s {
        Stmt::Let(name, init) => lemma_let_fits(name, init, scopes, control, before),
        Stmt::LetArray(_, _) => lemma_folded_fits(s, scopes, control, before),
        Stmt::Const(_, _) => lemma_folded_fits(s, scopes, control, before),
        Stmt::Func(name, params, body) => lemma_func_fits(
            name,
            params,
            body,
            scopes,
            control,
            before,
        ),
        Stmt::Assign(_, _) => lemma_assign_fits(s, scopes, control, before),
        Stmt::AssignIndex(_, _, _) => lemma_assign_fits(s, scopes, control, before),
        Stmt::If(cond, then, otherwise) => lemma_if_fits(
            cond,
            then,
            otherwise,
            scopes,
            control,
            before,
        ),
        Stmt::While(cond, body) => lemma_while_fits(cond, body, scopes, control, before),
        Stmt::Block(body) => lemma_block_fits(body, scopes, control, before),
        _ => lemma_simple_fits(s, scopes, control, before),
    }
}

/// What a list of statements compiles to fits.
pub proof fn lemma_stmts_fit(stmts: Seq<Stmt>, scopes: Scopes, control: Control, before: Seq<Instr>)
    requires
        scopes.len() > 0,
        scopes_fit(scopes, before),
        control_fits(control, before),
    ensures
        stmts_fit(stmts, scopes, control, before),
    decreases stmts, 2int,
{
    let base = before.len() as int;
    if let Ok(o) = stmts_code(stmts, scopes, control, base) {
        if base + o.code.len() <= usize::MAX {
            if stmts.len() == 0 {
                assert(before + o.code =~= before);
            } else {
                let bound = base + o.code.len();
                lemma_stmts_fit(stmts.drop_last(), scopes, control, before);
                let first = stmts_code(stmts.drop_last(), scopes, control, base)->Ok_0;
                let mid = before + first.code;
                lemma_env_fits_later(Seq::empty(), control, before, first.code);
                lemma_stmt_fits(stmts.last(), first.scopes, control, mid);
                let at = base + first.code.len();
                let last = stmt_code(stmts.last(), first.scopes, control, at)->Ok_0;
                lemma_fits_weaken(before, first.code, base + first.code.len(), bound);
                lemma_fits_append(before, first.code, last.code, bound);
                assert(before + o.code =~= mid + last.code);
            }
        }
    }
}

/// A compiled program is consistent: every cell is reserved before it is
/// used, every jump and every stored address leads to an instruction of the
/// program, and the last instruction stops the machine.
pub proof fn lemma_compiled_is_consistent(program: Program, code: Vec<Instr>)
    requires
        compiles_to(program, Ok(code)),
    ensures
        consistent(code@),
        code@.len() > 0,
        code@.last() == Instr::Halt,
{
    let global: Scopes = seq![Map::empty()];
    let nothing = Seq::<Instr>::empty();
    lemma_stmts_fit(program.items@, global, Seq::empty(), nothing);
    let o = stmts_code(program.items@, global, Seq::empty(), 0)->Ok_0;
    assert(code@ == o.code + seq![Instr::Halt]);
    assert(code@.len() == code.len());
    let bound = code@.len() - 1;
    assert(fits(nothing, o.code, bound));
    assert forall|k: int| 0 <= k < code@.len() implies instr_fits(
        code@.take(k),
        #[trigger] code@[k],
        bound,
    ) by {
        if k < o.code.len() {
            assert(code@[k] == o.code[k]);
            assert(nothing + o.code.take(k) =~= code@.take(k));
        }
    }
}

} // verus!
