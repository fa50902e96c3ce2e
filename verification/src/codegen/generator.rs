//! The compiler: one pass over the tree.
//!
//! Instructions are only ever appended. The one exception is a jump or an
//! address whose target lies ahead: it is written with a placeholder and
//! patched as soon as the target is known, before the construct it belongs
//! to is finished.

use vstd::prelude::*;
use crate::ast::{BinOp, Expr, Ident, Program, Stmt};
use crate::control::{ControlStack, Frame, FuncFrame, LoopFrame};
use crate::env::Environment;
use crate::error::CompilerError;
use crate::scope::{
    all_wf, declare, declared_here, enter, lemma_declare_wf, lemma_enter_leave_wf, lemma_lookup_wf,
    lookup, Binding, ScopeStack, Scopes,
};
use crate::target::{alloc_one, copy, jump, Instr, Operand};
use super::consistency::{consistent, lemma_compiled_is_consistent};
use super::model::{
    apply, args_code, binary_code, bind_params, call_code, compiles_to, const_value, expr_code,
    return_code, stmt_code, stmts_code,
};

verus! {

/// The state of one compilation.
struct Generator {
    code: Vec<Instr>,
    scopes: ScopeStack,
    control: ControlStack,
}

/// `x op y` as the target machine computes it.
fn apply_op(op: BinOp, x: i64, y: i64) -> (r: i64)
    ensures
        r == apply(op, x, y),
{
    match op {
        BinOp::Add => x.wrapping_add(y),
        BinOp::Sub => x.wrapping_sub(y),
        BinOp::Mul => x.wrapping_mul(y),
        BinOp::Less => if x < y { 1 } else { 0 },
        BinOp::Equal => if x == y { 1 } else { 0 },
    }
}

impl Generator {
    /// A scope frame is open and every binding is well formed.
    spec fn wf(&self) -> bool {
        self.scopes@.len() > 0 && all_wf(self.scopes@)
    }

    /// The state after `code` was appended to what `before` had, with
    /// `scopes` as the new scopes, which differ from the old ones in the
    /// innermost frame at most.
    spec fn after(&self, before: Generator, code: Seq<Instr>, scopes: Scopes) -> bool {
        &&& self.code@ == before.code@ + code
        &&& self.scopes@ == scopes
        &&& self.control@ == before.control@
        &&& scopes.len() == before.scopes@.len()
        &&& scopes.drop_last() == before.scopes@.drop_last()
        &&& self.wf()
    }

    /// The state before anything is compiled: no code, the global scope, and no
    /// loop or function around.
    fn new() -> (g: Generator)
        ensures
            g.code@ == Seq::<Instr>::empty(),
            g.scopes@ == seq![Map::<Ident, Binding>::empty()],
            g.control@ == Seq::<Frame>::empty(),
            g.wf(),
    {
        let mut scopes = ScopeStack::new();
        scopes.enter();
        let g = Generator { code: Vec::new(), scopes, control: ControlStack::new() };
        assert(g.scopes@ =~= seq![Map::<Ident, Binding>::empty()]);
        g
    }

    /// Appends one instruction and gives its index.
    fn emit(&mut self, instr: Instr) -> (at: usize)
        ensures
            at == old(self).code@.len(),
            final(self).code@ == old(self).code@.push(instr),
            final(self).scopes == old(self).scopes,
            final(self).control == old(self).control,
    {
        let at = self.code.len();
        self.code.push(instr);
        at
    }

    /// Replaces the placeholder at `at`.
    fn patch(&mut self, at: usize, instr: Instr)
        requires
            at < old(self).code@.len(),
        ensures
            final(self).code@ == old(self).code@.update(at as int, instr),
            final(self).scopes == old(self).scopes,
            final(self).control == old(self).control,
    {
        self.code.set(at, instr);
    }

    /// Reserves one cell and gives its name.
    fn emit_alloc(&mut self) -> (cell: usize)
        ensures
            cell == old(self).code@.len(),
            final(self).code@ == old(self).code@.push(alloc_one()),
            final(self).scopes == old(self).scopes,
            final(self).control == old(self).control,
    {
        self.emit(Instr::Alloc { cells: 1 })
    }

    /// Appends the instruction that copies `src` into the cell `dst`.
    fn emit_copy(&mut self, src: Operand, dst: usize) -> (at: usize)
        ensures
            at == old(self).code@.len(),
            final(self).code@ == old(self).code@.push(copy(src, dst as int)),
            final(self).scopes == old(self).scopes,
            final(self).control == old(self).control,
    {
        self.emit(Instr::Add { a: src, b: Operand::Imm(0), dst })
    }

    /// Appends a jump to the instruction with the index `target`.
    fn emit_jump(&mut self, target: usize) -> (at: usize)
        ensures
            at == old(self).code@.len(),
            final(self).code@ == old(self).code@.push(jump(target as int)),
            final(self).scopes == old(self).scopes,
            final(self).control == old(self).control,
    {
        self.emit(Instr::JumpIfTrue { cond: Operand::Imm(1), target: Operand::Code(target) })
    }

    /// Evaluates a constant expression.
    fn fold(&self, e: &Expr) -> (r: Result<i64, CompilerError>)
        ensures
            r == const_value(*e, self.scopes@),
        decreases *e,
    {
        match e {
            Expr::Num(n) => Ok(*n),
            Expr::Var(name) => match self.scopes.lookup(*name) {
                Some(Binding::Const { value }) => Ok(value),
                _ => Err(CompilerError::UndefinedOrNonConstInConstant),
            },
            Expr::Index(_, _) => Err(CompilerError::IndexInConstant),
            Expr::Call(_, _) => Err(CompilerError::FunctionCallInConstant),
            Expr::Binary(op, left, right) => {
                let x = match self.fold(left) {
                    Ok(x) => x,
                    Err(e) => {
                        return Err(e);
                    },
                };
                let y = match self.fold(right) {
                    Ok(y) => y,
                    Err(e) => {
                        return Err(e);
                    },
                };
                Ok(apply_op(*op, x, y))
            },
        }
    }

    /// Appends the instructions that compute `a op b` and gives the cell
    /// that holds the result.
    fn emit_binary(&mut self, op: BinOp, a: Operand, b: Operand) -> (cell: usize)
        ensures
            cell == old(self).code@.len(),
            final(self).code@ == old(self).code@ + binary_code(op, a, b, cell as int),
            final(self).scopes == old(self).scopes,
            final(self).control == old(self).control,
    {
        let dst = self.emit_alloc();
        match op {
            BinOp::Add => {
                self.emit(Instr::Add { a, b, dst });
            },
            BinOp::Mul => {
                self.emit(Instr::Mul { a, b, dst });
            },
            BinOp::Less => {
                self.emit(Instr::LessThan { a, b, dst });
            },
            BinOp::Equal => {
                self.emit(Instr::Equals { a, b, dst });
            },
            BinOp::Sub => {
                self.emit(Instr::Mul { a: b, b: Operand::Imm(-1), dst });
                self.emit(Instr::Add { a, b: Operand::Cell(dst), dst });
            },
        }
        assert(self.code@ =~= old(self).code@ + binary_code(op, a, b, dst as int));
        dst
    }

    /// Appends the instructions of a call whose arguments are evaluated and
    /// gives the cell that holds the result afterwards. The address to come
    /// back to lies ahead when it is saved, so it is patched in.
    fn emit_call(
        &mut self,
        values: &Vec<Operand>,
        entry: usize,
        ret_addr: usize,
        ret_val: usize,
        first_param: usize,
    ) -> (cell: usize)
        requires
            first_param + values@.len() <= usize::MAX,
        ensures
            final(self).code@ == old(self).code@ + call_code(
                values@,
                entry,
                ret_addr,
                ret_val,
                first_param,
                old(self).code@.len() as int,
            ),
            cell == old(self).code@.len() + values@.len() + 2,
            final(self).scopes == old(self).scopes,
            final(self).control == old(self).control,
    {
        let mut i: usize = 0;
        assert(self.code@ =~= old(self).code@ + Seq::new(
            0,
            |k: int| copy(values@[k], first_param + k),
        ));
        while i < values.len()
            invariant
                i <= values@.len(),
                first_param + values@.len() <= usize::MAX,
                self.code@ == old(self).code@ + Seq::new(
                    i as nat,
                    |k: int| copy(values@[k], first_param + k),
                ),
                self.scopes == old(self).scopes,
                self.control == old(self).control,
            decreases values@.len() - i,
        {
            self.emit_copy(values[i], first_param + i);
            i = i + 1;
            assert(self.code@ =~= old(self).code@ + Seq::new(
                i as nat,
                |k: int| copy(values@[k], first_param + k),
            ));
        }
        let link = self.emit_copy(Operand::Code(0), ret_addr);
        self.emit_jump(entry);
        let back = self.emit_alloc();
        self.patch(link, Instr::Add { a: Operand::Code(back), b: Operand::Imm(0), dst: ret_addr });
        self.emit_copy(Operand::Cell(ret_val), back);
        assert(self.code@ =~= old(self).code@ + call_code(
            values@,
            entry,
            ret_addr,
            ret_val,
            first_param,
            old(self).code@.len() as int,
        ));
        back
    }

    /// Compiles an expression that is evaluated when the program runs and
    /// gives the operand that holds its value afterwards.
    fn gen_expr(&mut self, e: &Expr) -> (r: Result<Operand, CompilerError>)
        requires
            old(self).wf(),
        ensures
            match expr_code(*e, old(self).scopes@, old(self).code@.len() as int) {
                Ok(m) => r == Ok::<Operand, CompilerError>(m.value) && final(self).after(
                    *old(self),
                    m.code,
                    old(self).scopes@,
                ),
                Err(x) => r == Err::<Operand, CompilerError>(x),
            },
        decreases *e, 0int,
    {
        let ghost base = self.code@.len() as int;
        let ghost scopes = self.scopes@;
        match e {
            Expr::Num(n) => {
                assert(self.code@ =~= old(self).code@ + Seq::<Instr>::empty());
                Ok(Operand::Imm(*n))
            },
            Expr::Var(name) => {
                let cell = match self.scopes.lookup(*name) {
                    Some(Binding::Const { value }) => {
                        assert(self.code@ =~= old(self).code@ + Seq::<Instr>::empty());
                        return Ok(Operand::Imm(value));
                    },
                    Some(Binding::Var { cell }) => cell,
                    Some(Binding::Param { cell }) => cell,
                    _ => {
                        return Err(CompilerError::UndefinedVariable(*name));
                    },
                };
                let t = self.emit_alloc();
                self.emit_copy(Operand::Cell(cell), t);
                assert(self.code@ =~= old(self).code@ + seq![
                    alloc_one(),
                    copy(Operand::Cell(cell), base),
                ]);
                Ok(Operand::Cell(t))
            },
            Expr::Index(name, index) => {
                let slot = match self.scopes.lookup(*name) {
                    Some(Binding::Array { slot }) => slot,
                    _ => {
                        return Err(CompilerError::UndefinedVariable(*name));
                    },
                };
                let i = match self.gen_expr(index) {
                    Ok(i) => i,
                    Err(e) => {
                        return Err(e);
                    },
                };
                let ghost m = expr_code(**index, scopes, base)->Ok_0;
                let t = self.emit_alloc();
                self.emit(Instr::Load { slot, index: i, dst: t });
                assert(self.code@ =~= old(self).code@ + (m.code + seq![
                    alloc_one(),
                    Instr::Load { slot, index: i, dst: t },
                ]));
                Ok(Operand::Cell(t))
            },
            Expr::Call(name, args) => {
                match self.scopes.lookup(*name) {
                    Some(Binding::Func { entry, ret_addr, ret_val, first_param, arity }) => {
                        if arity != args.len() {
                            return Err(CompilerError::UndefinedVariable(*name));
                        }
                        proof {
                            lemma_lookup_wf(scopes, *name);
                        }
                        let values = match self.gen_args(args) {
                            Ok(values) => values,
                            Err(e) => {
                                return Err(e);
                            },
                        };
                        let ghost a = args_code(args@, scopes, base)->Ok_0;
                        proof {
                            lemma_args_values_len(args@, scopes, base);
                        }
                        let back = self.emit_call(&values, entry, ret_addr, ret_val, first_param);
                        assert(self.code@ =~= old(self).code@ + (a.code + call_code(
                            values@,
                            entry,
                            ret_addr,
                            ret_val,
                            first_param,
                            base + a.code.len(),
                        )));
                        Ok(Operand::Cell(back))
                    },
                    _ => Err(CompilerError::UndefinedVariable(*name)),
                }
            },
            Expr::Binary(op, left, right) => {
                let a = match self.gen_expr(left) {
                    Ok(a) => a,
                    Err(e) => {
                        return Err(e);
                    },
                };
                let ghost ma = expr_code(**left, scopes, base)->Ok_0;
                let b = match self.gen_expr(right) {
                    Ok(b) => b,
                    Err(e) => {
                        return Err(e);
                    },
                };
                let ghost mb = expr_code(**right, scopes, base + ma.code.len())->Ok_0;
                let t = self.emit_binary(*op, a, b);
                assert(self.code@ =~= old(self).code@ + (ma.code + mb.code + binary_code(
                    *op,
                    a,
                    b,
                    t as int,
                )));
                Ok(Operand::Cell(t))
            },
        }
    }

    /// Compiles the arguments of a call from left to right and gives the
    /// operands that hold their values afterwards.
    fn gen_args(&mut self, args: &Vec<Expr>) -> (r: Result<Vec<Operand>, CompilerError>)
        requires
            old(self).wf(),
        ensures
            match args_code(args@, old(self).scopes@, old(self).code@.len() as int) {
                Ok(a) => r is Ok && r->Ok_0@ == a.values && final(self).after(
                    *old(self),
                    a.code,
                    old(self).scopes@,
                ),
                Err(x) => r == Err::<Vec<Operand>, CompilerError>(x),
            },
        decreases *args, 0int,
    {
        let ghost base = self.code@.len() as int;
        let ghost scopes = self.scopes@;
        let mut values: Vec<Operand> = Vec::new();
        let mut i: usize = 0;
        assert(self.code@ =~= old(self).code@ + Seq::<Instr>::empty());
        while i < args.len()
            invariant
                i <= args.len(),
                args_code(args@.take(i as int), scopes, base) is Ok,
                values@ == args_code(args@.take(i as int), scopes, base)->Ok_0.values,
                self.after(
                    *old(self),
                    args_code(args@.take(i as int), scopes, base)->Ok_0.code,
                    scopes,
                ),
                scopes == old(self).scopes@,
                base == old(self).code@.len(),
            decreases args.len() - i,
        {
            let ghost done = args_code(args@.take(i as int), scopes, base)->Ok_0;
            assert(args@.take(i + 1).drop_last() =~= args@.take(i as int));
            assert(args@.take(i + 1).last() == args@[i as int]);
            match self.gen_expr(&args[i]) {
                Ok(v) => {
                    values.push(v);
                },
                Err(e) => {
                    proof {
                        lemma_args_prefix_error(args@, i + 1, scopes, base);
                    }
                    return Err(e);
                },
            }
            let ghost m = expr_code(args@[i as int], scopes, base + done.code.len())->Ok_0;
            assert(self.code@ =~= old(self).code@ + (done.code + m.code));
            i = i + 1;
        }
        assert(args@.take(i as int) =~= args@);
        Ok(values)
    }

    /// Compiles a list of statements in the current scope frame.
    fn gen_stmts(&mut self, stmts: &Vec<Stmt>) -> (r: Result<(), CompilerError>)
        requires
            old(self).wf(),
        ensures
            match stmts_code(
                stmts@,
                old(self).scopes@,
                old(self).control@,
                old(self).code@.len() as int,
            ) {
                Ok(o) => r is Ok && final(self).after(*old(self), o.code, o.scopes),
                Err(x) => r == Err::<(), CompilerError>(x),
            },
        decreases *stmts, 0int,
    {
        let ghost base = self.code@.len() as int;
        let ghost scopes = self.scopes@;
        let ghost control = self.control@;
        let mut i: usize = 0;
        assert(self.code@ =~= old(self).code@ + Seq::<Instr>::empty());
        while i < stmts.len()
            invariant
                i <= stmts.len(),
                stmts_code(stmts@.take(i as int), scopes, control, base) is Ok,
                self.after(
                    *old(self),
                    stmts_code(stmts@.take(i as int), scopes, control, base)->Ok_0.code,
                    stmts_code(stmts@.take(i as int), scopes, control, base)->Ok_0.scopes,
                ),
                scopes == old(self).scopes@,
                control == old(self).control@,
                base == old(self).code@.len(),
            decreases stmts.len() - i,
        {
            let ghost done = stmts_code(stmts@.take(i as int), scopes, control, base)->Ok_0;
            assert(stmts@.take(i + 1).drop_last() =~= stmts@.take(i as int));
            assert(stmts@.take(i + 1).last() == stmts@[i as int]);
            match self.gen_stmt(&stmts[i]) {
                Ok(()) => {},
                Err(e) => {
                    proof {
                        lemma_stmts_prefix_error(stmts@, i + 1, scopes, control, base);
                    }
                    return Err(e);
                },
            }
            let ghost at = base + done.code.len();
            let ghost o = stmt_code(stmts@[i as int], done.scopes, control, at)->Ok_0;
            assert(self.code@ =~= old(self).code@ + (done.code + o.code));
            i = i + 1;
        }
        assert(stmts@.take(i as int) =~= stmts@);
        Ok(())
    }

    /// Compiles a list of statements in a scope frame of its own.
    fn gen_scoped(&mut self, stmts: &Vec<Stmt>) -> (r: Result<(), CompilerError>)
        requires
            old(self).wf(),
        ensures
            match stmts_code(
                stmts@,
                enter(old(self).scopes@),
                old(self).control@,
                old(self).code@.len() as int,
            ) {
                Ok(o) => r is Ok && final(self).after(*old(self), o.code, old(self).scopes@),
                Err(x) => r == Err::<(), CompilerError>(x),
            },
        decreases *stmts, 1int,
    {
        proof {
            lemma_enter_leave_wf(self.scopes@);
        }
        self.scopes.enter();
        match self.gen_stmts(stmts) {
            Ok(()) => {},
            Err(e) => {
                return Err(e);
            },
        }
        self.scopes.leave();
        assert(self.scopes@ =~= old(self).scopes@);
        Ok(())
    }

    /// Declares `name` after the caller has found the innermost frame free
    /// of it.
    fn bind(&mut self, name: Ident, binding: Binding) -> (r: Result<(), CompilerError>)
        requires
            old(self).wf(),
            binding.wf(),
        ensures
            final(self).code == old(self).code,
            final(self).control == old(self).control,
            match r {
                Ok(()) => !declared_here(old(self).scopes@, name) && final(self).scopes@ == declare(
                    old(self).scopes@,
                    name,
                    binding,
                ) && final(self).scopes@.len() == old(self).scopes@.len()
                    && final(self).scopes@.drop_last() == old(self).scopes@.drop_last()
                    && final(self).wf(),
                Err(e) => declared_here(old(self).scopes@, name) && e
                    == CompilerError::DuplicateDeclaration(name),
            },
    {
        proof {
            lemma_declare_wf(self.scopes@, name, binding);
        }
        self.scopes.declare(name, binding)
    }

    /// Compiles one statement.
    fn gen_stmt(&mut self, s: &Stmt) -> (r: Result<(), CompilerError>)
        requires
            old(self).wf(),
        ensures
            match stmt_code(
                *s,
                old(self).scopes@,
                old(self).control@,
                old(self).code@.len() as int,
            ) {
                Ok(o) => r is Ok && final(self).after(*old(self), o.code, o.scopes),
                Err(x) => r == Err::<(), CompilerError>(x),
            },
        decreases *s, 2int,
    {
        match s {
            Stmt::Let(name, init) => self.gen_let(*name, init),
            Stmt::LetArray(name, length) => self.gen_let_array(*name, length),
            Stmt::Const(name, init) => self.gen_const(*name, init),
            Stmt::Func(name, params, body) => self.gen_func(*name, params, body),
            Stmt::Assign(name, value) => self.gen_assign(*name, value),
            Stmt::AssignIndex(name, index, value) => self.gen_assign_index(*name, index, value),
            Stmt::If(cond, then, otherwise) => self.gen_if(cond, then, otherwise),
            Stmt::While(cond, body) => self.gen_while(cond, body),
            Stmt::Block(body) => self.gen_scoped(body),
            Stmt::Break => self.gen_break(),
            Stmt::Continue => self.gen_continue(),
            Stmt::Return(value) => self.gen_return(value),
            Stmt::Output(value) => self.gen_output(value),
            Stmt::Eval(value) => self.gen_eval(value),
        }
    }

    /// Compiles `let name;` or `let name = init;`.
    fn gen_let(&mut self, name: Ident, init: &Option<Expr>) -> (r: Result<(), CompilerError>)
        requires
            old(self).wf(),
        ensures
            match stmt_code(
                Stmt::Let(name, *init),
                old(self).scopes@,
                old(self).control@,
                old(self).code@.len() as int,
            ) {
                Ok(o) => r is Ok && final(self).after(*old(self), o.code, o.scopes),
                Err(x) => r == Err::<(), CompilerError>(x),
            },
        decreases Stmt::Let(name, *init), 1int,
    {
        let ghost base = self.code@.len() as int;
        let ghost scopes = self.scopes@;
        if self.scopes.declared_here(name) {
            return Err(CompilerError::DuplicateDeclaration(name));
        }
        match init {
            None => {
                let cell = self.emit_alloc();
                assert(self.code@ =~= old(self).code@ + seq![alloc_one()]);
                self.bind(name, Binding::Var { cell })
            },
            Some(init) => {
                let v = match self.gen_expr(init) {
                    Ok(v) => v,
                    Err(e) => {
                        return Err(e);
                    },
                };
                let ghost m = expr_code(*init, scopes, base)->Ok_0;
                let cell = self.emit_alloc();
                self.emit_copy(v, cell);
                assert(self.code@ =~= old(self).code@ + (m.code + seq![
                    alloc_one(),
                    copy(v, cell as int),
                ]));
                self.bind(name, Binding::Var { cell })
            },
        }
    }

    /// Compiles `let name[length];`.
    fn gen_let_array(&mut self, name: Ident, length: &Expr) -> (r: Result<(), CompilerError>)
        requires
            old(self).wf(),
        ensures
            match stmt_code(
                Stmt::LetArray(name, *length),
                old(self).scopes@,
                old(self).control@,
                old(self).code@.len() as int,
            ) {
                Ok(o) => r is Ok && final(self).after(*old(self), o.code, o.scopes),
                Err(x) => r == Err::<(), CompilerError>(x),
            },
    {
        if self.scopes.declared_here(name) {
            return Err(CompilerError::DuplicateDeclaration(name));
        }
        let n = match self.fold(length) {
            Ok(n) => n,
            Err(e) => {
                return Err(e);
            },
        };
        let cells: u64 = if n < 0 {
            0
        } else {
            n as u64
        };
        let slot = self.emit(Instr::Alloc { cells });
        assert(self.code@ =~= old(self).code@ + seq![Instr::Alloc { cells }]);
        self.bind(name, Binding::Array { slot })
    }

    /// Compiles `const name = init;`, which leaves no instruction.
    fn gen_const(&mut self, name: Ident, init: &Expr) -> (r: Result<(), CompilerError>)
        requires
            old(self).wf(),
        ensures
            match stmt_code(
                Stmt::Const(name, *init),
                old(self).scopes@,
                old(self).control@,
                old(self).code@.len() as int,
            ) {
                Ok(o) => r is Ok && final(self).after(*old(self), o.code, o.scopes),
                Err(x) => r == Err::<(), CompilerError>(x),
            },
    {
        if self.scopes.declared_here(name) {
            return Err(CompilerError::DuplicateDeclaration(name));
        }
        let value = match self.fold(init) {
            Ok(value) => value,
            Err(e) => {
                return Err(e);
            },
        };
        assert(self.code@ =~= old(self).code@ + Seq::<Instr>::empty());
        self.bind(name, Binding::Const { value })
    }

    /// Compiles `name = value;`.
    fn gen_assign(&mut self, name: Ident, value: &Expr) -> (r: Result<(), CompilerError>)
        requires
            old(self).wf(),
        ensures
            match stmt_code(
                Stmt::Assign(name, *value),
                old(self).scopes@,
                old(self).control@,
                old(self).code@.len() as int,
            ) {
                Ok(o) => r is Ok && final(self).after(*old(self), o.code, o.scopes),
                Err(x) => r == Err::<(), CompilerError>(x),
            },
        decreases Stmt::Assign(name, *value), 1int,
    {
        let ghost base = self.code@.len() as int;
        let ghost scopes = self.scopes@;
        let cell = match self.scopes.lookup(name) {
            Some(Binding::Var { cell }) => cell,
            Some(Binding::Param { cell }) => cell,
            _ => {
                return Err(CompilerError::UndefinedVariable(name));
            },
        };
        let v = match self.gen_expr(value) {
            Ok(v) => v,
            Err(e) => {
                return Err(e);
            },
        };
        let ghost m = expr_code(*value, scopes, base)->Ok_0;
        self.emit_copy(v, cell);
        assert(self.code@ =~= old(self).code@ + (m.code + seq![copy(v, cell as int)]));
        Ok(())
    }

    /// Compiles `name[index] = value;`.
    fn gen_assign_index(&mut self, name: Ident, index: &Expr, value: &Expr) -> (r: Result<
        (),
        CompilerError,
    >)
        requires
            old(self).wf(),
        ensures
            match stmt_code(
                Stmt::AssignIndex(name, *index, *value),
                old(self).scopes@,
                old(self).control@,
                old(self).code@.len() as int,
            ) {
                Ok(o) => r is Ok && final(self).after(*old(self), o.code, o.scopes),
                Err(x) => r == Err::<(), CompilerError>(x),
            },
        decreases Stmt::AssignIndex(name, *index, *value), 1int,
    {
        let ghost base = self.code@.len() as int;
        let ghost scopes = self.scopes@;
        let slot = match self.scopes.lookup(name) {
            Some(Binding::Array { slot }) => slot,
            _ => {
                return Err(CompilerError::UndefinedVariable(name));
            },
        };
        let i = match self.gen_expr(index) {
            Ok(i) => i,
            Err(e) => {
                return Err(e);
            },
        };
        let ghost mi = expr_code(*index, scopes, base)->Ok_0;
        let v = match self.gen_expr(value) {
            Ok(v) => v,
            Err(e) => {
                return Err(e);
            },
        };
        let ghost mv = expr_code(*value, scopes, base + mi.code.len())->Ok_0;
        self.emit(Instr::Store { slot, index: i, src: v });
        assert(self.code@ =~= old(self).code@ + (mi.code + mv.code + seq![
            Instr::Store { slot, index: i, src: v },
        ]));
        Ok(())
    }

    /// Compiles `break;`.
    fn gen_break(&mut self) -> (r: Result<(), CompilerError>)
        requires
            old(self).wf(),
        ensures
            match stmt_code(
                Stmt::Break,
                old(self).scopes@,
                old(self).control@,
                old(self).code@.len() as int,
            ) {
                Ok(o) => r is Ok && final(self).after(*old(self), o.code, o.scopes),
                Err(x) => r == Err::<(), CompilerError>(x),
            },
    {
        match self.control.current_loop() {
            None => Err(CompilerError::BreakOutsideLoop),
            Some(l) => {
                self.emit_jump(l.brk);
                assert(self.code@ =~= old(self).code@ + seq![jump(l.brk as int)]);
                Ok(())
            },
        }
    }

    /// Compiles `continue;`.
    fn gen_continue(&mut self) -> (r: Result<(), CompilerError>)
        requires
            old(self).wf(),
        ensures
            match stmt_code(
                Stmt::Continue,
                old(self).scopes@,
                old(self).control@,
                old(self).code@.len() as int,
            ) {
                Ok(o) => r is Ok && final(self).after(*old(self), o.code, o.scopes),
                Err(x) => r == Err::<(), CompilerError>(x),
            },
    {
        match self.control.current_loop() {
            None => Err(CompilerError::ContinueOutsideLoop),
            Some(l) => {
                self.emit_jump(l.cont);
                assert(self.code@ =~= old(self).code@ + seq![jump(l.cont as int)]);
                Ok(())
            },
        }
    }

    /// Compiles `return;` or `return value;`.
    fn gen_return(&mut self, value: &Option<Expr>) -> (r: Result<(), CompilerError>)
        requires
            old(self).wf(),
        ensures
            match stmt_code(
                Stmt::Return(*value),
                old(self).scopes@,
                old(self).control@,
                old(self).code@.len() as int,
            ) {
                Ok(o) => r is Ok && final(self).after(*old(self), o.code, o.scopes),
                Err(x) => r == Err::<(), CompilerError>(x),
            },
        decreases Stmt::Return(*value), 1int,
    {
        let ghost base = self.code@.len() as int;
        let ghost scopes = self.scopes@;
        let f = match self.control.current_function() {
            None => {
                return Err(CompilerError::ReturnOutsideFunction);
            },
            Some(f) => f,
        };
        match value {
            None => {
                self.emit_return(f, Operand::Imm(0));
                Ok(())
            },
            Some(value) => {
                let v = match self.gen_expr(value) {
                    Ok(v) => v,
                    Err(e) => {
                        return Err(e);
                    },
                };
                let ghost m = expr_code(*value, scopes, base)->Ok_0;
                self.emit_return(f, v);
                assert(self.code@ =~= old(self).code@ + (m.code + return_code(f, v)));
                Ok(())
            },
        }
    }

    /// Compiles `out value;`.
    fn gen_output(&mut self, value: &Expr) -> (r: Result<(), CompilerError>)
        requires
            old(self).wf(),
        ensures
            match stmt_code(
                Stmt::Output(*value),
                old(self).scopes@,
                old(self).control@,
                old(self).code@.len() as int,
            ) {
                Ok(o) => r is Ok && final(self).after(*old(self), o.code, o.scopes),
                Err(x) => r == Err::<(), CompilerError>(x),
            },
        decreases Stmt::Output(*value), 1int,
    {
        let ghost base = self.code@.len() as int;
        let ghost scopes = self.scopes@;
        let v = match self.gen_expr(value) {
            Ok(v) => v,
            Err(e) => {
                return Err(e);
            },
        };
        let ghost m = expr_code(*value, scopes, base)->Ok_0;
        self.emit(Instr::Output { src: v });
        assert(self.code@ =~= old(self).code@ + (m.code + seq![Instr::Output { src: v }]));
        Ok(())
    }

    /// Compiles `value;`.
    fn gen_eval(&mut self, value: &Expr) -> (r: Result<(), CompilerError>)
        requires
            old(self).wf(),
        ensures
            match stmt_code(
                Stmt::Eval(*value),
                old(self).scopes@,
                old(self).control@,
                old(self).code@.len() as int,
            ) {
                Ok(o) => r is Ok && final(self).after(*old(self), o.code, o.scopes),
                Err(x) => r == Err::<(), CompilerError>(x),
            },
        decreases Stmt::Eval(*value), 1int,
    {
        match self.gen_expr(value) {
            Ok(_) => Ok(()),
            Err(e) => Err(e),
        }
    }

    /// Appends the instructions that return `value` from the function `f`.
    fn emit_return(&mut self, f: FuncFrame, value: Operand)
        ensures
            final(self).code@ == old(self).code@ + return_code(f, value),
            final(self).scopes == old(self).scopes,
            final(self).control == old(self).control,
    {
        self.emit_copy(value, f.ret_val);
        self.emit(Instr::JumpIfTrue { cond: Operand::Imm(1), target: Operand::Cell(f.ret_addr) });
        assert(self.code@ =~= old(self).code@ + return_code(f, value));
    }

    /// Compiles `if cond { then } else { otherwise }`.
    fn gen_if(&mut self, cond: &Expr, then: &Vec<Stmt>, otherwise: &Vec<Stmt>) -> (r: Result<
        (),
        CompilerError,
    >)
        requires
            old(self).wf(),
        ensures
            match stmt_code(
                Stmt::If(*cond, *then, *otherwise),
                old(self).scopes@,
                old(self).control@,
                old(self).code@.len() as int,
            ) {
                Ok(o) => r is Ok && final(self).after(*old(self), o.code, o.scopes),
                Err(x) => r == Err::<(), CompilerError>(x),
            },
        decreases Stmt::If(*cond, *then, *otherwise), 1int,
    {
        let ghost base = self.code@.len() as int;
        let ghost scopes = self.scopes@;
        let ghost control = self.control@;
        let c = match self.gen_expr(cond) {
            Ok(c) => c,
            Err(e) => {
                return Err(e);
            },
        };
        let ghost mc = expr_code(*cond, scopes, base)->Ok_0;
        let test = self.emit(Instr::JumpIfFalse { cond: c, target: Operand::Code(0) });
        match self.gen_scoped(then) {
            Ok(()) => {},
            Err(e) => {
                return Err(e);
            },
        }
        let ghost mt = stmts_code(then@, enter(scopes), control, test + 1)->Ok_0;
        let skip = self.emit_jump(0);
        let start = self.code.len();
        self.patch(test, Instr::JumpIfFalse { cond: c, target: Operand::Code(start) });
        match self.gen_scoped(otherwise) {
            Ok(()) => {},
            Err(e) => {
                return Err(e);
            },
        }
        let ghost mo = stmts_code(otherwise@, enter(scopes), control, skip + 1)->Ok_0;
        let end = self.code.len();
        self.patch(skip, Instr::JumpIfTrue { cond: Operand::Imm(1), target: Operand::Code(end) });
        assert(self.code@ =~= old(self).code@ + (mc.code + seq![
            Instr::JumpIfFalse { cond: c, target: Operand::Code(start) },
        ] + mt.code + seq![jump(end as int)] + mo.code));
        Ok(())
    }

    /// Compiles `while cond { body }`.
    fn gen_while(&mut self, cond: &Expr, body: &Vec<Stmt>) -> (r: Result<(), CompilerError>)
        requires
            old(self).wf(),
        ensures
            match stmt_code(
                Stmt::While(*cond, *body),
                old(self).scopes@,
                old(self).control@,
                old(self).code@.len() as int,
            ) {
                Ok(o) => r is Ok && final(self).after(*old(self), o.code, o.scopes),
                Err(x) => r == Err::<(), CompilerError>(x),
            },
        decreases Stmt::While(*cond, *body), 1int,
    {
        let ghost base = self.code@.len() as int;
        let ghost scopes = self.scopes@;
        let ghost control = self.control@;
        let cont = self.code.len();
        let c = match self.gen_expr(cond) {
            Ok(c) => c,
            Err(e) => {
                return Err(e);
            },
        };
        let ghost mc = expr_code(*cond, scopes, base)->Ok_0;
        let test = self.emit(Instr::JumpIfTrue { cond: c, target: Operand::Code(0) });
        let brk = self.emit_jump(0);
        let start = self.code.len();
        self.patch(test, Instr::JumpIfTrue { cond: c, target: Operand::Code(start) });
        let frame = LoopFrame { cont, brk };
        self.control.enter(Frame::Loop(frame));
        match self.gen_scoped(body) {
            Ok(()) => {},
            Err(e) => {
                return Err(e);
            },
        }
        let ghost inside = control.push(Frame::Loop(frame));
        let ghost mb = stmts_code(body@, enter(scopes), inside, start as int)->Ok_0;
        self.control.leave();
        assert(self.control@ =~= control);
        self.emit_jump(cont);
        let end = self.code.len();
        self.patch(brk, Instr::JumpIfTrue { cond: Operand::Imm(1), target: Operand::Code(end) });
        assert(self.code@ =~= old(self).code@ + (mc.code + seq![
            Instr::JumpIfTrue { cond: c, target: Operand::Code(start) },
            jump(end as int),
        ] + mb.code + seq![jump(base)]));
        Ok(())
    }

    /// Compiles the declaration of a function.
    #[verifier::loop_isolation(false)]
    fn gen_func(&mut self, name: Ident, params: &Vec<Ident>, body: &Vec<Stmt>) -> (r: Result<
        (),
        CompilerError,
    >)
        requires
            old(self).wf(),
        ensures
            match stmt_code(
                Stmt::Func(name, *params, *body),
                old(self).scopes@,
                old(self).control@,
                old(self).code@.len() as int,
            ) {
                Ok(o) => r is Ok && final(self).after(*old(self), o.code, o.scopes),
                Err(x) => r == Err::<(), CompilerError>(x),
            },
        decreases Stmt::Func(name, *params, *body), 1int,
    {
        let ghost base = self.code@.len() as int;
        let ghost scopes = self.scopes@;
        let ghost control = self.control@;
        if self.scopes.declared_here(name) {
            return Err(CompilerError::DuplicateDeclaration(name));
        }
        let ret_addr = self.emit_alloc();
        let ret_val = self.emit_alloc();
        let first_param = self.code.len();
        let arity = params.len();
        let mut i: usize = 0;
        assert(self.code@ =~= old(self).code@ + Seq::new(2, |k: int| alloc_one()));
        while i < arity
            invariant
                i <= arity,
                self.code@ == old(self).code@ + Seq::new((i + 2) as nat, |k: int| alloc_one()),
                self.scopes@ == scopes,
                self.control@ == control,
            decreases arity - i,
        {
            self.emit_alloc();
            i = i + 1;
            assert(self.code@ =~= old(self).code@ + Seq::new((i + 2) as nat, |k: int| alloc_one()));
        }
        let guard = self.emit_jump(0);
        let entry = self.code.len();
        let frame = FuncFrame { ret_addr, ret_val };
        let binding = Binding::Func { entry, ret_addr, ret_val, first_param, arity };
        match self.bind(name, binding) {
            Ok(()) => {},
            Err(e) => {
                return Err(e);
            },
        }
        let ghost outer = self.scopes@;
        proof {
            lemma_enter_leave_wf(outer);
        }
        self.scopes.enter();
        let mut i: usize = 0;
        while i < arity
            invariant
                i <= arity,
                arity == params@.len(),
                first_param + arity <= usize::MAX,
                bind_params(params@.take(i as int), enter(outer), first_param as int) == Ok::<
                    Scopes,
                    CompilerError,
                >(self.scopes@),
                self.scopes@.len() == outer.len() + 1,
                self.scopes@.drop_last() == outer,
                self.wf(),
                self.code@ == old(self).code@ + (Seq::new((arity + 2) as nat, |k: int| alloc_one())
                    + seq![jump(0)]),
                self.control@ == control,
            decreases arity - i,
        {
            assert(params@.take(i + 1).drop_last() =~= params@.take(i as int));
            assert(params@.take(i + 1).last() == params@[i as int]);
            match self.bind(params[i], Binding::Param { cell: first_param + i }) {
                Ok(()) => {},
                Err(e) => {
                    proof {
                        lemma_params_prefix_error(params@, i + 1, enter(outer), first_param as int);
                    }
                    return Err(e);
                },
            }
            i = i + 1;
        }
        assert(params@.take(i as int) =~= params@);
        let ghost inner = self.scopes@;
        self.control.enter(Frame::Func(frame));
        match self.gen_stmts(body) {
            Ok(()) => {},
            Err(e) => {
                return Err(e);
            },
        }
        let ghost inside = control.push(Frame::Func(frame));
        let ghost mb = stmts_code(body@, inner, inside, entry as int)->Ok_0;
        self.emit_return(frame, Operand::Imm(0));
        self.control.leave();
        assert(self.control@ =~= control);
        self.scopes.leave();
        assert(self.scopes@ =~= outer);
        let end = self.code.len();
        self.patch(guard, Instr::JumpIfTrue { cond: Operand::Imm(1), target: Operand::Code(end) });
        assert(self.code@ =~= old(self).code@ + (Seq::new((arity + 2) as nat, |k: int| alloc_one())
            + seq![jump(end as int)] + mb.code + return_code(frame, Operand::Imm(0))));
        Ok(())
    }
}

/// Compiles a program.
///
/// The result is the instructions that the program compiles to, or the first
/// violation in source order; it depends on the program alone. The
/// environment is not consulted: it serves to spell out the name that an
/// error carries. Instructions come out only for a whole program, and they
/// are consistent: cells are reserved before they are used and addresses
/// lead to instructions.
pub fn generate(program: &Program, _env: &Environment) -> (r: Result<Vec<Instr>, CompilerError>)
    ensures
        compiles_to(*program, r),
        r matches Ok(code) ==> consistent(code@),
{
    let mut g = Generator::new();
    match g.gen_stmts(&program.items) {
        Ok(()) => {},
        Err(e) => {
            return Err(e);
        },
    }
    g.emit(Instr::Halt);
    let code = g.code;
    proof {
        let o = stmts_code(program.items@, seq![Map::empty()], seq![], 0)->Ok_0;
        assert(code@ =~= o.code + seq![Instr::Halt]);
        lemma_compiled_is_consistent(*program, code);
    }
    Ok(code)
}

/// If the first `k` statements have an error, the whole list has that error.
proof fn lemma_stmts_prefix_error(
    stmts: Seq<Stmt>,
    k: int,
    scopes: Scopes,
    control: Seq<Frame>,
    base: int,
)
    requires
        0 <= k <= stmts.len(),
        stmts_code(stmts.take(k), scopes, control, base) is Err,
    ensures
        stmts_code(stmts, scopes, control, base) == stmts_code(
            stmts.take(k),
            scopes,
            control,
            base,
        ),
    decreases stmts.len(),
{
    if k == stmts.len() {
        assert(stmts.take(k) =~= stmts);
    } else {
        assert(stmts.drop_last().take(k) =~= stmts.take(k));
        lemma_stmts_prefix_error(stmts.drop_last(), k, scopes, control, base);
    }
}

/// If the first `k` parameters have an error, the whole list has that error.
proof fn lemma_params_prefix_error(params: Seq<Ident>, k: int, scopes: Scopes, first: int)
    requires
        0 <= k <= params.len(),
        bind_params(params.take(k), scopes, first) is Err,
    ensures
        bind_params(params, scopes, first) == bind_params(params.take(k), scopes, first),
    decreases params.len(),
{
    if k == params.len() {
        assert(params.take(k) =~= params);
    } else {
        assert(params.drop_last().take(k) =~= params.take(k));
        lemma_params_prefix_error(params.drop_last(), k, scopes, first);
    }
}

/// Every argument leaves one value.
proof fn lemma_args_values_len(args: Seq<Expr>, scopes: Scopes, base: int)
    ensures
        args_code(args, scopes, base) matches Ok(a) ==> a.values.len() == args.len(),
    decreases args.len(),
{
    if args.len() > 0 {
        lemma_args_values_len(args.drop_last(), scopes, base);
    }
}

/// If the first `k` arguments have an error, the whole list has that error.
proof fn lemma_args_prefix_error(args: Seq<Expr>, k: int, scopes: Scopes, base: int)
    requires
        0 <= k <= args.len(),
        args_code(args.take(k), scopes, base) is Err,
    ensures
        args_code(args, scopes, base) == args_code(args.take(k), scopes, base),
    decreases args.len(),
{
    if k == args.len() {
        assert(args.take(k) =~= args);
    } else {
        assert(args.drop_last().take(k) =~= args.take(k));
        lemma_args_prefix_error(args.drop_last(), k, scopes, base);
    }
}

} // verus!
