//! The instructions of the target machine.
//!
//! The machine has a program counter and memory cells, and nothing else. A
//! program is a list of instructions; the program counter is an index into
//! that list. Storage is reserved by [`Instr::Alloc`]: the block of cells it
//! reserves is named by the index of the `Alloc` instruction itself, so an
//! instruction that reads or writes a cell carries the index of the `Alloc`
//! that reserved it. Every value is a 64-bit signed integer and arithmetic
//! wraps around.

use vstd::prelude::*;

verus! {

/// Where an instruction takes a value from.
#[derive(Clone, Copy, Debug, PartialEq, Eq, Structural, Hash)]
pub enum Operand {
    /// The value itself.
    Imm(i64),
    /// The address of the instruction with this index.
    Code(usize),
    /// The content of the first cell of the block that the `Alloc` at this
    /// index reserved.
    Cell(usize),
}

/// One instruction.
#[derive(Clone, Copy, Debug, PartialEq, Eq, Structural, Hash)]
pub enum Instr {
    /// Reserves a block of `cells` cells. Executing it does nothing.
    Alloc { cells: u64 },
    /// `dst = a + b`
    Add { a: Operand, b: Operand, dst: usize },
    /// `dst = a * b`
    Mul { a: Operand, b: Operand, dst: usize },
    /// `dst = 1` if `a < b`, else `dst = 0`
    LessThan { a: Operand, b: Operand, dst: usize },
    /// `dst = 1` if `a == b`, else `dst = 0`
    Equals { a: Operand, b: Operand, dst: usize },
    /// `dst = block[index]`, where `block` is the block reserved at `slot`
    Load { slot: usize, index: Operand, dst: usize },
    /// `block[index] = src`, where `block` is the block reserved at `slot`
    Store { slot: usize, index: Operand, src: Operand },
    /// Continues at `target` if `cond` is not 0.
    JumpIfTrue { cond: Operand, target: Operand },
    /// Continues at `target` if `cond` is 0.
    JumpIfFalse { cond: Operand, target: Operand },
    /// Writes `src` to the output.
    Output { src: Operand },
    /// Stops the machine.
    Halt,
}

/// The instruction that copies `src` into the cell `dst`.
pub open spec fn copy(src: Operand, dst: int) -> Instr {
    Instr::Add { a: src, b: Operand::Imm(0), dst: dst as usize }
}

/// The instruction that always continues at the instruction with index
/// `target`.
pub open spec fn jump(target: int) -> Instr {
    Instr::JumpIfTrue { cond: Operand::Imm(1), target: Operand::Code(target as usize) }
}

/// The instruction that always continues at the address held in `cell`.
pub open spec fn jump_stored(cell: int) -> Instr {
    Instr::JumpIfTrue { cond: Operand::Imm(1), target: Operand::Cell(cell as usize) }
}

/// The instruction that reserves one cell.
pub open spec fn alloc_one() -> Instr {
    Instr::Alloc { cells: 1 }
}

} // verus!
