//! The resolved statement model: the operations the machine executes,
//! their operands, and the source line each statement came from.
//!
//! A [`Value`] operand is either an immediate (`=n` in the source) or a
//! register reference. A [`RegisterValue`] names a register either
//! directly (`n`) or indirectly (`*n`: the register whose index is the
//! value currently stored in register `n`). Jump operations carry a
//! [`LabelId`][crate::program::LabelId], a dense identifier assigned to
//! each label name at parse time.

use vstd::prelude::*;
use crate::program::LabelId;

verus! {

/// A statement: an operation plus the 1-based source line it came from.
#[derive(Debug, Clone, Copy, PartialEq, Eq, Structural, Hash)]
pub struct Stmt {
    /// The operation to be performed by the statement.
    pub op: Op,
    /// The 1-based line number from the source code.
    pub line: usize,
}

impl Stmt {
    /// Pairs an operation with the source line it came from.
    #[must_use]
    pub fn new(op: Op, line: usize) -> (r: Self)
        ensures
            r == (Stmt { op, line }),
    {
        Stmt { op, line }
    }
}

/// An operation the machine can perform. Register `0` is the accumulator.
#[derive(Debug, Clone, Copy, PartialEq, Eq, Structural, Hash)]
pub enum Op {
    /// Loads a value into register `0`.
    Load(Value),
    /// Stores the value of register `0` into a register.
    Store(RegisterValue),
    /// Adds a value to register `0`.
    Add(Value),
    /// Subtracts a value from register `0`.
    Sub(Value),
    /// Multiplies register `0` by a value.
    Mult(Value),
    /// Divides register `0` by a value, truncating toward zero.
    Div(Value),
    /// Jumps to a label.
    Jump(LabelId),
    /// Jumps to a label if register `0` equals `0`.
    JumpIfZero(LabelId),
    /// Jumps to a label if register `0` is greater than `0`.
    JumpGreaterZero(LabelId),
    /// Reads one input line into a register.
    Input(RegisterValue),
    /// Writes a value to the output stream in decimal.
    Output(Value),
    /// Halts the machine.
    Halt,
}

/// A value operand: an immediate literal or a register reference.
///
/// In the source, `LOAD =5` loads the literal `5` and `LOAD 5` loads the
/// value stored in register `5`.
#[derive(Debug, Clone, Copy, PartialEq, Eq, Structural, Hash)]
pub enum Value {
    /// An immediate literal, written `=n` in the source. Literals are
    /// non-negative; the machine rejects one wider than its word at
    /// run time.
    Pure(usize),
    /// The value read through a register reference.
    Register(RegisterValue),
}

/// A register reference, direct or indirect.
///
/// In the source, `STORE 2` names register `2` itself, while `STORE *2`
/// names the register whose index is the value stored in register `2`.
#[derive(Debug, Clone, Copy, PartialEq, Eq, Structural, Hash)]
pub enum RegisterValue {
    /// The register at the given index.
    Direct(usize),
    /// The register whose index is stored in the register at the given
    /// index.
    Indirect(usize),
}

} // verus!
