//! An early, name-based statement model, kept for compatibility: each
//! operation carries its operand together with its source line, and jump
//! targets are label names rather than resolved identifiers.
//!
//! The machine executes the resolved model in [`crate::stmt`]; this one
//! is a plain data model with no behaviour beyond its accessors.

use vstd::prelude::*;

verus! {

/// A name-based operation, carrying its 1-based source line.
#[derive(Debug, Clone, PartialEq, Eq, Hash)]
pub enum Op {
    Load(Value, usize),
    Store(RegisterValue, usize),
    Add(Value, usize),
    Sub(Value, usize),
    Mul(Value, usize),
    Div(Value, usize),
    Jump(Label, usize),
    JumpIfZero(Label, usize),
    JumpGreaterZero(Label, usize),
    Input(RegisterValue, usize),
    Output(Value, usize),
    Label(String, usize),
    Halt(usize),
}

impl Op {
    /// The 1-based source line the operation came from.
    pub open spec fn spec_line(&self) -> usize {
        match self {
            Op::Load(_, line) => *line,
            Op::Store(_, line) => *line,
            Op::Add(_, line) => *line,
            Op::Sub(_, line) => *line,
            Op::Mul(_, line) => *line,
            Op::Div(_, line) => *line,
            Op::Jump(_, line) => *line,
            Op::JumpIfZero(_, line) => *line,
            Op::JumpGreaterZero(_, line) => *line,
            Op::Input(_, line) => *line,
            Op::Output(_, line) => *line,
            Op::Label(_, line) => *line,
            Op::Halt(line) => *line,
        }
    }

    /// The 1-based source line the operation came from.
    pub fn get_line(&self) -> (r: usize)
        ensures
            r == self.spec_line(),
    {
        match self {
            Op::Load(_, line) => *line,
            Op::Store(_, line) => *line,
            Op::Add(_, line) => *line,
            Op::Sub(_, line) => *line,
            Op::Mul(_, line) => *line,
            Op::Div(_, line) => *line,
            Op::Jump(_, line) => *line,
            Op::JumpIfZero(_, line) => *line,
            Op::JumpGreaterZero(_, line) => *line,
            Op::Input(_, line) => *line,
            Op::Output(_, line) => *line,
            Op::Label(_, line) => *line,
            Op::Halt(line) => *line,
        }
    }
}

/// A value operand: an immediate literal or a register reference.
#[derive(Debug, Clone, PartialEq, Eq, Hash)]
pub enum Value {
    Pure(usize),
    Register(RegisterValue),
}

/// A register reference, direct or indirect.
#[derive(Debug, Copy, Clone, PartialEq, Eq, Structural, Hash)]
pub enum RegisterValue {
    Direct(usize),
    Indirect(usize),
}

/// A label name, as written in the source.
#[derive(Debug, Clone, PartialEq, Eq, Hash)]
pub struct Label(String);

impl Label {
    /// Wraps a label name.
    pub fn new(label: String) -> (r: Self)
        ensures
            r@ == label@,
    {
        Label(label)
    }

    /// The label's name.
    pub fn get(&self) -> (r: &str)
        ensures
            r@ == self@,
    {
        self.0.as_str()
    }
}

impl View for Label {
    type V = Seq<char>;

    closed spec fn view(&self) -> Seq<char> {
        self.0@
    }
}

} // verus!
