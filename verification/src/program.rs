//! The resolved program: an ordered statement sequence plus a table
//! mapping each label identifier to the code address it is bound to.
//!
//! Label identifiers are dense: the assembler numbers label names
//! `0, 1, 2, ...` in first-seen order, so the table is a vector indexed
//! by identifier. An entry is `None` for a name that was referenced but
//! never declared; a successfully assembled program has no such entry
//! reachable from a jump, but a program built directly from statements
//! may, and the machine then reports an unknown label at run time.

use vstd::prelude::*;
use crate::errors::ParseError;
use crate::parser::parse;
use crate::stmt::Stmt;

verus! {

/// A dense label identifier, assigned in first-seen order at parse time.
#[derive(Debug, Clone, Copy, PartialEq, Eq, Structural, Hash)]
pub struct LabelId(pub usize);

/// A code address: a 0-based index into the statement sequence.
#[derive(Debug, Clone, Copy, PartialEq, Eq, Structural, Hash)]
pub struct CodeAddress(pub usize);

/// Ghost view of a [`Program`]: its statements and its label table.
pub struct ProgramView {
    pub instructions: Seq<Stmt>,
    pub labels: Seq<Option<CodeAddress>>,
}

/// A resolved program: statements plus the label table.
#[derive(Debug, Clone, PartialEq, Eq)]
pub struct Program {
    /// Statements of the program, in execution order.
    pub instructions: Vec<Stmt>,
    /// Label table: the entry at index `i` is the code address bound to
    /// `LabelId(i)`, or `None` if that label was never declared.
    pub labels: Vec<Option<CodeAddress>>,
}

impl View for Program {
    type V = ProgramView;

    open spec fn view(&self) -> ProgramView {
        ProgramView { instructions: self.instructions@, labels: self.labels@ }
    }
}

impl ProgramView {
    /// The address a label identifier decodes to, if any.
    pub open spec fn decode(self, label: LabelId) -> Option<CodeAddress> {
        if label.0 < self.labels.len() {
            self.labels[label.0 as int]
        } else {
            None
        }
    }

    /// The statement at an address, if the address is in range.
    pub open spec fn fetch(self, address: int) -> Option<Stmt> {
        if 0 <= address < self.instructions.len() {
            Some(self.instructions[address])
        } else {
            None
        }
    }
}

impl Program {
    /// Builds a program directly from statements and a label table,
    /// without any validation.
    pub fn from(instructions: Vec<Stmt>, labels: Vec<Option<CodeAddress>>) -> (r: Self)
        ensures
            r@ == (ProgramView { instructions: instructions@, labels: labels@ }),
    {
        Program { instructions, labels }
    }

    /// Assembles a program from source code. On failure returns the
    /// first of the collected parse errors.
    pub fn from_source(source: &str) -> (r: Result<Self, ParseError>)
        ensures
            match r {
                Ok(p) => crate::parser::spec_parse(source@) == Ok::<
                    ProgramView,
                    Seq<crate::errors::ParseErrorView>,
                >(p@),
                Err(e) => crate::parser::spec_parse(source@) matches Err(errs) && errs.len() > 0
                    && e@ == errs[0],
            },
    {
        match parse(source) {
            Ok(p) => Ok(p),
            Err(mut errors) => {
                // A failed parse collects at least one error.
                let ghost collected = errors.deep_view();
                let first = errors.remove(0);
                proof {
                    assert(first@ == collected[0]);
                }
                Err(first)
            },
        }
    }

    /// The statement at the given address, or `None` if the address is
    /// out of range.
    pub fn get(&self, index: usize) -> (r: Option<&Stmt>)
        ensures
            match r {
                Some(s) => self@.fetch(index as int) == Some(*s),
                None => self@.fetch(index as int) is None,
            },
    {
        if index < self.instructions.len() {
            Some(&self.instructions[index])
        } else {
            None
        }
    }

    /// The code address a label decodes to, or `None` if the label is
    /// not bound.
    pub fn decode_label(&self, label: LabelId) -> (r: Option<CodeAddress>)
        ensures
            r == self@.decode(label),
    {
        if label.0 < self.labels.len() {
            self.labels[label.0]
        } else {
            None
        }
    }
}

} // verus!
