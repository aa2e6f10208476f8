//! An interpreter for a small assembly language in the style of the
//! random access machine model: an accumulator architecture with an
//! unbounded register file, direct and indirect addressing, and labels
//! resolved at parse time.
//!
//! The crate is organised as follows:
//!
//! - [`errors`] holds the parse-time and run-time error types.
//! - [`text`] holds character and number handling shared by the
//!   assembler and the machine.
//! - [`op`] holds an early, name-based statement model kept for
//!   compatibility.
//! - [`stmt`] holds the resolved statement model executed by the machine.
//! - [`registers`] holds the sparse register store.
//! - [`program`] holds the resolved program: statements and label table.
//! - [`parser`] turns source text into a [`program::Program`].
//! - [`streams`] holds the input and output stream interfaces.
//! - [`ram`] holds the machine itself and its small-step semantics.

pub mod errors;
pub mod op;
pub mod parser;
pub mod program;
pub mod ram;
pub mod registers;
pub mod stmt;
pub mod streams;
pub mod text;
