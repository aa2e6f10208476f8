//! Error types for the two phases of the interpreter: parse-time errors
//! produced by the assembler and run-time errors produced by the machine.
//!
//! Each error pairs a kind with the 1-based source line it arose on.
//! The kinds that carry text (`UnsupportedOpcode`, `InvalidInput`) have
//! ghost views carrying the text as a `Seq<char>`, so that contracts can
//! speak about them.

use vstd::prelude::*;

verus! {

/// A parse-time error kind.
#[derive(Debug, Clone, PartialEq, Eq, Hash)]
pub enum ParseErrorKind {
    /// A label declaration or a jump target is not a valid label name.
    LabelIsNotValid,
    /// A line has more tokens than an instruction can use.
    UnsupportedSyntax,
    /// The first token of an instruction names no known mnemonic.
    /// Carries the offending token.
    UnsupportedOpcode(String),
    /// A mnemonic that needs an argument has none.
    ArgumentIsRequired,
    /// An argument is present but malformed; the payload says how.
    ArgumentIsNotValid(InvalidArgument),
}

/// The ways an instruction argument can be malformed.
#[derive(Debug, Clone, Copy, PartialEq, Eq, Hash)]
pub enum InvalidArgument {
    /// The argument is not a valid label name.
    LabelIsNotValid,
    /// An argument is required but missing.
    ArgumentIsRequired,
    /// The argument must be numeric but is not.
    ArgumentValueMustBeNumeric,
    /// An immediate (`=n`) argument stands where a register is required.
    PureArgumentIsNotAllowed,
    /// The argument fits no accepted shape.
    ArgumentIsNotValid,
}

/// A parse-time error: a kind plus the 1-based source line it arose on.
#[derive(Debug, Clone, PartialEq, Eq, Hash)]
pub struct ParseError {
    /// Kind of the error.
    pub kind: ParseErrorKind,
    /// The 1-based line number from the source code.
    pub line: usize,
}

/// Ghost view of [`ParseErrorKind`]: the same cases, with text as `Seq<char>`.
pub enum ParseErrorKindView {
    LabelIsNotValid,
    UnsupportedSyntax,
    UnsupportedOpcode(Seq<char>),
    ArgumentIsRequired,
    ArgumentIsNotValid(InvalidArgument),
}

/// Ghost view of [`ParseError`].
pub struct ParseErrorView {
    pub kind: ParseErrorKindView,
    pub line: nat,
}

impl View for ParseErrorKind {
    type V = ParseErrorKindView;

    open spec fn view(&self) -> ParseErrorKindView {
        match self {
            ParseErrorKind::LabelIsNotValid => ParseErrorKindView::LabelIsNotValid,
            ParseErrorKind::UnsupportedSyntax => ParseErrorKindView::UnsupportedSyntax,
            ParseErrorKind::UnsupportedOpcode(tok) => ParseErrorKindView::UnsupportedOpcode(tok@),
            ParseErrorKind::ArgumentIsRequired => ParseErrorKindView::ArgumentIsRequired,
            ParseErrorKind::ArgumentIsNotValid(a) => ParseErrorKindView::ArgumentIsNotValid(*a),
        }
    }
}

impl View for ParseError {
    type V = ParseErrorView;

    open spec fn view(&self) -> ParseErrorView {
        ParseErrorView { kind: self.kind@, line: self.line as nat }
    }
}

impl DeepView for ParseError {
    type V = ParseErrorView;

    open spec fn deep_view(&self) -> ParseErrorView {
        self.view()
    }
}

impl ParseErrorKind {
    /// The error for an immediate argument in a register position.
    pub fn pure_argument_not_allowed() -> (r: Self)
        ensures
            r == ParseErrorKind::ArgumentIsNotValid(InvalidArgument::PureArgumentIsNotAllowed),
    {
        ParseErrorKind::ArgumentIsNotValid(InvalidArgument::PureArgumentIsNotAllowed)
    }

    /// The error for an argument that fits no accepted shape.
    pub fn not_valid_argument() -> (r: Self)
        ensures
            r == ParseErrorKind::ArgumentIsNotValid(InvalidArgument::ArgumentIsNotValid),
    {
        ParseErrorKind::ArgumentIsNotValid(InvalidArgument::ArgumentIsNotValid)
    }

    /// The error for a numeric argument that does not parse as a number.
    pub fn argument_value_must_be_numeric() -> (r: Self)
        ensures
            r == ParseErrorKind::ArgumentIsNotValid(InvalidArgument::ArgumentValueMustBeNumeric),
    {
        ParseErrorKind::ArgumentIsNotValid(InvalidArgument::ArgumentValueMustBeNumeric)
    }
}

/// A run-time error kind.
#[derive(Debug, Clone, PartialEq, Eq, Hash)]
pub enum InterpretErrorKind {
    /// A register index or instruction address is out of range.
    SegmentationFault,
    /// A jump names a label the program does not bind.
    UnknownLabel,
    /// An input line does not parse as an integer; carries the
    /// trimmed input text.
    InvalidInput(String),
    /// An immediate value cannot be represented in the machine word.
    InvalidLiteral,
    /// A division by zero was attempted.
    DivisionByZero,
    /// The input or output stream failed.
    IOError,
    /// A step was requested after the machine halted.
    Halted,
}

/// A run-time error: a kind plus the 1-based source line of the
/// statement that raised it.
#[derive(Debug, Clone, PartialEq, Eq, Hash)]
pub struct InterpretError {
    /// Kind of the error.
    pub kind: InterpretErrorKind,
    /// The 1-based line number from the source code.
    pub line: usize,
}

/// Ghost view of [`InterpretErrorKind`]: the same cases, with text as
/// `Seq<char>`.
pub enum InterpretErrorKindView {
    SegmentationFault,
    UnknownLabel,
    InvalidInput(Seq<char>),
    InvalidLiteral,
    DivisionByZero,
    IOError,
    Halted,
}

/// Ghost view of [`InterpretError`].
pub struct InterpretErrorView {
    pub kind: InterpretErrorKindView,
    pub line: nat,
}

impl View for InterpretErrorKind {
    type V = InterpretErrorKindView;

    open spec fn view(&self) -> InterpretErrorKindView {
        match self {
            InterpretErrorKind::SegmentationFault => InterpretErrorKindView::SegmentationFault,
            InterpretErrorKind::UnknownLabel => InterpretErrorKindView::UnknownLabel,
            InterpretErrorKind::InvalidInput(text) => InterpretErrorKindView::InvalidInput(text@),
            InterpretErrorKind::InvalidLiteral => InterpretErrorKindView::InvalidLiteral,
            InterpretErrorKind::DivisionByZero => InterpretErrorKindView::DivisionByZero,
            InterpretErrorKind::IOError => InterpretErrorKindView::IOError,
            InterpretErrorKind::Halted => InterpretErrorKindView::Halted,
        }
    }
}

impl View for InterpretError {
    type V = InterpretErrorView;

    open spec fn view(&self) -> InterpretErrorView {
        InterpretErrorView { kind: self.kind@, line: self.line as nat }
    }
}

impl InterpretError {
    /// Pairs an error kind with the source line it arose on.
    pub fn new(kind: InterpretErrorKind, line: usize) -> (r: Self)
        ensures
            r.kind == kind,
            r.line == line,
    {
        InterpretError { kind, line }
    }

    /// An error equal to this one, view for view.
    pub fn duplicate(&self) -> (r: Self)
        ensures
            r@ == self@,
    {
        let kind = match &self.kind {
            InterpretErrorKind::SegmentationFault => InterpretErrorKind::SegmentationFault,
            InterpretErrorKind::UnknownLabel => InterpretErrorKind::UnknownLabel,
            InterpretErrorKind::InvalidInput(text) => InterpretErrorKind::InvalidInput(
                text.clone(),
            ),
            InterpretErrorKind::InvalidLiteral => InterpretErrorKind::InvalidLiteral,
            InterpretErrorKind::DivisionByZero => InterpretErrorKind::DivisionByZero,
            InterpretErrorKind::IOError => InterpretErrorKind::IOError,
            InterpretErrorKind::Halted => InterpretErrorKind::Halted,
        };
        InterpretError { kind, line: self.line }
    }
}

} // verus!
