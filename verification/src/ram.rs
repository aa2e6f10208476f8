//! The machine: a fetch-decode-execute loop over a resolved program,
//! with a growable register store, a program counter, a halt flag, and
//! input and output streams.
//!
//! Register `0` is the accumulator. Addition, subtraction and
//! multiplication wrap around the 64-bit machine word; division
//! truncates toward zero and reports a division by zero. The machine is
//! fail-stop: the first run-time error halts it for good, and the error
//! is recorded. A halted machine refuses further steps.
//!
//! The semantics is the spec function [`spec_step`] over [`RamView`],
//! the machine's ghost state. One boolean captures the one thing the
//! machine does not decide itself: whether the stream operation of an
//! input or output statement succeeded. Every executable method is
//! proved against that semantics.

use vstd::prelude::*;
use crate::errors::InterpretError;
use crate::errors::InterpretErrorKind;
use crate::errors::InterpretErrorKindView;
use crate::errors::InterpretErrorView;
use crate::program::CodeAddress;
use crate::program::LabelId;
use crate::program::Program;
use crate::registers::Registers;
use crate::stmt::Op;
use crate::stmt::RegisterValue;
use crate::stmt::Stmt;
use crate::stmt::Value;
use crate::streams::LineReader;
use crate::streams::TextWriter;
use crate::text::int_text;
use crate::text::parse_i64;
use crate::text::parse_i64_span;
use crate::text::trim;
use crate::text::trim_bounds;
use crate::text::chars_of;
use crate::text::i64_to_string;

verus! {

/// The machine's ghost state: the program, the registers as a total map
/// (unwritten registers read as zero), the program counter, the source
/// line of the statement last evaluated, the halt flag, the recorded
/// error, and the two stream models.
#[verifier::ext_equal]
pub struct RamView {
    pub instructions: Seq<Stmt>,
    pub labels: Seq<Option<CodeAddress>>,
    pub regs: Map<int, i64>,
    pub pc: nat,
    pub line: nat,
    pub halt: bool,
    pub error: Option<InterpretErrorView>,
    pub input: Seq<Seq<char>>,
    pub output: Seq<char>,
}

impl RamView {
    /// The address a label decodes to, if the program binds it.
    pub open spec fn decode(self, l: LabelId) -> Option<CodeAddress> {
        if l.0 < self.labels.len() {
            self.labels[l.0 as int]
        } else {
            None
        }
    }
}

/// A run-time error view at a line.
pub open spec fn rerr(kind: InterpretErrorKindView, line: nat) -> InterpretErrorView {
    InterpretErrorView { kind, line }
}

/// The register index a machine word names, if it names one: the word
/// must be representable as an index.
pub open spec fn spec_index(x: i64) -> Option<int> {
    if 0 <= x <= usize::MAX {
        Some(x as int)
    } else {
        None
    }
}

/// What a value operand resolves to: an immediate is its own value if
/// the machine word can hold it; a direct reference reads its register;
/// an indirect reference reads the register its register points at,
/// faulting if that word is no index.
pub open spec fn spec_resolve(regs: Map<int, i64>, v: Value) -> Result<
    i64,
    InterpretErrorKindView,
> {
    match v {
        Value::Pure(n) => {
            if n <= i64::MAX {
                Ok(n as i64)
            } else {
                Err(InterpretErrorKindView::InvalidLiteral)
            }
        },
        Value::Register(RegisterValue::Direct(i)) => Ok(regs[i as int]),
        Value::Register(RegisterValue::Indirect(i)) => {
            match spec_index(regs[i as int]) {
                Some(j) => Ok(regs[j]),
                None => Err(InterpretErrorKindView::SegmentationFault),
            }
        },
    }
}

/// The register index a destination operand names: a direct reference
/// names its own index if the machine word can hold it; an indirect
/// reference reads its register, faulting if that word is no index.
pub open spec fn spec_dest(regs: Map<int, i64>, r: RegisterValue) -> Result<
    int,
    InterpretErrorKindView,
> {
    match r {
        RegisterValue::Direct(i) => {
            if i <= i64::MAX {
                Ok(i as int)
            } else {
                Err(InterpretErrorKindView::InvalidLiteral)
            }
        },
        RegisterValue::Indirect(i) => {
            match spec_index(regs[i as int]) {
                Some(j) => Ok(j),
                None => Err(InterpretErrorKindView::SegmentationFault),
            }
        },
    }
}

/// What evaluating one statement does, given whether the statement's
/// stream operation (if it has one) succeeds: the state afterwards, and
/// the next program counter or the error. Evaluation itself neither
/// moves the program counter nor records an error; [`spec_step`] does.
pub open spec fn spec_eval(pre: RamView, stmt: Stmt, io_ok: bool) -> (
    RamView,
    Result<nat, InterpretErrorView>,
) {
    let line = stmt.line as nat;
    let st = RamView { line, ..pre };
    let next = (pre.pc + 1) as nat;
    match stmt.op {
        Op::Load(v) => match spec_resolve(pre.regs, v) {
            Ok(x) => (RamView { regs: pre.regs.insert(0, x), ..st }, Ok(next)),
            Err(k) => (st, Err(rerr(k, line))),
        },
        Op::Store(r) => match spec_dest(pre.regs, r) {
            Ok(idx) => (RamView { regs: pre.regs.insert(idx, pre.regs[0]), ..st }, Ok(next)),
            Err(k) => (st, Err(rerr(k, line))),
        },
        Op::Add(v) => match spec_resolve(pre.regs, v) {
            Ok(x) => (
                RamView { regs: pre.regs.insert(0, pre.regs[0].wrapping_add(x)), ..st },
                Ok(next),
            ),
            Err(k) => (st, Err(rerr(k, line))),
        },
        Op::Sub(v) => match spec_resolve(pre.regs, v) {
            Ok(x) => (
                RamView { regs: pre.regs.insert(0, pre.regs[0].wrapping_sub(x)), ..st },
                Ok(next),
            ),
            Err(k) => (st, Err(rerr(k, line))),
        },
        Op::Mult(v) => match spec_resolve(pre.regs, v) {
            Ok(x) => (
                RamView { regs: pre.regs.insert(0, pre.regs[0].wrapping_mul(x)), ..st },
                Ok(next),
            ),
            Err(k) => (st, Err(rerr(k, line))),
        },
        Op::Div(v) => match spec_resolve(pre.regs, v) {
            Ok(x) => match pre.regs[0].checked_div(x) {
                Some(q) => (RamView { regs: pre.regs.insert(0, q), ..st }, Ok(next)),
                None => (st, Err(rerr(InterpretErrorKindView::DivisionByZero, line))),
            },
            Err(k) => (st, Err(rerr(k, line))),
        },
        Op::Jump(l) => match pre.decode(l) {
            Some(a) => (st, Ok(a.0 as nat)),
            None => (st, Err(rerr(InterpretErrorKindView::UnknownLabel, line))),
        },
        Op::JumpIfZero(l) => {
            if pre.regs[0] == 0 {
                match pre.decode(l) {
                    Some(a) => (st, Ok(a.0 as nat)),
                    None => (st, Err(rerr(InterpretErrorKindView::UnknownLabel, line))),
                }
            } else {
                (st, Ok(next))
            }
        },
        Op::JumpGreaterZero(l) => {
            if pre.regs[0] > 0 {
                match pre.decode(l) {
                    Some(a) => (st, Ok(a.0 as nat)),
                    None => (st, Err(rerr(InterpretErrorKindView::UnknownLabel, line))),
                }
            } else {
                (st, Ok(next))
            }
        },
        Op::Output(v) => match spec_resolve(pre.regs, v) {
            Ok(x) => {
                if io_ok {
                    (RamView { output: pre.output + int_text(x as int), ..st }, Ok(next))
                } else {
                    (st, Err(rerr(InterpretErrorKindView::IOError, line)))
                }
            },
            Err(k) => (st, Err(rerr(k, line))),
        },
        Op::Input(r) => {
            if !io_ok || pre.input.len() == 0 {
                (st, Err(rerr(InterpretErrorKindView::IOError, line)))
            } else {
                let l = pre.input[0];
                let st1 = RamView { input: pre.input.drop_first(), ..st };
                match spec_dest(pre.regs, r) {
                    Err(k) => (st1, Err(rerr(k, line))),
                    Ok(idx) => {
                        let t = trim(l);
                        match parse_i64(t) {
                            Some(x) => (
                                RamView { regs: pre.regs.insert(idx, x), ..st1 },
                                Ok(next),
                            ),
                            None => (
                                st1,
                                Err(rerr(InterpretErrorKindView::InvalidInput(t), line)),
                            ),
                        }
                    },
                }
            }
        },
        Op::Halt => (RamView { halt: true, ..st }, Ok(next)),
    }
}

/// What evaluating the statement at the program counter does: a halted
/// machine refuses; a counter outside the program faults; otherwise the
/// statement there is evaluated.
pub open spec fn spec_eval_current(pre: RamView, io_ok: bool) -> (
    RamView,
    Result<nat, InterpretErrorView>,
) {
    if pre.halt {
        (pre, Err(rerr(InterpretErrorKindView::Halted, pre.line)))
    } else if pre.pc >= pre.instructions.len() {
        (pre, Err(rerr(InterpretErrorKindView::SegmentationFault, pre.line)))
    } else {
        spec_eval(pre, pre.instructions[pre.pc as int], io_ok)
    }
}

/// What one step does: on success the program counter moves to the next
/// address; on failure the machine halts and the error is recorded. A
/// step against a halted machine fails without any effect: the machine
/// is left exactly as it was, its recorded error included.
pub open spec fn spec_step(pre: RamView, io_ok: bool) -> (
    RamView,
    Result<(), InterpretErrorView>,
) {
    if pre.halt {
        (pre, Err(rerr(InterpretErrorKindView::Halted, pre.line)))
    } else {
        let (post, res) = spec_eval_current(pre, io_ok);
        match res {
            Ok(next) => (RamView { pc: next, ..post }, Ok(())),
            Err(e) => (RamView { halt: true, error: Some(e), ..post }, Err(e)),
        }
    }
}

/// Whether one successful step leads from `a` to `b`.
pub open spec fn ok_step(a: RamView, b: RamView) -> bool {
    exists|io_ok: bool| #![auto] spec_step(a, io_ok) == (b, Ok::<(), InterpretErrorView>(()))
}

/// Whether `n` successful steps lead from `a` to `b`.
pub open spec fn reaches(a: RamView, b: RamView, n: nat) -> bool
    decreases n,
{
    if n == 0 {
        a == b
    } else {
        exists|mid: RamView| #![auto] ok_step(a, mid) && reaches(mid, b, (n - 1) as nat)
    }
}

/// Whether some number of successful steps leads from `a` to `b`.
pub open spec fn reachable(a: RamView, b: RamView) -> bool {
    exists|n: nat| reaches(a, b, n)
}

/// Extending a chain of successful steps by one more.
pub proof fn lemma_reaches_snoc(a: RamView, b: RamView, c: RamView, n: nat)
    requires
        reaches(a, b, n),
        ok_step(b, c),
    ensures
        reaches(a, c, n + 1),
    decreases n,
{
    if n == 0 {
        assert(reaches(c, c, 0));
    } else {
        let mid = choose|mid: RamView| #![auto] ok_step(a, mid) && reaches(mid, b, (n - 1) as nat);
        lemma_reaches_snoc(mid, b, c, (n - 1) as nat);
    }
}

/// The next program counter `eval` reports, or the error, as
/// [`spec_eval`] speaks of it.
pub open spec fn eval_res_view(r: Result<CodeAddress, InterpretError>) -> Result<
    nat,
    InterpretErrorView,
> {
    match r {
        Ok(c) => Ok(c.0 as nat),
        Err(e) => Err(e@),
    }
}

/// The machine: program, registers, program counter, last evaluated
/// line, halt flag, recorded error, and the two streams.
pub struct Ram<R: LineReader, W: TextWriter> {
    program: Program,
    registers: Registers,
    pc: usize,
    line: usize,
    halt: bool,
    error: Option<InterpretError>,
    reader: R,
    writer: W,
}

impl<R: LineReader, W: TextWriter> View for Ram<R, W> {
    type V = RamView;

    closed spec fn view(&self) -> RamView {
        RamView {
            instructions: self.program.instructions@,
            labels: self.program.labels@,
            regs: Map::total(|i: int| self.registers.spec_get(i)),
            pc: self.pc as nat,
            line: self.line as nat,
            halt: self.halt,
            error: match self.error {
                Some(e) => Some(e@),
                None => None,
            },
            input: self.reader.lines_left(),
            output: self.writer.written(),
        }
    }
}

impl<R: LineReader, W: TextWriter> Ram<R, W> {
    /// A fresh machine over `program`: counter at the first statement,
    /// every register zero, not halted, no error, the given streams
    /// untouched.
    pub fn new(program: Program, reader: R, writer: W) -> (r: Self)
        ensures
            r@.instructions == program.instructions@,
            r@.labels == program.labels@,
            forall|i: int| r@.regs[i] == 0,
            r@.pc == 0,
            r@.line == 0,
            !r@.halt,
            r@.error is None,
            r@.input == reader.lines_left(),
            r@.output == writer.written(),
    {
        Ram {
            program,
            registers: Registers::new(),
            pc: 0,
            line: 0,
            halt: false,
            error: None,
            reader,
            writer,
        }
    }

    /// A read-only view of the register store.
    pub fn get_registers(&self) -> (r: &Registers)
        ensures
            forall|i: int| r.spec_get(i) == self@.regs[i],
    {
        &self.registers
    }

    /// The statement at the program counter, if the counter is in range.
    pub fn get_current_instruction(&self) -> (r: Option<&Stmt>)
        ensures
            match r {
                Some(s) => self@.pc < self@.instructions.len() && *s == self@.instructions[self@.pc
                    as int],
                None => self@.pc >= self@.instructions.len(),
            },
    {
        self.program.get(self.pc)
    }

    /// The recorded error, if a step has failed.
    pub fn get_error(&self) -> (r: Option<&InterpretError>)
        ensures
            match r {
                Some(e) => self@.error == Some(e@),
                None => self@.error is None,
            },
    {
        self.error.as_ref()
    }

    /// The program counter: the address of the next statement.
    pub fn pc(&self) -> (r: usize)
        ensures
            r == self@.pc,
    {
        self.pc
    }

    /// The source line of the statement last evaluated, `0` before any.
    pub fn line(&self) -> (r: usize)
        ensures
            r == self@.line,
    {
        self.line
    }

    /// Whether the machine has halted.
    pub fn is_halted(&self) -> (r: bool)
        ensures
            r == self@.halt,
    {
        self.halt
    }

    /// A read-only view of the output stream.
    pub fn get_writer(&self) -> (r: &W)
        ensures
            r.written() == self@.output,
    {
        &self.writer
    }

    /// A read-only view of the input stream.
    pub fn get_reader(&self) -> (r: &R)
        ensures
            r.lines_left() == self@.input,
    {
        &self.reader
    }

    /// A read-only view of the program.
    pub fn get_program(&self) -> (r: &Program)
        ensures
            r.instructions@ == self@.instructions,
            r.labels@ == self@.labels,
    {
        &self.program
    }

    /// Resolves a value operand against the current registers.
    fn resolve(&self, v: Value) -> (r: Result<i64, InterpretErrorKind>)
        ensures
            match r {
                Ok(x) => spec_resolve(self@.regs, v) == Ok::<i64, InterpretErrorKindView>(x),
                Err(k) => spec_resolve(self@.regs, v) == Err::<i64, InterpretErrorKindView>(k@),
            },
    {
        match v {
            Value::Pure(n) => {
                if n as u64 <= i64::MAX as u64 {
                    Ok(n as i64)
                } else {
                    Err(InterpretErrorKind::InvalidLiteral)
                }
            },
            Value::Register(RegisterValue::Direct(i)) => {
                assert(self@.regs[i as int] == self.registers.spec_get(i as int));
                Ok(self.registers.get(i))
            },
            Value::Register(RegisterValue::Indirect(i)) => {
                assert(self@.regs[i as int] == self.registers.spec_get(i as int));
                let inner = self.registers.get(i);
                if inner >= 0 && inner as u64 <= usize::MAX as u64 {
                    let j = inner as usize;
                    assert(self@.regs[j as int] == self.registers.spec_get(j as int));
                    Ok(self.registers.get(j))
                } else {
                    Err(InterpretErrorKind::SegmentationFault)
                }
            },
        }
    }

    /// Resolves a destination operand to a register index.
    fn dest(&self, r: RegisterValue) -> (d: Result<usize, InterpretErrorKind>)
        ensures
            match d {
                Ok(idx) => spec_dest(self@.regs, r) == Ok::<int, InterpretErrorKindView>(
                    idx as int,
                ),
                Err(k) => spec_dest(self@.regs, r) == Err::<int, InterpretErrorKindView>(k@),
            },
    {
        match r {
            RegisterValue::Direct(i) => {
                if i as u64 <= i64::MAX as u64 {
                    Ok(i)
                } else {
                    Err(InterpretErrorKind::InvalidLiteral)
                }
            },
            RegisterValue::Indirect(i) => {
                assert(self@.regs[i as int] == self.registers.spec_get(i as int));
                let inner = self.registers.get(i);
                if inner >= 0 && inner as u64 <= usize::MAX as u64 {
                    Ok(inner as usize)
                } else {
                    Err(InterpretErrorKind::SegmentationFault)
                }
            },
        }
    }

    /// Evaluates one statement: applies its effect and returns the next
    /// program counter, or the error. The program counter itself is not
    /// moved and no error is recorded; `step` does both. The outcome is
    /// [`spec_eval`] of the statement for the way the statement's stream
    /// operation, if it made one, went.
    pub fn eval(&mut self, stmt: Stmt) -> (r: Result<CodeAddress, InterpretError>)
        requires
            old(self)@.pc < usize::MAX,
        ensures
            exists|io_ok: bool| #![auto] spec_eval(old(self)@, stmt, io_ok) == (
                final(self)@,
                eval_res_view(r),
            ),
    {
        self.line = stmt.line;
        let next_pc = self.pc + 1;
        let ghost pre = old(self)@;
        match stmt.op {
            Op::Load(v) => match self.resolve(v) {
                Ok(x) => {
                    self.registers.set(0, x);
                    proof {
                        assert(self@ =~= spec_eval(pre, stmt, true).0);
                        assert(spec_eval(pre, stmt, true) == (
                            self@,
                            Ok::<nat, InterpretErrorView>(next_pc as nat),
                        ));
                    }
                    Ok(CodeAddress(next_pc))
                },
                Err(k) => {
                    let e = InterpretError::new(k, self.line);
                    proof {
                        assert(self@ =~= spec_eval(pre, stmt, true).0);
                        assert(spec_eval(pre, stmt, true) == (
                            self@,
                            Err::<nat, InterpretErrorView>(e@),
                        ));
                    }
                    Err(e)
                },
            },
            Op::Store(rv) => match self.dest(rv) {
                Ok(idx) => {
                    assert(self@.regs[0] == self.registers.spec_get(0));
                    let acc = self.registers.get(0);
                    self.registers.set(idx, acc);
                    proof {
                        assert(self@ =~= spec_eval(pre, stmt, true).0);
                        assert(spec_eval(pre, stmt, true) == (
                            self@,
                            Ok::<nat, InterpretErrorView>(next_pc as nat),
                        ));
                    }
                    Ok(CodeAddress(next_pc))
                },
                Err(k) => {
                    let e = InterpretError::new(k, self.line);
                    proof {
                        assert(self@ =~= spec_eval(pre, stmt, true).0);
                        assert(spec_eval(pre, stmt, true) == (
                            self@,
                            Err::<nat, InterpretErrorView>(e@),
                        ));
                    }
                    Err(e)
                },
            },
            Op::Add(v) => match self.resolve(v) {
                Ok(x) => {
                    assert(self@.regs[0] == self.registers.spec_get(0));
                    let acc = self.registers.get(0);
                    self.registers.set(0, acc.wrapping_add(x));
                    proof {
                        assert(self@ =~= spec_eval(pre, stmt, true).0);
                        assert(spec_eval(pre, stmt, true) == (
                            self@,
                            Ok::<nat, InterpretErrorView>(next_pc as nat),
                        ));
                    }
                    Ok(CodeAddress(next_pc))
                },
                Err(k) => {
                    let e = InterpretError::new(k, self.line);
                    proof {
                        assert(self@ =~= spec_eval(pre, stmt, true).0);
                        assert(spec_eval(pre, stmt, true) == (
                            self@,
                            Err::<nat, InterpretErrorView>(e@),
                        ));
                    }
                    Err(e)
                },
            },
            Op::Sub(v) => match self.resolve(v) {
                Ok(x) => {
                    assert(self@.regs[0] == self.registers.spec_get(0));
                    let acc = self.registers.get(0);
                    self.registers.set(0, acc.wrapping_sub(x));
                    proof {
                        assert(self@ =~= spec_eval(pre, stmt, true).0);
                        assert(spec_eval(pre, stmt, true) == (
                            self@,
                            Ok::<nat, InterpretErrorView>(next_pc as nat),
                        ));
                    }
                    Ok(CodeAddress(next_pc))
                },
                Err(k) => {
                    let e = InterpretError::new(k, self.line);
                    proof {
                        assert(self@ =~= spec_eval(pre, stmt, true).0);
                        assert(spec_eval(pre, stmt, true) == (
                            self@,
                            Err::<nat, InterpretErrorView>(e@),
                        ));
                    }
                    Err(e)
                },
            },
            Op::Mult(v) => match self.resolve(v) {
                Ok(x) => {
                    assert(self@.regs[0] == self.registers.spec_get(0));
                    let acc = self.registers.get(0);
                    self.registers.set(0, acc.wrapping_mul(x));
                    proof {
                        assert(self@ =~= spec_eval(pre, stmt, true).0);
                        assert(spec_eval(pre, stmt, true) == (
                            self@,
                            Ok::<nat, InterpretErrorView>(next_pc as nat),
                        ));
                    }
                    Ok(CodeAddress(next_pc))
                },
                Err(k) => {
                    let e = InterpretError::new(k, self.line);
                    proof {
                        assert(self@ =~= spec_eval(pre, stmt, true).0);
                        assert(spec_eval(pre, stmt, true) == (
                            self@,
                            Err::<nat, InterpretErrorView>(e@),
                        ));
                    }
                    Err(e)
                },
            },
            Op::Div(v) => match self.resolve(v) {
                Ok(x) => {
                    assert(self@.regs[0] == self.registers.spec_get(0));
                    let acc = self.registers.get(0);
                    match acc.checked_div(x) {
                        Some(q) => {
                            self.registers.set(0, q);
                            proof {
                                assert(self@ =~= spec_eval(pre, stmt, true).0);
                                assert(spec_eval(pre, stmt, true) == (
                                    self@,
                                    Ok::<nat, InterpretErrorView>(next_pc as nat),
                                ));
                            }
                            Ok(CodeAddress(next_pc))
                        },
                        None => {
                            let e = InterpretError::new(
                                InterpretErrorKind::DivisionByZero,
                                self.line,
                            );
                            proof {
                                assert(self@ =~= spec_eval(pre, stmt, true).0);
                                assert(spec_eval(pre, stmt, true) == (
                                    self@,
                                    Err::<nat, InterpretErrorView>(e@),
                                ));
                            }
                            Err(e)
                        },
                    }
                },
                Err(k) => {
                    let e = InterpretError::new(k, self.line);
                    proof {
                        assert(self@ =~= spec_eval(pre, stmt, true).0);
                        assert(spec_eval(pre, stmt, true) == (
                            self@,
                            Err::<nat, InterpretErrorView>(e@),
                        ));
                    }
                    Err(e)
                },
            },
            Op::Jump(l) => match self.program.decode_label(l) {
                Some(a) => {
                    proof {
                        assert(self@ =~= spec_eval(pre, stmt, true).0);
                        assert(spec_eval(pre, stmt, true) == (
                            self@,
                            Ok::<nat, InterpretErrorView>(a.0 as nat),
                        ));
                    }
                    Ok(a)
                },
                None => {
                    let e = InterpretError::new(InterpretErrorKind::UnknownLabel, self.line);
                    proof {
                        assert(self@ =~= spec_eval(pre, stmt, true).0);
                        assert(spec_eval(pre, stmt, true) == (
                            self@,
                            Err::<nat, InterpretErrorView>(e@),
                        ));
                    }
                    Err(e)
                },
            },
            Op::JumpIfZero(l) => {
                assert(self@.regs[0] == self.registers.spec_get(0));
                if self.registers.get(0) == 0 {
                    match self.program.decode_label(l) {
                        Some(a) => {
                            proof {
                                assert(self@ =~= spec_eval(pre, stmt, true).0);
                                assert(spec_eval(pre, stmt, true) == (
                                    self@,
                                    Ok::<nat, InterpretErrorView>(a.0 as nat),
                                ));
                            }
                            Ok(a)
                        },
                        None => {
                            let e = InterpretError::new(
                                InterpretErrorKind::UnknownLabel,
                                self.line,
                            );
                            proof {
                                assert(self@ =~= spec_eval(pre, stmt, true).0);
                                assert(spec_eval(pre, stmt, true) == (
                                    self@,
                                    Err::<nat, InterpretErrorView>(e@),
                                ));
                            }
                            Err(e)
                        },
                    }
                } else {
                    proof {
                        assert(self@ =~= spec_eval(pre, stmt, true).0);
                        assert(spec_eval(pre, stmt, true) == (
                            self@,
                            Ok::<nat, InterpretErrorView>(next_pc as nat),
                        ));
                    }
                    Ok(CodeAddress(next_pc))
                }
            },
            Op::JumpGreaterZero(l) => {
                assert(self@.regs[0] == self.registers.spec_get(0));
                if self.registers.get(0) > 0 {
                    match self.program.decode_label(l) {
                        Some(a) => {
                            proof {
                                assert(self@ =~= spec_eval(pre, stmt, true).0);
                                assert(spec_eval(pre, stmt, true) == (
                                    self@,
                                    Ok::<nat, InterpretErrorView>(a.0 as nat),
                                ));
                            }
                            Ok(a)
                        },
                        None => {
                            let e = InterpretError::new(
                                InterpretErrorKind::UnknownLabel,
                                self.line,
                            );
                            proof {
                                assert(self@ =~= spec_eval(pre, stmt, true).0);
                                assert(spec_eval(pre, stmt, true) == (
                                    self@,
                                    Err::<nat, InterpretErrorView>(e@),
                                ));
                            }
                            Err(e)
                        },
                    }
                } else {
                    proof {
                        assert(self@ =~= spec_eval(pre, stmt, true).0);
                        assert(spec_eval(pre, stmt, true) == (
                            self@,
                            Ok::<nat, InterpretErrorView>(next_pc as nat),
                        ));
                    }
                    Ok(CodeAddress(next_pc))
                }
            },
            Op::Output(v) => match self.resolve(v) {
                Ok(x) => {
                    let text = i64_to_string(x);
                    if self.writer.write_text(text.as_str()) {
                        proof {
                            assert(self@ =~= spec_eval(pre, stmt, true).0);
                            assert(spec_eval(pre, stmt, true) == (
                                self@,
                                Ok::<nat, InterpretErrorView>(next_pc as nat),
                            ));
                        }
                        Ok(CodeAddress(next_pc))
                    } else {
                        let e = InterpretError::new(InterpretErrorKind::IOError, self.line);
                        proof {
                            assert(self@ =~= spec_eval(pre, stmt, false).0);
                            assert(spec_eval(pre, stmt, false) == (
                                self@,
                                Err::<nat, InterpretErrorView>(e@),
                            ));
                        }
                        Err(e)
                    }
                },
                Err(k) => {
                    let e = InterpretError::new(k, self.line);
                    proof {
                        assert(self@ =~= spec_eval(pre, stmt, true).0);
                        assert(spec_eval(pre, stmt, true) == (
                            self@,
                            Err::<nat, InterpretErrorView>(e@),
                        ));
                    }
                    Err(e)
                },
            },
            Op::Input(rv) => match self.reader.read_line() {
                None => {
                    let e = InterpretError::new(InterpretErrorKind::IOError, self.line);
                    proof {
                        assert(self@ =~= spec_eval(pre, stmt, false).0);
                        assert(spec_eval(pre, stmt, false) == (
                            self@,
                            Err::<nat, InterpretErrorView>(e@),
                        ));
                    }
                    Err(e)
                },
                Some(l) => match self.dest(rv) {
                    Err(k) => {
                        let e = InterpretError::new(k, self.line);
                        proof {
                            assert(self@ =~= spec_eval(pre, stmt, true).0);
                            assert(spec_eval(pre, stmt, true) == (
                                self@,
                                Err::<nat, InterpretErrorView>(e@),
                            ));
                        }
                        Err(e)
                    },
                    Ok(idx) => {
                        let lchars = chars_of(l.as_str());
                        let (a, b) = trim_bounds(&lchars);
                        match parse_i64_span(&lchars, a, b) {
                            Some(x) => {
                                self.registers.set(idx, x);
                                proof {
                                    assert(self@ =~= spec_eval(pre, stmt, true).0);
                                    assert(spec_eval(pre, stmt, true) == (
                                        self@,
                                        Ok::<nat, InterpretErrorView>(next_pc as nat),
                                    ));
                                }
                                Ok(CodeAddress(next_pc))
                            },
                            None => {
                                let text = String::from_str(l.as_str().substring_char(a, b));
                                let e = InterpretError::new(
                                    InterpretErrorKind::InvalidInput(text),
                                    self.line,
                                );
                                proof {
                                    assert(self@ =~= spec_eval(pre, stmt, true).0);
                                    assert(spec_eval(pre, stmt, true) == (
                                        self@,
                                        Err::<nat, InterpretErrorView>(e@),
                                    ));
                                }
                                Err(e)
                            },
                        }
                    },
                },
            },
            Op::Halt => {
                self.halt = true;
                proof {
                    assert(self@ =~= spec_eval(pre, stmt, true).0);
                    assert(spec_eval(pre, stmt, true) == (
                        self@,
                        Ok::<nat, InterpretErrorView>(next_pc as nat),
                    ));
                }
                Ok(CodeAddress(next_pc))
            },
        }
    }

    /// Executes one step: fails with `Halted` against a halted machine,
    /// faults if the counter is outside the program, and otherwise
    /// evaluates the statement at the counter. On success the counter
    /// moves on; on failure the machine halts and the error is recorded.
    pub fn step(&mut self) -> (r: Result<(), InterpretError>)
        ensures
            exists|io_ok: bool| #![auto] spec_step(old(self)@, io_ok) == (
                final(self)@,
                step_res_view(r),
            ),
    {
        let ghost pre = old(self)@;
        if self.halt {
            let e = InterpretError::new(InterpretErrorKind::Halted, self.line);
            proof {
                assert(spec_step(pre, true) == (self@, Err::<(), InterpretErrorView>(e@)));
            }
            return Err(e);
        }
        let fetched = match self.program.get(self.pc) {
            Some(stmt) => Some(*stmt),
            None => None,
        };
        match fetched {
            None => {
                let e = InterpretError::new(InterpretErrorKind::SegmentationFault, self.line);
                self.halt = true;
                self.error = Some(e.duplicate());
                proof {
                    assert(self@ =~= spec_step(pre, true).0);
                    assert(spec_step(pre, true) == (self@, Err::<(), InterpretErrorView>(e@)));
                }
                Err(e)
            },
            Some(stmt) => {
                // The counter indexes into the program, whose length is
                // itself a machine word, so the counter can move on.
                let prog_len = self.program.instructions.len();
                assert(self@.pc < prog_len);
                let res = self.eval(stmt);
                let ghost mid = self@;
                let ghost io_ok = choose|io_ok: bool|
                    #![auto]
                    spec_eval(pre, stmt, io_ok) == (mid, eval_res_view(res));
                match res {
                    Ok(next) => {
                        self.pc = next.0;
                        proof {
                            assert(self@ =~= spec_step(pre, io_ok).0);
                            assert(spec_step(pre, io_ok) == (
                                self@,
                                Ok::<(), InterpretErrorView>(()),
                            ));
                        }
                        Ok(())
                    },
                    Err(e) => {
                        self.halt = true;
                        self.error = Some(e.duplicate());
                        proof {
                            assert(self@ =~= spec_step(pre, io_ok).0);
                            assert(spec_step(pre, io_ok) == (
                                self@,
                                Err::<(), InterpretErrorView>(e@),
                            ));
                        }
                        Err(e)
                    },
                }
            },
        }
    }

    /// Runs the machine, stopping as soon as it halts, for at most
    /// `fuel` steps. The machine model guarantees no termination, and a
    /// verified loop carries a bound, so the budget makes the call
    /// finite; a caller wanting unbounded execution calls again when
    /// `None` says the budget ran out before the machine halted.
    /// `Some(r)` reports a machine that halted: `Ok` after a successful
    /// halt statement, or the first error, which is also recorded.
    pub fn run(&mut self, fuel: usize) -> (r: Option<Result<(), InterpretError>>)
        ensures
            match r {
                Some(res) => final(self)@.halt && match res {
                    Ok(_) => reachable(old(self)@, final(self)@),
                    Err(e) => final(self)@.error == Some(e@) && exists|p: RamView, io_ok: bool|
                        #![auto]
                        reachable(old(self)@, p) && spec_step(p, io_ok) == (
                            final(self)@,
                            Err::<(), InterpretErrorView>(e@),
                        ),
                },
                None => !final(self)@.halt && reaches(old(self)@, final(self)@, fuel as nat),
            },
            old(self)@.halt ==> r == Some(Ok::<(), InterpretError>(())) && final(self)@ == old(
                self,
            )@,
    {
        let ghost start = self@;
        proof {
            assert(reaches(start, start, 0));
        }
        let mut left = fuel;
        while left > 0
            invariant
                start == old(self)@,
                left <= fuel,
                reaches(start, self@, (fuel - left) as nat),
            decreases left,
        {
            if self.halt {
                proof {
                    assert(reachable(start, self@));
                }
                return Some(Ok(()));
            }
            let ghost before = self@;
            let ghost taken = (fuel - left) as nat;
            match self.step() {
                Ok(()) => {
                    proof {
                        let io_ok = choose|io_ok: bool|
                            #![auto]
                            spec_step(before, io_ok) == (
                                self@,
                                Ok::<(), InterpretErrorView>(()),
                            );
                        assert(ok_step(before, self@));
                        lemma_reaches_snoc(start, before, self@, taken);
                    }
                },
                Err(e) => {
                    proof {
                        assert(reachable(start, before));
                    }
                    return Some(Err(e));
                },
            }
            left = left - 1;
        }
        if self.halt {
            proof {
                assert(reachable(start, self@));
            }
            Some(Ok(()))
        } else {
            None
        }
    }
}

/// Law: loading an immediate and then dividing by a nonzero immediate
/// leaves their quotient, truncated toward zero, in the accumulator.
/// Immediates are non-negative, so the quotient here is the plain one.
pub proof fn lemma_load_then_div(st: RamView, a: usize, b: usize, l1: usize, l2: usize)
    requires
        b != 0,
        a <= i64::MAX,
        b <= i64::MAX,
    ensures
        ({
            let (st1, r1) = spec_eval(st, Stmt { op: Op::Load(Value::Pure(a)), line: l1 }, true);
            let (st2, r2) = spec_eval(st1, Stmt { op: Op::Div(Value::Pure(b)), line: l2 }, true);
            &&& r1 is Ok
            &&& r2 is Ok
            &&& st2.regs[0] == a as int / b as int
        }),
{
    let (st1, r1) = spec_eval(st, Stmt { op: Op::Load(Value::Pure(a)), line: l1 }, true);
    assert(st1.regs[0] == a as i64);
    vstd::arithmetic::div_mod::lemma_div_nonincreasing(a as int, b as int);
    vstd::arithmetic::div_mod::lemma_div_pos_is_pos(a as int, b as int);
    assert((a as i64).checked_div(b as i64) == Some((a as int / b as int) as i64));
}

/// Law: a step against a halted machine fails with `Halted` and leaves
/// the machine exactly as it was — registers, counter, streams and
/// recorded error included.
pub proof fn lemma_step_when_halted(st: RamView, io_ok: bool)
    requires
        st.halt,
    ensures
        spec_step(st, io_ok) == (st, Err::<(), InterpretErrorView>(
            rerr(InterpretErrorKindView::Halted, st.line),
        )),
{
}

/// Law: a failed step halts the machine, so after any failure no further
/// step succeeds: the machine is fail-stop.
pub proof fn lemma_failed_step_halts(st: RamView, io_ok: bool)
    requires
        spec_step(st, io_ok).1 is Err,
    ensures
        spec_step(st, io_ok).0.halt,
        forall|later: bool| #[trigger]
            spec_step(spec_step(st, io_ok).0, later).1 is Err && spec_step(
                spec_step(st, io_ok).0,
                later,
            ).0 == spec_step(st, io_ok).0,
{
    let post = spec_step(st, io_ok).0;
    assert forall|later: bool| #[trigger]
        spec_step(post, later).1 is Err && spec_step(post, later).0 == post by {
        lemma_step_when_halted(post, later);
    }
}

/// The outcome of a step, as [`spec_step`] speaks of it.
pub open spec fn step_res_view(r: Result<(), InterpretError>) -> Result<(), InterpretErrorView> {
    match r {
        Ok(u) => Ok(u),
        Err(e) => Err(e@),
    }
}

/// A snapshot of a machine's state, without its streams. A snapshot can
/// be turned back into a running machine by [`RamState::create_ram`].
pub struct RamState {
    /// The program.
    pub program: Program,
    /// The register store.
    pub registers: Registers,
    /// The program counter.
    pub pc: usize,
    /// The source line of the statement last evaluated.
    pub line: usize,
    /// Whether the machine has halted.
    pub halt: bool,
    /// The recorded error, if a step has failed.
    pub error: Option<InterpretError>,
}

impl RamState {
    /// A machine that picks up from this snapshot, reading and writing
    /// through the given streams.
    pub fn create_ram<R: LineReader, W: TextWriter>(self, reader: R, writer: W) -> (r: Ram<R, W>)
        ensures
            r@.instructions == self.program.instructions@,
            r@.labels == self.program.labels@,
            forall|i: int| r@.regs[i] == self.registers.spec_get(i),
            r@.pc == self.pc,
            r@.line == self.line,
            r@.halt == self.halt,
            r@.error == match self.error {
                Some(e) => Some(e@),
                None => None::<InterpretErrorView>,
            },
            r@.input == reader.lines_left(),
            r@.output == writer.written(),
    {
        Ram {
            program: self.program,
            registers: self.registers,
            pc: self.pc,
            line: self.line,
            halt: self.halt,
            error: self.error,
            reader,
            writer,
        }
    }
}

} // verus!
