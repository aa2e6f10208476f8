use ramemu::errors::InterpretError;
use ramemu::errors::InterpretErrorKind;
use ramemu::program::CodeAddress;
use ramemu::program::LabelId;
use ramemu::program::Program;
use ramemu::ram::Ram;
use ramemu::ram::RamState;
use ramemu::registers::Registers;
use ramemu::stmt::Op;
use ramemu::stmt::Stmt;
use ramemu::stmt::Value;
use ramemu::streams::StringWriter;
use ramemu::streams::VecReader;

const FUEL: usize = 1_000_000;

fn create_test_program() -> Program {
    Program::from(
        vec![
            Stmt::new(Op::Load(Value::Pure(2)), 1),
            Stmt::new(Op::Add(Value::Pure(2)), 2),
            Stmt::new(Op::Output(Value::Pure(4)), 3),
            Stmt::new(Op::Halt, 4),
        ],
        vec![],
    )
}

fn empty_reader() -> VecReader {
    VecReader::new(vec![])
}

#[test]
fn ram_new_test() {
    let program = create_test_program();
    let ram = Ram::new(program.clone(), empty_reader(), StringWriter::new());

    assert_eq!(ram.get_program(), &program);
    assert_eq!(ram.pc(), 0);
    assert_eq!(ram.line(), 0);
    assert!(!ram.is_halted());
    assert_eq!(ram.get_error(), None);
}

#[test]
fn ram_run_test() {
    let program = create_test_program();
    let mut ram = Ram::new(program, empty_reader(), StringWriter::new());
    ram.run(FUEL).unwrap().unwrap();

    assert_eq!(ram.get_registers().get(0), 4);
    assert_eq!(ram.pc(), 4);
    assert_eq!(ram.line(), 4);
    assert!(ram.is_halted());
    assert_eq!(ram.get_error(), None);
}

#[test]
fn ram_step_test() {
    let program = create_test_program();
    let mut ram = Ram::new(program, empty_reader(), StringWriter::new());

    assert_eq!(ram.step(), Ok(()));
    assert_eq!(ram.get_registers().get(0), 2);
    assert_eq!(ram.pc(), 1);
    assert_eq!(ram.line(), 1);

    assert_eq!(ram.step(), Ok(()));
    assert_eq!(ram.get_registers().get(0), 4);
    assert_eq!(ram.pc(), 2);
    assert_eq!(ram.line(), 2);

    assert_eq!(ram.step(), Ok(()));
    assert_eq!(ram.pc(), 3);
    assert_eq!(ram.line(), 3);

    assert_eq!(ram.step(), Ok(()));
    assert_eq!(ram.pc(), 4);
    assert_eq!(ram.line(), 4);
    assert!(ram.is_halted());
}

#[test]
fn ram_output_test() {
    let program = create_test_program();
    let mut ram = Ram::new(program, empty_reader(), StringWriter::new());
    ram.run(FUEL).unwrap().unwrap();

    assert_eq!(ram.get_writer().contents(), "4");
}

#[test]
fn ram_eval_test() {
    let program = Program::from(
        vec![
            Stmt::new(Op::Load(Value::Pure(2)), 1),
            Stmt::new(Op::Add(Value::Pure(3)), 2),
            Stmt::new(Op::Sub(Value::Pure(1)), 3),
            Stmt::new(Op::Mult(Value::Pure(2)), 4),
            Stmt::new(Op::Div(Value::Pure(2)), 5),
            Stmt::new(Op::Halt, 6),
        ],
        vec![Some(CodeAddress(6))],
    );

    let mut ram = Ram::new(program, empty_reader(), StringWriter::new());

    assert_eq!(ram.eval(Stmt::new(Op::Load(Value::Pure(2)), 1)), Ok(CodeAddress(1)));
    assert_eq!(ram.get_registers().get(0), 2);

    assert_eq!(ram.eval(Stmt::new(Op::Add(Value::Pure(3)), 2)), Ok(CodeAddress(1)));
    assert_eq!(ram.get_registers().get(0), 5);

    assert_eq!(ram.eval(Stmt::new(Op::Sub(Value::Pure(1)), 3)), Ok(CodeAddress(1)));
    assert_eq!(ram.get_registers().get(0), 4);

    assert_eq!(ram.eval(Stmt::new(Op::Mult(Value::Pure(2)), 4)), Ok(CodeAddress(1)));
    assert_eq!(ram.get_registers().get(0), 8);

    assert_eq!(ram.eval(Stmt::new(Op::Jump(LabelId(0)), 5)), Ok(CodeAddress(6)));
    assert_eq!(ram.get_registers().get(0), 8);

    assert_eq!(ram.eval(Stmt::new(Op::Div(Value::Pure(2)), 5)), Ok(CodeAddress(1)));
    assert_eq!(ram.get_registers().get(0), 4);

    assert_eq!(ram.eval(Stmt::new(Op::Halt, 6)), Ok(CodeAddress(1)));
    assert!(ram.is_halted());
}

#[test]
fn ram_state_create_ram_test() {
    let state = RamState {
        program: create_test_program(),
        registers: Registers::new(),
        pc: 0,
        line: 0,
        halt: false,
        error: None,
    };
    let mut ram = state.create_ram(empty_reader(), StringWriter::new());
    ram.run(FUEL).unwrap().unwrap();
    assert_eq!(ram.get_registers().get(0), 4);
}

#[test]
fn ram_run_out_of_fuel_test() {
    let program = Program::from_source("start: jump start").unwrap();
    let mut ram = Ram::new(program, empty_reader(), StringWriter::new());
    assert_eq!(ram.run(100), None);
    assert!(!ram.is_halted());
}

#[test]
fn ram_unknown_label_test() {
    let program = Program::from(vec![Stmt::new(Op::Jump(LabelId(0)), 1)], vec![]);
    let mut ram = Ram::new(program, empty_reader(), StringWriter::new());
    let err = ram.step().unwrap_err();
    assert_eq!(err, InterpretError::new(InterpretErrorKind::UnknownLabel, 1));
    assert!(ram.is_halted());
    assert_eq!(ram.get_error(), Some(&err));
}

#[test]
fn ram_segmentation_fault_past_end_test() {
    let program = Program::from_source("load =1").unwrap();
    let mut ram = Ram::new(program, empty_reader(), StringWriter::new());
    let res = ram.run(FUEL).unwrap();
    assert_eq!(res, Err(InterpretError::new(InterpretErrorKind::SegmentationFault, 1)));
    assert!(ram.is_halted());
}
