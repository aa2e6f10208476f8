use ramemu::errors::ParseErrorKind;
use ramemu::program::CodeAddress;
use ramemu::program::LabelId;
use ramemu::program::Program;
use ramemu::stmt::Op;
use ramemu::stmt::RegisterValue;
use ramemu::stmt::Stmt;
use ramemu::stmt::Value;

fn get_test_program() -> Program {
    let instructions = vec![
        Stmt::new(Op::Load(Value::Pure(42)), 1),
        Stmt::new(Op::Add(Value::Register(RegisterValue::Direct(0))), 2),
        Stmt::new(Op::Sub(Value::Register(RegisterValue::Direct(1))), 3),
        Stmt::new(Op::Jump(LabelId(0)), 4),
    ];
    let labels = vec![Some(CodeAddress(1))];
    Program::from(instructions, labels)
}

#[test]
fn init_labels_test() {
    let program = get_test_program();
    assert_eq!(program.labels.get(0), Some(&Some(CodeAddress(1))));
}

#[test]
fn get_instruction_test() {
    let program = get_test_program();
    assert_eq!(program.get(0), Some(&Stmt::new(Op::Load(Value::Pure(42)), 1)));
    assert_eq!(program.get(3), Some(&Stmt::new(Op::Jump(LabelId(0)), 4)));
    assert_eq!(program.get(6), None);
}

#[test]
fn decode_label_test() {
    let program = get_test_program();
    assert_eq!(program.decode_label(LabelId(0)), Some(CodeAddress(1)));
    assert_eq!(program.decode_label(LabelId(1)), None);
}

#[test]
fn from_source_test() {
    let program = Program::from_source("start: load =1\njump start\nhalt").unwrap();
    assert_eq!(program.instructions.len(), 3);
    assert_eq!(program.decode_label(LabelId(0)), Some(CodeAddress(0)));
}

#[test]
fn from_source_reports_first_error() {
    let err = Program::from_source("load\nstore =1").unwrap_err();
    assert_eq!(err.kind, ParseErrorKind::ArgumentIsRequired);
    assert_eq!(err.line, 1);
}
