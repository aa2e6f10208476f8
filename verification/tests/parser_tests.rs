use ramemu::parser::parse_line;
use ramemu::parser::LabelTable;
use ramemu::parser::ParsedLine;
use ramemu::program::LabelId;
use ramemu::stmt::Op;
use ramemu::stmt::RegisterValue;
use ramemu::stmt::Value;
use ramemu::errors::ParseErrorKind;

#[test]
fn test_parse_line_load() {
    let mut label_ids = LabelTable::new();
    let line = "LOAD 1";
    let res = parse_line(line, &mut label_ids).unwrap();
    assert_eq!(res.op, Some(Op::Load(Value::Register(RegisterValue::Direct(1)))));
    assert_eq!(res.label, None);
}

#[test]
fn test_parse_line_add() {
    let mut label_ids = LabelTable::new();
    let line = "ADD *2";
    let res = parse_line(line, &mut label_ids).unwrap();
    assert_eq!(res.op, Some(Op::Add(Value::Register(RegisterValue::Indirect(2)))));
    assert_eq!(res.label, None);
}

#[test]
fn test_parse_line_jump() {
    let mut label_ids = LabelTable::new();
    let line = "JUMP start";
    let res = parse_line(line, &mut label_ids).unwrap();
    assert_eq!(res.op, Some(Op::Jump(LabelId(0))));
    assert_eq!(res.label, None);

    let line = "JUMP start";
    let res = parse_line(line, &mut label_ids).unwrap();
    assert_eq!(res.op, Some(Op::Jump(LabelId(0))));
    assert_eq!(res.label, None);
}

#[test]
fn test_parse_line_invalid_label() {
    let mut label_ids = LabelTable::new();
    let line = "JUMP 1start";
    let error = parse_line(line, &mut label_ids).unwrap_err();
    assert_eq!(error, ParseErrorKind::LabelIsNotValid);
}

#[test]
fn test_parse_line_unsupported_opcode() {
    let mut label_ids = LabelTable::new();
    let line = "NOP";
    let error = parse_line(line, &mut label_ids).unwrap_err();
    assert_eq!(error, ParseErrorKind::UnsupportedOpcode("NOP".to_string()));
}

#[test]
fn test_parse_line_missing_argument() {
    let mut label_ids = LabelTable::new();
    let line = "LOAD";
    let error = parse_line(line, &mut label_ids).unwrap_err();
    assert_eq!(error, ParseErrorKind::ArgumentIsRequired);
}

#[test]
fn test_parse_comment() {
    let mut label_ids = LabelTable::new();
    let line = "# This is a comment";
    let res = parse_line(line, &mut label_ids).unwrap();
    assert_eq!(res.op, None);
    assert_eq!(res.label, None);
}

#[test]
fn test_parse_line_load_with_comment() {
    let mut label_ids = LabelTable::new();
    let line = "Load 1 # This is a comment";
    let res = parse_line(line, &mut label_ids).unwrap();
    assert_eq!(res.op, Some(Op::Load(Value::Register(RegisterValue::Direct(1)))));
    assert_eq!(res.label, None);
}

#[test]
fn test_parse_with_only_label() {
    let mut label_ids = LabelTable::new();
    let line = "start:";
    let res = parse_line(line, &mut label_ids).unwrap();
    let label_id = label_ids.get("start").unwrap();
    assert_eq!(res.op, None);
    assert_eq!(res.label, Some(label_id));
}

#[test]
fn test_parse_with_label_and_opcode() {
    let mut label_ids = LabelTable::new();
    let line = "start: LOAD 1";
    let res = parse_line(line, &mut label_ids).unwrap();
    let label_id = label_ids.get("start").unwrap();
    assert_eq!(res.op, Some(Op::Load(Value::Register(RegisterValue::Direct(1)))));
    assert_eq!(res.label, Some(label_id));
}

#[test]
fn test_parse_line_halt_ignores_argument() {
    let mut label_ids = LabelTable::new();
    let res = parse_line("halt 5", &mut label_ids).unwrap();
    assert_eq!(res, ParsedLine::new(Some(Op::Halt), None));
}

#[test]
fn test_parse_line_plus_prefix_reads_as_direct_register() {
    let mut label_ids = LabelTable::new();
    let res = parse_line("load +5", &mut label_ids).unwrap();
    assert_eq!(res.op, Some(Op::Load(Value::Register(RegisterValue::Direct(5)))));
}

#[test]
fn test_parse_line_mnemonic_case_insensitive() {
    let mut label_ids = LabelTable::new();
    let res = parse_line("jGz loop", &mut label_ids).unwrap();
    assert_eq!(res.op, Some(Op::JumpGreaterZero(LabelId(0))));
}

#[test]
fn test_parse_line_mnemonic_aliases() {
    let mut label_ids = LabelTable::new();
    let mul = parse_line("mul =2", &mut label_ids).unwrap();
    let mult = parse_line("mult =2", &mut label_ids).unwrap();
    assert_eq!(mul.op, mult.op);
    assert_eq!(mul.op, Some(Op::Mult(Value::Pure(2))));

    let write = parse_line("write =1", &mut label_ids).unwrap();
    assert_eq!(write.op, Some(Op::Output(Value::Pure(1))));

    let read = parse_line("read 3", &mut label_ids).unwrap();
    assert_eq!(read.op, Some(Op::Input(RegisterValue::Direct(3))));

    let jzero = parse_line("jzero x", &mut label_ids).unwrap();
    assert_eq!(jzero.op, Some(Op::JumpIfZero(LabelId(0))));

    let jgtz = parse_line("jgtz x", &mut label_ids).unwrap();
    assert_eq!(jgtz.op, Some(Op::JumpGreaterZero(LabelId(0))));
}

#[test]
fn test_is_valid_label() {
    assert!(ramemu::parser::is_valid_label("_loop2"));
    assert!(ramemu::parser::is_valid_label("A"));
    assert!(!ramemu::parser::is_valid_label(""));
    assert!(!ramemu::parser::is_valid_label("2start"));
    assert!(!ramemu::parser::is_valid_label("a-b"));
}

#[test]
fn test_parse_with_value_pure() {
    let op = ramemu::parser::parse_with_value("DIV", "=3").unwrap();
    assert_eq!(op, Op::Div(Value::Pure(3)));
}

#[test]
fn test_parse_with_register_rejects_pure() {
    let err = ramemu::parser::parse_with_register("STORE", "=1").unwrap_err();
    assert_eq!(err, ParseErrorKind::pure_argument_not_allowed());
}

#[test]
fn test_parse_with_label_arg_reuses_identifier() {
    let mut label_ids = LabelTable::new();
    let first = ramemu::parser::parse_with_label_arg("JMP", "again", &mut label_ids).unwrap();
    let second = ramemu::parser::parse_with_label_arg("JZ", "again", &mut label_ids).unwrap();
    assert_eq!(first, Op::Jump(LabelId(0)));
    assert_eq!(second, Op::JumpIfZero(LabelId(0)));
    assert_eq!(label_ids.len(), 1);
}
