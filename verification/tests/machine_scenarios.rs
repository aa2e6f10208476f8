use ramemu::errors::InterpretError;
use ramemu::errors::InterpretErrorKind;
use ramemu::errors::ParseError;
use ramemu::errors::ParseErrorKind;
use ramemu::program::Program;
use ramemu::ram::Ram;
use ramemu::streams::StringWriter;
use ramemu::streams::VecReader;

const FUEL: usize = 1_000_000;

fn run_program(source: &str, input: Vec<&str>) -> (Ram<VecReader, StringWriter>, Result<(), InterpretError>) {
    let program = Program::from_source(source).expect("program should parse");
    let reader = VecReader::new(input.into_iter().map(|l| l.to_string()).collect());
    let mut ram = Ram::new(program, reader, StringWriter::new());
    let result = ram.run(FUEL).expect("program should stop within the budget");
    (ram, result)
}

#[test]
fn accumulator_division_truncates() {
    let (ram, result) = run_program("load =7\ndiv =2\nhalt", vec![]);
    assert_eq!(result, Ok(()));
    assert_eq!(ram.get_registers().get(0), 3);
}

#[test]
fn accumulator_division_truncates_toward_zero() {
    // -7 divided by 2 truncates to -3, not -4.
    let (ram, result) = run_program("load =0\nsub =7\ndiv =2\nhalt", vec![]);
    assert_eq!(result, Ok(()));
    assert_eq!(ram.get_registers().get(0), -3);
}

#[test]
fn division_by_zero_halts_for_good() {
    let program = Program::from_source("load =5\ndiv =0").unwrap();
    let mut ram = Ram::new(program, VecReader::new(vec![]), StringWriter::new());

    assert_eq!(ram.step(), Ok(()));
    let err = ram.step().unwrap_err();
    assert_eq!(err, InterpretError::new(InterpretErrorKind::DivisionByZero, 2));
    assert!(ram.is_halted());
    assert_eq!(ram.get_error(), Some(&err));

    // No further step succeeds, and the accumulator stays as it was.
    let again = ram.step().unwrap_err();
    assert_eq!(again, InterpretError::new(InterpretErrorKind::Halted, 2));
    assert_eq!(ram.get_registers().get(0), 5);
    assert_eq!(ram.get_error(), Some(&err));
}

#[test]
fn indirect_load_follows_the_pointer() {
    // Register 2 holds 5 and register 5 holds 42; LOAD *2 fetches 42.
    let source = "load =5\nstore 2\nload =42\nstore 5\nload *2\nhalt";
    let (ram, result) = run_program(source, vec![]);
    assert_eq!(result, Ok(()));
    assert_eq!(ram.get_registers().get(0), 42);
}

#[test]
fn forward_and_backward_references_agree() {
    // The same jump resolves to the same place whether its label is
    // declared after the jump or before it.
    let forward = "load =1\njz done\nload =9\ndone: halt";
    let (ram1, r1) = run_program(forward, vec![]);
    assert_eq!(r1, Ok(()));
    assert_eq!(ram1.get_registers().get(0), 9);

    let backward = "jump start\nstart: load =3\nhalt";
    let (ram2, r2) = run_program(backward, vec![]);
    assert_eq!(r2, Ok(()));
    assert_eq!(ram2.get_registers().get(0), 3);
}

#[test]
fn undefined_label_is_rejected_at_parse_time() {
    let errors = match Program::from_source("jump missing") {
        Err(e) => vec![e],
        Ok(_) => panic!("an undeclared jump target must not parse"),
    };
    assert_eq!(errors[0], ParseError { kind: ParseErrorKind::LabelIsNotValid, line: 1 });
}

#[test]
fn never_written_registers_read_zero() {
    let (ram, result) = run_program("load 123456\nhalt", vec![]);
    assert_eq!(result, Ok(()));
    assert_eq!(ram.get_registers().get(0), 0);
    assert_eq!(ram.get_registers().get(99), 0);
}

#[test]
fn end_to_end_scenario_writes_four() {
    let source = "load =2\nadd =2\noutput 0\nhalt";
    let (ram, result) = run_program(source, vec![]);
    assert_eq!(result, Ok(()));
    assert_eq!(ram.get_writer().contents(), "4");
    assert_eq!(ram.get_registers().get(0), 4);
    assert!(ram.is_halted());
    assert_eq!(ram.get_error(), None);
}

#[test]
fn store_input_round_trip() {
    let source = "input 1\nload 1\noutput 0\nhalt";
    let (ram, result) = run_program(source, vec!["7"]);
    assert_eq!(result, Ok(()));
    assert_eq!(ram.get_writer().contents(), "7");
}

#[test]
fn negative_input_round_trip() {
    let source = "input 1\nload 1\noutput 0\nhalt";
    let (ram, result) = run_program(source, vec!["-9223372036854775808"]);
    assert_eq!(result, Ok(()));
    assert_eq!(ram.get_writer().contents(), "-9223372036854775808");
}

#[test]
fn input_is_trimmed_before_parsing() {
    let source = "input 0\noutput 0\nhalt";
    let (ram, result) = run_program(source, vec!["  42\t"]);
    assert_eq!(result, Ok(()));
    assert_eq!(ram.get_writer().contents(), "42");
}

#[test]
fn step_after_halt_fails_without_effects() {
    let program = Program::from_source("load =2\nhalt").unwrap();
    let mut ram = Ram::new(program, VecReader::new(vec![]), StringWriter::new());
    assert_eq!(ram.step(), Ok(()));
    assert_eq!(ram.step(), Ok(()));
    assert!(ram.is_halted());

    let err = ram.step().unwrap_err();
    assert_eq!(err.kind, InterpretErrorKind::Halted);
    assert_eq!(ram.get_registers().get(0), 2);
    assert_eq!(ram.get_error(), None);
}

#[test]
fn outputs_concatenate_without_separator() {
    let (ram, result) = run_program("output =1\noutput =2\nhalt", vec![]);
    assert_eq!(result, Ok(()));
    assert_eq!(ram.get_writer().contents(), "12");
}

#[test]
fn addition_wraps_around_the_machine_word() {
    let source = "load =9223372036854775807\nadd =1\noutput 0\nhalt";
    let (ram, result) = run_program(source, vec![]);
    assert_eq!(result, Ok(()));
    assert_eq!(ram.get_writer().contents(), "-9223372036854775808");
}

#[test]
fn too_wide_literal_is_an_invalid_literal() {
    let (ram, result) = run_program("load =9223372036854775808\nhalt", vec![]);
    assert_eq!(result, Err(InterpretError::new(InterpretErrorKind::InvalidLiteral, 1)));
    assert!(ram.is_halted());
}

#[test]
fn negative_destination_is_a_segmentation_fault() {
    let source = "load =0\nsub =1\nstore 1\nload =9\nstore *1";
    let (ram, result) = run_program(source, vec![]);
    assert_eq!(result, Err(InterpretError::new(InterpretErrorKind::SegmentationFault, 5)));
    assert!(ram.is_halted());
}

#[test]
fn unparsable_input_is_an_invalid_input() {
    let (_, result) = run_program("input 0", vec!["abc"]);
    assert_eq!(
        result,
        Err(InterpretError::new(
            InterpretErrorKind::InvalidInput("abc".to_string()),
            1,
        )),
    );
}

#[test]
fn exhausted_reader_is_an_io_error() {
    let (_, result) = run_program("input 0", vec![]);
    assert_eq!(result, Err(InterpretError::new(InterpretErrorKind::IOError, 1)));
}

#[test]
fn duplicate_declaration_keeps_the_last_address() {
    let program = Program::from_source("x: load =1\nx: halt\njump x").unwrap();
    assert_eq!(
        program.decode_label(ramemu::program::LabelId(0)),
        Some(ramemu::program::CodeAddress(1)),
    );
}

#[test]
fn comments_and_blank_lines_contribute_nothing() {
    let program = Program::from_source("# a comment\n\n   \nhalt # trailing\n").unwrap();
    assert_eq!(program.instructions.len(), 1);
    assert_eq!(program.instructions[0].line, 4);
}

#[test]
fn all_line_errors_are_collected() {
    let errors = match ramemu::parser::parse("load\nstore =1\nhalt") {
        Err(es) => es,
        Ok(_) => panic!("both bad lines must be reported"),
    };
    assert_eq!(errors.len(), 2);
    assert_eq!(errors[0], ParseError { kind: ParseErrorKind::ArgumentIsRequired, line: 1 });
    assert_eq!(
        errors[1],
        ParseError { kind: ParseErrorKind::pure_argument_not_allowed(), line: 2 },
    );
}

#[test]
fn legacy_op_reports_its_line() {
    let op = ramemu::op::Op::Halt(12);
    assert_eq!(op.get_line(), 12);
    let jump = ramemu::op::Op::Jump(ramemu::op::Label::new("loop".to_string()), 3);
    assert_eq!(jump.get_line(), 3);
}

#[test]
fn legacy_label_round_trip() {
    let label = ramemu::op::Label::new("begin".to_string());
    assert_eq!(label.get(), "begin");
}
