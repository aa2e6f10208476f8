use ramemu::errors::ParseErrorKind;
use ramemu::parser::parse_line;
use ramemu::parser::LabelTable;

#[test]
fn test_label_is_not_valid() {
    let line = "фывфыфыв:";
    let result = parse_line(line, &mut LabelTable::new());

    assert_eq!(result, Err(ParseErrorKind::LabelIsNotValid));
}

#[test]
fn test_unsupported_syntax() {
    let line = "LOAD 1 2";
    let result = parse_line(line, &mut LabelTable::new());

    assert_eq!(result, Err(ParseErrorKind::UnsupportedSyntax));
}

#[test]
fn test_unsupported_opcode() {
    let line = "KoKotinf 1 2";
    let result = parse_line(line, &mut LabelTable::new());

    assert_eq!(result, Err(ParseErrorKind::UnsupportedSyntax));
}

#[test]
fn test_argument_is_required() {
    let line = "LOAD";
    let result = parse_line(line, &mut LabelTable::new());

    assert_eq!(result, Err(ParseErrorKind::ArgumentIsRequired));
}

#[test]
fn test_pure_argument_not_allowed() {
    let line = "STORE =1";
    let result = parse_line(line, &mut LabelTable::new());

    assert_eq!(result, Err(ParseErrorKind::pure_argument_not_allowed()));
}

#[test]
fn test_argument_value_must_be_numeric() {
    let line = "STORE *a";
    let result = parse_line(line, &mut LabelTable::new());

    assert_eq!(result, Err(ParseErrorKind::argument_value_must_be_numeric()));
}

#[test]
fn test_argument_is_not_valid() {
    let line = "STORE a";
    let result = parse_line(line, &mut LabelTable::new());

    assert_eq!(result, Err(ParseErrorKind::not_valid_argument()));
}
