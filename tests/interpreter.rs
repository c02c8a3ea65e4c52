use bytecode_vm::machine::{interpret, interpret_bounded, interpret_program};
use bytecode_vm::number::{int_to_text, parse_int, parse_position};
use bytecode_vm::op::{decode_program, ByteCode, Op, ProgramError, Value};

fn ins(op: Op, operand: Option<&str>) -> ByteCode {
    ByteCode { op, value: operand.map(|s| s.to_string()) }
}

fn cell(variable: Option<&str>, value: Option<&str>) -> Value {
    Value { variable: variable.map(|s| s.to_string()), value: value.map(|s| s.to_string()) }
}

fn lines(text: &[&str]) -> Vec<String> {
    text.iter().map(|s| s.to_string()).collect()
}

#[test]
fn test_interpret_load_val() {
    let bytecode = ByteCode { op: Op::LoadVal, value: Some("1".to_string()) };
    let mut bytecode_list = Vec::new();
    bytecode_list.push(bytecode);
    let mut stack = Vec::new();
    assert_eq!(interpret(&mut stack, &mut bytecode_list).unwrap(), Value { variable: None, value: None });
}

#[test]
fn test_interpret() {
    let mut stack = Vec::new();
    let mut bytecode_list = Vec::new();
    bytecode_list.push(ByteCode { op: Op::LoadVal, value: Some("1".to_string()) });
    bytecode_list.push(ByteCode { op: Op::WriteVar, value: Some("‘x’".to_string()) });
    bytecode_list.push(ByteCode { op: Op::LoadVal, value: Some("2".to_string()) });
    bytecode_list.push(ByteCode { op: Op::WriteVar, value: Some("‘y’".to_string()) });
    bytecode_list.push(ByteCode { op: Op::ReadVar, value: Some("‘x’".to_string()) });
    bytecode_list.push(ByteCode { op: Op::LoadVal, value: Some("1".to_string()) });
    bytecode_list.push(ByteCode { op: Op::Add, value: None });
    bytecode_list.push(ByteCode { op: Op::ReadVar, value: Some("‘y’".to_string()) });
    bytecode_list.push(ByteCode { op: Op::Multiply, value: None });
    bytecode_list.push(ByteCode { op: Op::ReturnValue, value: None });

    assert_eq!(
        interpret(&mut stack, &mut bytecode_list).unwrap(),
        Value { variable: None, value: Some("4".to_string()) }
    );
}

#[test]
fn test_interpret_loop() {
    let mut stack = Vec::new();
    let mut bytecode_list = Vec::new();
    bytecode_list.push(ByteCode { op: Op::LoadVal, value: Some("1".to_string()) });
    bytecode_list.push(ByteCode { op: Op::WriteVar, value: Some("‘i’".to_string()) });
    bytecode_list.push(ByteCode { op: Op::ReadVar, value: Some("‘i’".to_string()) });
    bytecode_list.push(ByteCode { op: Op::LoadVal, value: Some("5".to_string()) });
    bytecode_list.push(ByteCode { op: Op::IfCmpGe, value: Some("10".to_string()) });
    bytecode_list.push(ByteCode { op: Op::ReadVar, value: Some("‘i’".to_string()) });
    bytecode_list.push(ByteCode { op: Op::LoadVal, value: Some("1".to_string()) });
    bytecode_list.push(ByteCode { op: Op::Add, value: None });
    bytecode_list.push(ByteCode { op: Op::WriteVar, value: Some("‘i’".to_string()) });
    bytecode_list.push(ByteCode { op: Op::Goto, value: Some("2".to_string()) });
    bytecode_list.push(ByteCode { op: Op::ReturnValue, value: None });

    assert_eq!(
        interpret(&mut stack, &mut bytecode_list).unwrap(),
        Value { variable: Some("‘i’".to_string()), value: Some("5".to_string()) }
    );
}

#[test]
fn empty_program_gives_empty_result() {
    let mut stack = Vec::new();
    assert_eq!(interpret(&mut stack, &Vec::new()), Ok(cell(None, None)));
    assert!(stack.is_empty());
}

#[test]
fn load_then_return_gives_the_text() {
    let mut stack = Vec::new();
    let code = vec![ins(Op::LoadVal, Some("-17")), ins(Op::ReturnValue, None)];
    assert_eq!(interpret(&mut stack, &code), Ok(cell(None, Some("-17"))));
    assert!(stack.is_empty());
}

#[test]
fn write_then_read_gives_bound_cell() {
    let mut stack = Vec::new();
    let code = vec![
        ins(Op::LoadVal, Some("1")),
        ins(Op::WriteVar, Some("x")),
        ins(Op::ReadVar, Some("x")),
        ins(Op::ReturnValue, None),
    ];
    assert_eq!(interpret(&mut stack, &code), Ok(cell(Some("x"), Some("1"))));
    assert_eq!(stack, vec![cell(Some("x"), Some("1"))]);
}

#[test]
fn rewrite_updates_in_place() {
    let mut stack = vec![cell(None, Some("9"))];
    let code = vec![
        ins(Op::LoadVal, Some("1")),
        ins(Op::WriteVar, Some("x")),
        ins(Op::LoadVal, Some("7")),
        ins(Op::WriteVar, Some("y")),
        ins(Op::LoadVal, Some("2")),
        ins(Op::WriteVar, Some("x")),
    ];
    assert_eq!(interpret(&mut stack, &code), Ok(cell(None, None)));
    assert_eq!(
        stack,
        vec![cell(None, Some("9")), cell(Some("x"), Some("2")), cell(Some("y"), Some("7"))]
    );
    assert_eq!(stack.iter().filter(|c| c.variable.as_deref() == Some("x")).count(), 1);
}

#[test]
fn subtract_and_divide_take_second_popped_as_left() {
    let mut stack = Vec::new();
    let code = vec![ins(Op::LoadVal, Some("10")), ins(Op::LoadVal, Some("3")), ins(Op::Subtract, None), ins(Op::ReturnValue, None)];
    assert_eq!(interpret(&mut stack, &code), Ok(cell(None, Some("7"))));
    let code = vec![ins(Op::LoadVal, Some("-7")), ins(Op::LoadVal, Some("2")), ins(Op::Divide, None), ins(Op::ReturnValue, None)];
    assert_eq!(interpret(&mut stack, &code), Ok(cell(None, Some("-3"))));
}

#[test]
fn return_on_empty_stack_underflows() {
    let mut stack = Vec::new();
    assert_eq!(interpret(&mut stack, &vec![ins(Op::ReturnValue, None)]), Err(ProgramError::StackUnderflow));
    assert_eq!(interpret(&mut stack, &vec![ins(Op::LoadVal, Some("1")), ins(Op::Add, None)]), Err(ProgramError::StackUnderflow));
    assert!(stack.is_empty());
}

#[test]
fn divide_by_zero_is_arithmetic_error() {
    let mut stack = Vec::new();
    let code = vec![ins(Op::LoadVal, Some("5")), ins(Op::LoadVal, Some("0")), ins(Op::Divide, None)];
    assert_eq!(interpret(&mut stack, &code), Err(ProgramError::ArithmeticError));
    assert!(stack.is_empty());
}

#[test]
fn overflow_is_arithmetic_error() {
    let mut stack = Vec::new();
    let code = vec![ins(Op::LoadVal, Some("2147483647")), ins(Op::LoadVal, Some("1")), ins(Op::Add, None)];
    assert_eq!(interpret(&mut stack, &code), Err(ProgramError::ArithmeticError));
    let code = vec![ins(Op::LoadVal, Some("-2147483648")), ins(Op::LoadVal, Some("-1")), ins(Op::Divide, None)];
    assert_eq!(interpret(&mut stack, &code), Err(ProgramError::ArithmeticError));
}

#[test]
fn non_integer_payload_is_parse_error() {
    let mut stack = Vec::new();
    let code = vec![ins(Op::LoadVal, Some("abc")), ins(Op::LoadVal, Some("1")), ins(Op::Multiply, None)];
    assert_eq!(interpret(&mut stack, &code), Err(ProgramError::NumericParseError));
    let code = vec![ins(Op::Goto, Some("x"))];
    assert_eq!(interpret(&mut stack, &code), Err(ProgramError::NumericParseError));
}

#[test]
fn undefined_and_missing_names() {
    let mut stack = Vec::new();
    assert_eq!(interpret(&mut stack, &vec![ins(Op::ReadVar, Some("z"))]), Err(ProgramError::UndefinedVariable));
    assert_eq!(interpret(&mut stack, &vec![ins(Op::ReadVar, None)]), Err(ProgramError::MissingOperand));
}

#[test]
fn later_success_replaces_earlier_error() {
    let mut stack = Vec::new();
    let code = vec![ins(Op::ReturnValue, None), ins(Op::LoadVal, Some("3"))];
    assert_eq!(interpret(&mut stack, &code), Ok(cell(None, None)));
    assert_eq!(stack, vec![cell(None, Some("3"))]);
}

#[test]
fn comparison_falls_through_when_false() {
    let mut stack = Vec::new();
    let code = vec![
        ins(Op::LoadVal, Some("1")),
        ins(Op::LoadVal, Some("2")),
        ins(Op::IfCmpGt, Some("5")),
        ins(Op::LoadVal, Some("8")),
        ins(Op::ReturnValue, None),
    ];
    assert_eq!(interpret(&mut stack, &code), Ok(cell(None, Some("8"))));
}

#[test]
fn endless_loop_stops_at_the_step_limit() {
    let mut stack = Vec::new();
    let code = vec![ins(Op::Goto, Some("0"))];
    assert_eq!(interpret_bounded(&mut stack, &code, 1000), None);
    let code = vec![ins(Op::LoadVal, Some("1")), ins(Op::ReturnValue, None)];
    assert_eq!(interpret_bounded(&mut stack, &code, 2), Some(Ok(cell(None, Some("1")))));
    assert_eq!(interpret_bounded(&mut stack, &code, 1), None);
}

#[test]
fn decode_unknown_opcode() {
    assert_eq!(
        ByteCode::decode("DOES_NOT_EXIST").unwrap_err(),
        ProgramError::DecodeError("DOES_NOT_EXIST".to_string())
    );
    assert_eq!(
        decode_program(&lines(&["LOAD_VAL 1", "load_val 2"])).unwrap_err(),
        ProgramError::DecodeError("load_val".to_string())
    );
}

#[test]
fn decode_keeps_operand_verbatim() {
    let b = ByteCode::decode("WRITE_VAR ‘x’ \"q\"").unwrap();
    assert_eq!(b.op, Op::WriteVar);
    assert_eq!(b.value.as_deref(), Some("‘x’ \"q\""));
    let b = ByteCode::decode("RETURN_VALUE").unwrap();
    assert_eq!(b.op, Op::ReturnValue);
    assert_eq!(b.value, None);
    let b = ByteCode::decode("ADD ").unwrap();
    assert_eq!(b.value.as_deref(), Some(""));
    assert_eq!(Op::from_str("IF_CMP_NE"), Ok(Op::IfCmpNe));
    assert!(Op::from_str("If_CMP_NE").is_err());
}

#[test]
fn program_with_bad_line_runs_nothing() {
    let mut stack = vec![cell(None, Some("5"))];
    let r = interpret_program(&mut stack, &lines(&["LOAD_VAL 1", "NOPE", "RETURN_VALUE"]));
    assert_eq!(r, Err(ProgramError::DecodeError("NOPE".to_string())));
    assert_eq!(stack, vec![cell(None, Some("5"))]);
}

#[test]
fn program_text_runs() {
    let mut stack = Vec::new();
    let text = lines(&[
        "LOAD_VAL 1",
        "WRITE_VAR i",
        "READ_VAR i",
        "LOAD_VAL 5",
        "IF_CMP_GE 10",
        "READ_VAR i",
        "LOAD_VAL 1",
        "ADD",
        "WRITE_VAR i",
        "GOTO 2",
        "RETURN_VALUE",
    ]);
    assert_eq!(interpret_program(&mut stack, &text), Ok(cell(Some("i"), Some("5"))));
}

#[test]
fn numbers_parse_and_print() {
    assert_eq!(parse_int("42"), Some(42));
    assert_eq!(parse_int("+42"), Some(42));
    assert_eq!(parse_int("-2147483648"), Some(i32::MIN));
    assert_eq!(parse_int("2147483648"), None);
    assert_eq!(parse_int("-"), None);
    assert_eq!(parse_int(""), None);
    assert_eq!(parse_int("1 "), None);
    assert_eq!(parse_position("+3"), Some(3));
    assert_eq!(parse_position("-0"), None);
    assert_eq!(int_to_text(0), "0");
    assert_eq!(int_to_text(-105), "-105");
    assert_eq!(int_to_text(i32::MIN), "-2147483648");
    assert_eq!(int_to_text(i32::MAX), "2147483647");
}
