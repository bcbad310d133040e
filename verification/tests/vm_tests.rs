use monkey::code::OpCode;
use monkey::code::make_op;
use monkey::compiler::ByteCode;
use monkey::compiler::compile_from_source;
use monkey::eval::Object;
use monkey::vm::VM;
use monkey::vm::VmError;

const FUEL: u64 = 1_000_000;

fn assert_last_popped(input: &str, obj: Object) {
    let byte_code = compile_from_source(input).unwrap();

    let mut vm = VM::new(&byte_code);
    vm.run(FUEL).unwrap();

    assert_eq!(&obj, vm.last_popped());
}

fn run_error(instructions: Vec<u8>, constants: Vec<Object>, fuel: u64) -> VmError {
    let byte_code = ByteCode { instructions, constants };
    let mut vm = VM::new(&byte_code);
    vm.run(fuel).unwrap_err()
}

#[test]
fn run_infix() {
    assert_last_popped("1 + 2;", Object::Integer(3));
    assert_last_popped("1 - 2;", Object::Integer(-1));
    assert_last_popped("3 * 2;", Object::Integer(6));
    assert_last_popped("6 / 2;", Object::Integer(3));
}

#[test]
fn run_bool() {
    assert_last_popped("true;", Object::Boolean(true));
    assert_last_popped("false;", Object::Boolean(false));
}

#[test]
fn run_comparisons() {
    assert_last_popped("1 < 2;", Object::Boolean(true));
    assert_last_popped("2 > 1;", Object::Boolean(true));
    assert_last_popped("2 < 1;", Object::Boolean(false));
    assert_last_popped("1 == 1;", Object::Boolean(true));
    assert_last_popped("1 != 1;", Object::Boolean(false));
    assert_last_popped("true == true;", Object::Boolean(true));
    assert_last_popped("true != false;", Object::Boolean(true));
}

#[test]
fn run_prefix() {
    assert_last_popped("-5;", Object::Integer(-5));
    assert_last_popped("!true;", Object::Boolean(false));
    assert_last_popped("!false;", Object::Boolean(true));
}

#[test]
fn run_string_literal() {
    assert_last_popped(r#""foo bar";"#, Object::String(String::from("foo bar")));
}

#[test]
fn run_if() {
    // the conditional's value is recaptured, then discarded by the statement
    // pop; the final result is the trailing statement's value
    assert_last_popped("if (true) { 10; }; 3333;", Object::Integer(3333));

    // immediately before the final pop, the intermediate value is the
    // consequence's 10: stop the machine right there and look
    let byte_code = compile_from_source("if (true) { 10; }; 3333;").unwrap();
    let mut vm = VM::new(&byte_code);
    assert_eq!(Err(VmError::ResourceExceeded), vm.run(4));
    assert_eq!(&Object::Integer(10), vm.last_popped());
}

#[test]
fn run_if_else() {
    assert_last_popped("if (true) { 10; } else { 20; }; 3333;", Object::Integer(3333));
    assert_last_popped("if (true) { 10; } else { 20; };", Object::Integer(10));
    assert_last_popped("if (false) { 10; } else { 20; };", Object::Integer(20));
}

#[test]
fn run_if_untaken_no_else() {
    // when a conditional with no else branch is not taken, nothing is pushed
    // before the enclosing statement's pop, so that pop finds an empty stack
    // and reports an explicit underflow
    let compiled = compile_from_source("if (false) { 10; };").unwrap();
    let mut vm = VM::new(&compiled);
    assert_eq!(Err(VmError::StackUnderflow), vm.run(FUEL));
}

#[test]
fn run_binding() {
    assert_last_popped("let one = 1; one;", Object::Integer(1));
    assert_last_popped("let one = 1; let two = 2; one + two;", Object::Integer(3));
    assert_last_popped("let a = 5; let a = a + 1; a;", Object::Integer(6));
}

#[test]
fn run_truncating_division() {
    assert_last_popped("7 / 2;", Object::Integer(3));
    assert_last_popped("(0 - 7) / 2;", Object::Integer(-3));
}

#[test]
fn run_errors_are_reported() {
    let compiled = compile_from_source("1 / 0;").unwrap();
    let mut vm = VM::new(&compiled);
    assert_eq!(Err(VmError::DivideByZero), vm.run(FUEL));

    let compiled = compile_from_source("1 + true;").unwrap();
    let mut vm = VM::new(&compiled);
    assert_eq!(Err(VmError::TypeMismatch), vm.run(FUEL));

    let compiled = compile_from_source("2147483647 + 1;").unwrap();
    let mut vm = VM::new(&compiled);
    assert_eq!(Err(VmError::IntegerOverflow), vm.run(FUEL));
}

#[test]
fn run_malformed_streams_are_reported() {
    assert_eq!(VmError::UnknownOpcode, run_error(vec![0xFF], vec![], FUEL));
    assert_eq!(VmError::StackUnderflow, run_error(vec![0x02], vec![], FUEL));
    assert_eq!(VmError::TruncatedInstruction, run_error(vec![0x01, 0x00], vec![], FUEL));
    assert_eq!(
        VmError::ConstantOutOfRange,
        run_error(make_op(OpCode::OpConstant(0)), vec![], FUEL)
    );
    assert_eq!(
        VmError::UninitializedGlobalAccess,
        run_error(make_op(OpCode::OpGetGlobal(0)), vec![], FUEL)
    );
}

#[test]
fn run_stack_overflow_is_reported() {
    // 2049 pushes onto a 2048-slot stack
    let mut instructions: Vec<u8> = Vec::new();
    for _ in 0..2049 {
        instructions.extend(make_op(OpCode::OpTrue));
    }
    assert_eq!(VmError::StackOverflow, run_error(instructions, vec![], FUEL));
}

#[test]
fn run_budget_is_reported() {
    // an unconditional jump back to offset 0 loops until the budget ends
    assert_eq!(
        VmError::ResourceExceeded,
        run_error(make_op(OpCode::OpJump(0)), vec![], 1000)
    );
}

#[test]
fn run_empty_stream() {
    let byte_code = ByteCode { instructions: vec![], constants: vec![] };
    let mut vm = VM::new(&byte_code);
    vm.run(FUEL).unwrap();
    assert_eq!(&Object::Null, vm.last_popped());
}
