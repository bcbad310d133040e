use monkey::code::OpCode;
use monkey::code::make_op;
use monkey::compiler::ByteCode;
use monkey::compiler::CompileError;
use monkey::compiler::compile_from_source;
use monkey::eval::Object;
use monkey::parser::ParseError;

#[test]
fn compile_infix() {
    compile_infix_template("+", OpCode::OpAdd);
    compile_infix_template("-", OpCode::OpSub);
    compile_infix_template("*", OpCode::OpMul);
    compile_infix_template("/", OpCode::OpDiv);
}

fn compile_infix_template(infix_str: &str, op_code: OpCode) {
    let input = format!("1 {} 2;", infix_str);
    let byte_code = compile_from_source(&input).unwrap();

    let expected_instructions: Vec<u8> = vec![
        OpCode::OpConstant(0),
        OpCode::OpConstant(1),
        op_code,
        OpCode::OpPop,
    ]
    .into_iter()
    .flat_map(make_op)
    .collect();

    assert_eq!(
        ByteCode {
            instructions: expected_instructions,
            constants: vec![Object::Integer(1), Object::Integer(2)],
        },
        byte_code
    );
}

#[test]
fn compile_if() {
    let input = "if (true) { 10; }; 3333;";
    let byte_code = compile_from_source(input).unwrap();

    let expected_instructions: Vec<u8> = vec![
        OpCode::OpTrue, // 0000
        OpCode::OpJumpNotTrue(7), // 0001
        OpCode::OpConstant(0), // 0004
        OpCode::OpPop, // 0007
        OpCode::OpConstant(1), // 0008
        OpCode::OpPop, // 0011
    ]
    .into_iter()
    .flat_map(make_op)
    .collect();

    assert_eq!(
        ByteCode {
            instructions: expected_instructions,
            constants: vec![Object::Integer(10), Object::Integer(3333)],
        },
        byte_code
    );
}

#[test]
fn compile_if_else() {
    let input = "if (true) { 10; } else { 20; };";
    let byte_code = compile_from_source(input).unwrap();

    let expected_instructions: Vec<u8> = vec![
        OpCode::OpTrue, // 0000
        OpCode::OpJumpNotTrue(10), // 0001
        OpCode::OpConstant(0), // 0004
        OpCode::OpJump(13), // 0007
        OpCode::OpConstant(1), // 0010
        OpCode::OpPop, // 0013
    ]
    .into_iter()
    .flat_map(make_op)
    .collect();

    assert_eq!(
        ByteCode {
            instructions: expected_instructions,
            constants: vec![Object::Integer(10), Object::Integer(20)],
        },
        byte_code
    );
}

#[test]
fn compile_if_else_extra_statement() {
    let input = "if (true) { 10; } else { 20; }; 3333;";
    let byte_code = compile_from_source(input).unwrap();

    let expected_instructions: Vec<u8> = vec![
        OpCode::OpTrue, // 0000
        OpCode::OpJumpNotTrue(10), // 0001
        OpCode::OpConstant(0), // 0004
        OpCode::OpJump(13), // 0007
        OpCode::OpConstant(1), // 0010
        OpCode::OpPop, // 0013
        OpCode::OpConstant(2), // 0014
        OpCode::OpPop, // 0017
    ]
    .into_iter()
    .flat_map(make_op)
    .collect();

    assert_eq!(
        ByteCode {
            instructions: expected_instructions,
            constants: vec![
                Object::Integer(10),
                Object::Integer(20),
                Object::Integer(3333),
            ],
        },
        byte_code
    );
}

#[test]
fn compile_let_single_var() {
    let input = "let one = 1;";
    let byte_code = compile_from_source(input).unwrap();

    let expected_instructions: Vec<u8> = vec![OpCode::OpConstant(0), OpCode::OpSetGlobal(0)]
        .into_iter()
        .flat_map(make_op)
        .collect();

    assert_eq!(
        ByteCode {
            instructions: expected_instructions,
            constants: vec![Object::Integer(1)],
        },
        byte_code
    );
}

#[test]
fn compile_let_multiple_var() {
    let input = "let one = 1; let two = 2;";
    let byte_code = compile_from_source(input).unwrap();

    let expected_instructions: Vec<u8> = vec![
        OpCode::OpConstant(0),
        OpCode::OpSetGlobal(0),
        OpCode::OpConstant(1),
        OpCode::OpSetGlobal(1),
    ]
    .into_iter()
    .flat_map(make_op)
    .collect();

    assert_eq!(
        ByteCode {
            instructions: expected_instructions,
            constants: vec![Object::Integer(1), Object::Integer(2)],
        },
        byte_code
    );
}

#[test]
fn compile_let_get() {
    let input = "let one = 1; one;";
    let byte_code = compile_from_source(input).unwrap();

    let expected_instructions: Vec<u8> = vec![
        OpCode::OpConstant(0),
        OpCode::OpSetGlobal(0),
        OpCode::OpGetGlobal(0),
        OpCode::OpPop,
    ]
    .into_iter()
    .flat_map(make_op)
    .collect();

    assert_eq!(
        ByteCode {
            instructions: expected_instructions,
            constants: vec![Object::Integer(1)],
        },
        byte_code
    );
}

#[test]
fn compile_less_than_canonicalized() {
    // `1 < 2;` emits its operands right then left, then the shared
    // greater-than opcode: exactly the bytes of `2 > 1;`.
    let lt = compile_from_source("1 < 2;").unwrap();
    let gt = compile_from_source("2 > 1;").unwrap();
    assert_eq!(lt, gt);

    let expected_instructions: Vec<u8> = vec![
        OpCode::OpConstant(0),
        OpCode::OpConstant(1),
        OpCode::OpGreaterThan,
        OpCode::OpPop,
    ]
    .into_iter()
    .flat_map(make_op)
    .collect();

    assert_eq!(
        ByteCode {
            instructions: expected_instructions,
            constants: vec![Object::Integer(2), Object::Integer(1)],
        },
        lt
    );
}

#[test]
fn compile_undefined_variable_fails() {
    assert_eq!(
        Err(CompileError::UndefinedVariable),
        compile_from_source("foo;")
    );
    // the failure comes before any instruction is emitted for the reference:
    // no compiled unit at all is handed out
    assert_eq!(
        Err(CompileError::UndefinedVariable),
        compile_from_source("let a = 1; b;")
    );
}

#[test]
fn compile_unsupported_constructs_fail() {
    assert_eq!(
        Err(CompileError::UnsupportedConstruct),
        compile_from_source("return 5;")
    );
    assert_eq!(
        Err(CompileError::UnsupportedConstruct),
        compile_from_source("fn(x) { x; };")
    );
    assert_eq!(
        Err(CompileError::UnsupportedConstruct),
        compile_from_source("let f = fn(x) { x; };")
    );
}

#[test]
fn compile_if_branch_ending_in_let() {
    // a consequence ending in a `let` keeps its whole SetGlobal, even when
    // the slot's low byte equals the OpPop tag: only a trailing Pop
    // instruction is stripped, never a byte that happens to be 0x02
    let input = "let a = 1; let b = 2; if (true) { let c = 3; };";
    let byte_code = compile_from_source(input).unwrap();

    let expected_instructions: Vec<u8> = vec![
        OpCode::OpConstant(0), // 0000
        OpCode::OpSetGlobal(0), // 0003
        OpCode::OpConstant(1), // 0006
        OpCode::OpSetGlobal(1), // 0009
        OpCode::OpTrue, // 0012
        OpCode::OpJumpNotTrue(22), // 0013
        OpCode::OpConstant(2), // 0016
        OpCode::OpSetGlobal(2), // 0019
        OpCode::OpPop, // 0022
    ]
    .into_iter()
    .flat_map(make_op)
    .collect();

    assert_eq!(
        ByteCode {
            instructions: expected_instructions,
            constants: vec![
                Object::Integer(1),
                Object::Integer(2),
                Object::Integer(3),
            ],
        },
        byte_code
    );

    // the jump target 22 sits on an instruction boundary: a `let` leaves no
    // value, so whichever way the condition goes, the statement's pop finds
    // an empty stack and reports the underflow
    let mut vm = monkey::vm::VM::new(&byte_code);
    assert_eq!(Err(monkey::vm::VmError::StackUnderflow), vm.run(1000));

    // the same corner with the conditional as a `let` value: the stream ends
    // in an intact SetGlobal(3), and running it underflows at that store
    let byte_code =
        compile_from_source("let a = 1; let b = 2; let d = if (true) { let c = 3; };").unwrap();
    assert_eq!(
        Some(&[0x10u8, 0x00, 0x03][..]),
        byte_code.instructions.get(22..25)
    );
    let mut vm = monkey::vm::VM::new(&byte_code);
    assert_eq!(Err(monkey::vm::VmError::StackUnderflow), vm.run(1000));
}

#[test]
fn compile_syntax_error_fails() {
    assert_eq!(
        Err(CompileError::Syntax(ParseError::UnexpectedToken)),
        compile_from_source("let;")
    );
}

#[test]
fn compile_string_literal() {
    let byte_code = compile_from_source("\"foo bar\";").unwrap();

    let expected_instructions: Vec<u8> = vec![OpCode::OpConstant(0), OpCode::OpPop]
        .into_iter()
        .flat_map(make_op)
        .collect();

    assert_eq!(
        ByteCode {
            instructions: expected_instructions,
            constants: vec![Object::String(String::from("foo bar"))],
        },
        byte_code
    );
}

#[test]
fn compile_empty_program() {
    let byte_code = compile_from_source("").unwrap();
    assert_eq!(
        ByteCode { instructions: vec![], constants: vec![] },
        byte_code
    );
}
