use monkey::eval::Env;
use monkey::eval::EvalError;
use monkey::eval::Object;
use monkey::eval::eval_return_scope;
use monkey::lexer::lex;
use monkey::parser::Expr;
use monkey::parser::Statement;
use monkey::parser::parse;

const FUEL: u64 = 1_000_000;

fn test_eval(input: &str, expected: Object) {
    let tokens = lex(input).unwrap();
    let ast = parse(&tokens).unwrap();
    let mut env = Env::new();
    let obj = eval_return_scope(&ast, &mut env, FUEL).unwrap();

    assert_eq!(expected, obj);
}

fn eval_error(input: &str) -> EvalError {
    let tokens = lex(input).unwrap();
    let ast = parse(&tokens).unwrap();
    let mut env = Env::new();
    eval_return_scope(&ast, &mut env, FUEL).unwrap_err()
}

#[test]
fn eval_int_literal() {
    test_eval("5;", Object::Integer(5));
}

#[test]
fn eval_string_literal() {
    test_eval(r#""foo bar";"#, Object::String(String::from("foo bar")));
}

#[test]
fn eval_bool() {
    test_eval("true;", Object::Boolean(true));
    test_eval("false;", Object::Boolean(false));
}

#[test]
fn eval_bang() {
    test_eval("!true;", Object::Boolean(false));
    test_eval("!false;", Object::Boolean(true));
    test_eval("!(1 > 2);", Object::Boolean(true));
}

#[test]
fn eval_negative() {
    test_eval("-5;", Object::Integer(-5));
    test_eval("-(1 - 2);", Object::Integer(1));
}

#[test]
fn eval_infix() {
    test_eval("5 + 5;", Object::Integer(10));
    test_eval("5 - 5;", Object::Integer(0));
    test_eval("5 * 5;", Object::Integer(25));
    test_eval("5 / 5;", Object::Integer(1));
    test_eval("5 > 1;", Object::Boolean(true));
    test_eval("5 < 1;", Object::Boolean(false));
    test_eval("5 == 1;", Object::Boolean(false));
    test_eval("5 != 1;", Object::Boolean(true));
    test_eval("true == true;", Object::Boolean(true));
    test_eval("true != true;", Object::Boolean(false));
    test_eval("(1 > 2) == false;", Object::Boolean(true));
}

#[test]
fn eval_infix_string() {
    test_eval(
        r#""hello " + "world";"#,
        Object::String(String::from("hello world")),
    );
}

#[test]
fn eval_infix_nested_types() {
    test_eval("(1 + 2) + 3;", Object::Integer(6));
    test_eval("(1 + 2) - 3;", Object::Integer(0));
    test_eval("(1 + 2) * 3;", Object::Integer(9));
    test_eval("(1 + 2) / 3;", Object::Integer(1));
    test_eval("(1 + 2) < 3;", Object::Boolean(false));
    test_eval("(1 + 2) > 3;", Object::Boolean(false));
    test_eval("(1 > 2) == false;", Object::Boolean(true));
    test_eval("(1 > 2) != false;", Object::Boolean(false));
}

#[test]
fn eval_if() {
    test_eval("if (true) { 10; };", Object::Integer(10));
    test_eval("if (false) { 10; };", Object::Null);
    test_eval("if (false) { 10; } else { 11; };", Object::Integer(11));
    test_eval("if (1 > 2) { 10; } else { 11; };", Object::Integer(11));
    test_eval("if (1 < 2) { 10; } else { 11; };", Object::Integer(10));
}

#[test]
fn eval_return() {
    test_eval("return 10;", Object::Integer(10));
    test_eval("return 10; 11;", Object::Integer(10));
    test_eval("9; return 2 * 5; 9;", Object::Integer(10));
    test_eval(
        r#"
            if (10 > 1) {
              if (10 > 1) {
                return 10;
              };

              return 1;
            };
        "#,
        Object::Integer(10),
    );
}

#[test]
fn eval_binding() {
    test_eval("let a = 10; a;", Object::Integer(10));
    test_eval("let a = 5 * 5; a;", Object::Integer(25));
    test_eval("let a = 5 * 5; let b = a; b;", Object::Integer(25));
    test_eval("let a = 5; let b = a; let c = a + b + 5; c;", Object::Integer(15));
    test_eval("let a = 10;", Object::Integer(10)); // useful for repl
}

#[test]
fn eval_function() {
    test_eval(
        "fn(x) { x; };",
        Object::Function {
            parameters: vec![String::from("x")],
            body: vec![Statement::Expression(Expr::Ident(String::from("x")))],
        },
    );
    test_eval("let identity = fn(x) { x; }; identity(5);", Object::Integer(5));
    test_eval("let identity = fn(x) { return x; }; identity(5);", Object::Integer(5));
    test_eval("let double = fn(x) { x * 2; }; double(5);", Object::Integer(10));
    test_eval("let add = fn(x, y) { x + y; }; add(5, 5);", Object::Integer(10));
    test_eval(
        "let add = fn(x, y) { x + y; }; add(5 + 5, add(5, 5));",
        Object::Integer(20),
    );
    test_eval(
        "let add = fn(x, y) { return x + y; }; let three = add(1, 2); 5;",
        Object::Integer(5),
    ); // return value inside the function should not cause the entire program to return
}

#[test]
fn eval_errors_are_reported() {
    assert_eq!(EvalError::TypeMismatch, eval_error("!5;"));
    assert_eq!(EvalError::TypeMismatch, eval_error("-true;"));
    assert_eq!(EvalError::TypeMismatch, eval_error("1 + true;"));
    assert_eq!(EvalError::UndefinedVariable, eval_error("foo;"));
    assert_eq!(EvalError::NotAFunction, eval_error("let x = 1; x();"));
    assert_eq!(EvalError::WrongArity, eval_error("let f = fn(x) { x; }; f();"));
    assert_eq!(EvalError::DivideByZero, eval_error("1 / 0;"));
    assert_eq!(EvalError::IntegerOverflow, eval_error("2147483647 + 1;"));
    assert_eq!(EvalError::IntegerOverflow, eval_error("0 - 2147483647 - 2;"));
}

#[test]
fn eval_fuel_bound_is_reported() {
    let tokens = lex("1;").unwrap();
    let ast = parse(&tokens).unwrap();
    let mut env = Env::new();
    assert_eq!(
        Err(EvalError::RecursionLimit),
        eval_return_scope(&ast, &mut env, 1)
    );
}

#[test]
fn eval_truncating_division() {
    test_eval("7 / 2;", Object::Integer(3));
    test_eval("0 - 7 / 2;", Object::Integer(-3));
    test_eval("(0 - 7) / 2;", Object::Integer(-3));
    test_eval("7 / (0 - 2);", Object::Integer(-3));
}

#[test]
fn eval_environment_survives_failures() {
    let mut env = Env::new();
    let ok = parse(&lex("let a = 41;").unwrap()).unwrap();
    eval_return_scope(&ok, &mut env, FUEL).unwrap();
    let bad = parse(&lex("b;").unwrap()).unwrap();
    assert_eq!(
        Err(EvalError::UndefinedVariable),
        eval_return_scope(&bad, &mut env, FUEL)
    );
    let again = parse(&lex("a + 1;").unwrap()).unwrap();
    assert_eq!(
        Ok(Object::Integer(42)),
        eval_return_scope(&again, &mut env, FUEL)
    );
}
