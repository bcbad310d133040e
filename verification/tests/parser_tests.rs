use monkey::lexer::lex;
use monkey::parser::Expr;
use monkey::parser::Operator;
use monkey::parser::ParseError;
use monkey::parser::Precedence;
use monkey::parser::Prefix;
use monkey::parser::Statement;
use monkey::parser::parse;

#[test]
fn parse_let() {
    let input = "let x = 5;";
    let tokens = lex(input).unwrap();
    let ast = parse(&tokens).unwrap();

    assert_eq!(
        vec![Statement::Let { name: String::from("x"), value: Expr::Const(5) }],
        ast
    );
}

#[test]
fn parse_return() {
    let input = "return 5;";
    let tokens = lex(input).unwrap();
    let ast = parse(&tokens).unwrap();

    assert_eq!(vec![Statement::Return { value: Expr::Const(5) }], ast);
}

#[test]
fn parse_let_ident() {
    let input = "let myVar = anotherV;";
    let tokens = lex(input).unwrap();
    let ast = parse(&tokens).unwrap();

    assert_eq!(
        vec![Statement::Let {
            name: String::from("myVar"),
            value: Expr::Ident(String::from("anotherV")),
        }],
        ast
    );
}

#[test]
fn parse_expression_statement() {
    let input = "foo;";
    let tokens = lex(input).unwrap();
    let ast = parse(&tokens).unwrap();

    assert_eq!(
        vec![Statement::Expression(Expr::Ident(String::from("foo")))],
        ast
    );
}

#[test]
fn parse_expression_statement_const() {
    let input = "5;";
    let tokens = lex(input).unwrap();
    let ast = parse(&tokens).unwrap();

    assert_eq!(vec![Statement::Expression(Expr::Const(5))], ast);
}

#[test]
fn parse_expression_statement_string() {
    let input = r#" "foo bar";"#;
    let tokens = lex(input).unwrap();
    let ast = parse(&tokens).unwrap();

    assert_eq!(
        vec![Statement::Expression(Expr::String(String::from("foo bar")))],
        ast
    );
}

#[test]
fn parse_prefix_expression() {
    let input = "!5; -15;";
    let tokens = lex(input).unwrap();
    let ast = parse(&tokens).unwrap();

    assert_eq!(
        vec![
            Statement::Expression(Expr::Prefix {
                prefix: Prefix::Bang,
                value: Box::new(Expr::Const(5)),
            }),
            Statement::Expression(Expr::Prefix {
                prefix: Prefix::Minus,
                value: Box::new(Expr::Const(15)),
            }),
        ],
        ast
    );
}

#[test]
fn precedence() {
    assert!(Precedence::Lowest < Precedence::Call);
}

#[test]
fn parse_infix_expressions() {
    let test_cases = vec![
        ("5 + 6;", Operator::Plus),
        ("5 - 6;", Operator::Minus),
        ("5 * 6;", Operator::Multiply),
        ("5 / 6;", Operator::Divide),
        ("5 > 6;", Operator::GreaterThan),
        ("5 < 6;", Operator::LessThan),
        ("5 == 6;", Operator::Equals),
        ("5 != 6;", Operator::NotEquals),
    ];

    for (input, operator) in test_cases {
        parse_infix_expression(input, operator);
    }
}

fn parse_infix_expression(input: &str, operator: Operator) {
    let tokens = lex(input).unwrap();
    let ast = parse(&tokens).unwrap();

    assert_eq!(
        vec![Statement::Expression(Expr::Infix {
            left: Box::new(Expr::Const(5)),
            operator,
            right: Box::new(Expr::Const(6)),
        })],
        ast
    );
}

#[test]
fn parse_infix_expression_order_of_operations() {
    let input = "-a * 6;";
    let tokens = lex(input).unwrap();
    let ast = parse(&tokens).unwrap();

    assert_eq!(
        vec![Statement::Expression(Expr::Infix {
            left: Box::new(Expr::Prefix {
                prefix: Prefix::Minus,
                value: Box::new(Expr::Ident(String::from("a"))),
            }),
            operator: Operator::Multiply,
            right: Box::new(Expr::Const(6)),
        })],
        ast
    );
}

#[test]
fn parse_bool() {
    let input = "!true == false;";
    let tokens = lex(input).unwrap();
    let ast = parse(&tokens).unwrap();

    assert_eq!(
        vec![Statement::Expression(Expr::Infix {
            left: Box::new(Expr::Prefix {
                prefix: Prefix::Bang,
                value: Box::new(Expr::Boolean(true)),
            }),
            operator: Operator::Equals,
            right: Box::new(Expr::Boolean(false)),
        })],
        ast
    );
}

#[test]
fn parse_paren() {
    let input = "1 + (2 + 3);";
    let tokens = lex(input).unwrap();
    let ast = parse(&tokens).unwrap();

    assert_eq!(
        vec![Statement::Expression(Expr::Infix {
            left: Box::new(Expr::Const(1)),
            operator: Operator::Plus,
            right: Box::new(Expr::Infix {
                left: Box::new(Expr::Const(2)),
                operator: Operator::Plus,
                right: Box::new(Expr::Const(3)),
            }),
        })],
        ast
    );
}

#[test]
fn parse_if() {
    let input = "if (5) { 6; };";
    let tokens = lex(input).unwrap();
    let ast = parse(&tokens).unwrap();

    assert_eq!(
        vec![Statement::Expression(Expr::If {
            condition: Box::new(Expr::Const(5)),
            consequence: vec![Statement::Expression(Expr::Const(6))],
            alternative: Vec::new(),
        })],
        ast
    );
}

#[test]
fn parse_if_else() {
    let input = "if (5) { 6; } else { 7; };";
    let tokens = lex(input).unwrap();
    let ast = parse(&tokens).unwrap();

    assert_eq!(
        vec![Statement::Expression(Expr::If {
            condition: Box::new(Expr::Const(5)),
            consequence: vec![Statement::Expression(Expr::Const(6))],
            alternative: vec![Statement::Expression(Expr::Const(7))],
        })],
        ast
    );
}

#[test]
fn parse_function_literal() {
    let input = "let myFunc = fn(x, y) {x + y;};";
    let tokens = lex(input).unwrap();
    let ast = parse(&tokens).unwrap();

    assert_eq!(
        vec![Statement::Let {
            name: String::from("myFunc"),
            value: Expr::Function {
                parameters: vec![String::from("x"), String::from("y")],
                body: vec![Statement::Expression(Expr::Infix {
                    left: Box::new(Expr::Ident(String::from("x"))),
                    operator: Operator::Plus,
                    right: Box::new(Expr::Ident(String::from("y"))),
                })],
            },
        }],
        ast
    );
}

#[test]
fn parse_function_call() {
    let input = "add(1, 2);";
    let tokens = lex(input).unwrap();
    let ast = parse(&tokens).unwrap();

    assert_eq!(
        vec![Statement::Expression(Expr::Call {
            function: Box::new(Expr::Ident(String::from("add"))),
            arguments: vec![Expr::Const(1), Expr::Const(2)],
        })],
        ast
    );
}

#[test]
fn parse_function_expression() {
    let input = "myFunc(x + y, a + b);";
    let tokens = lex(input).unwrap();
    let ast = parse(&tokens).unwrap();

    assert_eq!(
        vec![Statement::Expression(Expr::Call {
            function: Box::new(Expr::Ident(String::from("myFunc"))),
            arguments: vec![
                Expr::Infix {
                    left: Box::new(Expr::Ident(String::from("x"))),
                    operator: Operator::Plus,
                    right: Box::new(Expr::Ident(String::from("y"))),
                },
                Expr::Infix {
                    left: Box::new(Expr::Ident(String::from("a"))),
                    operator: Operator::Plus,
                    right: Box::new(Expr::Ident(String::from("b"))),
                },
            ],
        })],
        ast
    );
}

#[test]
fn parse_malformed_input_fails() {
    assert_eq!(Err(ParseError::UnexpectedToken), parse(&lex("let;").unwrap()));
    assert_eq!(Err(ParseError::UnexpectedToken), parse(&lex("1 +;").unwrap()));
    assert_eq!(Err(ParseError::UnexpectedToken), parse(&lex("(1;").unwrap()));
    assert_eq!(
        Err(ParseError::UnexpectedToken),
        parse(&lex("if (true) { 1;").unwrap())
    );
}
