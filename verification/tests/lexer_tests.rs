use monkey::lexer::Token;
use monkey::lexer::lex;

#[test]
fn lex_tokens() {
    let input = "=+(){},;";
    let tokens = lex(input);

    assert_eq!(
        vec![
            Token::ASSIGN,
            Token::PLUS,
            Token::LPAREN,
            Token::RPAREN,
            Token::LBRACE,
            Token::RBRACE,
            Token::COMMA,
            Token::SEMICOLON,
            Token::EOF,
        ],
        tokens.unwrap()
    );
}

#[test]
fn lex_let() {
    let input = "let five = 5;";
    let tokens = lex(input);

    assert_eq!(
        vec![
            Token::LET,
            Token::IDENT(String::from("five")),
            Token::ASSIGN,
            Token::INT(5),
            Token::SEMICOLON,
            Token::EOF,
        ],
        tokens.unwrap()
    );
}

#[test]
fn lex_let_ident_contains_keyword() {
    let input = "let letter = 5;";
    let tokens = lex(input);

    assert_eq!(
        vec![
            Token::LET,
            Token::IDENT(String::from("letter")),
            Token::ASSIGN,
            Token::INT(5),
            Token::SEMICOLON,
            Token::EOF,
        ],
        tokens.unwrap()
    );
}

#[test]
fn lex_ident_ending_with_semicolon() {
    let input = "let ten = 5 + five;";
    let tokens = lex(input);

    assert_eq!(
        vec![
            Token::LET,
            Token::IDENT(String::from("ten")),
            Token::ASSIGN,
            Token::INT(5),
            Token::PLUS,
            Token::IDENT(String::from("five")),
            Token::SEMICOLON,
            Token::EOF,
        ],
        tokens.unwrap()
    );
}

#[test]
fn lex_function() {
    let input = r#"
            let add = fn(x, y) {
              x + y;
            };
        "#;
    let tokens = lex(input);

    assert_eq!(
        vec![
            Token::LET,
            Token::IDENT(String::from("add")),
            Token::ASSIGN,
            Token::FUNCTION,
            Token::LPAREN,
            Token::IDENT(String::from("x")),
            Token::COMMA,
            Token::IDENT(String::from("y")),
            Token::RPAREN,
            Token::LBRACE,
            Token::IDENT(String::from("x")),
            Token::PLUS,
            Token::IDENT(String::from("y")),
            Token::SEMICOLON,
            Token::RBRACE,
            Token::SEMICOLON,
            Token::EOF,
        ],
        tokens.unwrap()
    );
}

#[test]
fn lex_function_call() {
    let input = "let result = add(five, ten);";
    let tokens = lex(input);

    assert_eq!(
        vec![
            Token::LET,
            Token::IDENT(String::from("result")),
            Token::ASSIGN,
            Token::IDENT(String::from("add")),
            Token::LPAREN,
            Token::IDENT(String::from("five")),
            Token::COMMA,
            Token::IDENT(String::from("ten")),
            Token::RPAREN,
            Token::SEMICOLON,
            Token::EOF,
        ],
        tokens.unwrap()
    );
}

#[test]
fn lex_additional_opeations() {
    let input = "- / * < > !";
    let tokens = lex(input);

    assert_eq!(
        vec![
            Token::MINUS,
            Token::SLASH,
            Token::ASTERISK,
            Token::LT,
            Token::GT,
            Token::BANG,
            Token::EOF,
        ],
        tokens.unwrap()
    );
}

#[test]
fn lex_additional_keywords() {
    let input = r#"
            if (x) {
                return true;
            } else {
                return false;
            }
        "#;
    let tokens = lex(input);

    assert_eq!(
        vec![
            Token::IF,
            Token::LPAREN,
            Token::IDENT(String::from("x")),
            Token::RPAREN,
            Token::LBRACE,
            Token::RETURN,
            Token::TRUE,
            Token::SEMICOLON,
            Token::RBRACE,
            Token::ELSE,
            Token::LBRACE,
            Token::RETURN,
            Token::FALSE,
            Token::SEMICOLON,
            Token::RBRACE,
            Token::EOF,
        ],
        tokens.unwrap()
    );
}

#[test]
fn lex_equal_not_equal() {
    let input = r#"
            10 == 10;
            10 != 9;
        "#;
    let tokens = lex(input);

    assert_eq!(
        vec![
            Token::INT(10),
            Token::EQ,
            Token::INT(10),
            Token::SEMICOLON,
            Token::INT(10),
            Token::NOT_EQ,
            Token::INT(9),
            Token::SEMICOLON,
            Token::EOF,
        ],
        tokens.unwrap()
    );
}

#[test]
fn lex_string() {
    let input = r#"let words = "foo bar";"#;
    let tokens = lex(input);

    assert_eq!(
        vec![
            Token::LET,
            Token::IDENT(String::from("words")),
            Token::ASSIGN,
            Token::STRING(String::from("foo bar")),
            Token::SEMICOLON,
            Token::EOF,
        ],
        tokens.unwrap()
    );
}

#[test]
fn lex_out_of_range_integer() {
    // 2147483648 does not fit a signed 32-bit literal
    assert_eq!(
        vec![Token::ERROR, Token::SEMICOLON, Token::EOF],
        lex("2147483648;").unwrap()
    );
    assert_eq!(vec![Token::INT(2147483647), Token::EOF], lex("2147483647").unwrap());
}

#[test]
fn lex_empty_input() {
    assert_eq!(vec![Token::EOF], lex("").unwrap());
}

#[test]
fn lex_unrecognized_character() {
    assert_eq!(vec![Token::ERROR, Token::EOF], lex("#").unwrap());
}

#[test]
fn lex_unterminated_string() {
    assert_eq!(
        vec![
            Token::ERROR,
            Token::IDENT(String::from("abc")),
            Token::EOF,
        ],
        lex("\"abc").unwrap()
    );
}
