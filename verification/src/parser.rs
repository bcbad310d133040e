//! Parser: turns the token sequence into an AST of statements and expressions,
//! with precedence-climbing expression parsing.
//!
//! Every parsing function is mirrored by a spec function over token views; the
//! executable parser is proved to return exactly what its mirror describes.
//! Malformed input is reported as a `ParseError` instead of being accepted.

use vstd::prelude::*;

use crate::lexer::Token;
use crate::lexer::TokenV;
use crate::lexer::view_token;
use crate::lexer::view_tokens;

verus! {

/// One statement of the language.
#[derive(Debug, PartialEq)]
pub enum Statement {
    Let { name: String, value: Expr },
    Return { value: Expr },
    Expression(Expr),
}

/// One expression of the language.
#[derive(Debug, PartialEq)]
pub enum Expr {
    Const(i32),
    String(String),
    Boolean(bool),
    Ident(String),
    Prefix { prefix: Prefix, value: Box<Expr> },
    Infix { left: Box<Expr>, operator: Operator, right: Box<Expr> },
    If { condition: Box<Expr>, consequence: Vec<Statement>, alternative: Vec<Statement> },
    Function { parameters: Vec<String>, body: Vec<Statement> },
    Call { function: Box<Expr>, arguments: Vec<Expr> },
}

/// A prefix operator.
#[derive(Debug, PartialEq, Eq, Structural, Clone, Copy)]
pub enum Prefix {
    Bang,
    Minus,
}

/// An infix operator.
#[derive(Debug, PartialEq, Eq, Structural, Clone, Copy)]
pub enum Operator {
    Plus,
    Minus,
    Multiply,
    Divide,
    GreaterThan,
    LessThan,
    Equals,
    NotEquals,
}

/// Binding strength of an infix position, weakest first.
#[derive(Debug, PartialEq, Eq, PartialOrd, Ord, Clone, Copy)]
pub enum Precedence {
    Lowest,
    Equals,
    LessGreater,
    Sum,
    Product,
    Prefix,
    Call,
}

/// The mathematical shape of a statement: text payloads as character
/// sequences, statement blocks as sequences.
pub ghost enum StatementV {
    Let { name: Seq<char>, value: ExprV },
    Return { value: ExprV },
    Expression(ExprV),
}

/// The mathematical shape of an expression.
pub ghost enum ExprV {
    Const(i32),
    Str(Seq<char>),
    Boolean(bool),
    Ident(Seq<char>),
    Prefix { prefix: Prefix, value: Box<ExprV> },
    Infix { left: Box<ExprV>, operator: Operator, right: Box<ExprV> },
    If { condition: Box<ExprV>, consequence: Seq<StatementV>, alternative: Seq<StatementV> },
    Function { parameters: Seq<Seq<char>>, body: Seq<StatementV> },
    Call { function: Box<ExprV>, arguments: Seq<ExprV> },
}

/// The mathematical value of an expression.
pub open spec fn view_expr(e: Expr) -> ExprV
    decreases e,
{
    match e {
        Expr::Const(n) => ExprV::Const(n),
        Expr::String(s) => ExprV::Str(s@),
        Expr::Boolean(b) => ExprV::Boolean(b),
        Expr::Ident(s) => ExprV::Ident(s@),
        Expr::Prefix { prefix, value } => ExprV::Prefix {
            prefix,
            value: Box::new(view_expr(*value)),
        },
        Expr::Infix { left, operator, right } => ExprV::Infix {
            left: Box::new(view_expr(*left)),
            operator,
            right: Box::new(view_expr(*right)),
        },
        Expr::If { condition, consequence, alternative } => ExprV::If {
            condition: Box::new(view_expr(*condition)),
            consequence: view_stmts(consequence@),
            alternative: view_stmts(alternative@),
        },
        Expr::Function { parameters, body } => ExprV::Function {
            parameters: view_strings(parameters@),
            body: view_stmts(body@),
        },
        Expr::Call { function, arguments } => ExprV::Call {
            function: Box::new(view_expr(*function)),
            arguments: view_exprs(arguments@),
        },
    }
}

/// The mathematical value of a name sequence.
pub open spec fn view_strings(ss: Seq<String>) -> Seq<Seq<char>> {
    Seq::new(ss.len(), |i: int| ss[i]@)
}

/// The mathematical value of a statement.
pub open spec fn view_stmt(s: Statement) -> StatementV
    decreases s,
{
    match s {
        Statement::Let { name, value } => StatementV::Let { name: name@, value: view_expr(value) },
        Statement::Return { value } => StatementV::Return { value: view_expr(value) },
        Statement::Expression(e) => StatementV::Expression(view_expr(e)),
    }
}

/// The mathematical value of a statement sequence.
pub open spec fn view_stmts(ss: Seq<Statement>) -> Seq<StatementV>
    decreases ss,
{
    if ss.len() == 0 {
        Seq::empty()
    } else {
        seq![view_stmt(ss[0])] + view_stmts(ss.drop_first())
    }
}

/// The mathematical value of an expression sequence.
pub open spec fn view_exprs(es: Seq<Expr>) -> Seq<ExprV>
    decreases es,
{
    if es.len() == 0 {
        Seq::empty()
    } else {
        seq![view_expr(es[0])] + view_exprs(es.drop_first())
    }
}

/// A statement sequence is viewed element by element.
pub proof fn lemma_view_stmts(ss: Seq<Statement>)
    ensures
        view_stmts(ss).len() == ss.len(),
        forall|i: int| 0 <= i < ss.len() ==> view_stmts(ss)[i] == view_stmt(ss[i]),
    decreases ss.len(),
{
    if ss.len() > 0 {
        lemma_view_stmts(ss.drop_first());
    }
}

/// An expression sequence is viewed element by element.
pub proof fn lemma_view_exprs(es: Seq<Expr>)
    ensures
        view_exprs(es).len() == es.len(),
        forall|i: int| 0 <= i < es.len() ==> view_exprs(es)[i] == view_expr(es[i]),
    decreases es.len(),
{
    if es.len() > 0 {
        lemma_view_exprs(es.drop_first());
    }
}

/// Copy of a name list.
pub(crate) fn dup_strings(ss: &Vec<String>) -> (r: Vec<String>)
    ensures
        r@ == ss@,
{
    let mut out: Vec<String> = Vec::new();
    let mut i: usize = 0;
    while i < ss.len()
        invariant
            i <= ss@.len(),
            out@.len() == i,
            forall|j: int| 0 <= j < i ==> out@[j] == ss@[j],
        decreases ss@.len() - i,
    {
        out.push(ss[i].clone());
        i = i + 1;
    }
    proof {
        assert(out@ =~= ss@);
    }
    out
}

/// Structure-preserving copy of an expression.
pub(crate) fn dup_expr(e: &Expr) -> (r: Expr)
    ensures
        view_expr(r) == view_expr(*e),
    decreases *e,
{
    match e {
        Expr::Const(n) => Expr::Const(*n),
        Expr::String(s) => Expr::String(s.clone()),
        Expr::Boolean(b) => Expr::Boolean(*b),
        Expr::Ident(s) => Expr::Ident(s.clone()),
        Expr::Prefix { prefix, value } => Expr::Prefix {
            prefix: *prefix,
            value: Box::new(dup_expr(&**value)),
        },
        Expr::Infix { left, operator, right } => Expr::Infix {
            left: Box::new(dup_expr(&**left)),
            operator: *operator,
            right: Box::new(dup_expr(&**right)),
        },
        Expr::If { condition, consequence, alternative } => Expr::If {
            condition: Box::new(dup_expr(&**condition)),
            consequence: dup_stmts(consequence),
            alternative: dup_stmts(alternative),
        },
        Expr::Function { parameters, body } => Expr::Function {
            parameters: dup_strings(parameters),
            body: dup_stmts(body),
        },
        Expr::Call { function, arguments } => Expr::Call {
            function: Box::new(dup_expr(&**function)),
            arguments: dup_exprs(arguments),
        },
    }
}

/// Structure-preserving copy of a statement.
pub(crate) fn dup_stmt(s: &Statement) -> (r: Statement)
    ensures
        view_stmt(r) == view_stmt(*s),
    decreases *s,
{
    match s {
        Statement::Let { name, value } => Statement::Let {
            name: name.clone(),
            value: dup_expr(value),
        },
        Statement::Return { value } => Statement::Return { value: dup_expr(value) },
        Statement::Expression(e) => Statement::Expression(dup_expr(e)),
    }
}

/// Structure-preserving copy of a statement list.
pub(crate) fn dup_stmts(ss: &Vec<Statement>) -> (r: Vec<Statement>)
    ensures
        view_stmts(r@) == view_stmts(ss@),
    decreases ss@,
{
    let mut out: Vec<Statement> = Vec::new();
    let mut i: usize = 0;
    while i < ss.len()
        invariant
            i <= ss@.len(),
            out@.len() == i,
            forall|j: int| 0 <= j < i ==> view_stmt(#[trigger] out@[j]) == view_stmt(ss@[j]),
        decreases ss@.len() - i,
    {
        let copy = dup_stmt(&ss[i]);
        out.push(copy);
        i = i + 1;
    }
    proof {
        lemma_view_stmts(out@);
        lemma_view_stmts(ss@);
        assert(view_stmts(out@) =~= view_stmts(ss@));
    }
    out
}

/// Structure-preserving copy of an expression list.
pub(crate) fn dup_exprs(es: &Vec<Expr>) -> (r: Vec<Expr>)
    ensures
        view_exprs(r@) == view_exprs(es@),
    decreases es@,
{
    let mut out: Vec<Expr> = Vec::new();
    let mut i: usize = 0;
    while i < es.len()
        invariant
            i <= es@.len(),
            out@.len() == i,
            forall|j: int| 0 <= j < i ==> view_expr(#[trigger] out@[j]) == view_expr(es@[j]),
        decreases es@.len() - i,
    {
        let copy = dup_expr(&es[i]);
        out.push(copy);
        i = i + 1;
    }
    proof {
        lemma_view_exprs(out@);
        lemma_view_exprs(es@);
        assert(view_exprs(out@) =~= view_exprs(es@));
    }
    out
}

impl Clone for Expr {
    /// A structure-preserving copy.
    fn clone(&self) -> (r: Expr)
        ensures
            view_expr(r) == view_expr(*self),
    {
        dup_expr(self)
    }
}

impl Clone for Statement {
    /// A structure-preserving copy.
    fn clone(&self) -> (r: Statement)
        ensures
            view_stmt(r) == view_stmt(*self),
    {
        dup_stmt(self)
    }
}

/// Why parsing stopped: the token at the point reported does not fit the
/// grammar.
#[derive(Debug, PartialEq, Eq, Structural, Clone, Copy)]
pub enum ParseError {
    UnexpectedToken,
}

/// Numeric rank of a binding strength, weakest = 0.
pub open spec fn spec_prec_rank(p: Precedence) -> int {
    match p {
        Precedence::Lowest => 0,
        Precedence::Equals => 1,
        Precedence::LessGreater => 2,
        Precedence::Sum => 3,
        Precedence::Product => 4,
        Precedence::Prefix => 5,
        Precedence::Call => 6,
    }
}

/// The binding strength a token has when seen in infix position.
pub open spec fn spec_precedence(t: TokenV) -> int {
    match t {
        TokenV::PLUS => 3,
        TokenV::MINUS => 3,
        TokenV::SLASH => 4,
        TokenV::ASTERISK => 4,
        TokenV::LT => 2,
        TokenV::GT => 2,
        TokenV::EQ => 1,
        TokenV::NOT_EQ => 1,
        _ => 0,
    }
}

/// The infix operator a token stands for, if any.
pub open spec fn spec_infix_operator(t: TokenV) -> Option<Operator> {
    match t {
        TokenV::PLUS => Some(Operator::Plus),
        TokenV::MINUS => Some(Operator::Minus),
        TokenV::SLASH => Some(Operator::Divide),
        TokenV::ASTERISK => Some(Operator::Multiply),
        TokenV::LT => Some(Operator::LessThan),
        TokenV::GT => Some(Operator::GreaterThan),
        TokenV::EQ => Some(Operator::Equals),
        TokenV::NOT_EQ => Some(Operator::NotEquals),
        _ => None,
    }
}

/// Statements from `pos` up to a closing brace or the end of input.
///
/// Returns the statements together with the position of the `EOF` or `RBRACE`
/// token that stopped the run (which is not consumed).
pub open spec fn spec_parse_program(ts: Seq<TokenV>, pos: int) -> Result<
    (Seq<StatementV>, int),
    ParseError,
>
    decreases ts.len() - pos, 5int,
{
    if pos < 0 || pos >= ts.len() {
        Err(ParseError::UnexpectedToken)
    } else {
        match ts[pos] {
            TokenV::EOF => Ok((Seq::empty(), pos)),
            TokenV::RBRACE => Ok((Seq::empty(), pos)),
            _ => {
                let head = match ts[pos] {
                    TokenV::LET => spec_parse_let(ts, pos),
                    TokenV::RETURN => spec_parse_return(ts, pos),
                    _ => match spec_parse_expression(ts, pos, 0) {
                        Ok((e, p)) => Ok((StatementV::Expression(e), p)),
                        Err(err) => Err(err),
                    },
                };
                match head {
                    Ok((stmt, p)) => if pos < p && p < ts.len() && ts[p] == TokenV::SEMICOLON {
                        match spec_parse_program(ts, p + 1) {
                            Ok((rest, pend)) => Ok((seq![stmt] + rest, pend)),
                            Err(err) => Err(err),
                        }
                    } else {
                        Err(ParseError::UnexpectedToken)
                    },
                    Err(err) => Err(err),
                }
            },
        }
    }
}

/// A `let name = expr` statement starting at `pos`.
pub open spec fn spec_parse_let(ts: Seq<TokenV>, pos: int) -> Result<(StatementV, int), ParseError>
    decreases ts.len() - pos, 4int,
{
    if 0 <= pos && pos + 2 < ts.len() && ts[pos] == TokenV::LET {
        match ts[pos + 1] {
            TokenV::IDENT(name) => if ts[pos + 2] == TokenV::ASSIGN {
                match spec_parse_expression(ts, pos + 3, 0) {
                    Ok((value, p)) => Ok((StatementV::Let { name, value }, p)),
                    Err(err) => Err(err),
                }
            } else {
                Err(ParseError::UnexpectedToken)
            },
            _ => Err(ParseError::UnexpectedToken),
        }
    } else {
        Err(ParseError::UnexpectedToken)
    }
}

/// A `return expr` statement starting at `pos`.
pub open spec fn spec_parse_return(ts: Seq<TokenV>, pos: int) -> Result<
    (StatementV, int),
    ParseError,
>
    decreases ts.len() - pos, 4int,
{
    if 0 <= pos && pos < ts.len() && ts[pos] == TokenV::RETURN {
        match spec_parse_expression(ts, pos + 1, 0) {
            Ok((value, p)) => Ok((StatementV::Return { value }, p)),
            Err(err) => Err(err),
        }
    } else {
        Err(ParseError::UnexpectedToken)
    }
}

/// An expression starting at `pos`, climbing while the next token binds more
/// strongly than `prec`.
pub open spec fn spec_parse_expression(ts: Seq<TokenV>, pos: int, prec: int) -> Result<
    (ExprV, int),
    ParseError,
>
    decreases ts.len() - pos, 3int,
{
    if pos < 0 || pos >= ts.len() {
        Err(ParseError::UnexpectedToken)
    } else {
        match spec_parse_base(ts, pos) {
            Ok((left, p)) => if pos < p && p <= ts.len() {
                spec_parse_infix_climb(ts, p, left, prec)
            } else {
                Err(ParseError::UnexpectedToken)
            },
            Err(err) => Err(err),
        }
    }
}

/// The leftmost operand at `pos`: a literal, identifier, call, prefix or
/// parenthesized expression, conditional, or function literal.
pub open spec fn spec_parse_base(ts: Seq<TokenV>, pos: int) -> Result<(ExprV, int), ParseError>
    decreases ts.len() - pos, 2int,
{
    if pos < 0 || pos >= ts.len() {
        Err(ParseError::UnexpectedToken)
    } else {
        match ts[pos] {
            TokenV::INT(v) => Ok((ExprV::Const(v), pos + 1)),
            TokenV::TRUE => Ok((ExprV::Boolean(true), pos + 1)),
            TokenV::FALSE => Ok((ExprV::Boolean(false), pos + 1)),
            TokenV::STRING(s) => Ok((ExprV::Str(s), pos + 1)),
            TokenV::IDENT(name) => if pos + 1 < ts.len() && ts[pos + 1] == TokenV::LPAREN {
                match spec_parse_call_args(ts, pos + 2) {
                    Ok((args, p)) => Ok(
                        (
                            ExprV::Call {
                                function: Box::new(ExprV::Ident(name)),
                                arguments: args,
                            },
                            p,
                        ),
                    ),
                    Err(err) => Err(err),
                }
            } else {
                Ok((ExprV::Ident(name), pos + 1))
            },
            TokenV::BANG => match spec_parse_expression(ts, pos + 1, 5) {
                Ok((value, p)) => Ok(
                    (ExprV::Prefix { prefix: Prefix::Bang, value: Box::new(value) }, p),
                ),
                Err(err) => Err(err),
            },
            TokenV::MINUS => match spec_parse_expression(ts, pos + 1, 5) {
                Ok((value, p)) => Ok(
                    (ExprV::Prefix { prefix: Prefix::Minus, value: Box::new(value) }, p),
                ),
                Err(err) => Err(err),
            },
            TokenV::LPAREN => match spec_parse_expression(ts, pos + 1, 0) {
                Ok((e, p)) => if pos < p && p < ts.len() && ts[p] == TokenV::RPAREN {
                    Ok((e, p + 1))
                } else {
                    Err(ParseError::UnexpectedToken)
                },
                Err(err) => Err(err),
            },
            TokenV::IF => spec_parse_if(ts, pos),
            TokenV::FUNCTION => if pos + 1 < ts.len() && ts[pos + 1] == TokenV::LPAREN {
                match spec_parse_params(ts, pos + 2) {
                    Ok((params, p)) => if pos < p && p < ts.len() && ts[p] == TokenV::LBRACE {
                        match spec_parse_program(ts, p + 1) {
                            Ok((body, p2)) => if p < p2 + 1 && p2 < ts.len() && ts[p2]
                                == TokenV::RBRACE {
                                Ok((ExprV::Function { parameters: params, body }, p2 + 1))
                            } else {
                                Err(ParseError::UnexpectedToken)
                            },
                            Err(err) => Err(err),
                        }
                    } else {
                        Err(ParseError::UnexpectedToken)
                    },
                    Err(err) => Err(err),
                }
            } else {
                Err(ParseError::UnexpectedToken)
            },
            _ => Err(ParseError::UnexpectedToken),
        }
    }
}

/// An `if (cond) { ... } [else { ... }]` expression starting at `pos`.
pub open spec fn spec_parse_if(ts: Seq<TokenV>, pos: int) -> Result<(ExprV, int), ParseError>
    decreases ts.len() - pos, 1int,
{
    if 0 <= pos && pos + 1 < ts.len() && ts[pos] == TokenV::IF && ts[pos + 1] == TokenV::LPAREN {
        match spec_parse_expression(ts, pos + 2, 0) {
            Ok((cond, p)) => if pos + 2 < p && p + 1 < ts.len() && ts[p] == TokenV::RPAREN && ts[p
                + 1] == TokenV::LBRACE {
                match spec_parse_program(ts, p + 2) {
                    Ok((cons, p2)) => if p + 2 <= p2 && p2 < ts.len() && ts[p2] == TokenV::RBRACE {
                        if p2 + 1 < ts.len() && ts[p2 + 1] == TokenV::ELSE {
                            if p2 + 2 < ts.len() && ts[p2 + 2] == TokenV::LBRACE {
                                match spec_parse_program(ts, p2 + 3) {
                                    Ok((alt, p3)) => if p2 + 3 <= p3 && p3 < ts.len() && ts[p3]
                                        == TokenV::RBRACE {
                                        Ok(
                                            (
                                                ExprV::If {
                                                    condition: Box::new(cond),
                                                    consequence: cons,
                                                    alternative: alt,
                                                },
                                                p3 + 1,
                                            ),
                                        )
                                    } else {
                                        Err(ParseError::UnexpectedToken)
                                    },
                                    Err(err) => Err(err),
                                }
                            } else {
                                Err(ParseError::UnexpectedToken)
                            }
                        } else {
                            Ok(
                                (
                                    ExprV::If {
                                        condition: Box::new(cond),
                                        consequence: cons,
                                        alternative: Seq::empty(),
                                    },
                                    p2 + 1,
                                ),
                            )
                        }
                    } else {
                        Err(ParseError::UnexpectedToken)
                    },
                    Err(err) => Err(err),
                }
            } else {
                Err(ParseError::UnexpectedToken)
            },
            Err(err) => Err(err),
        }
    } else {
        Err(ParseError::UnexpectedToken)
    }
}

/// One infix step: the operator at `pos`, then its right operand.
pub open spec fn spec_parse_infix(ts: Seq<TokenV>, pos: int, left: ExprV) -> Result<
    (ExprV, int),
    ParseError,
>
    decreases ts.len() - pos, 1int,
{
    if pos < 0 || pos >= ts.len() {
        Err(ParseError::UnexpectedToken)
    } else {
        match spec_infix_operator(ts[pos]) {
            Some(operator) => match spec_parse_expression(ts, pos + 1, spec_precedence(ts[pos])) {
                Ok((right, p)) => Ok(
                    (
                        ExprV::Infix {
                            left: Box::new(left),
                            operator,
                            right: Box::new(right),
                        },
                        p,
                    ),
                ),
                Err(err) => Err(err),
            },
            None => Err(ParseError::UnexpectedToken),
        }
    }
}

/// Fold infix steps onto `left` while the next token binds more strongly than
/// `prec`.
pub open spec fn spec_parse_infix_climb(ts: Seq<TokenV>, pos: int, left: ExprV, prec: int) -> Result<
    (ExprV, int),
    ParseError,
>
    decreases ts.len() - pos, 4int,
{
    if pos < 0 || pos >= ts.len() {
        Ok((left, pos))
    } else if prec < spec_precedence(ts[pos]) {
        match spec_parse_infix(ts, pos, left) {
            Ok((next, p)) => if pos < p && p <= ts.len() {
                spec_parse_infix_climb(ts, p, next, prec)
            } else {
                Err(ParseError::UnexpectedToken)
            },
            Err(err) => Err(err),
        }
    } else {
        Ok((left, pos))
    }
}

/// Call arguments from `pos` up to and beyond the closing parenthesis.
pub open spec fn spec_parse_call_args(ts: Seq<TokenV>, pos: int) -> Result<
    (Seq<ExprV>, int),
    ParseError,
>
    decreases ts.len() - pos, 4int,
{
    if pos < 0 || pos >= ts.len() {
        Err(ParseError::UnexpectedToken)
    } else if ts[pos] == TokenV::RPAREN {
        Ok((Seq::empty(), pos + 1))
    } else {
        match spec_parse_expression(ts, pos, 0) {
            Ok((arg, p)) => if pos < p && p < ts.len() {
                match ts[p] {
                    TokenV::RPAREN => Ok((seq![arg], p + 1)),
                    TokenV::COMMA => match spec_parse_call_args(ts, p + 1) {
                        Ok((rest, pend)) => Ok((seq![arg] + rest, pend)),
                        Err(err) => Err(err),
                    },
                    _ => Err(ParseError::UnexpectedToken),
                }
            } else {
                Err(ParseError::UnexpectedToken)
            },
            Err(err) => Err(err),
        }
    }
}

/// Parameter names from `pos` up to and beyond the closing parenthesis.
pub open spec fn spec_parse_params(ts: Seq<TokenV>, pos: int) -> Result<
    (Seq<Seq<char>>, int),
    ParseError,
>
    decreases ts.len() - pos, 0int,
{
    if pos < 0 || pos >= ts.len() {
        Err(ParseError::UnexpectedToken)
    } else {
        match ts[pos] {
            TokenV::RPAREN => Ok((Seq::empty(), pos + 1)),
            TokenV::IDENT(name) => if pos + 1 < ts.len() {
                match ts[pos + 1] {
                    TokenV::RPAREN => Ok((seq![name], pos + 2)),
                    TokenV::COMMA => match spec_parse_params(ts, pos + 2) {
                        Ok((rest, pend)) => Ok((seq![name] + rest, pend)),
                        Err(err) => Err(err),
                    },
                    _ => Err(ParseError::UnexpectedToken),
                }
            } else {
                Err(ParseError::UnexpectedToken)
            },
            _ => Err(ParseError::UnexpectedToken),
        }
    }
}

impl Token {
    /// Binding strength this token has when seen in infix position.
    pub fn precedence(&self) -> (p: Precedence)
        ensures
            spec_prec_rank(p) == spec_precedence(view_token(*self)),
    {
        match self {
            Token::PLUS => Precedence::Sum,
            Token::MINUS => Precedence::Sum,
            Token::SLASH => Precedence::Product,
            Token::ASTERISK => Precedence::Product,
            Token::LT => Precedence::LessGreater,
            Token::GT => Precedence::LessGreater,
            Token::EQ => Precedence::Equals,
            Token::NOT_EQ => Precedence::Equals,
            _ => Precedence::Lowest,
        }
    }
}

fn prec_rank(p: Precedence) -> (r: u8)
    ensures
        r as int == spec_prec_rank(p),
{
    match p {
        Precedence::Lowest => 0,
        Precedence::Equals => 1,
        Precedence::LessGreater => 2,
        Precedence::Sum => 3,
        Precedence::Product => 4,
        Precedence::Prefix => 5,
        Precedence::Call => 6,
    }
}

/// Parse a whole program: statements up to the end of input or a stray
/// closing brace, as `spec_parse_program` describes from position 0.
pub fn parse(input: &Vec<Token>) -> (r: Result<Vec<Statement>, ParseError>)
    ensures
        (match spec_parse_program(view_tokens(input@), 0) {
            Ok(sp) => r matches Ok(ss) && view_stmts(ss@) == sp.0,
            Err(e) => r == Err::<Vec<Statement>, ParseError>(e),
        }),
{
    match parse_program(input, 0) {
        Ok((stmts, _)) => Ok(stmts),
        Err(e) => Err(e),
    }
}

fn parse_program(ts: &Vec<Token>, pos: usize) -> (r: Result<(Vec<Statement>, usize), ParseError>)
    ensures
        (match spec_parse_program(view_tokens(ts@), pos as int) {
            Ok(sp) => r matches Ok(rp) && view_stmts(rp.0@) == sp.0 && rp.1 == sp.1 && pos <= rp.1
                < ts@.len(),
            Err(e) => r == Err::<(Vec<Statement>, usize), ParseError>(e),
        }),
    decreases ts@.len() - pos, 5int,
{
    if pos >= ts.len() {
        return Err(ParseError::UnexpectedToken);
    }
    let head: Result<(Statement, usize), ParseError> = match &ts[pos] {
        Token::EOF => {
            let empty: Vec<Statement> = Vec::new();
            proof {
                assert(view_stmts(empty@) =~= Seq::<StatementV>::empty());
            }
            return Ok((empty, pos));
        },
        Token::RBRACE => {
            let empty: Vec<Statement> = Vec::new();
            proof {
                assert(view_stmts(empty@) =~= Seq::<StatementV>::empty());
            }
            return Ok((empty, pos));
        },
        Token::LET => parse_let(ts, pos),
        Token::RETURN => parse_return(ts, pos),
        _ => match parse_expression(ts, pos, Precedence::Lowest) {
            Ok((e, p)) => Ok((Statement::Expression(e), p)),
            Err(err) => Err(err),
        },
    };
    match head {
        Ok((stmt, p)) => {
            if p < ts.len() {
                let is_semi = match &ts[p] {
                    Token::SEMICOLON => true,
                    _ => false,
                };
                if is_semi {
                    match parse_program(ts, p + 1) {
                        Ok((rest, pend)) => {
                            let mut out = rest;
                            let ghost rest_view = out@;
                            out.insert(0, stmt);
                            proof {
                                lemma_view_stmts(out@);
                                lemma_view_stmts(rest_view);
                                assert(view_stmts(out@) =~= seq![view_stmt(stmt)] + view_stmts(
                                    rest_view,
                                ));
                            }
                            Ok((out, pend))
                        },
                        Err(err) => Err(err),
                    }
                } else {
                    Err(ParseError::UnexpectedToken)
                }
            } else {
                Err(ParseError::UnexpectedToken)
            }
        },
        Err(err) => Err(err),
    }
}

fn parse_let(ts: &Vec<Token>, pos: usize) -> (r: Result<(Statement, usize), ParseError>)
    ensures
        (match spec_parse_let(view_tokens(ts@), pos as int) {
            Ok(sp) => r matches Ok(rp) && view_stmt(rp.0) == sp.0 && rp.1 == sp.1 && pos < rp.1
                <= ts@.len(),
            Err(e) => r == Err::<(Statement, usize), ParseError>(e),
        }),
    decreases ts@.len() - pos, 4int,
{
    if pos >= ts.len() {
        return Err(ParseError::UnexpectedToken);
    }
    let is_let = match &ts[pos] {
        Token::LET => true,
        _ => false,
    };
    if !is_let {
        return Err(ParseError::UnexpectedToken);
    }
    if pos + 1 >= ts.len() {
        return Err(ParseError::UnexpectedToken);
    }
    if pos + 2 >= ts.len() {
        return Err(ParseError::UnexpectedToken);
    }
    match &ts[pos + 1] {
        Token::IDENT(name) => {
            let is_assign = match &ts[pos + 2] {
                Token::ASSIGN => true,
                _ => false,
            };
            if is_assign {
                match parse_expression(ts, pos + 3, Precedence::Lowest) {
                    Ok((value, p)) => Ok((Statement::Let { name: name.clone(), value }, p)),
                    Err(err) => Err(err),
                }
            } else {
                Err(ParseError::UnexpectedToken)
            }
        },
        _ => Err(ParseError::UnexpectedToken),
    }
}

fn parse_return(ts: &Vec<Token>, pos: usize) -> (r: Result<(Statement, usize), ParseError>)
    ensures
        (match spec_parse_return(view_tokens(ts@), pos as int) {
            Ok(sp) => r matches Ok(rp) && view_stmt(rp.0) == sp.0 && rp.1 == sp.1 && pos < rp.1
                <= ts@.len(),
            Err(e) => r == Err::<(Statement, usize), ParseError>(e),
        }),
    decreases ts@.len() - pos, 4int,
{
    if pos >= ts.len() {
        return Err(ParseError::UnexpectedToken);
    }
    let is_return = match &ts[pos] {
        Token::RETURN => true,
        _ => false,
    };
    if !is_return {
        return Err(ParseError::UnexpectedToken);
    }
    match parse_expression(ts, pos + 1, Precedence::Lowest) {
        Ok((value, p)) => Ok((Statement::Return { value }, p)),
        Err(err) => Err(err),
    }
}

fn parse_expression(ts: &Vec<Token>, pos: usize, precedence: Precedence) -> (r: Result<
    (Expr, usize),
    ParseError,
>)
    ensures
        (match spec_parse_expression(view_tokens(ts@), pos as int, spec_prec_rank(precedence)) {
            Ok(sp) => r matches Ok(rp) && view_expr(rp.0) == sp.0 && rp.1 == sp.1 && pos < rp.1
                <= ts@.len(),
            Err(e) => r == Err::<(Expr, usize), ParseError>(e),
        }),
    decreases ts@.len() - pos, 3int,
{
    if pos >= ts.len() {
        return Err(ParseError::UnexpectedToken);
    }
    let base = parse_base(ts, pos);
    let (mut left, mut p): (Expr, usize) = match base {
        Ok(bp) => bp,
        Err(err) => {
            return Err(err);
        },
    };
    let my_rank = prec_rank(precedence);
    proof {
        assert(spec_parse_expression(
            view_tokens(ts@),
            pos as int,
            spec_prec_rank(precedence),
        ) == spec_parse_infix_climb(
            view_tokens(ts@),
            p as int,
            view_expr(left),
            spec_prec_rank(precedence),
        ));
    }
    while p < ts.len() && my_rank < prec_rank(ts[p].precedence())
        invariant
            pos < p <= ts@.len(),
            my_rank as int == spec_prec_rank(precedence),
            spec_parse_expression(view_tokens(ts@), pos as int, spec_prec_rank(precedence))
                == spec_parse_infix_climb(
                view_tokens(ts@),
                p as int,
                view_expr(left),
                spec_prec_rank(precedence),
            ),
        decreases ts@.len() - p,
    {
        match parse_infix(left, ts, p) {
            Ok((next, np)) => {
                left = next;
                p = np;
            },
            Err(err) => {
                return Err(err);
            },
        }
    }
    Ok((left, p))
}

fn parse_base(ts: &Vec<Token>, pos: usize) -> (r: Result<(Expr, usize), ParseError>)
    ensures
        (match spec_parse_base(view_tokens(ts@), pos as int) {
            Ok(sp) => r matches Ok(rp) && view_expr(rp.0) == sp.0 && rp.1 == sp.1 && pos < rp.1
                <= ts@.len(),
            Err(e) => r == Err::<(Expr, usize), ParseError>(e),
        }),
    decreases ts@.len() - pos, 2int,
{
    if pos >= ts.len() {
        return Err(ParseError::UnexpectedToken);
    }
    match &ts[pos] {
        Token::INT(v) => Ok((Expr::Const(*v), pos + 1)),
        Token::TRUE => Ok((Expr::Boolean(true), pos + 1)),
        Token::FALSE => Ok((Expr::Boolean(false), pos + 1)),
        Token::STRING(s) => Ok((Expr::String(s.clone()), pos + 1)),
        Token::IDENT(name) => {
            let call_follows = pos + 1 < ts.len() && (match &ts[pos + 1] {
                Token::LPAREN => true,
                _ => false,
            });
            if call_follows {
                match parse_call_args(ts, pos + 2) {
                    Ok((args, p)) => {
                        let callee = Expr::Ident(name.clone());
                        proof {
                            assert(view_expr(callee) == ExprV::Ident(name@));
                        }
                        Ok(
                            (
                                Expr::Call { function: Box::new(callee), arguments: args },
                                p,
                            ),
                        )
                    },
                    Err(err) => Err(err),
                }
            } else {
                Ok((Expr::Ident(name.clone()), pos + 1))
            }
        },
        Token::BANG => match parse_expression(ts, pos + 1, Precedence::Prefix) {
            Ok((value, p)) => Ok(
                (Expr::Prefix { prefix: Prefix::Bang, value: Box::new(value) }, p),
            ),
            Err(err) => Err(err),
        },
        Token::MINUS => match parse_expression(ts, pos + 1, Precedence::Prefix) {
            Ok((value, p)) => Ok(
                (Expr::Prefix { prefix: Prefix::Minus, value: Box::new(value) }, p),
            ),
            Err(err) => Err(err),
        },
        Token::LPAREN => match parse_expression(ts, pos + 1, Precedence::Lowest) {
            Ok((e, p)) => {
                let is_rparen = p < ts.len() && (match &ts[p] {
                    Token::RPAREN => true,
                    _ => false,
                });
                if is_rparen {
                    Ok((e, p + 1))
                } else {
                    Err(ParseError::UnexpectedToken)
                }
            },
            Err(err) => Err(err),
        },
        Token::IF => parse_if(ts, pos),
        Token::FUNCTION => {
            let lparen_follows = pos + 1 < ts.len() && (match &ts[pos + 1] {
                Token::LPAREN => true,
                _ => false,
            });
            if lparen_follows {
                match parse_params(ts, pos + 2) {
                    Ok((params, p)) => {
                        let is_lbrace = p < ts.len() && (match &ts[p] {
                            Token::LBRACE => true,
                            _ => false,
                        });
                        if is_lbrace {
                            match parse_program(ts, p + 1) {
                                Ok((body, p2)) => {
                                    let is_rbrace = p2 < ts.len() && (match &ts[p2] {
                                        Token::RBRACE => true,
                                        _ => false,
                                    });
                                    if is_rbrace {
                                        Ok(
                                            (
                                                Expr::Function { parameters: params, body },
                                                p2 + 1,
                                            ),
                                        )
                                    } else {
                                        Err(ParseError::UnexpectedToken)
                                    }
                                },
                                Err(err) => Err(err),
                            }
                        } else {
                            Err(ParseError::UnexpectedToken)
                        }
                    },
                    Err(err) => Err(err),
                }
            } else {
                Err(ParseError::UnexpectedToken)
            }
        },
        _ => Err(ParseError::UnexpectedToken),
    }
}

fn parse_if(ts: &Vec<Token>, pos: usize) -> (r: Result<(Expr, usize), ParseError>)
    ensures
        (match spec_parse_if(view_tokens(ts@), pos as int) {
            Ok(sp) => r matches Ok(rp) && view_expr(rp.0) == sp.0 && rp.1 == sp.1 && pos < rp.1
                <= ts@.len(),
            Err(e) => r == Err::<(Expr, usize), ParseError>(e),
        }),
    decreases ts@.len() - pos, 1int,
{
    if pos >= ts.len() {
        return Err(ParseError::UnexpectedToken);
    }
    let heads_match = pos + 1 < ts.len() && (match &ts[pos] {
        Token::IF => true,
        _ => false,
    }) && (match &ts[pos + 1] {
        Token::LPAREN => true,
        _ => false,
    });
    if !heads_match {
        return Err(ParseError::UnexpectedToken);
    }
    let (cond, p) = match parse_expression(ts, pos + 2, Precedence::Lowest) {
        Ok(cp) => cp,
        Err(err) => {
            return Err(err);
        },
    };
    let closed = p < ts.len() && p + 1 < ts.len() && (match &ts[p] {
        Token::RPAREN => true,
        _ => false,
    }) && (match &ts[p + 1] {
        Token::LBRACE => true,
        _ => false,
    });
    if !closed {
        return Err(ParseError::UnexpectedToken);
    }
    let (cons, p2) = match parse_program(ts, p + 2) {
        Ok(cp) => cp,
        Err(err) => {
            return Err(err);
        },
    };
    let cons_closed = p2 < ts.len() && (match &ts[p2] {
        Token::RBRACE => true,
        _ => false,
    });
    if !cons_closed {
        return Err(ParseError::UnexpectedToken);
    }
    let has_else = p2 + 1 < ts.len() && (match &ts[p2 + 1] {
        Token::ELSE => true,
        _ => false,
    });
    if has_else {
        let else_open = p2 + 2 < ts.len() && (match &ts[p2 + 2] {
            Token::LBRACE => true,
            _ => false,
        });
        if !else_open {
            return Err(ParseError::UnexpectedToken);
        }
        let (alt, p3) = match parse_program(ts, p2 + 3) {
            Ok(ap) => ap,
            Err(err) => {
                return Err(err);
            },
        };
        let alt_closed = p3 < ts.len() && (match &ts[p3] {
            Token::RBRACE => true,
            _ => false,
        });
        if !alt_closed {
            return Err(ParseError::UnexpectedToken);
        }
        Ok(
            (
                Expr::If { condition: Box::new(cond), consequence: cons, alternative: alt },
                p3 + 1,
            ),
        )
    } else {
        let alt: Vec<Statement> = Vec::new();
        proof {
            assert(view_stmts(alt@) =~= Seq::<StatementV>::empty());
        }
        Ok(
            (
                Expr::If { condition: Box::new(cond), consequence: cons, alternative: alt },
                p2 + 1,
            ),
        )
    }
}

fn parse_infix(left: Expr, ts: &Vec<Token>, pos: usize) -> (r: Result<(Expr, usize), ParseError>)
    ensures
        (match spec_parse_infix(view_tokens(ts@), pos as int, view_expr(left)) {
            Ok(sp) => r matches Ok(rp) && view_expr(rp.0) == sp.0 && rp.1 == sp.1 && pos < rp.1
                <= ts@.len(),
            Err(e) => r == Err::<(Expr, usize), ParseError>(e),
        }),
    decreases ts@.len() - pos, 1int,
{
    if pos >= ts.len() {
        return Err(ParseError::UnexpectedToken);
    }
    let operator = match &ts[pos] {
        Token::PLUS => Operator::Plus,
        Token::MINUS => Operator::Minus,
        Token::SLASH => Operator::Divide,
        Token::ASTERISK => Operator::Multiply,
        Token::LT => Operator::LessThan,
        Token::GT => Operator::GreaterThan,
        Token::EQ => Operator::Equals,
        Token::NOT_EQ => Operator::NotEquals,
        _ => {
            return Err(ParseError::UnexpectedToken);
        },
    };
    let next_prec = ts[pos].precedence();
    match parse_expression(ts, pos + 1, next_prec) {
        Ok((right, p)) => Ok(
            (
                Expr::Infix { left: Box::new(left), operator, right: Box::new(right) },
                p,
            ),
        ),
        Err(err) => Err(err),
    }
}

fn parse_call_args(ts: &Vec<Token>, pos: usize) -> (r: Result<(Vec<Expr>, usize), ParseError>)
    ensures
        (match spec_parse_call_args(view_tokens(ts@), pos as int) {
            Ok(sp) => r matches Ok(rp) && view_exprs(rp.0@) == sp.0 && rp.1 == sp.1 && pos < rp.1
                <= ts@.len(),
            Err(e) => r == Err::<(Vec<Expr>, usize), ParseError>(e),
        }),
    decreases ts@.len() - pos, 4int,
{
    if pos >= ts.len() {
        return Err(ParseError::UnexpectedToken);
    }
    let at_rparen = match &ts[pos] {
        Token::RPAREN => true,
        _ => false,
    };
    if at_rparen {
        let empty: Vec<Expr> = Vec::new();
        proof {
            assert(view_exprs(empty@) =~= Seq::<ExprV>::empty());
        }
        return Ok((empty, pos + 1));
    }
    let (arg, p) = match parse_expression(ts, pos, Precedence::Lowest) {
        Ok(ap) => ap,
        Err(err) => {
            return Err(err);
        },
    };
    if p >= ts.len() {
        return Err(ParseError::UnexpectedToken);
    }
    match &ts[p] {
        Token::RPAREN => {
            let mut out: Vec<Expr> = Vec::new();
            out.push(arg);
            proof {
                lemma_view_exprs(out@);
                assert(view_exprs(out@) =~= seq![view_expr(arg)]);
            }
            Ok((out, p + 1))
        },
        Token::COMMA => match parse_call_args(ts, p + 1) {
            Ok((rest, pend)) => {
                let mut out = rest;
                let ghost rest_view = out@;
                out.insert(0, arg);
                proof {
                    lemma_view_exprs(out@);
                    lemma_view_exprs(rest_view);
                    assert(view_exprs(out@) =~= seq![view_expr(arg)] + view_exprs(rest_view));
                }
                Ok((out, pend))
            },
            Err(err) => Err(err),
        },
        _ => Err(ParseError::UnexpectedToken),
    }
}

fn parse_params(ts: &Vec<Token>, pos: usize) -> (r: Result<(Vec<String>, usize), ParseError>)
    ensures
        (match spec_parse_params(view_tokens(ts@), pos as int) {
            Ok(sp) => r matches Ok(rp) && view_strings(rp.0@) == sp.0 && rp.1 == sp.1 && pos < rp.1
                <= ts@.len(),
            Err(e) => r == Err::<(Vec<String>, usize), ParseError>(e),
        }),
    decreases ts@.len() - pos, 0int,
{
    if pos >= ts.len() {
        return Err(ParseError::UnexpectedToken);
    }
    match &ts[pos] {
        Token::RPAREN => {
            let empty: Vec<String> = Vec::new();
            proof {
                assert(view_strings(empty@) =~= Seq::<Seq<char>>::empty());
            }
            Ok((empty, pos + 1))
        },
        Token::IDENT(name) => {
            if pos + 1 >= ts.len() {
                return Err(ParseError::UnexpectedToken);
            }
            match &ts[pos + 1] {
                Token::RPAREN => {
                    let mut out: Vec<String> = Vec::new();
                    out.push(name.clone());
                    proof {
                        assert(view_strings(out@) =~= seq![name@]);
                    }
                    Ok((out, pos + 2))
                },
                Token::COMMA => match parse_params(ts, pos + 2) {
                    Ok((rest, pend)) => {
                        let mut out = rest;
                        let ghost rest_view = out@;
                        out.insert(0, name.clone());
                        proof {
                            assert(view_strings(out@) =~= seq![name@] + view_strings(rest_view));
                        }
                        Ok((out, pend))
                    },
                    Err(err) => Err(err),
                },
                _ => Err(ParseError::UnexpectedToken),
            }
        },
        _ => Err(ParseError::UnexpectedToken),
    }
}

} // verus!
