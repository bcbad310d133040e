//! Tokenizer: turns source text into the token sequence the parser consumes.
//!
//! The token grammar: identifiers are ASCII letter runs, integer literals are
//! ASCII digit runs (rejected when they exceed the 32-bit signed range), string
//! literals run from one `"` to the next, keywords win over identifiers of the
//! same spelling, `==` and `!=` win over `=` and `!`, whitespace separates
//! tokens, and any unrecognized character becomes an `ERROR` token.

use vstd::prelude::*;

verus! {

/// One lexical token.
#[allow(non_camel_case_types)]
#[derive(Debug, PartialEq, Eq, Clone)]
pub enum Token {
    ERROR,
    EOF,
    IDENT(String),
    INT(i32),
    STRING(String),
    ASSIGN,
    PLUS,
    MINUS,
    SLASH,
    ASTERISK,
    LT,
    GT,
    BANG,
    COMMA,
    SEMICOLON,
    LPAREN,
    RPAREN,
    LBRACE,
    RBRACE,
    FUNCTION,
    LET,
    IF,
    ELSE,
    RETURN,
    TRUE,
    FALSE,
    EQ,
    NOT_EQ,
}

/// The mathematical shape of a token: text payloads as character sequences.
#[allow(non_camel_case_types)]
pub ghost enum TokenV {
    ERROR,
    EOF,
    IDENT(Seq<char>),
    INT(i32),
    STRING(Seq<char>),
    ASSIGN,
    PLUS,
    MINUS,
    SLASH,
    ASTERISK,
    LT,
    GT,
    BANG,
    COMMA,
    SEMICOLON,
    LPAREN,
    RPAREN,
    LBRACE,
    RBRACE,
    FUNCTION,
    LET,
    IF,
    ELSE,
    RETURN,
    TRUE,
    FALSE,
    EQ,
    NOT_EQ,
}

/// The mathematical value of one token.
pub open spec fn view_token(t: Token) -> TokenV {
    match t {
        Token::ERROR => TokenV::ERROR,
        Token::EOF => TokenV::EOF,
        Token::IDENT(s) => TokenV::IDENT(s@),
        Token::INT(n) => TokenV::INT(n),
        Token::STRING(s) => TokenV::STRING(s@),
        Token::ASSIGN => TokenV::ASSIGN,
        Token::PLUS => TokenV::PLUS,
        Token::MINUS => TokenV::MINUS,
        Token::SLASH => TokenV::SLASH,
        Token::ASTERISK => TokenV::ASTERISK,
        Token::LT => TokenV::LT,
        Token::GT => TokenV::GT,
        Token::BANG => TokenV::BANG,
        Token::COMMA => TokenV::COMMA,
        Token::SEMICOLON => TokenV::SEMICOLON,
        Token::LPAREN => TokenV::LPAREN,
        Token::RPAREN => TokenV::RPAREN,
        Token::LBRACE => TokenV::LBRACE,
        Token::RBRACE => TokenV::RBRACE,
        Token::FUNCTION => TokenV::FUNCTION,
        Token::LET => TokenV::LET,
        Token::IF => TokenV::IF,
        Token::ELSE => TokenV::ELSE,
        Token::RETURN => TokenV::RETURN,
        Token::TRUE => TokenV::TRUE,
        Token::FALSE => TokenV::FALSE,
        Token::EQ => TokenV::EQ,
        Token::NOT_EQ => TokenV::NOT_EQ,
    }
}

/// The mathematical value of a token sequence.
pub open spec fn view_tokens(ts: Seq<Token>) -> Seq<TokenV> {
    Seq::new(ts.len(), |i: int| view_token(ts[i]))
}

/// Characters with the Unicode whitespace property separate tokens.
pub open spec fn is_whitespace_char(c: char) -> bool {
    let u = c as u32;
    ||| (0x09 <= u && u <= 0x0D)
    ||| u == 0x20
    ||| u == 0x85
    ||| u == 0xA0
    ||| u == 0x1680
    ||| (0x2000 <= u && u <= 0x200A)
    ||| u == 0x2028
    ||| u == 0x2029
    ||| u == 0x202F
    ||| u == 0x205F
    ||| u == 0x3000
}

/// ASCII letters form identifiers and keywords.
pub open spec fn is_letter_char(c: char) -> bool {
    let u = c as u32;
    (0x41 <= u && u <= 0x5A) || (0x61 <= u && u <= 0x7A)
}

/// ASCII digits form integer literals.
pub open spec fn is_digit_char(c: char) -> bool {
    let u = c as u32;
    0x30 <= u && u <= 0x39
}

/// The numeric weight of one ASCII digit.
pub open spec fn digit_value(c: char) -> int {
    c as u32 - 0x30
}

/// First position at or after `pos` that does not continue a letter run.
pub open spec fn ident_end(s: Seq<char>, pos: int) -> int
    decreases s.len() - pos,
{
    if pos < s.len() && is_letter_char(s[pos]) {
        ident_end(s, pos + 1)
    } else {
        pos
    }
}

/// First position at or after `pos` that does not continue a digit run.
pub open spec fn digit_end(s: Seq<char>, pos: int) -> int
    decreases s.len() - pos,
{
    if pos < s.len() && is_digit_char(s[pos]) {
        digit_end(s, pos + 1)
    } else {
        pos
    }
}

/// First position at or after `pos` holding a `"`, or the text length if none.
pub open spec fn quote_end(s: Seq<char>, pos: int) -> int
    decreases s.len() - pos,
{
    if pos < s.len() {
        if s[pos] == '"' {
            pos
        } else {
            quote_end(s, pos + 1)
        }
    } else {
        s.len() as int
    }
}

/// The decimal value of a digit run.
pub open spec fn digits_value(s: Seq<char>) -> int
    decreases s.len(),
{
    if s.len() == 0 {
        0
    } else {
        digits_value(s.drop_last()) * 10 + digit_value(s.last())
    }
}

/// Keyword spellings take their keyword token; any other letter run is an
/// identifier.
pub open spec fn word_token(w: Seq<char>) -> TokenV {
    if w == seq!['f', 'n'] {
        TokenV::FUNCTION
    } else if w == seq!['l', 'e', 't'] {
        TokenV::LET
    } else if w == seq!['i', 'f'] {
        TokenV::IF
    } else if w == seq!['e', 'l', 's', 'e'] {
        TokenV::ELSE
    } else if w == seq!['r', 'e', 't', 'u', 'r', 'n'] {
        TokenV::RETURN
    } else if w == seq!['t', 'r', 'u', 'e'] {
        TokenV::TRUE
    } else if w == seq!['f', 'a', 'l', 's', 'e'] {
        TokenV::FALSE
    } else {
        TokenV::IDENT(w)
    }
}

pub proof fn lemma_ident_end_bounds(s: Seq<char>, pos: int)
    requires
        0 <= pos <= s.len(),
    ensures
        pos <= ident_end(s, pos) <= s.len(),
    decreases s.len() - pos,
{
    if pos < s.len() && is_letter_char(s[pos]) {
        lemma_ident_end_bounds(s, pos + 1);
    }
}

pub proof fn lemma_digit_end_bounds(s: Seq<char>, pos: int)
    requires
        0 <= pos <= s.len(),
    ensures
        pos <= digit_end(s, pos) <= s.len(),
    decreases s.len() - pos,
{
    if pos < s.len() && is_digit_char(s[pos]) {
        lemma_digit_end_bounds(s, pos + 1);
    }
}

pub proof fn lemma_quote_end_bounds(s: Seq<char>, pos: int)
    requires
        0 <= pos <= s.len(),
    ensures
        pos <= quote_end(s, pos) <= s.len(),
    decreases s.len() - pos,
{
    if pos < s.len() && s[pos] != '"' {
        lemma_quote_end_bounds(s, pos + 1);
    }
}

/// The token sequence of the text from `pos` on, ending with `EOF`.
pub open spec fn spec_lex_from(s: Seq<char>, pos: int) -> Seq<TokenV>
    decreases s.len() - pos,
{
    if pos < 0 || pos >= s.len() {
        seq![TokenV::EOF]
    } else {
        let c = s[pos];
        if is_whitespace_char(c) {
            spec_lex_from(s, pos + 1)
        } else if is_letter_char(c) {
            let end = ident_end(s, pos);
            proof {
                lemma_ident_end_bounds(s, pos + 1);
                assert(ident_end(s, pos) == ident_end(s, pos + 1));
            }
            seq![word_token(s.subrange(pos, end))] + spec_lex_from(s, end)
        } else if is_digit_char(c) {
            let end = digit_end(s, pos);
            let v = digits_value(s.subrange(pos, end));
            proof {
                lemma_digit_end_bounds(s, pos + 1);
                assert(digit_end(s, pos) == digit_end(s, pos + 1));
            }
            let tok = if v <= i32::MAX {
                TokenV::INT(v as i32)
            } else {
                TokenV::ERROR
            };
            seq![tok] + spec_lex_from(s, end)
        } else if c == '"' {
            let q = quote_end(s, pos + 1);
            proof {
                lemma_quote_end_bounds(s, pos + 1);
            }
            if q < s.len() {
                seq![TokenV::STRING(s.subrange(pos + 1, q))] + spec_lex_from(s, q + 1)
            } else {
                seq![TokenV::ERROR] + spec_lex_from(s, pos + 1)
            }
        } else if c == '=' {
            if pos + 1 < s.len() && s[pos + 1] == '=' {
                seq![TokenV::EQ] + spec_lex_from(s, pos + 2)
            } else {
                seq![TokenV::ASSIGN] + spec_lex_from(s, pos + 1)
            }
        } else if c == '!' {
            if pos + 1 < s.len() && s[pos + 1] == '=' {
                seq![TokenV::NOT_EQ] + spec_lex_from(s, pos + 2)
            } else {
                seq![TokenV::BANG] + spec_lex_from(s, pos + 1)
            }
        } else {
            let tok = if c == '+' {
                TokenV::PLUS
            } else if c == '-' {
                TokenV::MINUS
            } else if c == '/' {
                TokenV::SLASH
            } else if c == '*' {
                TokenV::ASTERISK
            } else if c == '<' {
                TokenV::LT
            } else if c == '>' {
                TokenV::GT
            } else if c == ',' {
                TokenV::COMMA
            } else if c == ';' {
                TokenV::SEMICOLON
            } else if c == '(' {
                TokenV::LPAREN
            } else if c == ')' {
                TokenV::RPAREN
            } else if c == '{' {
                TokenV::LBRACE
            } else if c == '}' {
                TokenV::RBRACE
            } else {
                TokenV::ERROR
            };
            seq![tok] + spec_lex_from(s, pos + 1)
        }
    }
}

/// The token sequence of a whole text.
pub open spec fn spec_lex(s: Seq<char>) -> Seq<TokenV> {
    spec_lex_from(s, 0)
}

fn is_whitespace_exec(c: char) -> (r: bool)
    ensures
        r == is_whitespace_char(c),
{
    let u = c as u32;
    (0x09 <= u && u <= 0x0D) || u == 0x20 || u == 0x85 || u == 0xA0 || u == 0x1680 || (0x2000 <= u
        && u <= 0x200A) || u == 0x2028 || u == 0x2029 || u == 0x202F || u == 0x205F || u == 0x3000
}

fn is_letter_exec(c: char) -> (r: bool)
    ensures
        r == is_letter_char(c),
{
    let u = c as u32;
    (0x41 <= u && u <= 0x5A) || (0x61 <= u && u <= 0x7A)
}

fn is_digit_exec(c: char) -> (r: bool)
    ensures
        r == is_digit_char(c),
{
    let u = c as u32;
    0x30 <= u && u <= 0x39
}

fn scan_ident_end(s: &str, pos: usize) -> (end: usize)
    requires
        pos <= s@.len(),
    ensures
        end == ident_end(s@, pos as int),
        pos <= end <= s@.len(),
{
    let n = s.unicode_len();
    let mut cur = pos;
    while cur < n && is_letter_exec(s.get_char(cur))
        invariant
            pos <= cur <= n,
            n == s@.len(),
            ident_end(s@, pos as int) == ident_end(s@, cur as int),
        decreases n - cur,
    {
        cur = cur + 1;
    }
    cur
}

fn scan_digit_end(s: &str, pos: usize) -> (end: usize)
    requires
        pos <= s@.len(),
    ensures
        end == digit_end(s@, pos as int),
        pos <= end <= s@.len(),
        forall|k: int| pos <= k < end ==> is_digit_char(#[trigger] s@[k]),
{
    let n = s.unicode_len();
    let mut cur = pos;
    while cur < n && is_digit_exec(s.get_char(cur))
        invariant
            pos <= cur <= n,
            n == s@.len(),
            digit_end(s@, pos as int) == digit_end(s@, cur as int),
            forall|k: int| pos <= k < cur ==> is_digit_char(#[trigger] s@[k]),
        decreases n - cur,
    {
        cur = cur + 1;
    }
    cur
}

fn scan_quote_end(s: &str, pos: usize) -> (end: usize)
    requires
        pos <= s@.len(),
    ensures
        end == quote_end(s@, pos as int),
        pos <= end <= s@.len(),
{
    let n = s.unicode_len();
    let mut cur = pos;
    while cur < n && s.get_char(cur) != '"'
        invariant
            pos <= cur <= n,
            n == s@.len(),
            quote_end(s@, pos as int) == quote_end(s@, cur as int),
        decreases n - cur,
    {
        cur = cur + 1;
    }
    cur
}

proof fn lemma_digits_value_step(s: Seq<char>, lo: int, i: int)
    requires
        0 <= lo <= i < s.len(),
    ensures
        digits_value(s.subrange(lo, i + 1)) == digits_value(s.subrange(lo, i)) * 10 + digit_value(
            s[i],
        ),
{
    let longer = s.subrange(lo, i + 1);
    assert(longer.drop_last() =~= s.subrange(lo, i));
}

proof fn lemma_digits_value_nonneg(s: Seq<char>, lo: int, i: int)
    requires
        0 <= lo <= i <= s.len(),
        forall|k: int| lo <= k < i ==> is_digit_char(#[trigger] s[k]),
    ensures
        digits_value(s.subrange(lo, i)) >= 0,
    decreases i - lo,
{
    if i > lo {
        lemma_digits_value_step(s, lo, i - 1);
        lemma_digits_value_nonneg(s, lo, i - 1);
    } else {
        assert(s.subrange(lo, i).len() == 0);
    }
}

/// Parse the digit run `[pos, end)`; values above `i32::MAX` are rejected the
/// way an out-of-range literal is: with an `ERROR` token.
fn parse_int_token(s: &str, pos: usize, end: usize) -> (t: Token)
    requires
        pos <= end <= s@.len(),
        forall|k: int| pos <= k < end ==> is_digit_char(#[trigger] s@[k]),
    ensures
        view_token(t) == (if digits_value(s@.subrange(pos as int, end as int)) <= i32::MAX {
            TokenV::INT(digits_value(s@.subrange(pos as int, end as int)) as i32)
        } else {
            TokenV::ERROR
        }),
{
    let mut acc: i64 = 0;
    let mut overflow: bool = false;
    let mut i = pos;
    proof {
        assert(s@.subrange(pos as int, pos as int).len() == 0);
    }
    while i < end
        invariant
            pos <= i <= end <= s@.len(),
            forall|k: int| pos <= k < end ==> is_digit_char(#[trigger] s@[k]),
            !overflow ==> {
                &&& acc == digits_value(s@.subrange(pos as int, i as int))
                &&& 0 <= acc <= i32::MAX
            },
            overflow ==> digits_value(s@.subrange(pos as int, i as int)) > i32::MAX,
        decreases end - i,
    {
        let c = s.get_char(i);
        let d = (c as u32) - 0x30;
        proof {
            lemma_digits_value_step(s@, pos as int, i as int);
        }
        if !overflow {
            let next: i64 = acc * 10 + (d as i64);
            if next > 0x7FFF_FFFF {
                overflow = true;
            } else {
                acc = next;
            }
        } else {
            proof {
                let prev = digits_value(s@.subrange(pos as int, i as int));
                assert(prev * 10 >= prev) by (nonlinear_arith)
                    requires
                        prev > 0,
                ;
            }
        }
        i = i + 1;
    }
    if overflow {
        Token::ERROR
    } else {
        Token::INT(acc as i32)
    }
}

/// Decide which token a letter run forms: a keyword, or an identifier.
fn word_token_exec(sub: &str) -> (t: Token)
    ensures
        view_token(t) == word_token(sub@),
{
    let n = sub.unicode_len();
    if n == 2 {
        let c0 = sub.get_char(0);
        let c1 = sub.get_char(1);
        if c0 == 'f' && c1 == 'n' {
            proof {
                assert(sub@ =~= seq!['f', 'n']);
            }
            return Token::FUNCTION;
        }
        if c0 == 'i' && c1 == 'f' {
            proof {
                assert(sub@ =~= seq!['i', 'f']);
            }
            return Token::IF;
        }
    } else if n == 3 {
        let c0 = sub.get_char(0);
        let c1 = sub.get_char(1);
        let c2 = sub.get_char(2);
        if c0 == 'l' && c1 == 'e' && c2 == 't' {
            proof {
                assert(sub@ =~= seq!['l', 'e', 't']);
            }
            return Token::LET;
        }
    } else if n == 4 {
        let c0 = sub.get_char(0);
        let c1 = sub.get_char(1);
        let c2 = sub.get_char(2);
        let c3 = sub.get_char(3);
        if c0 == 'e' && c1 == 'l' && c2 == 's' && c3 == 'e' {
            proof {
                assert(sub@ =~= seq!['e', 'l', 's', 'e']);
            }
            return Token::ELSE;
        }
        if c0 == 't' && c1 == 'r' && c2 == 'u' && c3 == 'e' {
            proof {
                assert(sub@ =~= seq!['t', 'r', 'u', 'e']);
            }
            return Token::TRUE;
        }
    } else if n == 5 {
        let c0 = sub.get_char(0);
        let c1 = sub.get_char(1);
        let c2 = sub.get_char(2);
        let c3 = sub.get_char(3);
        let c4 = sub.get_char(4);
        if c0 == 'f' && c1 == 'a' && c2 == 'l' && c3 == 's' && c4 == 'e' {
            proof {
                assert(sub@ =~= seq!['f', 'a', 'l', 's', 'e']);
            }
            return Token::FALSE;
        }
    } else if n == 6 {
        let c0 = sub.get_char(0);
        let c1 = sub.get_char(1);
        let c2 = sub.get_char(2);
        let c3 = sub.get_char(3);
        let c4 = sub.get_char(4);
        let c5 = sub.get_char(5);
        if c0 == 'r' && c1 == 'e' && c2 == 't' && c3 == 'u' && c4 == 'r' && c5 == 'n' {
            proof {
                assert(sub@ =~= seq!['r', 'e', 't', 'u', 'r', 'n']);
            }
            return Token::RETURN;
        }
    }
    let owned = sub.to_owned();
    Token::IDENT(owned)
}

/// Tokenize the text from `pos` on; the result ends with `EOF`.
fn lex_from(s: &str, pos: usize) -> (r: Vec<Token>)
    requires
        pos <= s@.len(),
    ensures
        view_tokens(r@) == spec_lex_from(s@, pos as int),
    decreases s@.len() - pos,
{
    let n = s.unicode_len();
    if pos >= n {
        let mut out: Vec<Token> = Vec::new();
        out.push(Token::EOF);
        proof {
            assert(view_tokens(out@) =~= spec_lex_from(s@, pos as int));
        }
        return out;
    }
    let c = s.get_char(pos);
    if is_whitespace_exec(c) {
        return lex_from(s, pos + 1);
    }
    let (tok, next): (Token, usize) = if is_letter_exec(c) {
        let end = scan_ident_end(s, pos);
        proof {
            lemma_ident_end_bounds(s@, pos + 1);
            assert(ident_end(s@, pos as int) == ident_end(s@, pos + 1));
        }
        let sub = s.substring_char(pos, end);
        (word_token_exec(sub), end)
    } else if is_digit_exec(c) {
        let end = scan_digit_end(s, pos);
        proof {
            lemma_digit_end_bounds(s@, pos + 1);
            assert(digit_end(s@, pos as int) == digit_end(s@, pos + 1));
        }
        (parse_int_token(s, pos, end), end)
    } else if c == '"' {
        let q = scan_quote_end(s, pos + 1);
        if q < n {
            let sub = s.substring_char(pos + 1, q);
            (Token::STRING(sub.to_owned()), q + 1)
        } else {
            (Token::ERROR, pos + 1)
        }
    } else if c == '=' {
        if pos + 1 < n && s.get_char(pos + 1) == '=' {
            (Token::EQ, pos + 2)
        } else {
            (Token::ASSIGN, pos + 1)
        }
    } else if c == '!' {
        if pos + 1 < n && s.get_char(pos + 1) == '=' {
            (Token::NOT_EQ, pos + 2)
        } else {
            (Token::BANG, pos + 1)
        }
    } else {
        let tok = if c == '+' {
            Token::PLUS
        } else if c == '-' {
            Token::MINUS
        } else if c == '/' {
            Token::SLASH
        } else if c == '*' {
            Token::ASTERISK
        } else if c == '<' {
            Token::LT
        } else if c == '>' {
            Token::GT
        } else if c == ',' {
            Token::COMMA
        } else if c == ';' {
            Token::SEMICOLON
        } else if c == '(' {
            Token::LPAREN
        } else if c == ')' {
            Token::RPAREN
        } else if c == '{' {
            Token::LBRACE
        } else if c == '}' {
            Token::RBRACE
        } else {
            Token::ERROR
        };
        (tok, pos + 1)
    };
    let mut rest = lex_from(s, next);
    rest.insert(0, tok);
    proof {
        assert(view_tokens(rest@) =~= seq![view_token(tok)] + view_tokens(rest@.drop_first()));
        assert(view_tokens(rest@) =~= spec_lex_from(s@, pos as int));
    }
    rest
}

/// Tokenize a whole input text, appending a final `EOF` token.
pub fn lex(input: &str) -> (r: Result<Vec<Token>, ()>)
    ensures
        r matches Ok(ts) && view_tokens(ts@) == spec_lex(input@),
{
    Ok(lex_from(input, 0))
}

} // verus!
