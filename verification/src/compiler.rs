//! Compiler: walks the AST and emits a compact instruction stream plus a
//! constant pool, resolving identifiers to global slots through the symbol
//! table and back-patching forward jump targets for conditionals.
//!
//! Every compilation step is mirrored by a spec function over AST views; the
//! executable compiler is proved to produce exactly the bytes its mirror
//! describes. Undefined variables, unsupported constructs, and 16-bit
//! operand space running out are reported as typed `CompileError` values.

use vstd::prelude::*;

use crate::code::OpCode;
use crate::code::make_op;
use crate::code::spec_make_op;
use crate::eval::Object;
use crate::eval::ObjectV;
use crate::eval::view_object;
use crate::eval::view_objects;
use crate::eval::lemma_view_objects;
use crate::lexer::lex;
use crate::lexer::spec_lex;
use crate::parser::Expr;
use crate::parser::ExprV;
use crate::parser::Operator;
use crate::parser::ParseError;
use crate::parser::Prefix;
use crate::parser::Statement;
use crate::parser::StatementV;
use crate::parser::lemma_view_stmts;
use crate::parser::parse;
use crate::parser::spec_parse_program;
use crate::parser::view_expr;
use crate::parser::view_stmt;
use crate::parser::view_stmts;
use crate::symbol_table::SymbolTable;

verus! {

/// A compiled unit: the instruction stream and the constant pool it indexes.
#[derive(Debug, PartialEq)]
pub struct ByteCode {
    pub instructions: Vec<u8>,
    pub constants: Vec<Object>,
}

impl ByteCode {
    fn new() -> (r: Self)
        ensures
            r.instructions@ == Seq::<u8>::empty(),
            r.constants@ == Seq::<Object>::empty(),
    {
        ByteCode { instructions: Vec::new(), constants: Vec::new() }
    }
}

/// Why compilation stopped.
#[derive(Debug, PartialEq, Eq, Structural, Clone, Copy)]
pub enum CompileError {
    /// A reference to a name never defined by a `let` statement.
    UndefinedVariable,
    /// An AST node the bytecode subset does not lower: function literals,
    /// calls, and `return` statements.
    UnsupportedConstruct,
    /// More constants than a 16-bit pool index can address.
    TooManyConstants,
    /// More global bindings than a 16-bit slot index can address.
    TooManyGlobals,
    /// An instruction stream grown past what a 16-bit jump target can address.
    CodeTooLarge,
    /// The source text does not lex and parse into a program.
    Syntax(ParseError),
}

/// The compiler's working state: the bytes and constants emitted so far and
/// the symbol table contents.
#[verifier::ext_equal]
pub ghost struct CompStateV {
    pub instructions: Seq<u8>,
    pub constants: Seq<ObjectV>,
    pub symbols: Map<Seq<char>, u16>,
    pub next_slot: int,
    /// The opcode tag of the instruction most recently appended, if any;
    /// cleared when a trailing `OpPop` is removed. Back-patching leaves it
    /// untouched, since it rewrites an instruction in place with one of the
    /// same kind and width.
    pub last_tag: Option<u8>,
}

/// The state a compilation starts from.
pub open spec fn init_comp_state() -> CompStateV {
    CompStateV {
        instructions: Seq::empty(),
        constants: Seq::empty(),
        symbols: Map::empty(),
        next_slot: 0,
        last_tag: None,
    }
}

/// Append one encoded instruction.
pub open spec fn spec_emit(st: CompStateV, op: OpCode) -> CompStateV {
    CompStateV {
        instructions: st.instructions + spec_make_op(op),
        constants: st.constants,
        symbols: st.symbols,
        next_slot: st.next_slot,
        last_tag: Some(spec_make_op(op)[0]),
    }
}

/// Remove the trailing `OpPop`, if the last emitted instruction is one.
pub open spec fn spec_strip_pop(st: CompStateV) -> CompStateV {
    if st.last_tag == Some(2u8) {
        CompStateV {
            instructions: st.instructions.drop_last(),
            constants: st.constants,
            symbols: st.symbols,
            next_slot: st.next_slot,
            last_tag: None,
        }
    } else {
        st
    }
}

/// Overwrite the instruction at byte offset `pos` with a freshly encoded
/// instruction of the same width; no other offsets shift.
pub open spec fn spec_change_op(st: CompStateV, pos: int, op: OpCode) -> CompStateV {
    CompStateV {
        instructions: st.instructions.subrange(0, pos) + spec_make_op(op)
            + st.instructions.subrange(
            pos + spec_make_op(op).len(),
            st.instructions.len() as int,
        ),
        constants: st.constants,
        symbols: st.symbols,
        next_slot: st.next_slot,
        last_tag: st.last_tag,
    }
}

/// Compile one expression onto the state: the bytes that push its value.
///
/// A `<` comparison is canonicalized: its operands are emitted right then
/// left, followed by the same opcode a `>` comparison uses.
pub open spec fn spec_compile_expr(e: ExprV, st: CompStateV) -> (Result<(), CompileError>,
    CompStateV)
    decreases e,
{
    match e {
        ExprV::Const(n) => if st.constants.len() >= 65536 {
            (Err(CompileError::TooManyConstants), st)
        } else {
            let ix = st.constants.len() as u16;
            let st1 = CompStateV {
                instructions: st.instructions,
                constants: st.constants.push(ObjectV::Integer(n)),
                symbols: st.symbols,
                next_slot: st.next_slot,
                last_tag: st.last_tag,
            };
            (Ok(()), spec_emit(st1, OpCode::OpConstant(ix)))
        },
        ExprV::Str(s) => if st.constants.len() >= 65536 {
            (Err(CompileError::TooManyConstants), st)
        } else {
            let ix = st.constants.len() as u16;
            let st1 = CompStateV {
                instructions: st.instructions,
                constants: st.constants.push(ObjectV::Str(s)),
                symbols: st.symbols,
                next_slot: st.next_slot,
                last_tag: st.last_tag,
            };
            (Ok(()), spec_emit(st1, OpCode::OpConstant(ix)))
        },
        ExprV::Boolean(b) => if b {
            (Ok(()), spec_emit(st, OpCode::OpTrue))
        } else {
            (Ok(()), spec_emit(st, OpCode::OpFalse))
        },
        ExprV::Prefix { prefix, value } => {
            let (vr, st1) = spec_compile_expr(*value, st);
            match vr {
                Ok(_) => match prefix {
                    Prefix::Minus => (Ok(()), spec_emit(st1, OpCode::OpMinus)),
                    Prefix::Bang => (Ok(()), spec_emit(st1, OpCode::OpBang)),
                },
                Err(err) => (Err(err), st1),
            }
        },
        ExprV::Infix { left, operator, right } => {
            let (or, st2) = (if operator is LessThan {
                let (rr, st1) = spec_compile_expr(*right, st);
                match rr {
                    Ok(_) => spec_compile_expr(*left, st1),
                    Err(err) => (Err(err), st1),
                }
            } else {
                let (lr, st1) = spec_compile_expr(*left, st);
                match lr {
                    Ok(_) => spec_compile_expr(*right, st1),
                    Err(err) => (Err(err), st1),
                }
            });
            match or {
                Ok(_) => {
                    let op = match operator {
                        Operator::Plus => OpCode::OpAdd,
                        Operator::Minus => OpCode::OpSub,
                        Operator::Multiply => OpCode::OpMul,
                        Operator::Divide => OpCode::OpDiv,
                        Operator::Equals => OpCode::OpEquals,
                        Operator::NotEquals => OpCode::OpNotEquals,
                        Operator::GreaterThan => OpCode::OpGreaterThan,
                        Operator::LessThan => OpCode::OpGreaterThan,
                    };
                    (Ok(()), spec_emit(st2, op))
                },
                Err(err) => (Err(err), st2),
            }
        },
        ExprV::If { condition, consequence, alternative } => {
            let (cr, st1) = spec_compile_expr(*condition, st);
            match cr {
                Ok(_) => {
                    let jump_pos = st1.instructions.len() as int;
                    let st2 = spec_emit(st1, OpCode::OpJumpNotTrue(9999));
                    let (br, st3) = spec_compile_stmts(consequence, st2);
                    match br {
                        Ok(_) => {
                            let st4 = spec_strip_pop(st3);
                            if alternative.len() == 0 {
                                if st4.instructions.len() > 65535 {
                                    (Err(CompileError::CodeTooLarge), st4)
                                } else {
                                    let target = st4.instructions.len() as u16;
                                    (
                                        Ok(()),
                                        spec_change_op(
                                            st4,
                                            jump_pos,
                                            OpCode::OpJumpNotTrue(target),
                                        ),
                                    )
                                }
                            } else {
                                if st4.instructions.len() + 3 > 65535 {
                                    (Err(CompileError::CodeTooLarge), st4)
                                } else {
                                    let target1 = (st4.instructions.len() + 3) as u16;
                                    let st5 = spec_change_op(
                                        st4,
                                        jump_pos,
                                        OpCode::OpJumpNotTrue(target1),
                                    );
                                    let jump2 = st5.instructions.len() as int;
                                    let st6 = spec_emit(st5, OpCode::OpJump(9999));
                                    let (ar, st7) = spec_compile_stmts(alternative, st6);
                                    match ar {
                                        Ok(_) => {
                                            let st8 = spec_strip_pop(st7);
                                            if st8.instructions.len() > 65535 {
                                                (Err(CompileError::CodeTooLarge), st8)
                                            } else {
                                                let target2 = st8.instructions.len() as u16;
                                                (
                                                    Ok(()),
                                                    spec_change_op(
                                                        st8,
                                                        jump2,
                                                        OpCode::OpJump(target2),
                                                    ),
                                                )
                                            }
                                        },
                                        Err(err) => (Err(err), st7),
                                    }
                                }
                            }
                        },
                        Err(err) => (Err(err), st3),
                    }
                },
                Err(err) => (Err(err), st1),
            }
        },
        ExprV::Ident(name) => if st.symbols.contains_key(name) {
            (Ok(()), spec_emit(st, OpCode::OpGetGlobal(st.symbols[name])))
        } else {
            (Err(CompileError::UndefinedVariable), st)
        },
        ExprV::Function { parameters, body } => (Err(CompileError::UnsupportedConstruct), st),
        ExprV::Call { function, arguments } => (Err(CompileError::UnsupportedConstruct), st),
    }
}

/// Compile one statement onto the state. An expression statement is followed
/// by `OpPop`; a `let` statement allocates the next global slot and emits
/// `OpSetGlobal`.
pub open spec fn spec_compile_stmt(s: StatementV, st: CompStateV) -> (Result<(), CompileError>,
    CompStateV)
    decreases s,
{
    match s {
        StatementV::Let { name, value } => {
            let (vr, st1) = spec_compile_expr(value, st);
            match vr {
                Ok(_) => if st1.next_slot >= 65536 {
                    (Err(CompileError::TooManyGlobals), st1)
                } else {
                    let slot = st1.next_slot as u16;
                    let st2 = CompStateV {
                        instructions: st1.instructions,
                        constants: st1.constants,
                        symbols: st1.symbols.insert(name, slot),
                        next_slot: st1.next_slot + 1,
                        last_tag: st1.last_tag,
                    };
                    (Ok(()), spec_emit(st2, OpCode::OpSetGlobal(slot)))
                },
                Err(err) => (Err(err), st1),
            }
        },
        StatementV::Return { value } => (Err(CompileError::UnsupportedConstruct), st),
        StatementV::Expression(e) => {
            let (er, st1) = spec_compile_expr(e, st);
            match er {
                Ok(_) => (Ok(()), spec_emit(st1, OpCode::OpPop)),
                Err(err) => (Err(err), st1),
            }
        },
    }
}

/// Compile a statement run onto the state, in order.
pub open spec fn spec_compile_stmts(ss: Seq<StatementV>, st: CompStateV) -> (Result<
    (),
    CompileError,
>, CompStateV)
    decreases ss,
{
    if ss.len() == 0 {
        (Ok(()), st)
    } else {
        let (hr, st1) = spec_compile_stmt(ss[0], st);
        match hr {
            Ok(_) => spec_compile_stmts(ss.drop_first(), st1),
            Err(err) => (Err(err), st1),
        }
    }
}

/// Compile a whole source text: lex, parse, then compile the statements from
/// an empty state.
pub open spec fn spec_compile_source(src: Seq<char>) -> Result<CompStateV, CompileError> {
    match spec_parse_program(spec_lex(src), 0) {
        Ok(parsed) => {
            let (r, st) = spec_compile_stmts(parsed.0, init_comp_state());
            match r {
                Ok(_) => Ok(st),
                Err(err) => Err(err),
            }
        },
        Err(pe) => Err(CompileError::Syntax(pe)),
    }
}

/// Compilation only appends to the instruction stream (patching already
/// emitted jumps in place): whatever was emitted before a step stays, and the
/// constant pool and slot counter never shrink.
pub proof fn lemma_compile_expr_extends(e: ExprV, st: CompStateV)
    ensures
        ({
            let st2 = spec_compile_expr(e, st).1;
            &&& st2.instructions.len() >= st.instructions.len()
            &&& st2.instructions.subrange(0, st.instructions.len() as int) == st.instructions
            &&& st2.constants.len() >= st.constants.len()
            &&& st2.next_slot >= st.next_slot
            &&& (st2.instructions.len() == st.instructions.len() ==> st2.instructions
                == st.instructions && st2.last_tag == st.last_tag)
        }),
    decreases e,
{
    let st2 = spec_compile_expr(e, st).1;
    match e {
        ExprV::Const(n) => {
            assert(st2.instructions.subrange(0, st.instructions.len() as int) =~= st.instructions);
        },
        ExprV::Str(s) => {
            assert(st2.instructions.subrange(0, st.instructions.len() as int) =~= st.instructions);
        },
        ExprV::Boolean(b) => {
            assert(st2.instructions.subrange(0, st.instructions.len() as int) =~= st.instructions);
        },
        ExprV::Prefix { prefix, value } => {
            lemma_compile_expr_extends(*value, st);
            let st1 = spec_compile_expr(*value, st).1;
            assert(st2.instructions.subrange(0, st.instructions.len() as int) =~= st.instructions);
        },
        ExprV::Infix { left, operator, right } => {
            if operator is LessThan {
                lemma_compile_expr_extends(*right, st);
                let st1 = spec_compile_expr(*right, st).1;
                lemma_compile_expr_extends(*left, st1);
                let stx = spec_compile_expr(*left, st1).1;
                assert(stx.instructions.subrange(0, st.instructions.len() as int)
                    =~= st.instructions);
            } else {
                lemma_compile_expr_extends(*left, st);
                let st1 = spec_compile_expr(*left, st).1;
                lemma_compile_expr_extends(*right, st1);
                let stx = spec_compile_expr(*right, st1).1;
                assert(stx.instructions.subrange(0, st.instructions.len() as int)
                    =~= st.instructions);
            }
            assert(st2.instructions.subrange(0, st.instructions.len() as int) =~= st.instructions);
        },
        ExprV::If { condition, consequence, alternative } => {
            lemma_compile_if_extends(e, st);
        },
        ExprV::Ident(name) => {
            if st.symbols.contains_key(name) {
                assert(st2.instructions.subrange(0, st.instructions.len() as int)
                    =~= st.instructions);
            }
        },
        ExprV::Function { parameters, body } => {
        },
        ExprV::Call { function, arguments } => {
        },
    }
}

/// The conditional case of `lemma_compile_expr_extends`, stated separately to
/// keep the induction readable.
proof fn lemma_compile_if_extends(e: ExprV, st: CompStateV)
    requires
        e is If,
    ensures
        ({
            let st2 = spec_compile_expr(e, st).1;
            &&& st2.instructions.len() >= st.instructions.len()
            &&& st2.instructions.subrange(0, st.instructions.len() as int) == st.instructions
            &&& st2.constants.len() >= st.constants.len()
            &&& st2.next_slot >= st.next_slot
            &&& (st2.instructions.len() == st.instructions.len() ==> st2.instructions
                == st.instructions && st2.last_tag == st.last_tag)
        }),
    decreases e, 1int,
{
    let n0 = st.instructions.len() as int;
    let condition = e->If_condition;
    let consequence = e->If_consequence;
    let alternative = e->If_alternative;
    lemma_compile_expr_extends(*condition, st);
    let (cr, st1) = spec_compile_expr(*condition, st);
    if cr is Ok {
        let jump_pos = st1.instructions.len() as int;
        let st2 = spec_emit(st1, OpCode::OpJumpNotTrue(9999));
        assert(st2.instructions.subrange(0, n0) =~= st1.instructions.subrange(0, n0));
        lemma_compile_stmts_extends(consequence, st2);
        let (br, st3) = spec_compile_stmts(consequence, st2);
        if br is Ok {
            let st4 = spec_strip_pop(st3);
            assert(st2.instructions.len() == jump_pos + 3);
            assert(st2.last_tag == Some(14u8)) by {
                assert(spec_make_op(OpCode::OpJumpNotTrue(9999))[0] == 14);
            }
            assert(st4.instructions.len() >= jump_pos + 3);
            assert(st4.instructions.subrange(0, n0) =~= st.instructions);
            if alternative.len() == 0 {
                if st4.instructions.len() <= 65535 {
                    let target = st4.instructions.len() as u16;
                    let st5 = spec_change_op(st4, jump_pos, OpCode::OpJumpNotTrue(target));
                    assert(st5.instructions.len() == st4.instructions.len());
                    assert(st5.instructions.subrange(0, n0) =~= st.instructions);
                }
            } else {
                if st4.instructions.len() + 3 <= 65535 {
                    let target1 = (st4.instructions.len() + 3) as u16;
                    let st5 = spec_change_op(st4, jump_pos, OpCode::OpJumpNotTrue(target1));
                    assert(st5.instructions.len() == st4.instructions.len());
                    assert(st5.instructions.subrange(0, n0) =~= st.instructions);
                    let jump2 = st5.instructions.len() as int;
                    let st6 = spec_emit(st5, OpCode::OpJump(9999));
                    assert(st6.instructions.subrange(0, n0) =~= st.instructions);
                    lemma_compile_stmts_extends(alternative, st6);
                    let (ar, st7) = spec_compile_stmts(alternative, st6);
                    if ar is Ok {
                        let st8 = spec_strip_pop(st7);
                        assert(st6.instructions.len() == jump2 + 3);
                        assert(st6.last_tag == Some(15u8)) by {
                            assert(spec_make_op(OpCode::OpJump(9999))[0] == 15);
                        }
                        assert(st8.instructions.len() >= jump2 + 3);
                        assert(st8.instructions.subrange(0, n0) =~= st.instructions);
                        if st8.instructions.len() <= 65535 {
                            let target2 = st8.instructions.len() as u16;
                            let st9 = spec_change_op(st8, jump2, OpCode::OpJump(target2));
                            assert(st9.instructions.len() == st8.instructions.len());
                            assert(st9.instructions.subrange(0, n0) =~= st.instructions);
                        }
                    } else {
                        assert(st7.instructions.subrange(0, n0) =~= st.instructions);
                    }
                }
            }
        } else {
            assert(st3.instructions.subrange(0, n0) =~= st.instructions);
        }
    }
}

/// Statement form of `lemma_compile_expr_extends`.
pub proof fn lemma_compile_stmt_extends(s: StatementV, st: CompStateV)
    ensures
        ({
            let st2 = spec_compile_stmt(s, st).1;
            &&& st2.instructions.len() >= st.instructions.len()
            &&& st2.instructions.subrange(0, st.instructions.len() as int) == st.instructions
            &&& st2.constants.len() >= st.constants.len()
            &&& st2.next_slot >= st.next_slot
            &&& (st2.instructions.len() == st.instructions.len() ==> st2.instructions
                == st.instructions && st2.last_tag == st.last_tag)
        }),
    decreases s,
{
    let st2 = spec_compile_stmt(s, st).1;
    match s {
        StatementV::Let { name, value } => {
            lemma_compile_expr_extends(value, st);
            assert(st2.instructions.subrange(0, st.instructions.len() as int) =~= st.instructions);
        },
        StatementV::Return { value } => {
        },
        StatementV::Expression(e) => {
            lemma_compile_expr_extends(e, st);
            assert(st2.instructions.subrange(0, st.instructions.len() as int) =~= st.instructions);
        },
    }
}

/// Statement-run form of `lemma_compile_expr_extends`.
pub proof fn lemma_compile_stmts_extends(ss: Seq<StatementV>, st: CompStateV)
    ensures
        ({
            let st2 = spec_compile_stmts(ss, st).1;
            &&& st2.instructions.len() >= st.instructions.len()
            &&& st2.instructions.subrange(0, st.instructions.len() as int) == st.instructions
            &&& st2.constants.len() >= st.constants.len()
            &&& st2.next_slot >= st.next_slot
            &&& (st2.instructions.len() == st.instructions.len() ==> st2.instructions
                == st.instructions && st2.last_tag == st.last_tag)
        }),
    decreases ss,
{
    if ss.len() > 0 {
        lemma_compile_stmt_extends(ss[0], st);
        let (hr, st1) = spec_compile_stmt(ss[0], st);
        if hr is Ok {
            lemma_compile_stmts_extends(ss.drop_first(), st1);
            let st2 = spec_compile_stmts(ss.drop_first(), st1).1;
            assert(st2.instructions.subrange(0, st.instructions.len() as int) =~= st.instructions);
        }
    }
}

/// Comparison canonicalization: compiling `a < b` produces exactly the bytes
/// of compiling `b > a` — operands right then left, then the shared
/// greater-than opcode.
pub proof fn lemma_less_than_canonical(l: ExprV, r: ExprV, st: CompStateV)
    ensures
        spec_compile_expr(
            ExprV::Infix {
                left: Box::new(l),
                operator: Operator::LessThan,
                right: Box::new(r),
            },
            st,
        ) == spec_compile_expr(
            ExprV::Infix {
                left: Box::new(r),
                operator: Operator::GreaterThan,
                right: Box::new(l),
            },
            st,
        ),
{
}

/// A reference to an undefined identifier fails before any instruction is
/// emitted for it: the compiler state at the failure is the entry state, both
/// for the bare reference and for an expression statement built from it.
pub proof fn lemma_undefined_variable_emits_nothing(name: Seq<char>, st: CompStateV)
    requires
        !st.symbols.contains_key(name),
    ensures
        spec_compile_expr(ExprV::Ident(name), st) == (
            Err::<(), CompileError>(CompileError::UndefinedVariable),
            st,
        ),
        spec_compile_stmt(StatementV::Expression(ExprV::Ident(name)), st) == (
            Err::<(), CompileError>(CompileError::UndefinedVariable),
            st,
        ),
{
}

/// The compiler: the unit being built and the symbol table for it.
struct Compiler {
    byte_code: ByteCode,
    symbol_table: SymbolTable,
    /// The opcode tag of the instruction most recently appended, if any;
    /// cleared when a trailing `OpPop` is removed.
    last_tag: Option<u8>,
}

/// The mathematical state a compiler holds.
spec fn comp_view(c: Compiler) -> CompStateV {
    CompStateV {
        instructions: c.byte_code.instructions@,
        constants: view_objects(c.byte_code.constants@),
        symbols: c.symbol_table@,
        next_slot: c.symbol_table.next_slot(),
        last_tag: c.last_tag,
    }
}

impl Compiler {
    /// Append a value to the constant pool and return its index, unless the
    /// 16-bit index space is exhausted.
    fn add_constant(&mut self, obj: Object) -> (r: Result<u16, CompileError>)
        ensures
            ({
                let st = comp_view(*old(self));
                if st.constants.len() >= 65536 {
                    r == Err::<u16, CompileError>(CompileError::TooManyConstants) && comp_view(
                        *final(self),
                    ) == st
                } else {
                    r == Ok::<u16, CompileError>(st.constants.len() as u16) && comp_view(
                        *final(self),
                    ) == (CompStateV {
                        constants: st.constants.push(view_object(obj)),
                        ..st
                    })
                }
            }),
    {
        proof {
            lemma_view_objects(self.byte_code.constants@);
        }
        if self.byte_code.constants.len() >= 65536 {
            return Err(CompileError::TooManyConstants);
        }
        let index = self.byte_code.constants.len() as u16;
        let ghost before = self.byte_code.constants@;
        self.byte_code.constants.push(obj);
        proof {
            lemma_view_objects(self.byte_code.constants@);
            lemma_view_objects(before);
            assert(view_objects(self.byte_code.constants@) =~= view_objects(before).push(
                view_object(obj),
            ));
        }
        Ok(index)
    }

    /// Append one encoded instruction to the stream.
    fn add_instruction(&mut self, op_code: OpCode)
        ensures
            comp_view(*final(self)) == spec_emit(comp_view(*old(self)), op_code),
    {
        let mut bytes = make_op(op_code);
        proof {
            assert(spec_make_op(op_code).len() >= 1);
        }
        let tag = bytes[0];
        self.byte_code.instructions.append(&mut bytes);
        self.last_tag = Some(tag);
        proof {
            assert(comp_view(*self) =~= spec_emit(comp_view(*old(self)), op_code));
        }
    }

    /// Overwrite the already-emitted instruction at byte offset `position`
    /// with a freshly encoded one of the same width.
    fn change_op(&mut self, position: usize, op_code: OpCode)
        requires
            position + spec_make_op(op_code).len() <= old(self).byte_code.instructions@.len(),
        ensures
            comp_view(*final(self)) == spec_change_op(
                comp_view(*old(self)),
                position as int,
                op_code,
            ),
    {
        let op_bytes = make_op(op_code);
        let n = self.byte_code.instructions.len();
        let mut k: usize = 0;
        while k < op_bytes.len()
            invariant
                k <= op_bytes@.len(),
                position + op_bytes@.len() <= n,
                n == self.byte_code.instructions@.len(),
                self.byte_code.instructions@.len() == old(self).byte_code.instructions@.len(),
                self.byte_code.constants == old(self).byte_code.constants,
                self.symbol_table == old(self).symbol_table,
                self.last_tag == old(self).last_tag,
                forall|j: int|
                    0 <= j < self.byte_code.instructions@.len() && !(position <= j < position + k)
                        ==> self.byte_code.instructions@[j] == old(
                        self,
                    ).byte_code.instructions@[j],
                forall|j: int|
                    0 <= j < k ==> self.byte_code.instructions@[position + j] == op_bytes@[j],
            decreases op_bytes@.len() - k,
        {
            let b = op_bytes[k];
            self.byte_code.instructions.set(position + k, b);
            k = k + 1;
        }
        proof {
            assert(self.byte_code.instructions@ =~= old(
                self,
            ).byte_code.instructions@.subrange(0, position as int) + spec_make_op(op_code) + old(
                self,
            ).byte_code.instructions@.subrange(
                position as int + spec_make_op(op_code).len(),
                old(self).byte_code.instructions@.len() as int,
            ));
            assert(comp_view(*self) =~= spec_change_op(
                comp_view(*old(self)),
                position as int,
                op_code,
            ));
        }
    }

    /// Is the most recently emitted instruction an `OpPop`?
    fn last_instruction_is_pop(&self) -> (r: bool)
        ensures
            r == (comp_view(*self).last_tag == Some(2u8)),
    {
        match self.last_tag {
            Some(tag) => tag == 2,
            None => false,
        }
    }

    /// Drop the trailing `OpPop` byte and forget the tracked instruction.
    fn remove_last_pop(&mut self)
        requires
            old(self).byte_code.instructions@.len() > 0,
        ensures
            comp_view(*final(self)) == (CompStateV {
                instructions: comp_view(*old(self)).instructions.drop_last(),
                last_tag: None,
                ..comp_view(*old(self))
            }),
    {
        self.byte_code.instructions.pop();
        self.last_tag = None;
        proof {
            assert(comp_view(*self) =~= (CompStateV {
                instructions: comp_view(*old(self)).instructions.drop_last(),
                last_tag: None,
                ..comp_view(*old(self))
            }));
        }
    }

    /// Compile one expression, emitting the bytes that push its value.
    #[verifier::rlimit(100)]
    fn compile_expression(&mut self, expr: &Expr) -> (r: Result<(), CompileError>)
        ensures
            ({
                let sp = spec_compile_expr(view_expr(*expr), comp_view(*old(self)));
                comp_view(*final(self)) == sp.1 && (match sp.0 {
                    Ok(_) => r is Ok,
                    Err(err) => r == Err::<(), CompileError>(err),
                })
            }),
        decreases *expr, 1int, 0int,
    {
        match expr {
            Expr::Const(n) => match self.add_constant(Object::Integer(*n)) {
                Ok(index) => {
                    self.add_instruction(OpCode::OpConstant(index));
                    Ok(())
                },
                Err(err) => Err(err),
            },
            Expr::String(s) => match self.add_constant(Object::String(s.clone())) {
                Ok(index) => {
                    self.add_instruction(OpCode::OpConstant(index));
                    Ok(())
                },
                Err(err) => Err(err),
            },
            Expr::Boolean(b) => {
                if *b {
                    self.add_instruction(OpCode::OpTrue);
                } else {
                    self.add_instruction(OpCode::OpFalse);
                }
                Ok(())
            },
            Expr::Prefix { prefix, value } => {
                match self.compile_expression(&**value) {
                    Ok(_) => {},
                    Err(err) => {
                        return Err(err);
                    },
                }
                match prefix {
                    Prefix::Minus => self.add_instruction(OpCode::OpMinus),
                    Prefix::Bang => self.add_instruction(OpCode::OpBang),
                }
                Ok(())
            },
            Expr::Infix { left, operator, right } => {
                let operands = match operator {
                    Operator::LessThan => {
                        match self.compile_expression(&**right) {
                            Ok(_) => self.compile_expression(&**left),
                            Err(err) => Err(err),
                        }
                    },
                    _ => {
                        match self.compile_expression(&**left) {
                            Ok(_) => self.compile_expression(&**right),
                            Err(err) => Err(err),
                        }
                    },
                };
                match operands {
                    Ok(_) => {
                        let op = match operator {
                            Operator::Plus => OpCode::OpAdd,
                            Operator::Minus => OpCode::OpSub,
                            Operator::Multiply => OpCode::OpMul,
                            Operator::Divide => OpCode::OpDiv,
                            Operator::Equals => OpCode::OpEquals,
                            Operator::NotEquals => OpCode::OpNotEquals,
                            Operator::GreaterThan => OpCode::OpGreaterThan,
                            Operator::LessThan => OpCode::OpGreaterThan,
                        };
                        self.add_instruction(op);
                        Ok(())
                    },
                    Err(err) => Err(err),
                }
            },
            Expr::If { .. } => self.compile_if(expr),
            Expr::Ident(name) => match self.symbol_table.resolve(name.as_str()) {
                Some(index) => {
                    self.add_instruction(OpCode::OpGetGlobal(index));
                    Ok(())
                },
                None => Err(CompileError::UndefinedVariable),
            },
            Expr::Function { parameters, body } => Err(CompileError::UnsupportedConstruct),
            Expr::Call { function, arguments } => Err(CompileError::UnsupportedConstruct),
        }
    }

    /// Compile a conditional: condition, a placeholder jump over the
    /// consequence, and (with an alternative) an unconditional jump over it,
    /// both back-patched once the true targets are known.
    #[verifier::rlimit(100)]
    fn compile_if(&mut self, expr: &Expr) -> (r: Result<(), CompileError>)
        requires
            (*expr) is If,
        ensures
            ({
                let sp = spec_compile_expr(view_expr(*expr), comp_view(*old(self)));
                comp_view(*final(self)) == sp.1 && (match sp.0 {
                    Ok(_) => r is Ok,
                    Err(err) => r == Err::<(), CompileError>(err),
                })
            }),
        decreases *expr, 0int, 0int,
    {
        let (condition, consequence, alternative) = match expr {
            Expr::If { condition, consequence, alternative } => (
                condition,
                consequence,
                alternative,
            ),
            _ => {
                proof {
                    assert(false);
                }
                return Err(CompileError::UnsupportedConstruct);
            },
        };
        proof {
            assert(view_expr(*expr) == ExprV::If {
                condition: Box::new(view_expr(**condition)),
                consequence: view_stmts(consequence@),
                alternative: view_stmts(alternative@),
            });
        }
        match self.compile_expression(&**condition) {
            Ok(_) => {},
            Err(err) => {
                return Err(err);
            },
        }
        let op_jump_position = self.byte_code.instructions.len();
        self.add_instruction(OpCode::OpJumpNotTrue(9999));
        let ghost st2 = comp_view(*self);
        match self.compile_statements(consequence) {
            Ok(_) => {},
            Err(err) => {
                return Err(err);
            },
        }
        proof {
            lemma_compile_stmts_extends(view_stmts(consequence@), st2);
            assert(st2.instructions.len() == op_jump_position + 3);
            assert(st2.last_tag == Some(14u8)) by {
                assert(spec_make_op(OpCode::OpJumpNotTrue(9999))[0] == 14);
            }
        }
        if self.last_instruction_is_pop() {
            self.remove_last_pop();
        }
        if alternative.len() == 0 {
            let end = self.byte_code.instructions.len();
            if end > 65535 {
                return Err(CompileError::CodeTooLarge);
            }
            self.change_op(op_jump_position, OpCode::OpJumpNotTrue(end as u16));
            Ok(())
        } else {
            let end = self.byte_code.instructions.len();
            if end > 65532 {
                return Err(CompileError::CodeTooLarge);
            }
            self.change_op(op_jump_position, OpCode::OpJumpNotTrue((end + 3) as u16));
            let op_jump_position2 = self.byte_code.instructions.len();
            self.add_instruction(OpCode::OpJump(9999));
            let ghost st6 = comp_view(*self);
            match self.compile_statements(alternative) {
                Ok(_) => {},
                Err(err) => {
                    return Err(err);
                },
            }
            proof {
                lemma_compile_stmts_extends(view_stmts(alternative@), st6);
                assert(st6.instructions.len() == op_jump_position2 + 3);
                assert(st6.last_tag == Some(15u8)) by {
                    assert(spec_make_op(OpCode::OpJump(9999))[0] == 15);
                }
            }
            if self.last_instruction_is_pop() {
                self.remove_last_pop();
            }
            let end2 = self.byte_code.instructions.len();
            if end2 > 65535 {
                return Err(CompileError::CodeTooLarge);
            }
            self.change_op(op_jump_position2, OpCode::OpJump(end2 as u16));
            Ok(())
        }
    }

    /// Compile one statement.
    #[verifier::rlimit(50)]
    fn compile_statement(&mut self, s: &Statement) -> (r: Result<(), CompileError>)
        ensures
            ({
                let sp = spec_compile_stmt(view_stmt(*s), comp_view(*old(self)));
                comp_view(*final(self)) == sp.1 && (match sp.0 {
                    Ok(_) => r is Ok,
                    Err(err) => r == Err::<(), CompileError>(err),
                })
            }),
        decreases *s, 0int, 0int,
    {
        match s {
            Statement::Let { name, value } => {
                proof {
                    assert(view_stmt(*s) == StatementV::Let {
                        name: name@,
                        value: view_expr(*value),
                    });
                }
                match self.compile_expression(value) {
                    Ok(_) => {},
                    Err(err) => {
                        return Err(err);
                    },
                }
                if self.symbol_table.next_index() > 65535 {
                    return Err(CompileError::TooManyGlobals);
                }
                let symbol_index = self.symbol_table.define(name.clone());
                self.add_instruction(OpCode::OpSetGlobal(symbol_index));
                Ok(())
            },
            Statement::Return { value } => {
                proof {
                    assert(view_stmt(*s) == StatementV::Return { value: view_expr(*value) });
                }
                Err(CompileError::UnsupportedConstruct)
            },
            Statement::Expression(e) => {
                proof {
                    assert(view_stmt(*s) == StatementV::Expression(view_expr(*e)));
                }
                match self.compile_expression(e) {
                    Ok(_) => {},
                    Err(err) => {
                        return Err(err);
                    },
                }
                self.add_instruction(OpCode::OpPop);
                Ok(())
            },
        }
    }

    /// Compile the statements from index `idx` on.
    fn compile_statements_from(&mut self, ast: &Vec<Statement>, idx: usize) -> (r: Result<
        (),
        CompileError,
    >)
        requires
            idx <= ast@.len(),
        ensures
            ({
                let sp = spec_compile_stmts(
                    view_stmts(ast@).subrange(idx as int, ast@.len() as int),
                    comp_view(*old(self)),
                );
                comp_view(*final(self)) == sp.1 && (match sp.0 {
                    Ok(_) => r is Ok,
                    Err(err) => r == Err::<(), CompileError>(err),
                })
            }),
        decreases ast@, ast@.len() - idx, 0int,
    {
        proof {
            lemma_view_stmts(ast@);
        }
        if idx >= ast.len() {
            proof {
                assert(view_stmts(ast@).subrange(idx as int, ast@.len() as int).len() == 0);
            }
            return Ok(());
        }
        let ghost st0 = comp_view(*self);
        let ghost srest = view_stmts(ast@).subrange(idx as int, ast@.len() as int);
        proof {
            assert(srest[0] == view_stmt(ast@[idx as int]));
            assert(srest.drop_first() =~= view_stmts(ast@).subrange(
                idx as int + 1,
                ast@.len() as int,
            ));
        }
        match self.compile_statement(&ast[idx]) {
            Ok(_) => {},
            Err(err) => {
                proof {
                    assert(spec_compile_stmts(srest, st0) == (
                        Err::<(), CompileError>(err),
                        comp_view(*self),
                    ));
                }
                return Err(err);
            },
        }
        proof {
            assert(spec_compile_stmts(srest, st0) == spec_compile_stmts(
                srest.drop_first(),
                comp_view(*self),
            ));
        }
        self.compile_statements_from(ast, idx + 1)
    }

    /// Compile a statement run in order.
    fn compile_statements(&mut self, ast: &Vec<Statement>) -> (r: Result<(), CompileError>)
        ensures
            ({
                let sp = spec_compile_stmts(view_stmts(ast@), comp_view(*old(self)));
                comp_view(*final(self)) == sp.1 && (match sp.0 {
                    Ok(_) => r is Ok,
                    Err(err) => r == Err::<(), CompileError>(err),
                })
            }),
        decreases ast@, ast@.len() + 1, 0int,
    {
        proof {
            lemma_view_stmts(ast@);
            assert(view_stmts(ast@).subrange(0, ast@.len() as int) =~= view_stmts(ast@));
        }
        self.compile_statements_from(ast, 0)
    }

    /// Compile a whole source text into a compiled unit.
    fn compile_from_source(input: &str) -> (r: Result<ByteCode, CompileError>)
        ensures
            (match spec_compile_source(input@) {
                Ok(stv) => r matches Ok(bc) && bc.instructions@ == stv.instructions
                    && view_objects(bc.constants@) == stv.constants,
                Err(e) => r == Err::<ByteCode, CompileError>(e),
            }),
    {
        let mut compiler = Compiler {
            byte_code: ByteCode::new(),
            symbol_table: SymbolTable::new(),
            last_tag: None,
        };
        proof {
            assert(view_objects(compiler.byte_code.constants@) =~= Seq::<ObjectV>::empty());
            assert(comp_view(compiler) =~= init_comp_state());
        }
        let tokens = match lex(input) {
            Ok(ts) => ts,
            Err(_) => {
                proof {
                    assert(false);
                }
                return Err(CompileError::Syntax(ParseError::UnexpectedToken));
            },
        };
        let ast = match parse(&tokens) {
            Ok(ast) => ast,
            Err(pe) => {
                return Err(CompileError::Syntax(pe));
            },
        };
        match compiler.compile_statements(&ast) {
            Ok(_) => Ok(compiler.byte_code),
            Err(err) => Err(err),
        }
    }
}

/// Compile a whole source text: tokenize it, parse it, and lower the
/// statements to an instruction stream and constant pool.
pub fn compile_from_source(input: &str) -> (r: Result<ByteCode, CompileError>)
    ensures
        (match spec_compile_source(input@) {
            Ok(stv) => r matches Ok(bc) && bc.instructions@ == stv.instructions && view_objects(
                bc.constants@,
            ) == stv.constants,
            Err(e) => r == Err::<ByteCode, CompileError>(e),
        }),
{
    Compiler::compile_from_source(input)
}

} // verus!
