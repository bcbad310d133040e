//! Virtual machine: executes an instruction stream against a constant pool,
//! a fixed-capacity operand stack, and a slot-indexed global store.
//!
//! Execution is a flat fetch-decode-execute loop over an instruction pointer
//! starting at 0; reaching the end of the stream is the only normal terminal
//! state. Every step is mirrored by a spec function; the executable machine
//! is proved to transform its state exactly as the mirror describes.
//! Stack overflow and underflow, division by zero, reads of never-written
//! globals, and truncated or unknown instructions are reported as typed
//! `VmError` values, and a caller-supplied instruction budget turns a runaway
//! loop into a typed error as well.

use vstd::prelude::*;

use crate::code::convert_two_u8s_be_to_usize;
use crate::code::spec_decode_operand;
use crate::compiler::ByteCode;
use crate::eval::Object;
use crate::eval::ObjectV;
use crate::eval::dup_object;
use crate::eval::spec_div_trunc;
use crate::eval::view_object;
use crate::eval::view_objects;
use crate::eval::lemma_view_objects;

verus! {

/// Capacity of the operand stack.
pub const STACK_SIZE: usize = 2048;

/// Capacity of the global store: one slot per addressable 16-bit index.
pub const GLOBALS_SIZE: usize = 65536;

/// Why execution stopped.
#[derive(Debug, PartialEq, Eq, Structural, Clone, Copy)]
pub enum VmError {
    /// A byte that is not an opcode tag reached the dispatch loop.
    UnknownOpcode,
    /// An opcode met operand kinds it does not accept.
    TypeMismatch,
    DivideByZero,
    /// An arithmetic result fell outside the signed 32-bit range; reported as
    /// a typed failure, like the other fatal conditions, rather than wrapping.
    IntegerOverflow,
    /// A push onto a full operand stack.
    StackOverflow,
    /// A pop from an empty operand stack.
    StackUnderflow,
    /// A read of a global slot that no store ever wrote.
    UninitializedGlobalAccess,
    /// The stream ended in the middle of an instruction's operand.
    TruncatedInstruction,
    /// A constant-pool reference at or past the pool's length.
    ConstantOutOfRange,
    /// The instruction budget was exhausted before the stream ended.
    ResourceExceeded,
}

/// The machine's whole state: instruction pointer, operand stack (all slots,
/// stale ones included) with its stack pointer, and the global store.
#[verifier::ext_equal]
pub ghost struct VmStateV {
    pub ip: int,
    pub stack: Seq<ObjectV>,
    pub sp: int,
    pub globals: Seq<Option<ObjectV>>,
}

/// The same state at another instruction pointer.
pub open spec fn with_ip(st: VmStateV, ip: int) -> VmStateV {
    VmStateV { ip, stack: st.stack, sp: st.sp, globals: st.globals }
}

/// Push a value: write it at `sp` and advance; a full stack is an error.
pub open spec fn spec_push(st: VmStateV, v: ObjectV) -> (Result<(), VmError>, VmStateV) {
    if st.sp >= st.stack.len() {
        (Err(VmError::StackOverflow), st)
    } else {
        (
            Ok(()),
            VmStateV {
                ip: st.ip,
                stack: st.stack.update(st.sp, v),
                sp: st.sp + 1,
                globals: st.globals,
            },
        )
    }
}

/// Pop a value: step `sp` back and read the slot, which keeps its (now stale)
/// contents; an empty stack is an error.
pub open spec fn spec_pop(st: VmStateV) -> (Result<ObjectV, VmError>, VmStateV) {
    if st.sp <= 0 {
        (Err(VmError::StackUnderflow), st)
    } else {
        (
            Ok(st.stack[st.sp - 1]),
            VmStateV { ip: st.ip, stack: st.stack, sp: st.sp - 1, globals: st.globals },
        )
    }
}

/// The integer result of one arithmetic opcode tag, or the error it raises.
pub open spec fn spec_arith(tag: u8, a: int, b: int) -> Result<int, VmError> {
    if tag == 3 {
        if i32::MIN <= a + b <= i32::MAX {
            Ok(a + b)
        } else {
            Err(VmError::IntegerOverflow)
        }
    } else if tag == 4 {
        if i32::MIN <= a - b <= i32::MAX {
            Ok(a - b)
        } else {
            Err(VmError::IntegerOverflow)
        }
    } else if tag == 5 {
        if i32::MIN <= a * b <= i32::MAX {
            Ok(a * b)
        } else {
            Err(VmError::IntegerOverflow)
        }
    } else if b == 0 {
        Err(VmError::DivideByZero)
    } else if i32::MIN <= spec_div_trunc(a, b) <= i32::MAX {
        Ok(spec_div_trunc(a, b))
    } else {
        Err(VmError::IntegerOverflow)
    }
}

/// The boolean result of one comparison opcode tag on two values; integers
/// compare numerically, booleans by identity, anything else is a type error.
pub open spec fn spec_compare(tag: u8, left: ObjectV, right: ObjectV) -> Result<bool, VmError> {
    match (left, right) {
        (ObjectV::Integer(a), ObjectV::Integer(b)) => if tag == 9 {
            Ok(a == b)
        } else if tag == 10 {
            Ok(a != b)
        } else {
            Ok(a > b)
        },
        (ObjectV::Boolean(a), ObjectV::Boolean(b)) => if tag == 9 {
            Ok(a == b)
        } else if tag == 10 {
            Ok(a != b)
        } else {
            Err(VmError::TypeMismatch)
        },
        _ => Err(VmError::TypeMismatch),
    }
}

/// Execute the single instruction at `st.ip` (which must be inside the
/// stream); on an error the state is the one the machine had reached when it
/// detected the error.
pub open spec fn spec_step(code: Seq<u8>, consts: Seq<ObjectV>, st: VmStateV) -> (Result<
    (),
    VmError,
>, VmStateV) {
    let tag = code[st.ip];
    if tag == 1 {
        if st.ip + 3 > code.len() {
            (Err(VmError::TruncatedInstruction), st)
        } else {
            let idx = spec_decode_operand(code[st.ip + 1], code[st.ip + 2]) as int;
            if idx >= consts.len() {
                (Err(VmError::ConstantOutOfRange), st)
            } else {
                let (pr, st1) = spec_push(st, consts[idx]);
                match pr {
                    Ok(_) => (Ok(()), with_ip(st1, st.ip + 3)),
                    Err(e) => (Err(e), st1),
                }
            }
        }
    } else if tag == 2 {
        let (pr, st1) = spec_pop(st);
        match pr {
            Ok(_) => (Ok(()), with_ip(st1, st.ip + 1)),
            Err(e) => (Err(e), st1),
        }
    } else if 3 <= tag && tag <= 6 {
        let (r1, st1) = spec_pop(st);
        match r1 {
            Ok(right) => {
                let (r2, st2) = spec_pop(st1);
                match r2 {
                    Ok(left) => match (left, right) {
                        (ObjectV::Integer(a), ObjectV::Integer(b)) => match spec_arith(
                            tag,
                            a as int,
                            b as int,
                        ) {
                            Ok(v) => {
                                let (pr, st3) = spec_push(st2, ObjectV::Integer(v as i32));
                                match pr {
                                    Ok(_) => (Ok(()), with_ip(st3, st.ip + 1)),
                                    Err(e) => (Err(e), st3),
                                }
                            },
                            Err(e) => (Err(e), st2),
                        },
                        _ => (Err(VmError::TypeMismatch), st2),
                    },
                    Err(e) => (Err(e), st2),
                }
            },
            Err(e) => (Err(e), st1),
        }
    } else if tag == 7 || tag == 8 {
        let (pr, st1) = spec_push(st, ObjectV::Boolean(tag == 7));
        match pr {
            Ok(_) => (Ok(()), with_ip(st1, st.ip + 1)),
            Err(e) => (Err(e), st1),
        }
    } else if 9 <= tag && tag <= 11 {
        let (r1, st1) = spec_pop(st);
        match r1 {
            Ok(right) => {
                let (r2, st2) = spec_pop(st1);
                match r2 {
                    Ok(left) => match spec_compare(tag, left, right) {
                        Ok(b) => {
                            let (pr, st3) = spec_push(st2, ObjectV::Boolean(b));
                            match pr {
                                Ok(_) => (Ok(()), with_ip(st3, st.ip + 1)),
                                Err(e) => (Err(e), st3),
                            }
                        },
                        Err(e) => (Err(e), st2),
                    },
                    Err(e) => (Err(e), st2),
                }
            },
            Err(e) => (Err(e), st1),
        }
    } else if tag == 12 {
        let (r1, st1) = spec_pop(st);
        match r1 {
            Ok(v) => match v {
                ObjectV::Integer(a) => if a == i32::MIN {
                    (Err(VmError::IntegerOverflow), st1)
                } else {
                    let (pr, st2) = spec_push(st1, ObjectV::Integer((-a) as i32));
                    match pr {
                        Ok(_) => (Ok(()), with_ip(st2, st.ip + 1)),
                        Err(e) => (Err(e), st2),
                    }
                },
                _ => (Err(VmError::TypeMismatch), st1),
            },
            Err(e) => (Err(e), st1),
        }
    } else if tag == 13 {
        let (r1, st1) = spec_pop(st);
        match r1 {
            Ok(v) => match v {
                ObjectV::Boolean(b) => {
                    let (pr, st2) = spec_push(st1, ObjectV::Boolean(!b));
                    match pr {
                        Ok(_) => (Ok(()), with_ip(st2, st.ip + 1)),
                        Err(e) => (Err(e), st2),
                    }
                },
                _ => (Err(VmError::TypeMismatch), st1),
            },
            Err(e) => (Err(e), st1),
        }
    } else if tag == 14 {
        if st.ip + 3 > code.len() {
            (Err(VmError::TruncatedInstruction), st)
        } else {
            let target = spec_decode_operand(code[st.ip + 1], code[st.ip + 2]) as int;
            let (r1, st1) = spec_pop(st);
            match r1 {
                Ok(v) => match v {
                    ObjectV::Boolean(b) => if b {
                        (Ok(()), with_ip(st1, st.ip + 3))
                    } else {
                        (Ok(()), with_ip(st1, target))
                    },
                    _ => (Err(VmError::TypeMismatch), st1),
                },
                Err(e) => (Err(e), st1),
            }
        }
    } else if tag == 15 {
        if st.ip + 3 > code.len() {
            (Err(VmError::TruncatedInstruction), st)
        } else {
            let target = spec_decode_operand(code[st.ip + 1], code[st.ip + 2]) as int;
            (Ok(()), with_ip(st, target))
        }
    } else if tag == 16 {
        if st.ip + 3 > code.len() {
            (Err(VmError::TruncatedInstruction), st)
        } else {
            let slot = spec_decode_operand(code[st.ip + 1], code[st.ip + 2]) as int;
            let (r1, st1) = spec_pop(st);
            match r1 {
                Ok(v) => (
                    Ok(()),
                    VmStateV {
                        ip: st.ip + 3,
                        stack: st1.stack,
                        sp: st1.sp,
                        globals: st1.globals.update(slot, Some(v)),
                    },
                ),
                Err(e) => (Err(e), st1),
            }
        }
    } else if tag == 17 {
        if st.ip + 3 > code.len() {
            (Err(VmError::TruncatedInstruction), st)
        } else {
            let slot = spec_decode_operand(code[st.ip + 1], code[st.ip + 2]) as int;
            match st.globals[slot] {
                Some(v) => {
                    let (pr, st1) = spec_push(st, v);
                    match pr {
                        Ok(_) => (Ok(()), with_ip(st1, st.ip + 3)),
                        Err(e) => (Err(e), st1),
                    }
                },
                None => (Err(VmError::UninitializedGlobalAccess), st),
            }
        }
    } else {
        (Err(VmError::UnknownOpcode), st)
    }
}

/// Run from `st` until the instruction pointer leaves the stream, an error
/// arises, or the step budget runs out.
pub open spec fn spec_run(fuel: nat, code: Seq<u8>, consts: Seq<ObjectV>, st: VmStateV) -> (Result<
    (),
    VmError,
>, VmStateV)
    decreases fuel,
{
    if st.ip < 0 || st.ip >= code.len() {
        (Ok(()), st)
    } else if fuel == 0 {
        (Err(VmError::ResourceExceeded), st)
    } else {
        let (sr, st1) = spec_step(code, consts, st);
        match sr {
            Ok(_) => spec_run((fuel - 1) as nat, code, consts, st1),
            Err(e) => (Err(e), st1),
        }
    }
}

/// The mathematical value of the global store.
pub open spec fn view_globals(gs: Seq<Option<Object>>) -> Seq<Option<ObjectV>> {
    Seq::new(
        gs.len(),
        |i: int|
            match gs[i] {
                Some(o) => Some(view_object(o)),
                None => None,
            },
    )
}

/// Arithmetic for one opcode tag on two integers, overflow checked.
fn arith_exec(tag: u8, a: i32, b: i32) -> (r: Result<i32, VmError>)
    requires
        3 <= tag <= 6,
    ensures
        (match spec_arith(tag, a as int, b as int) {
            Ok(v) => r matches Ok(x) && x as int == v,
            Err(e) => r == Err::<i32, VmError>(e),
        }),
{
    if tag == 3 {
        let s = (a as i64) + (b as i64);
        if s < -2147483648i64 || s > 2147483647i64 {
            Err(VmError::IntegerOverflow)
        } else {
            Ok(s as i32)
        }
    } else if tag == 4 {
        let s = (a as i64) - (b as i64);
        if s < -2147483648i64 || s > 2147483647i64 {
            Err(VmError::IntegerOverflow)
        } else {
            Ok(s as i32)
        }
    } else if tag == 5 {
        proof {
            assert((a as int) * (b as int) <= 0x4000_0000_0000_0000 && (a as int) * (b as int)
                >= -0x4000_0000_0000_0000) by (nonlinear_arith)
                requires
                    -0x8000_0000 <= a as int <= 0x7FFF_FFFF,
                    -0x8000_0000 <= b as int <= 0x7FFF_FFFF,
            ;
        }
        let s = (a as i64) * (b as i64);
        if s < -2147483648i64 || s > 2147483647i64 {
            Err(VmError::IntegerOverflow)
        } else {
            Ok(s as i32)
        }
    } else {
        if b == 0 {
            return Err(VmError::DivideByZero);
        }
        let negative = (a < 0) != (b < 0);
        let ua: u32 = if a < 0 {
            (-(a as i64)) as u32
        } else {
            a as u32
        };
        let ub: u32 = if b < 0 {
            (-(b as i64)) as u32
        } else {
            b as u32
        };
        let q: u32 = ua / ub;
        proof {
            assert(ua as int == crate::eval::spec_abs(a as int));
            assert(ub as int == crate::eval::spec_abs(b as int));
            assert(q as int <= ua as int) by (nonlinear_arith)
                requires
                    q == ua as int / ub as int,
                    ua >= 0,
                    ub >= 1,
            ;
        }
        if negative {
            Ok((-(q as i64)) as i32)
        } else {
            if q > 2147483647u32 {
                Err(VmError::IntegerOverflow)
            } else {
                Ok(q as i32)
            }
        }
    }
}

/// The machine: a borrowed compiled unit, an owned operand stack, and an
/// owned global store.
pub struct VM<'a> {
    instructions: &'a Vec<u8>,
    constants: &'a Vec<Object>,
    stack: Vec<Object>,
    sp: usize,
    globals: Vec<Option<Object>>,
}

impl<'a> VM<'a> {
    /// The stack and the global store have their fixed capacities and the
    /// stack pointer is inside the stack.
    pub closed spec fn wf(&self) -> bool {
        &&& self.stack@.len() == STACK_SIZE
        &&& self.globals@.len() == GLOBALS_SIZE
        &&& self.sp <= STACK_SIZE
    }

    /// The borrowed instruction stream.
    pub closed spec fn code(&self) -> Seq<u8> {
        self.instructions@
    }

    /// The borrowed constant pool.
    pub closed spec fn consts(&self) -> Seq<ObjectV> {
        view_objects(self.constants@)
    }

    /// The machine's state, placed at instruction pointer `ip`.
    pub closed spec fn state_at(&self, ip: int) -> VmStateV {
        VmStateV {
            ip,
            stack: view_objects(self.stack@),
            sp: self.sp as int,
            globals: view_globals(self.globals@),
        }
    }

    /// A fresh machine for one compiled unit: empty stack (`Null`-filled
    /// slots), no global written yet.
    pub fn new(byte_code: &'a ByteCode) -> (r: VM<'a>)
        ensures
            r.wf(),
            r.code() == byte_code.instructions@,
            r.consts() == view_objects(byte_code.constants@),
            r.state_at(0) == (VmStateV {
                ip: 0,
                stack: Seq::new(STACK_SIZE as nat, |i: int| ObjectV::Null),
                sp: 0,
                globals: Seq::new(GLOBALS_SIZE as nat, |i: int| None::<ObjectV>),
            }),
    {
        let mut stack: Vec<Object> = Vec::new();
        let mut i: usize = 0;
        while i < STACK_SIZE
            invariant
                i <= STACK_SIZE,
                stack@.len() == i,
                forall|j: int| 0 <= j < i ==> stack@[j] == Object::Null,
            decreases STACK_SIZE - i,
        {
            stack.push(Object::Null);
            i = i + 1;
        }
        let mut globals: Vec<Option<Object>> = Vec::new();
        let mut k: usize = 0;
        while k < GLOBALS_SIZE
            invariant
                k <= GLOBALS_SIZE,
                globals@.len() == k,
                forall|j: int| 0 <= j < k ==> globals@[j] == None::<Object>,
            decreases GLOBALS_SIZE - k,
        {
            globals.push(None);
            k = k + 1;
        }
        let r = VM {
            instructions: &byte_code.instructions,
            constants: &byte_code.constants,
            stack,
            sp: 0,
            globals,
        };
        proof {
            lemma_view_objects(r.stack@);
            assert(view_objects(r.stack@) =~= Seq::new(STACK_SIZE as nat, |i: int| ObjectV::Null));
            assert(view_globals(r.globals@) =~= Seq::new(
                GLOBALS_SIZE as nat,
                |i: int| None::<ObjectV>,
            ));
            assert(r.state_at(0) =~= (VmStateV {
                ip: 0,
                stack: Seq::new(STACK_SIZE as nat, |i: int| ObjectV::Null),
                sp: 0,
                globals: Seq::new(GLOBALS_SIZE as nat, |i: int| None::<ObjectV>),
            }));
        }
        r
    }

    /// Write `obj` at the stack pointer and advance it.
    fn push(&mut self, obj: Object) -> (r: Result<(), VmError>)
        requires
            old(self).wf(),
        ensures
            final(self).wf(),
            final(self).instructions == old(self).instructions,
            final(self).constants == old(self).constants,
            ({
                let (pr, st1) = spec_push(old(self).state_at(0), view_object(obj));
                final(self).state_at(0) == st1 && (match pr {
                    Ok(_) => r is Ok,
                    Err(e) => r == Err::<(), VmError>(e),
                })
            }),
    {
        proof {
            lemma_view_objects(self.stack@);
        }
        if self.sp >= STACK_SIZE {
            return Err(VmError::StackOverflow);
        }
        let ghost before = self.stack@;
        self.stack.set(self.sp, obj);
        self.sp = self.sp + 1;
        proof {
            lemma_view_objects(self.stack@);
            lemma_view_objects(before);
            assert(view_objects(self.stack@) =~= view_objects(before).update(
                old(self).sp as int,
                view_object(obj),
            ));
            assert(self.state_at(0) =~= spec_push(old(self).state_at(0), view_object(obj)).1);
        }
        Ok(())
    }

    /// Step the stack pointer back and hand out a copy of the slot it now
    /// points at; the slot itself keeps its contents.
    fn pop(&mut self) -> (r: Result<Object, VmError>)
        requires
            old(self).wf(),
        ensures
            final(self).wf(),
            final(self).instructions == old(self).instructions,
            final(self).constants == old(self).constants,
            ({
                let (pr, st1) = spec_pop(old(self).state_at(0));
                final(self).state_at(0) == st1 && (match pr {
                    Ok(v) => r matches Ok(o) && view_object(o) == v,
                    Err(e) => r == Err::<Object, VmError>(e),
                })
            }),
    {
        proof {
            lemma_view_objects(self.stack@);
        }
        if self.sp == 0 {
            return Err(VmError::StackUnderflow);
        }
        self.sp = self.sp - 1;
        let obj = dup_object(&self.stack[self.sp]);
        proof {
            assert(self.state_at(0) =~= spec_pop(old(self).state_at(0)).1);
        }
        Ok(obj)
    }

    /// One instruction of the dispatch loop.
    #[verifier::rlimit(100)]
    fn op_constant(&mut self, ip: usize) -> (r: Result<usize, VmError>)
        requires
            old(self).wf(),
            ip < old(self).code().len(),
            old(self).code()[ip as int] == 1,
        ensures
            final(self).wf(),
            final(self).instructions == old(self).instructions,
            final(self).constants == old(self).constants,
            ({
                let (sr, st1) = spec_step(
                    old(self).code(),
                    old(self).consts(),
                    old(self).state_at(ip as int),
                );
                final(self).state_at(st1.ip) == st1 && (match sr {
                    Ok(_) => r matches Ok(nip) && nip as int == st1.ip,
                    Err(e) => r == Err::<usize, VmError>(e),
                })
            }),
    {
        proof {
            lemma_view_objects(self.constants@);
        }
        let n = self.instructions.len();
        if n - ip <= 2 {
            return Err(VmError::TruncatedInstruction);
        }
        let index = convert_two_u8s_be_to_usize(
            self.instructions[ip + 1],
            self.instructions[ip + 2],
        );
        if index >= self.constants.len() {
            return Err(VmError::ConstantOutOfRange);
        }
        let value = dup_object(&self.constants[index]);
        match self.push(value) {
            Ok(_) => Ok(ip + 3),
            Err(e) => Err(e),
        }
    }

    /// One instruction of the dispatch loop.
    #[verifier::rlimit(100)]
    fn op_binary(&mut self, ip: usize) -> (r: Result<usize, VmError>)
        requires
            old(self).wf(),
            ip < old(self).code().len() <= usize::MAX,
            3 <= old(self).code()[ip as int] <= 6,
        ensures
            final(self).wf(),
            final(self).instructions == old(self).instructions,
            final(self).constants == old(self).constants,
            ({
                let (sr, st1) = spec_step(
                    old(self).code(),
                    old(self).consts(),
                    old(self).state_at(ip as int),
                );
                final(self).state_at(st1.ip) == st1 && (match sr {
                    Ok(_) => r matches Ok(nip) && nip as int == st1.ip,
                    Err(e) => r == Err::<usize, VmError>(e),
                })
            }),
    {
        proof {
            lemma_view_objects(self.constants@);
        }
        let tag = self.instructions[ip];
        let right = match self.pop() {
            Ok(o) => o,
            Err(e) => {
                return Err(e);
            },
        };
        let left = match self.pop() {
            Ok(o) => o,
            Err(e) => {
                return Err(e);
            },
        };
        match (left, right) {
            (Object::Integer(a), Object::Integer(b)) => {
                let v = match arith_exec(tag, a, b) {
                    Ok(v) => v,
                    Err(e) => {
                        return Err(e);
                    },
                };
                match self.push(Object::Integer(v)) {
                    Ok(_) => Ok(ip + 1),
                    Err(e) => Err(e),
                }
            },
            _ => Err(VmError::TypeMismatch),
        }
    }

    /// One instruction of the dispatch loop.
    #[verifier::rlimit(100)]
    fn op_compare(&mut self, ip: usize) -> (r: Result<usize, VmError>)
        requires
            old(self).wf(),
            ip < old(self).code().len() <= usize::MAX,
            9 <= old(self).code()[ip as int] <= 11,
        ensures
            final(self).wf(),
            final(self).instructions == old(self).instructions,
            final(self).constants == old(self).constants,
            ({
                let (sr, st1) = spec_step(
                    old(self).code(),
                    old(self).consts(),
                    old(self).state_at(ip as int),
                );
                final(self).state_at(st1.ip) == st1 && (match sr {
                    Ok(_) => r matches Ok(nip) && nip as int == st1.ip,
                    Err(e) => r == Err::<usize, VmError>(e),
                })
            }),
    {
        proof {
            lemma_view_objects(self.constants@);
        }
        let tag = self.instructions[ip];
        let right = match self.pop() {
            Ok(o) => o,
            Err(e) => {
                return Err(e);
            },
        };
        let left = match self.pop() {
            Ok(o) => o,
            Err(e) => {
                return Err(e);
            },
        };
        match (left, right) {
            (Object::Integer(a), Object::Integer(b)) => {
                let outcome = if tag == 9 {
                    a == b
                } else if tag == 10 {
                    a != b
                } else {
                    a > b
                };
                match self.push(Object::Boolean(outcome)) {
                    Ok(_) => Ok(ip + 1),
                    Err(e) => Err(e),
                }
            },
            (Object::Boolean(x), Object::Boolean(y)) => {
                if tag == 11 {
                    return Err(VmError::TypeMismatch);
                }
                let outcome = if tag == 9 {
                    x == y
                } else {
                    x != y
                };
                match self.push(Object::Boolean(outcome)) {
                    Ok(_) => Ok(ip + 1),
                    Err(e) => Err(e),
                }
            },
            _ => Err(VmError::TypeMismatch),
        }
    }

    /// One instruction of the dispatch loop.
    #[verifier::rlimit(100)]
    fn op_set_global(&mut self, ip: usize) -> (r: Result<usize, VmError>)
        requires
            old(self).wf(),
            ip < old(self).code().len(),
            old(self).code()[ip as int] == 16,
        ensures
            final(self).wf(),
            final(self).instructions == old(self).instructions,
            final(self).constants == old(self).constants,
            ({
                let (sr, st1) = spec_step(
                    old(self).code(),
                    old(self).consts(),
                    old(self).state_at(ip as int),
                );
                final(self).state_at(st1.ip) == st1 && (match sr {
                    Ok(_) => r matches Ok(nip) && nip as int == st1.ip,
                    Err(e) => r == Err::<usize, VmError>(e),
                })
            }),
    {
        proof {
            lemma_view_objects(self.constants@);
        }
        let n = self.instructions.len();
        if n - ip <= 2 {
            return Err(VmError::TruncatedInstruction);
        }
        let slot = convert_two_u8s_be_to_usize(
            self.instructions[ip + 1],
            self.instructions[ip + 2],
        );
        let v = match self.pop() {
            Ok(o) => o,
            Err(e) => {
                return Err(e);
            },
        };
        let ghost before = self.globals@;
        self.globals.set(slot, Some(v));
        proof {
            assert(view_globals(self.globals@) =~= view_globals(before).update(
                slot as int,
                Some(view_object(v)),
            ));
        }
        Ok(ip + 3)
    }

    /// One instruction of the dispatch loop.
    #[verifier::rlimit(100)]
    fn op_get_global(&mut self, ip: usize) -> (r: Result<usize, VmError>)
        requires
            old(self).wf(),
            ip < old(self).code().len(),
            old(self).code()[ip as int] == 17,
        ensures
            final(self).wf(),
            final(self).instructions == old(self).instructions,
            final(self).constants == old(self).constants,
            ({
                let (sr, st1) = spec_step(
                    old(self).code(),
                    old(self).consts(),
                    old(self).state_at(ip as int),
                );
                final(self).state_at(st1.ip) == st1 && (match sr {
                    Ok(_) => r matches Ok(nip) && nip as int == st1.ip,
                    Err(e) => r == Err::<usize, VmError>(e),
                })
            }),
    {
        proof {
            lemma_view_objects(self.constants@);
        }
        let n = self.instructions.len();
        if n - ip <= 2 {
            return Err(VmError::TruncatedInstruction);
        }
        let slot = convert_two_u8s_be_to_usize(
            self.instructions[ip + 1],
            self.instructions[ip + 2],
        );
        match &self.globals[slot] {
            Some(o) => {
                let value = dup_object(o);
                match self.push(value) {
                    Ok(_) => Ok(ip + 3),
                    Err(e) => Err(e),
                }
            },
            None => Err(VmError::UninitializedGlobalAccess),
        }
    }

    /// Execute the single instruction at `ip`, returning the next
    /// instruction pointer.
    #[verifier::rlimit(100)]
    fn step(&mut self, ip: usize) -> (r: Result<usize, VmError>)
        requires
            old(self).wf(),
            ip < old(self).code().len(),
        ensures
            final(self).wf(),
            final(self).instructions == old(self).instructions,
            final(self).constants == old(self).constants,
            ({
                let (sr, st1) = spec_step(
                    old(self).code(),
                    old(self).consts(),
                    old(self).state_at(ip as int),
                );
                final(self).state_at(st1.ip) == st1 && (match sr {
                    Ok(_) => r matches Ok(nip) && nip as int == st1.ip,
                    Err(e) => r == Err::<usize, VmError>(e),
                })
            }),
    {
        let n = self.instructions.len();
        let tag = self.instructions[ip];
        match tag {
            1u8 => self.op_constant(ip),
            2u8 => match self.pop() {
                Ok(_) => Ok(ip + 1),
                Err(e) => Err(e),
            },
            3u8 | 4u8 | 5u8 | 6u8 => self.op_binary(ip),
            7u8 => match self.push(Object::Boolean(true)) {
                Ok(_) => Ok(ip + 1),
                Err(e) => Err(e),
            },
            8u8 => match self.push(Object::Boolean(false)) {
                Ok(_) => Ok(ip + 1),
                Err(e) => Err(e),
            },
            9u8 | 10u8 | 11u8 => self.op_compare(ip),
            12u8 => {
                let v = match self.pop() {
                    Ok(o) => o,
                    Err(e) => {
                        return Err(e);
                    },
                };
                match v {
                    Object::Integer(a) => {
                        if a == i32::MIN {
                            return Err(VmError::IntegerOverflow);
                        }
                        match self.push(Object::Integer(-a)) {
                            Ok(_) => Ok(ip + 1),
                            Err(e) => Err(e),
                        }
                    },
                    _ => Err(VmError::TypeMismatch),
                }
            },
            13u8 => {
                let v = match self.pop() {
                    Ok(o) => o,
                    Err(e) => {
                        return Err(e);
                    },
                };
                match v {
                    Object::Boolean(b) => match self.push(Object::Boolean(!b)) {
                        Ok(_) => Ok(ip + 1),
                        Err(e) => Err(e),
                    },
                    _ => Err(VmError::TypeMismatch),
                }
            },
            14u8 => {
                if n - ip <= 2 {
                    return Err(VmError::TruncatedInstruction);
                }
                let target = convert_two_u8s_be_to_usize(
                    self.instructions[ip + 1],
                    self.instructions[ip + 2],
                );
                let v = match self.pop() {
                    Ok(o) => o,
                    Err(e) => {
                        return Err(e);
                    },
                };
                match v {
                    Object::Boolean(b) => if b {
                        Ok(ip + 3)
                    } else {
                        Ok(target)
                    },
                    _ => Err(VmError::TypeMismatch),
                }
            },
            15u8 => {
                if n - ip <= 2 {
                    return Err(VmError::TruncatedInstruction);
                }
                let target = convert_two_u8s_be_to_usize(
                    self.instructions[ip + 1],
                    self.instructions[ip + 2],
                );
                Ok(target)
            },
            16u8 => self.op_set_global(ip),
            17u8 => self.op_get_global(ip),
            _ => Err(VmError::UnknownOpcode),
        }
    }

    /// Run the whole stream from its start, spending at most `fuel`
    /// instruction steps.
    pub fn run(&mut self, fuel: u64) -> (r: Result<(), VmError>)
        requires
            old(self).wf(),
        ensures
            final(self).wf(),
            final(self).code() == old(self).code(),
            final(self).consts() == old(self).consts(),
            ({
                let (rr, stf) = spec_run(
                    fuel as nat,
                    old(self).code(),
                    old(self).consts(),
                    old(self).state_at(0),
                );
                final(self).state_at(stf.ip) == stf && final(self).state_at(0) == with_ip(
                    stf,
                    0,
                ) && (match rr {
                    Ok(_) => r is Ok,
                    Err(e) => r == Err::<(), VmError>(e),
                })
            }),
    {
        let mut ip: usize = 0;
        let mut remaining: u64 = fuel;
        let n = self.instructions.len();
        while ip < n
            invariant
                self.wf(),
                self.instructions == old(self).instructions,
                self.constants == old(self).constants,
                n == self.code().len(),
                spec_run(fuel as nat, old(self).code(), old(self).consts(), old(self).state_at(0))
                    == spec_run(
                    remaining as nat,
                    self.code(),
                    self.consts(),
                    self.state_at(ip as int),
                ),
            decreases remaining,
        {
            if remaining == 0 {
                return Err(VmError::ResourceExceeded);
            }
            remaining = remaining - 1;
            match self.step(ip) {
                Ok(next_ip) => {
                    ip = next_ip;
                },
                Err(e) => {
                    return Err(e);
                },
            }
        }
        Ok(())
    }

    /// The slot at the stack pointer: the most recently popped value, which
    /// is the observable result of a finished run.
    pub fn last_popped(&self) -> (r: &Object)
        requires
            self.wf(),
            self.state_at(0).sp < STACK_SIZE,
        ensures
            view_object(*r) == self.state_at(0).stack[self.state_at(0).sp],
    {
        proof {
            lemma_view_objects(self.stack@);
        }
        &self.stack[self.sp]
    }
}

} // verus!
