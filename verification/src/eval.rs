//! Tree-walking evaluator: executes the AST directly against a name
//! environment, as an alternative to the compile-and-run path.
//!
//! Every evaluation step is mirrored by a spec function over AST views; the
//! executable evaluator is proved to return exactly what its mirror describes.
//! Type mismatches, undefined names, division by zero and out-of-range
//! arithmetic are reported as typed `EvalError` values, and a caller-supplied
//! fuel bound turns runaway recursion into a typed error as well.

use vstd::prelude::*;

use crate::parser::Expr;
use crate::parser::ExprV;
use crate::parser::Operator;
use crate::parser::Prefix;
use crate::parser::Statement;
use crate::parser::StatementV;
use crate::parser::dup_stmts;
use crate::parser::dup_strings;
use crate::parser::lemma_view_exprs;
use crate::parser::lemma_view_stmts;
use crate::parser::view_expr;
use crate::parser::view_exprs;
use crate::parser::view_stmt;
use crate::parser::view_stmts;
use crate::parser::view_strings;

verus! {

/// One runtime value.
#[derive(Debug, PartialEq)]
pub enum Object {
    Integer(i32),
    String(String),
    Boolean(bool),
    Null,
    Return(Box<Object>),
    Function { parameters: Vec<String>, body: Vec<Statement> },
}

/// The mathematical shape of a runtime value.
pub ghost enum ObjectV {
    Integer(i32),
    Str(Seq<char>),
    Boolean(bool),
    Null,
    Return(Box<ObjectV>),
    Function { parameters: Seq<Seq<char>>, body: Seq<StatementV> },
}

/// The mathematical value of a runtime value.
pub open spec fn view_object(o: Object) -> ObjectV
    decreases o,
{
    match o {
        Object::Integer(n) => ObjectV::Integer(n),
        Object::String(s) => ObjectV::Str(s@),
        Object::Boolean(b) => ObjectV::Boolean(b),
        Object::Null => ObjectV::Null,
        Object::Return(inner) => ObjectV::Return(Box::new(view_object(*inner))),
        Object::Function { parameters, body } => ObjectV::Function {
            parameters: view_strings(parameters@),
            body: view_stmts(body@),
        },
    }
}

/// Structure-preserving copy of a runtime value.
pub fn dup_object(o: &Object) -> (r: Object)
    ensures
        view_object(r) == view_object(*o),
    decreases *o,
{
    match o {
        Object::Integer(n) => Object::Integer(*n),
        Object::String(s) => Object::String(s.clone()),
        Object::Boolean(b) => Object::Boolean(*b),
        Object::Null => Object::Null,
        Object::Return(inner) => Object::Return(Box::new(dup_object(&**inner))),
        Object::Function { parameters, body } => Object::Function {
            parameters: dup_strings(parameters),
            body: dup_stmts(body),
        },
    }
}

impl Clone for Object {
    /// A structure-preserving copy.
    fn clone(&self) -> (r: Object)
        ensures
            view_object(r) == view_object(*self),
    {
        dup_object(self)
    }
}

/// A name environment for evaluation.
pub struct Env {
    env: Vec<(String, Object)>,
}

/// The name-to-value map an entry list holds; later entries win.
spec fn assoc_objects(entries: Seq<(String, Object)>) -> Map<Seq<char>, ObjectV>
    decreases entries.len(),
{
    if entries.len() == 0 {
        Map::empty()
    } else {
        assoc_objects(entries.drop_last()).insert(
            entries.last().0@,
            view_object(entries.last().1),
        )
    }
}

impl View for Env {
    type V = Map<Seq<char>, ObjectV>;

    closed spec fn view(&self) -> Map<Seq<char>, ObjectV> {
        assoc_objects(self.env@)
    }
}

fn get_in(entries: &Vec<(String, Object)>, n: usize, key: &String) -> (r: Option<Object>)
    requires
        n <= entries@.len(),
    ensures
        (match r {
            Some(o) => assoc_objects(entries@.subrange(0, n as int)).contains_key(key@)
                && view_object(o) == assoc_objects(entries@.subrange(0, n as int))[key@],
            None => !assoc_objects(entries@.subrange(0, n as int)).contains_key(key@),
        }),
    decreases n,
{
    if n == 0 {
        proof {
            assert(entries@.subrange(0, 0).len() == 0);
        }
        None
    } else {
        proof {
            assert(entries@.subrange(0, n as int).drop_last() =~= entries@.subrange(
                0,
                n as int - 1,
            ));
            assert(entries@.subrange(0, n as int).last() == entries@[n as int - 1]);
        }
        let entry = &entries[n - 1];
        if entry.0 == *key {
            Some(dup_object(&entry.1))
        } else {
            get_in(entries, n - 1, key)
        }
    }
}

impl Env {
    /// An empty environment.
    pub fn new() -> (r: Self)
        ensures
            r@ == Map::<Seq<char>, ObjectV>::empty(),
    {
        let r = Env { env: Vec::new() };
        proof {
            assert(r@ =~= Map::<Seq<char>, ObjectV>::empty());
        }
        r
    }

    /// Bind `key` to `value`, shadowing any earlier binding.
    pub fn set(&mut self, key: String, value: Object)
        ensures
            final(self)@ == old(self)@.insert(key@, view_object(value)),
    {
        let ghost before = self.env@;
        self.env.push((key, value));
        proof {
            assert(self.env@.drop_last() =~= before);
        }
    }

    /// A copy of the value bound to `key`, if any.
    pub fn get(&self, key: &str) -> (r: Option<Object>)
        ensures
            (match r {
                Some(o) => self@.contains_key(key@) && view_object(o) == self@[key@],
                None => !self@.contains_key(key@),
            }),
    {
        let owned = key.to_owned();
        let n = self.env.len();
        proof {
            assert(self.env@.subrange(0, n as int) =~= self.env@);
        }
        get_in(&self.env, n, &owned)
    }
}

/// The mathematical value of a runtime value sequence.
pub open spec fn view_objects(os: Seq<Object>) -> Seq<ObjectV>
    decreases os,
{
    if os.len() == 0 {
        Seq::empty()
    } else {
        seq![view_object(os[0])] + view_objects(os.drop_first())
    }
}

/// A runtime value sequence is viewed element by element.
pub proof fn lemma_view_objects(os: Seq<Object>)
    ensures
        view_objects(os).len() == os.len(),
        forall|i: int| 0 <= i < os.len() ==> view_objects(os)[i] == view_object(os[i]),
    decreases os.len(),
{
    if os.len() > 0 {
        lemma_view_objects(os.drop_first());
    }
}

/// Why evaluation stopped.
#[derive(Debug, PartialEq, Eq, Structural, Clone, Copy)]
pub enum EvalError {
    /// An operator was applied to operand kinds it does not accept.
    TypeMismatch,
    /// An identifier was read before any binding gave it a value.
    UndefinedVariable,
    /// A call was made on a value that is not a function.
    NotAFunction,
    /// A call passed a number of arguments different from the parameter count.
    WrongArity,
    DivideByZero,
    /// An arithmetic result fell outside the signed 32-bit range; reported as
    /// a typed failure, like the other fatal conditions, rather than wrapping.
    IntegerOverflow,
    /// The fuel bound was exhausted before evaluation finished.
    RecursionLimit,
}

/// Magnitude of an integer.
pub open spec fn spec_abs(a: int) -> int {
    if a < 0 {
        -a
    } else {
        a
    }
}

/// Truncating signed division, as the machine performs it.
pub open spec fn spec_div_trunc(a: int, b: int) -> int {
    if (a < 0) == (b < 0) {
        spec_abs(a) / spec_abs(b)
    } else {
        -(spec_abs(a) / spec_abs(b))
    }
}

/// The result of one infix operator on two already-evaluated values.
pub open spec fn spec_apply_infix(op: Operator, l: ObjectV, r: ObjectV) -> Result<
    ObjectV,
    EvalError,
> {
    match op {
        Operator::Plus => match (l, r) {
            (ObjectV::Integer(a), ObjectV::Integer(b)) => if i32::MIN <= a + b <= i32::MAX {
                Ok(ObjectV::Integer((a + b) as i32))
            } else {
                Err(EvalError::IntegerOverflow)
            },
            (ObjectV::Str(a), ObjectV::Str(b)) => Ok(ObjectV::Str(a + b)),
            _ => Err(EvalError::TypeMismatch),
        },
        Operator::Minus => match (l, r) {
            (ObjectV::Integer(a), ObjectV::Integer(b)) => if i32::MIN <= a - b <= i32::MAX {
                Ok(ObjectV::Integer((a - b) as i32))
            } else {
                Err(EvalError::IntegerOverflow)
            },
            _ => Err(EvalError::TypeMismatch),
        },
        Operator::Multiply => match (l, r) {
            (ObjectV::Integer(a), ObjectV::Integer(b)) => if i32::MIN <= a * b <= i32::MAX {
                Ok(ObjectV::Integer((a * b) as i32))
            } else {
                Err(EvalError::IntegerOverflow)
            },
            _ => Err(EvalError::TypeMismatch),
        },
        Operator::Divide => match (l, r) {
            (ObjectV::Integer(a), ObjectV::Integer(b)) => if b == 0 {
                Err(EvalError::DivideByZero)
            } else if i32::MIN <= spec_div_trunc(a as int, b as int) <= i32::MAX {
                Ok(ObjectV::Integer(spec_div_trunc(a as int, b as int) as i32))
            } else {
                Err(EvalError::IntegerOverflow)
            },
            _ => Err(EvalError::TypeMismatch),
        },
        Operator::LessThan => match (l, r) {
            (ObjectV::Integer(a), ObjectV::Integer(b)) => Ok(ObjectV::Boolean(a < b)),
            _ => Err(EvalError::TypeMismatch),
        },
        Operator::GreaterThan => match (l, r) {
            (ObjectV::Integer(a), ObjectV::Integer(b)) => Ok(ObjectV::Boolean(a > b)),
            _ => Err(EvalError::TypeMismatch),
        },
        Operator::Equals => match (l, r) {
            (ObjectV::Integer(a), ObjectV::Integer(b)) => Ok(ObjectV::Boolean(a == b)),
            (ObjectV::Boolean(a), ObjectV::Boolean(b)) => Ok(ObjectV::Boolean(a == b)),
            _ => Err(EvalError::TypeMismatch),
        },
        Operator::NotEquals => match (l, r) {
            (ObjectV::Integer(a), ObjectV::Integer(b)) => Ok(ObjectV::Boolean(a != b)),
            (ObjectV::Boolean(a), ObjectV::Boolean(b)) => Ok(ObjectV::Boolean(a != b)),
            _ => Err(EvalError::TypeMismatch),
        },
    }
}

/// The parameter list and body that a call target denotes: a name bound to a
/// function, or a function literal. The callee expression itself is not
/// evaluated.
pub open spec fn spec_callee(f: ExprV, env: Map<Seq<char>, ObjectV>) -> Result<
    (Seq<Seq<char>>, Seq<StatementV>),
    EvalError,
> {
    match f {
        ExprV::Ident(name) => if env.contains_key(name) {
            match env[name] {
                ObjectV::Function { parameters, body } => Ok((parameters, body)),
                _ => Err(EvalError::NotAFunction),
            }
        } else {
            Err(EvalError::UndefinedVariable)
        },
        ExprV::Function { parameters, body } => Ok((parameters, body)),
        _ => Err(EvalError::NotAFunction),
    }
}

/// The fresh environment a call runs in: each parameter bound to its
/// argument, later parameters winning on a repeated name.
pub open spec fn spec_bind(params: Seq<Seq<char>>, vals: Seq<ObjectV>) -> Map<Seq<char>, ObjectV>
    decreases params.len(),
{
    if params.len() == 0 || vals.len() == 0 {
        Map::empty()
    } else {
        spec_bind(params.drop_last(), vals.drop_last()).insert(params.last(), vals.last())
    }
}

/// Evaluate one expression: the result (or error) and the environment after.
pub open spec fn spec_eval_expr(fuel: nat, e: ExprV, env: Map<Seq<char>, ObjectV>) -> (Result<
    ObjectV,
    EvalError,
>, Map<Seq<char>, ObjectV>)
    decreases fuel,
{
    if fuel == 0 {
        (Err(EvalError::RecursionLimit), env)
    } else {
        let f = (fuel - 1) as nat;
        match e {
            ExprV::Str(s) => (Ok(ObjectV::Str(s)), env),
            ExprV::Const(n) => (Ok(ObjectV::Integer(n)), env),
            ExprV::Boolean(b) => (Ok(ObjectV::Boolean(b)), env),
            ExprV::Prefix { prefix, value } => {
                let (vr, env1) = spec_eval_expr(f, *value, env);
                match vr {
                    Ok(v) => match (prefix, v) {
                        (Prefix::Bang, ObjectV::Boolean(b)) => (Ok(ObjectV::Boolean(!b)), env1),
                        (Prefix::Minus, ObjectV::Integer(n)) => if n == i32::MIN {
                            (Err(EvalError::IntegerOverflow), env1)
                        } else {
                            (Ok(ObjectV::Integer((-n) as i32)), env1)
                        },
                        _ => (Err(EvalError::TypeMismatch), env1),
                    },
                    Err(err) => (Err(err), env1),
                }
            },
            ExprV::Infix { left, operator, right } => {
                let (lr, env1) = spec_eval_expr(f, *left, env);
                match lr {
                    Ok(lv) => {
                        let (rr, env2) = spec_eval_expr(f, *right, env1);
                        match rr {
                            Ok(rv) => (spec_apply_infix(operator, lv, rv), env2),
                            Err(err) => (Err(err), env2),
                        }
                    },
                    Err(err) => (Err(err), env1),
                }
            },
            ExprV::If { condition, consequence, alternative } => {
                let (cr, env1) = spec_eval_expr(f, *condition, env);
                match cr {
                    Ok(cv) => if cv == ObjectV::Boolean(true) {
                        spec_eval_stmts(f, consequence, env1)
                    } else {
                        spec_eval_stmts(f, alternative, env1)
                    },
                    Err(err) => (Err(err), env1),
                }
            },
            ExprV::Ident(name) => if env.contains_key(name) {
                (Ok(env[name]), env)
            } else {
                (Err(EvalError::UndefinedVariable), env)
            },
            ExprV::Function { parameters, body } => (
                Ok(ObjectV::Function { parameters, body }),
                env,
            ),
            ExprV::Call { function, arguments } => match spec_callee(*function, env) {
                Ok((params, body)) => if params.len() == arguments.len() {
                    let (ar, env1) = spec_eval_args(f, arguments, env);
                    match ar {
                        Ok(vals) => {
                            let inner = spec_eval_return_scope(f, body, spec_bind(params, vals));
                            match inner.0 {
                                Ok(v) => (Ok(v), env1),
                                Err(err) => (Err(err), env1),
                            }
                        },
                        Err(err) => (Err(err), env1),
                    }
                } else {
                    (Err(EvalError::WrongArity), env)
                },
                Err(err) => (Err(err), env),
            },
        }
    }
}

/// Evaluate call arguments left to right, threading the environment.
pub open spec fn spec_eval_args(fuel: nat, es: Seq<ExprV>, env: Map<Seq<char>, ObjectV>) -> (Result<
    Seq<ObjectV>,
    EvalError,
>, Map<Seq<char>, ObjectV>)
    decreases fuel,
{
    if fuel == 0 {
        (Err(EvalError::RecursionLimit), env)
    } else {
        let f = (fuel - 1) as nat;
        if es.len() == 0 {
            (Ok(Seq::empty()), env)
        } else {
            let (hr, env1) = spec_eval_expr(f, es[0], env);
            match hr {
                Ok(v) => {
                    let (tr, env2) = spec_eval_args(f, es.drop_first(), env1);
                    match tr {
                        Ok(rest) => (Ok(seq![v] + rest), env2),
                        Err(err) => (Err(err), env2),
                    }
                },
                Err(err) => (Err(err), env1),
            }
        }
    }
}

/// Evaluate one statement: its value (a `Let` yields the bound value) and the
/// environment after.
pub open spec fn spec_eval_stmt(fuel: nat, s: StatementV, env: Map<Seq<char>, ObjectV>) -> (Result<
    ObjectV,
    EvalError,
>, Map<Seq<char>, ObjectV>)
    decreases fuel,
{
    if fuel == 0 {
        (Err(EvalError::RecursionLimit), env)
    } else {
        let f = (fuel - 1) as nat;
        match s {
            StatementV::Expression(e) => spec_eval_expr(f, e, env),
            StatementV::Let { name, value } => {
                let (vr, env1) = spec_eval_expr(f, value, env);
                match vr {
                    Ok(v) => (Ok(v), env1.insert(name, v)),
                    Err(err) => (Err(err), env1),
                }
            },
            StatementV::Return { value } => {
                let (vr, env1) = spec_eval_expr(f, value, env);
                match vr {
                    Ok(v) => (Ok(ObjectV::Return(Box::new(v))), env1),
                    Err(err) => (Err(err), env1),
                }
            },
        }
    }
}

/// Evaluate a statement run: the last statement's value (`Null` when empty),
/// stopping early at a `Return` value without unwrapping it.
pub open spec fn spec_eval_stmts(fuel: nat, ss: Seq<StatementV>, env: Map<Seq<char>, ObjectV>) -> (
    Result<ObjectV, EvalError>,
    Map<Seq<char>, ObjectV>,
)
    decreases fuel,
{
    if fuel == 0 {
        (Err(EvalError::RecursionLimit), env)
    } else {
        let f = (fuel - 1) as nat;
        if ss.len() == 0 {
            (Ok(ObjectV::Null), env)
        } else {
            let (hr, env1) = spec_eval_stmt(f, ss[0], env);
            match hr {
                Ok(v) => if v is Return {
                    (Ok(v), env1)
                } else if ss.len() == 1 {
                    (Ok(v), env1)
                } else {
                    spec_eval_stmts(f, ss.drop_first(), env1)
                },
                Err(err) => (Err(err), env1),
            }
        }
    }
}

/// Evaluate a statement run and unwrap a top-level `Return` value.
pub open spec fn spec_eval_return_scope(
    fuel: nat,
    ss: Seq<StatementV>,
    env: Map<Seq<char>, ObjectV>,
) -> (Result<ObjectV, EvalError>, Map<Seq<char>, ObjectV>)
    decreases fuel,
{
    if fuel == 0 {
        (Err(EvalError::RecursionLimit), env)
    } else {
        let (r, env1) = spec_eval_stmts((fuel - 1) as nat, ss, env);
        match r {
            Ok(ObjectV::Return(inner)) => (Ok(*inner), env1),
            Ok(v) => (Ok(v), env1),
            Err(err) => (Err(err), env1),
        }
    }
}

/// When argument evaluation succeeds it yields one value per argument.
pub proof fn lemma_eval_args_len(fuel: nat, es: Seq<ExprV>, env: Map<Seq<char>, ObjectV>)
    ensures
        spec_eval_args(fuel, es, env).0 matches Ok(vs) ==> vs.len() == es.len(),
    decreases fuel,
{
    if fuel > 0 && es.len() > 0 {
        let f = (fuel - 1) as nat;
        let (hr, env1) = spec_eval_expr(f, es[0], env);
        match hr {
            Ok(_) => {
                lemma_eval_args_len(f, es.drop_first(), env1);
            },
            Err(_) => {
            },
        }
    }
}

/// Apply one infix operator to two already-evaluated values.
fn apply_infix(op: Operator, l: Object, r: Object) -> (res: Result<Object, EvalError>)
    ensures
        (match spec_apply_infix(op, view_object(l), view_object(r)) {
            Ok(ov) => res matches Ok(o) && view_object(o) == ov,
            Err(e) => res == Err::<Object, EvalError>(e),
        }),
{
    match (op, l, r) {
        (Operator::Plus, Object::Integer(a), Object::Integer(b)) => {
            let s = (a as i64) + (b as i64);
            if s < -2147483648i64 || s > 2147483647i64 {
                Err(EvalError::IntegerOverflow)
            } else {
                Ok(Object::Integer(s as i32))
            }
        },
        (Operator::Plus, Object::String(a), Object::String(b)) => Ok(
            Object::String(a.concat(b.as_str())),
        ),
        (Operator::Minus, Object::Integer(a), Object::Integer(b)) => {
            let s = (a as i64) - (b as i64);
            if s < -2147483648i64 || s > 2147483647i64 {
                Err(EvalError::IntegerOverflow)
            } else {
                Ok(Object::Integer(s as i32))
            }
        },
        (Operator::Multiply, Object::Integer(a), Object::Integer(b)) => {
            proof {
                assert((a as int) * (b as int) <= 0x4000_0000_0000_0000 && (a as int) * (b as int)
                    >= -0x4000_0000_0000_0000) by (nonlinear_arith)
                    requires
                        -0x8000_0000 <= a as int <= 0x7FFF_FFFF,
                        -0x8000_0000 <= b as int <= 0x7FFF_FFFF,
                ;
            }
            let s = (a as i64) * (b as i64);
            if s < -2147483648i64 || s > 2147483647i64 {
                Err(EvalError::IntegerOverflow)
            } else {
                Ok(Object::Integer(s as i32))
            }
        },
        (Operator::Divide, Object::Integer(a), Object::Integer(b)) => div_integers(a, b),
        (Operator::LessThan, Object::Integer(a), Object::Integer(b)) => Ok(
            Object::Boolean(a < b),
        ),
        (Operator::GreaterThan, Object::Integer(a), Object::Integer(b)) => Ok(
            Object::Boolean(a > b),
        ),
        (Operator::Equals, Object::Integer(a), Object::Integer(b)) => Ok(Object::Boolean(a == b)),
        (Operator::Equals, Object::Boolean(a), Object::Boolean(b)) => Ok(Object::Boolean(a == b)),
        (Operator::NotEquals, Object::Integer(a), Object::Integer(b)) => Ok(
            Object::Boolean(a != b),
        ),
        (Operator::NotEquals, Object::Boolean(a), Object::Boolean(b)) => Ok(
            Object::Boolean(a != b),
        ),
        _ => Err(EvalError::TypeMismatch),
    }
}

/// Truncating division with division-by-zero and overflow reported.
fn div_integers(a: i32, b: i32) -> (res: Result<Object, EvalError>)
    ensures
        (match spec_apply_infix(
            Operator::Divide,
            ObjectV::Integer(a),
            ObjectV::Integer(b),
        ) {
            Ok(ov) => res matches Ok(o) && view_object(o) == ov,
            Err(e) => res == Err::<Object, EvalError>(e),
        }),
{
    if b == 0 {
        return Err(EvalError::DivideByZero);
    }
    let negative = (a < 0) != (b < 0);
    let ua: u32 = if a < 0 {
        (-(a as i64)) as u32
    } else {
        a as u32
    };
    let ub: u32 = if b < 0 {
        (-(b as i64)) as u32
    } else {
        b as u32
    };
    let q: u32 = ua / ub;
    proof {
        assert(ua as int == spec_abs(a as int));
        assert(ub as int == spec_abs(b as int));
        assert(q as int <= ua as int) by (nonlinear_arith)
            requires
                q == ua as int / ub as int,
                ua >= 0,
                ub >= 1,
        ;
    }
    if negative {
        Ok(Object::Integer((-(q as i64)) as i32))
    } else {
        if q > 2147483647u32 {
            Err(EvalError::IntegerOverflow)
        } else {
            Ok(Object::Integer(q as i32))
        }
    }
}

/// Evaluate one expression against the environment.
#[verifier::rlimit(60)]
fn eval_expr(e: &Expr, env: &mut Env, fuel: u64) -> (r: Result<Object, EvalError>)
    ensures
        ({
            let sp = spec_eval_expr(fuel as nat, view_expr(*e), old(env)@);
            final(env)@ == sp.1 && (match sp.0 {
                Ok(ov) => r matches Ok(o) && view_object(o) == ov,
                Err(err) => r == Err::<Object, EvalError>(err),
            })
        }),
    decreases fuel, 0int,
{
    if fuel == 0 {
        return Err(EvalError::RecursionLimit);
    }
    let f = fuel - 1;
    match e {
        Expr::String(s) => Ok(Object::String(s.clone())),
        Expr::Const(n) => Ok(Object::Integer(*n)),
        Expr::Boolean(b) => Ok(Object::Boolean(*b)),
        Expr::Prefix { prefix, value } => {
            let v = match eval_expr(&**value, env, f) {
                Ok(v) => v,
                Err(err) => {
                    return Err(err);
                },
            };
            match (prefix, v) {
                (Prefix::Bang, Object::Boolean(b)) => Ok(Object::Boolean(!b)),
                (Prefix::Minus, Object::Integer(n)) => {
                    if n == i32::MIN {
                        Err(EvalError::IntegerOverflow)
                    } else {
                        Ok(Object::Integer(-n))
                    }
                },
                _ => Err(EvalError::TypeMismatch),
            }
        },
        Expr::Infix { left, operator, right } => {
            let lv = match eval_expr(&**left, env, f) {
                Ok(v) => v,
                Err(err) => {
                    return Err(err);
                },
            };
            let rv = match eval_expr(&**right, env, f) {
                Ok(v) => v,
                Err(err) => {
                    return Err(err);
                },
            };
            apply_infix(*operator, lv, rv)
        },
        Expr::If { condition, consequence, alternative } => {
            let cv = match eval_expr(&**condition, env, f) {
                Ok(v) => v,
                Err(err) => {
                    return Err(err);
                },
            };
            let taken = match cv {
                Object::Boolean(b) => b,
                _ => false,
            };
            if taken {
                eval_statements(consequence, env, f)
            } else {
                eval_statements(alternative, env, f)
            }
        },
        Expr::Ident(name) => match env.get(name.as_str()) {
            Some(o) => Ok(o),
            None => Err(EvalError::UndefinedVariable),
        },
        Expr::Function { parameters, body } => Ok(
            Object::Function { parameters: dup_strings(parameters), body: dup_stmts(body) },
        ),
        Expr::Call { function, arguments } => {
            proof {
                lemma_view_exprs(arguments@);
            }
            let (params, body): (Vec<String>, Vec<Statement>) = match &**function {
                Expr::Ident(name) => {
                    proof {
                        assert(view_expr(**function) == ExprV::Ident(name@));
                    }
                    match env.get(name.as_str()) {
                        Some(o) => match o {
                            Object::Function { parameters, body } => (parameters, body),
                            _ => {
                                return Err(EvalError::NotAFunction);
                            },
                        },
                        None => {
                            return Err(EvalError::UndefinedVariable);
                        },
                    }
                },
                Expr::Function { parameters, body } => {
                    proof {
                        assert(view_expr(**function) == ExprV::Function {
                            parameters: view_strings(parameters@),
                            body: view_stmts(body@),
                        });
                    }
                    (dup_strings(parameters), dup_stmts(body))
                },
                _ => {
                    proof {
                        assert(!(view_expr(**function) is Ident) && !(view_expr(**function)
                            is Function));
                    }
                    return Err(EvalError::NotAFunction);
                },
            };
            if params.len() != arguments.len() {
                return Err(EvalError::WrongArity);
            }
            let ghost env_before_args = env@;
            proof {
                assert(view_exprs(arguments@).subrange(0, arguments@.len() as int) =~= view_exprs(
                    arguments@,
                ));
            }
            let vals = match eval_args(arguments, 0, env, f) {
                Ok(vs) => vs,
                Err(err) => {
                    return Err(err);
                },
            };
            proof {
                lemma_eval_args_len(f as nat, view_exprs(arguments@), env_before_args);
            }
            let mut env_func = Env::new();
            let mut i: usize = 0;
            proof {
                lemma_view_objects(vals@);
                assert(view_strings(params@).subrange(0, 0).len() == 0);
                assert(view_objects(vals@).subrange(0, 0).len() == 0);
                assert(env_func@ =~= spec_bind(
                    view_strings(params@).subrange(0, 0),
                    view_objects(vals@).subrange(0, 0),
                ));
            }
            while i < params.len()
                invariant
                    i <= params@.len(),
                    params@.len() == vals@.len(),
                    view_objects(vals@).len() == vals@.len(),
                    forall|j: int|
                        0 <= j < vals@.len() ==> view_objects(vals@)[j] == view_object(vals@[j]),
                    env_func@ == spec_bind(
                        view_strings(params@).subrange(0, i as int),
                        view_objects(vals@).subrange(0, i as int),
                    ),
                decreases params@.len() - i,
            {
                env_func.set(params[i].clone(), dup_object(&vals[i]));
                i = i + 1;
                proof {
                    let pv = view_strings(params@);
                    let vv = view_objects(vals@);
                    assert(pv.subrange(0, i as int).drop_last() =~= pv.subrange(0, i as int - 1));
                    assert(vv.subrange(0, i as int).drop_last() =~= vv.subrange(0, i as int - 1));
                    assert(pv.subrange(0, i as int).last() == pv[i as int - 1]);
                    assert(vv.subrange(0, i as int).last() == vv[i as int - 1]);
                }
            }
            proof {
                assert(view_strings(params@).subrange(0, params@.len() as int) =~= view_strings(
                    params@,
                ));
                assert(view_objects(vals@).subrange(0, vals@.len() as int) =~= view_objects(
                    vals@,
                ));
            }
            match eval_return_scope(&body, &mut env_func, f) {
                Ok(v) => Ok(v),
                Err(err) => Err(err),
            }
        },
    }
}

/// Evaluate the call arguments from index `idx` on, left to right.
fn eval_args(es: &Vec<Expr>, idx: usize, env: &mut Env, fuel: u64) -> (r: Result<
    Vec<Object>,
    EvalError,
>)
    requires
        idx <= es@.len(),
    ensures
        ({
            let sp = spec_eval_args(
                fuel as nat,
                view_exprs(es@).subrange(idx as int, es@.len() as int),
                old(env)@,
            );
            final(env)@ == sp.1 && (match sp.0 {
                Ok(vs) => r matches Ok(os) && view_objects(os@) == vs,
                Err(err) => r == Err::<Vec<Object>, EvalError>(err),
            })
        }),
    decreases fuel, 0int,
{
    proof {
        lemma_view_exprs(es@);
    }
    if fuel == 0 {
        return Err(EvalError::RecursionLimit);
    }
    let f = fuel - 1;
    if idx >= es.len() {
        let empty: Vec<Object> = Vec::new();
        proof {
            assert(view_exprs(es@).subrange(idx as int, es@.len() as int).len() == 0);
            assert(view_objects(empty@) =~= Seq::<ObjectV>::empty());
        }
        return Ok(empty);
    }
    proof {
        let rest = view_exprs(es@).subrange(idx as int, es@.len() as int);
        assert(rest[0] == view_expr(es@[idx as int]));
        assert(rest.drop_first() =~= view_exprs(es@).subrange(idx as int + 1, es@.len() as int));
    }
    let head = match eval_expr(&es[idx], env, f) {
        Ok(v) => v,
        Err(err) => {
            return Err(err);
        },
    };
    match eval_args(es, idx + 1, env, f) {
        Ok(rest) => {
            let mut out = rest;
            let ghost rest_view = out@;
            out.insert(0, head);
            proof {
                lemma_view_objects(out@);
                lemma_view_objects(rest_view);
                assert(view_objects(out@) =~= seq![view_object(head)] + view_objects(rest_view));
            }
            Ok(out)
        },
        Err(err) => Err(err),
    }
}

/// Evaluate one statement against the environment.
fn eval_statement(s: &Statement, env: &mut Env, fuel: u64) -> (r: Result<Object, EvalError>)
    ensures
        ({
            let sp = spec_eval_stmt(fuel as nat, view_stmt(*s), old(env)@);
            final(env)@ == sp.1 && (match sp.0 {
                Ok(ov) => r matches Ok(o) && view_object(o) == ov,
                Err(err) => r == Err::<Object, EvalError>(err),
            })
        }),
    decreases fuel, 0int,
{
    if fuel == 0 {
        return Err(EvalError::RecursionLimit);
    }
    let f = fuel - 1;
    match s {
        Statement::Expression(e) => eval_expr(e, env, f),
        Statement::Let { name, value } => {
            let v = match eval_expr(value, env, f) {
                Ok(v) => v,
                Err(err) => {
                    return Err(err);
                },
            };
            let copy = dup_object(&v);
            env.set(name.clone(), copy);
            Ok(v)
        },
        Statement::Return { value } => {
            let v = match eval_expr(value, env, f) {
                Ok(v) => v,
                Err(err) => {
                    return Err(err);
                },
            };
            Ok(Object::Return(Box::new(v)))
        },
    }
}

/// Evaluate the statements from index `idx` on, stopping early at a `Return`
/// value without unwrapping it.
fn eval_statements_from(ss: &Vec<Statement>, idx: usize, env: &mut Env, fuel: u64) -> (r: Result<
    Object,
    EvalError,
>)
    requires
        idx <= ss@.len(),
    ensures
        ({
            let sp = spec_eval_stmts(
                fuel as nat,
                view_stmts(ss@).subrange(idx as int, ss@.len() as int),
                old(env)@,
            );
            final(env)@ == sp.1 && (match sp.0 {
                Ok(ov) => r matches Ok(o) && view_object(o) == ov,
                Err(err) => r == Err::<Object, EvalError>(err),
            })
        }),
    decreases fuel, 0int,
{
    proof {
        lemma_view_stmts(ss@);
    }
    if fuel == 0 {
        return Err(EvalError::RecursionLimit);
    }
    let f = fuel - 1;
    if idx >= ss.len() {
        proof {
            assert(view_stmts(ss@).subrange(idx as int, ss@.len() as int).len() == 0);
        }
        return Ok(Object::Null);
    }
    proof {
        let rest = view_stmts(ss@).subrange(idx as int, ss@.len() as int);
        assert(rest[0] == view_stmt(ss@[idx as int]));
        assert(rest.drop_first() =~= view_stmts(ss@).subrange(idx as int + 1, ss@.len() as int));
    }
    let v = match eval_statement(&ss[idx], env, f) {
        Ok(v) => v,
        Err(err) => {
            return Err(err);
        },
    };
    let is_return = match &v {
        Object::Return(_) => true,
        _ => false,
    };
    if is_return {
        Ok(v)
    } else if idx + 1 >= ss.len() {
        Ok(v)
    } else {
        eval_statements_from(ss, idx + 1, env, f)
    }
}

/// Evaluate a statement run; the result is the last statement's value, or an
/// early `Return` value, still wrapped.
fn eval_statements(ss: &Vec<Statement>, env: &mut Env, fuel: u64) -> (r: Result<Object, EvalError>)
    ensures
        ({
            let sp = spec_eval_stmts(fuel as nat, view_stmts(ss@), old(env)@);
            final(env)@ == sp.1 && (match sp.0 {
                Ok(ov) => r matches Ok(o) && view_object(o) == ov,
                Err(err) => r == Err::<Object, EvalError>(err),
            })
        }),
    decreases fuel, 1int,
{
    proof {
        lemma_view_stmts(ss@);
        assert(view_stmts(ss@).subrange(0, ss@.len() as int) =~= view_stmts(ss@));
    }
    eval_statements_from(ss, 0, env, fuel)
}

/// Evaluate a program: run its statements and unwrap a top-level `Return`
/// value. The fuel bound caps evaluation depth; a program that exceeds it
/// stops with `RecursionLimit` instead of running away.
pub fn eval_return_scope(statements: &Vec<Statement>, env: &mut Env, fuel: u64) -> (r: Result<
    Object,
    EvalError,
>)
    ensures
        ({
            let sp = spec_eval_return_scope(fuel as nat, view_stmts(statements@), old(env)@);
            final(env)@ == sp.1 && (match sp.0 {
                Ok(ov) => r matches Ok(o) && view_object(o) == ov,
                Err(err) => r == Err::<Object, EvalError>(err),
            })
        }),
    decreases fuel, 0int,
{
    if fuel == 0 {
        return Err(EvalError::RecursionLimit);
    }
    let v = match eval_statements(statements, env, fuel - 1) {
        Ok(v) => v,
        Err(err) => {
            return Err(err);
        },
    };
    match v {
        Object::Return(inner) => Ok(*inner),
        other => Ok(other),
    }
}

} // verus!
