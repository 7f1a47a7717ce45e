//! Tree-walking evaluator with lexical environments.
//!
//! The evaluator owns an arena of scopes (`Env` values); a closure captures
//! the arena index of the scope that was current at its definition site, and
//! a call installs a fresh scope whose enclosing scope is the captured one,
//! never the caller's — lexical, not dynamic, scoping.
//!
//! Every evaluation function is specified against a fuel-indexed spec-level
//! interpreter (`se_eval_*`).  Fuel is consumed per nesting level, so the
//! evaluator reports `EvalError::DepthExceeded` instead of exhausting the
//! call stack; `EVAL_DEPTH_LIMIT` is the documented recursion budget.
//! Arithmetic is checked: overflow is `EvalError::IntegerOverflow` and
//! division by zero is `EvalError::DivisionByZero`, never a wrap or a crash.

use vstd::prelude::*;
use vstd::string::StringExecFns;
use crate::ast::{Expression, Identifier, IfExpression, Infix, Literal, Prefix, Statement};
use crate::ast::{ExprM, StmtM, BlockStatement, block_model, expr_model, exprs_model};
use crate::env::{Env, EnvM};
use crate::object::{Object, ObjM, obj_model, render_model, type_label};
use crate::parser::{ParseError, Program, program_model};

verus! {

/// The most deeply nested evaluation the interpreter will attempt.
pub const EVAL_DEPTH_LIMIT: u64 = 1000;

/// An evaluation failure.  A parse failure recorded in the program aborts
/// evaluation and is reported unchanged.
#[derive(Debug, PartialEq)]
pub enum EvalError {
    /// The program held a statement that had failed to parse.
    Parse(ParseError),
    /// An identifier is bound in no enclosing scope.
    IdentifierNotFound(String),
    /// A binary operator applied to an operand-type pair it is not defined
    /// for; the operand type names are carried for the diagnostic.
    UnsupportedInfix { operator: Infix, left: String, right: String },
    /// A unary operator applied to an operand type it is not defined for.
    UnsupportedPrefix { operator: Prefix, operand: String },
    /// A call whose target is not a function; carries the rendering of the
    /// value that was called.
    NotAFunction(String),
    /// A call with the wrong number of arguments.
    ArityMismatch { expected: usize, given: usize },
    /// Integer division by zero.
    DivisionByZero,
    /// Integer arithmetic left the 64-bit signed range.
    IntegerOverflow,
    /// The program is nested more deeply than `EVAL_DEPTH_LIMIT`.
    DepthExceeded,
}

/// Mathematical model of an evaluation failure.
pub enum ErrM {
    Parse(ParseError),
    IdentNotFound(Seq<char>),
    UnsupportedInfix(Infix, Seq<char>, Seq<char>),
    UnsupportedPrefix(Prefix, Seq<char>),
    NotAFunction(Seq<char>),
    Arity { expected: int, given: int },
    DivisionByZero,
    IntegerOverflow,
    DepthExceeded,
}

/// Model of an evaluation failure.
pub open spec fn err_model(e: EvalError) -> ErrM {
    match e {
        EvalError::Parse(p) => ErrM::Parse(p),
        EvalError::IdentifierNotFound(n) => ErrM::IdentNotFound(n@),
        EvalError::UnsupportedInfix { operator, left, right } => ErrM::UnsupportedInfix(
            operator,
            left@,
            right@,
        ),
        EvalError::UnsupportedPrefix { operator, operand } => ErrM::UnsupportedPrefix(
            operator,
            operand@,
        ),
        EvalError::NotAFunction(s) => ErrM::NotAFunction(s@),
        EvalError::ArityMismatch { expected, given } => ErrM::Arity {
            expected: expected as int,
            given: given as int,
        },
        EvalError::DivisionByZero => ErrM::DivisionByZero,
        EvalError::IntegerOverflow => ErrM::IntegerOverflow,
        EvalError::DepthExceeded => ErrM::DepthExceeded,
    }
}

/// The diagnostic text of an evaluation failure.
pub open spec fn message_model(m: ErrM) -> Seq<char> {
    match m {
        ErrM::Parse(p) => crate::parser::parse_message_model(p),
        ErrM::IdentNotFound(n) => "Identifier "@ + n + " not found!"@,
        ErrM::UnsupportedInfix(op, l, r) => "Infix operator "@ + op.spec_symbol()
            + " not found for the operands: "@ + l + " & "@ + r + "!"@,
        ErrM::UnsupportedPrefix(op, t) => "Operator prefix "@ + op.spec_symbol()
            + " is not defined for "@ + t + "!"@,
        ErrM::NotAFunction(s) => s + " is not a valid function!"@,
        ErrM::Arity { expected, given } => "Wrong number of arguments. Expected: "@ + crate::object::dec_int(
            expected,
        ) + ". Given: "@ + crate::object::dec_int(given),
        ErrM::DivisionByZero => "Division by zero!"@,
        ErrM::IntegerOverflow => "Integer arithmetic out of range!"@,
        ErrM::DepthExceeded => "Evaluation is nested too deeply!"@,
    }
}

impl EvalError {
    /// The diagnostic text of this failure.
    pub fn message(&self) -> (r: String)
        ensures
            r@ == message_model(err_model(*self)),
    {
        match self {
            EvalError::Parse(p) => p.message(),
            EvalError::IdentifierNotFound(n) => {
                proof {
                    reveal_strlit("Identifier ");
                    reveal_strlit(" not found!");
                }
                let mut out = "Identifier ".to_owned();
                out.append(n.as_str());
                out.append(" not found!");
                proof {
                    assert(out@ =~= message_model(err_model(*self)));
                }
                out
            },
            EvalError::UnsupportedInfix { operator, left, right } => {
                proof {
                    reveal_strlit("Infix operator ");
                    reveal_strlit(" not found for the operands: ");
                    reveal_strlit(" & ");
                    reveal_strlit("!");
                }
                let mut out = "Infix operator ".to_owned();
                out.append(operator.symbol());
                out.append(" not found for the operands: ");
                out.append(left.as_str());
                out.append(" & ");
                out.append(right.as_str());
                out.append("!");
                proof {
                    assert(out@ =~= message_model(err_model(*self)));
                }
                out
            },
            EvalError::UnsupportedPrefix { operator, operand } => {
                proof {
                    reveal_strlit("Operator prefix ");
                    reveal_strlit(" is not defined for ");
                    reveal_strlit("!");
                }
                let mut out = "Operator prefix ".to_owned();
                out.append(operator.symbol());
                out.append(" is not defined for ");
                out.append(operand.as_str());
                out.append("!");
                proof {
                    assert(out@ =~= message_model(err_model(*self)));
                }
                out
            },
            EvalError::NotAFunction(s) => {
                proof {
                    reveal_strlit(" is not a valid function!");
                }
                let mut out = s.clone();
                out.append(" is not a valid function!");
                proof {
                    assert(out@ =~= message_model(err_model(*self)));
                }
                out
            },
            EvalError::ArityMismatch { expected, given } => {
                proof {
                    reveal_strlit("Wrong number of arguments. Expected: ");
                    reveal_strlit(". Given: ");
                }
                let mut out = "Wrong number of arguments. Expected: ".to_owned();
                let es = crate::object::render_u64(*expected as u64);
                let gs = crate::object::render_u64(*given as u64);
                out.append(es.as_str());
                out.append(". Given: ");
                out.append(gs.as_str());
                proof {
                    assert(out@ =~= message_model(err_model(*self)));
                }
                out
            },
            EvalError::DivisionByZero => {
                proof {
                    reveal_strlit("Division by zero!");
                }
                "Division by zero!".to_owned()
            },
            EvalError::IntegerOverflow => {
                proof {
                    reveal_strlit("Integer arithmetic out of range!");
                }
                "Integer arithmetic out of range!".to_owned()
            },
            EvalError::DepthExceeded => {
                proof {
                    reveal_strlit("Evaluation is nested too deeply!");
                }
                "Evaluation is nested too deeply!".to_owned()
            },
        }
    }
}

/// Models of a sequence of runtime values.
pub open spec fn objs_model(s: Seq<Object>) -> Seq<ObjM> {
    s.map_values(|o: Object| obj_model(o))
}

/// Truthiness: the null value and `false` are falsy; every other value,
/// zero included, is truthy.
pub open spec fn truthy(m: ObjM) -> bool {
    !(m is Null || m == ObjM::Bool(false))
}

/// Looks a name up through the chain of enclosing scopes, innermost first.
pub open spec fn spec_lookup(arena: Seq<EnvM>, idx: int, name: Seq<char>) -> Option<ObjM>
    decreases idx,
{
    if 0 <= idx < arena.len() {
        let e = arena[idx];
        if e.bindings.contains_key(name) {
            Some(e.bindings[name])
        } else {
            match e.outer {
                Some(o) => if 0 <= o < idx {
                    spec_lookup(arena, o, name)
                } else {
                    None
                },
                None => None,
            }
        }
    } else {
        None
    }
}

/// The bindings of a fresh call scope: parameters bound positionally, in
/// order, a repeated name keeping its last value.
pub open spec fn bind_params(params: Seq<Seq<char>>, vs: Seq<ObjM>) -> Map<Seq<char>, ObjM>
    decreases params.len(),
{
    if params.len() == 0 || vs.len() == 0 {
        Map::empty()
    } else {
        bind_params(params.drop_last(), vs.drop_last()).insert(params.last(), vs.last())
    }
}

/// A unary operator applied to a value: `!` negates booleans, `-` negates
/// integers, `+` is the identity on integers; anything else is an error.
pub open spec fn se_prefix(op: Prefix, v: ObjM) -> Result<ObjM, ErrM> {
    match op {
        Prefix::Not => match v {
            ObjM::Bool(b) => Ok(ObjM::Bool(!b)),
            _ => Err(ErrM::UnsupportedPrefix(Prefix::Not, type_label(v))),
        },
        Prefix::Minus => match v {
            ObjM::Int(n) => if n == i64::MIN {
                Err(ErrM::IntegerOverflow)
            } else {
                Ok(ObjM::Int((-n) as i64))
            },
            _ => Err(ErrM::UnsupportedPrefix(Prefix::Minus, type_label(v))),
        },
        Prefix::Plus => match v {
            ObjM::Int(n) => Ok(ObjM::Int(n)),
            _ => Err(ErrM::UnsupportedPrefix(Prefix::Plus, type_label(v))),
        },
    }
}

/// An integer operator applied to two integers, with checked arithmetic and
/// truncating division.
pub open spec fn se_int_infix(op: Infix, a: i64, b: i64) -> Result<ObjM, ErrM> {
    match op {
        Infix::Plus => if i64::MIN <= a + b <= i64::MAX {
            Ok(ObjM::Int((a + b) as i64))
        } else {
            Err(ErrM::IntegerOverflow)
        },
        Infix::Minus => if i64::MIN <= a - b <= i64::MAX {
            Ok(ObjM::Int((a - b) as i64))
        } else {
            Err(ErrM::IntegerOverflow)
        },
        Infix::Product => if i64::MIN <= a * b <= i64::MAX {
            Ok(ObjM::Int((a * b) as i64))
        } else {
            Err(ErrM::IntegerOverflow)
        },
        Infix::Divide => if b == 0 {
            Err(ErrM::DivisionByZero)
        } else {
            match a.checked_div(b) {
                Some(q) => Ok(ObjM::Int(q)),
                None => Err(ErrM::IntegerOverflow),
            }
        },
        Infix::Equal => Ok(ObjM::Bool(a == b)),
        Infix::NotEqual => Ok(ObjM::Bool(a != b)),
        Infix::GreaterThan => Ok(ObjM::Bool(a > b)),
        Infix::LessThan => Ok(ObjM::Bool(a < b)),
    }
}

/// A binary operator applied to two values: integer pairs take the full
/// operator set, boolean pairs only `==` and `!=`, string pairs only `+`
/// (concatenation); any other pairing is an error naming both types.
pub open spec fn se_infix(op: Infix, l: ObjM, r: ObjM) -> Result<ObjM, ErrM> {
    match (l, r) {
        (ObjM::Int(a), ObjM::Int(b)) => se_int_infix(op, a, b),
        (ObjM::Bool(a), ObjM::Bool(b)) => match op {
            Infix::Equal => Ok(ObjM::Bool(a == b)),
            Infix::NotEqual => Ok(ObjM::Bool(a != b)),
            _ => Err(ErrM::UnsupportedInfix(op, "bool"@, "bool"@)),
        },
        (ObjM::Str(a), ObjM::Str(b)) => match op {
            Infix::Plus => Ok(ObjM::Str(a + b)),
            _ => Err(ErrM::UnsupportedInfix(op, "string"@, "string"@)),
        },
        _ => Err(ErrM::UnsupportedInfix(op, type_label(l), type_label(r))),
    }
}

/// Peels every layer of the `return` propagation sentinel off a value; at
/// a call boundary and at the top level the sentinel never survives.
pub open spec fn strip_ret(m: ObjM) -> ObjM
    decreases m,
{
    match m {
        ObjM::Ret(v) => strip_ret(*v),
        _ => m,
    }
}

/// What `strip_ret` peels off is gone for good: the result is never the
/// sentinel.
pub proof fn lemma_strip_ret_not_ret(m: ObjM)
    ensures
        !(strip_ret(m) is Ret),
    decreases m,
{
    match m {
        ObjM::Ret(v) => lemma_strip_ret_not_ret(*v),
        _ => {},
    }
}

/// Evaluates one expression.
#[verifier::opaque]
pub open spec fn se_eval_expr(arena: Seq<EnvM>, cur: int, e: ExprM, fuel: nat) -> (
    Seq<EnvM>,
    Result<ObjM, ErrM>,
)
    decreases fuel, 0int, 3int,
{
    if fuel == 0 {
        (arena, Err(ErrM::DepthExceeded))
    } else {
        match e {
            ExprM::Ident(name) => (
                arena,
                match spec_lookup(arena, cur, name) {
                    Some(v) => Ok(v),
                    None => Err(ErrM::IdentNotFound(name)),
                },
            ),
            ExprM::IntLit(n) => (arena, Ok(ObjM::Int(n))),
            ExprM::StrLit(s) => (arena, Ok(ObjM::Str(s))),
            ExprM::BoolLit(b) => (arena, Ok(ObjM::Bool(b))),
            ExprM::Prefix(op, inner) => {
                let (a1, r) = se_eval_expr(arena, cur, *inner, (fuel - 1) as nat);
                match r {
                    Err(e) => (a1, Err(e)),
                    Ok(v) => (a1, se_prefix(op, v)),
                }
            },
            ExprM::Infix(op, l, r) => {
                let (a1, lr) = se_eval_expr(arena, cur, *l, (fuel - 1) as nat);
                match lr {
                    Err(e) => (a1, Err(e)),
                    Ok(lv) => {
                        let (a2, rr) = se_eval_expr(a1, cur, *r, (fuel - 1) as nat);
                        match rr {
                            Err(e) => (a2, Err(e)),
                            Ok(rv) => (a2, se_infix(op, lv, rv)),
                        }
                    },
                }
            },
            ExprM::If { cond, cons, alt } => {
                let (a1, c) = se_eval_expr(arena, cur, *cond, (fuel - 1) as nat);
                match c {
                    Err(e) => (a1, Err(e)),
                    Ok(cv) => if truthy(cv) {
                        se_eval_block(a1, cur, cons, (fuel - 1) as nat)
                    } else {
                        se_eval_block(a1, cur, alt, (fuel - 1) as nat)
                    },
                }
            },
            ExprM::Func { params, body } => (
                arena,
                Ok(ObjM::Func { params, body, env: cur }),
            ),
            ExprM::Call { target, args } => se_eval_call(arena, cur, *target, args, (fuel
                - 1) as nat),
        }
    }
}

/// Evaluates a call: the callee first, then the arguments left to right in
/// the caller's scope; checks arity; runs the body in a fresh scope enclosed
/// by the function's captured scope; a propagating `return` is unwrapped at
/// this boundary.
#[verifier::opaque]
pub open spec fn se_eval_call(arena: Seq<EnvM>, cur: int, target: ExprM, args: Seq<ExprM>, fuel: nat)
    -> (Seq<EnvM>, Result<ObjM, ErrM>)
    decreases fuel, args.len() + 1, 4int,
{
    if fuel == 0 {
        (arena, Err(ErrM::DepthExceeded))
    } else {
        let (a1, fr) = se_eval_expr(arena, cur, target, (fuel - 1) as nat);
        match fr {
            Err(e) => (a1, Err(e)),
            Ok(fv) => match fv {
                ObjM::Func { params, body, env } => {
                    let (a2, ar) = se_args_from(a1, cur, args, 0, (fuel - 1) as nat);
                    match ar {
                        Err(e) => (a2, Err(e)),
                        Ok(vs) => if params.len() != vs.len() {
                            (
                                a2,
                                Err(
                                    ErrM::Arity {
                                        expected: params.len() as int,
                                        given: vs.len() as int,
                                    },
                                ),
                            )
                        } else {
                            let newenv = EnvM {
                                bindings: bind_params(params, vs),
                                outer: Some(env),
                            };
                            let a3 = a2.push(newenv);
                            let (a4, br) = se_eval_block(a3, a2.len() as int, body, (fuel
                                - 1) as nat);
                            match br {
                                Err(e) => (a4, Err(e)),
                                Ok(v) => (a4, Ok(strip_ret(v))),
                            }
                        },
                    }
                },
                _ => (a1, Err(ErrM::NotAFunction(render_model(fv)))),
            },
        }
    }
}

/// Evaluates the argument expressions from position `i` on, left to right,
/// stopping at the first failure.
#[verifier::opaque]
pub open spec fn se_args_from(arena: Seq<EnvM>, cur: int, args: Seq<ExprM>, i: int, fuel: nat) -> (
    Seq<EnvM>,
    Result<Seq<ObjM>, ErrM>,
)
    decreases fuel, args.len() - i, 0int,
{
    if i < 0 || i >= args.len() {
        (arena, Ok(Seq::empty()))
    } else if fuel == 0 {
        (arena, Err(ErrM::DepthExceeded))
    } else {
        let (a1, r) = se_eval_expr(arena, cur, args[i], (fuel - 1) as nat);
        match r {
            Err(e) => (a1, Err(e)),
            Ok(v) => {
                let (a2, rest) = se_args_from(a1, cur, args, i + 1, fuel);
                match rest {
                    Err(e) => (a2, Err(e)),
                    Ok(vs) => (a2, Ok(seq![v] + vs)),
                }
            },
        }
    }
}

/// Evaluates a block: statements in order, the block's value being the last
/// statement's value (or null for an empty block); the first failure stops
/// evaluation, and a propagating `return` stops it with the wrapped value
/// kept intact.
#[verifier::opaque]
pub open spec fn se_eval_block(arena: Seq<EnvM>, cur: int, ss: Seq<StmtM>, fuel: nat) -> (
    Seq<EnvM>,
    Result<ObjM, ErrM>,
)
    decreases fuel, ss.len() + 1, 1int,
{
    se_block_from(arena, cur, ss, 0, ObjM::Null, fuel)
}

/// Evaluates the statements of a block from position `i` on, `last` being
/// the value of the statements already evaluated.
#[verifier::opaque]
pub open spec fn se_block_from(arena: Seq<EnvM>, cur: int, ss: Seq<StmtM>, i: int, last: ObjM, fuel: nat)
    -> (Seq<EnvM>, Result<ObjM, ErrM>)
    decreases fuel, ss.len() - i, 0int,
{
    if i < 0 || i >= ss.len() {
        (arena, Ok(last))
    } else if fuel == 0 {
        (arena, Err(ErrM::DepthExceeded))
    } else {
        let (a1, r) = se_eval_stmt(arena, cur, ss[i], (fuel - 1) as nat);
        match r {
            Err(e) => (a1, Err(e)),
            Ok(v) => if v is Ret {
                (a1, Ok(v))
            } else {
                se_block_from(a1, cur, ss, i + 1, v, fuel)
            },
        }
    }
}

/// Evaluates one statement: a `let` binds its value in the current scope and
/// yields the empty value, a `return` wraps its value in the propagation
/// sentinel, an expression statement yields its value.
#[verifier::opaque]
pub open spec fn se_eval_stmt(arena: Seq<EnvM>, cur: int, s: StmtM, fuel: nat) -> (
    Seq<EnvM>,
    Result<ObjM, ErrM>,
)
    decreases fuel, 0int, 1int,
{
    if fuel == 0 {
        (arena, Err(ErrM::DepthExceeded))
    } else {
        match s {
            StmtM::Let(name, e) => {
                let (a1, r) = se_eval_expr(arena, cur, e, (fuel - 1) as nat);
                match r {
                    Err(err) => (a1, Err(err)),
                    Ok(v) => {
                        let a2 = if 0 <= cur < a1.len() {
                            a1.update(
                                cur,
                                EnvM { bindings: a1[cur].bindings.insert(name, v), outer: a1[cur].outer },
                            )
                        } else {
                            a1
                        };
                        (a2, Ok(ObjM::Empty))
                    },
                }
            },
            StmtM::Return(e) => {
                let (a1, r) = se_eval_expr(arena, cur, e, (fuel - 1) as nat);
                match r {
                    Err(err) => (a1, Err(err)),
                    Ok(v) => (a1, Ok(ObjM::Ret(Box::new(v)))),
                }
            },
            StmtM::Expr(e) => se_eval_expr(arena, cur, e, (fuel - 1) as nat),
        }
    }
}

/// Evaluates a program from statement `i` on: a recorded parse failure
/// aborts evaluation; a propagating `return` is unwrapped here, at the top
/// level, and ends evaluation early.
#[verifier::opaque]
pub open spec fn se_eval_program(
    arena: Seq<EnvM>,
    cur: int,
    prog: Seq<Result<StmtM, ParseError>>,
    i: int,
    last: ObjM,
    fuel: nat,
) -> (Seq<EnvM>, Result<ObjM, ErrM>)
    decreases fuel, prog.len() - i, 0int,
{
    if i < 0 || i >= prog.len() {
        (arena, Ok(last))
    } else if fuel == 0 {
        (arena, Err(ErrM::DepthExceeded))
    } else {
        match prog[i] {
            Err(pe) => (arena, Err(ErrM::Parse(pe))),
            Ok(st) => {
                let (a1, r) = se_eval_stmt(arena, cur, st, (fuel - 1) as nat);
                match r {
                    Err(e) => (a1, Err(e)),
                    Ok(v) => if v is Ret {
                        (a1, Ok(strip_ret(v)))
                    } else {
                        se_eval_program(a1, cur, prog, i + 1, v, fuel)
                    },
                }
            },
        }
    }
}

/// An expression built only from integer literals, the four arithmetic
/// operators and grouping.
pub open spec fn arith_expr(e: ExprM) -> bool
    decreases e,
{
    match e {
        ExprM::IntLit(_) => true,
        ExprM::Infix(op, l, r) => (op is Plus || op is Minus || op is Product || op is Divide)
            && arith_expr(*l) && arith_expr(*r),
        _ => false,
    }
}

/// The arithmetic denotation of such an expression: standard left-to-right
/// evaluation with checked 64-bit arithmetic and truncating division,
/// independent of any interpreter state.
pub open spec fn arith_denote(e: ExprM) -> Result<ObjM, ErrM>
    decreases e,
{
    match e {
        ExprM::IntLit(n) => Ok(ObjM::Int(n)),
        ExprM::Infix(op, l, r) => match arith_denote(*l) {
            Err(err) => Err(err),
            Ok(a) => match arith_denote(*r) {
                Err(err) => Err(err),
                Ok(b) => se_infix(op, a, b),
            },
        },
        _ => Err(ErrM::DepthExceeded),
    }
}

/// The nesting depth of an expression model, as the evaluator's fuel
/// measures it.
pub open spec fn arith_height(e: ExprM) -> nat
    decreases e,
{
    match e {
        ExprM::Infix(_, l, r) => 1 + (if arith_height(*l) >= arith_height(*r) {
            arith_height(*l)
        } else {
            arith_height(*r)
        }),
        _ => 1,
    }
}

/// Arithmetic expressions mean arithmetic: evaluating an expression built
/// only from `+ - * /` and parentheses over integers yields exactly its
/// arithmetic denotation — in any interpreter state, which it leaves
/// unchanged.
pub proof fn lemma_arith_eval(arena: Seq<EnvM>, cur: int, e: ExprM, fuel: nat)
    requires
        arith_expr(e),
        fuel >= arith_height(e),
    ensures
        se_eval_expr(arena, cur, e, fuel) == (arena, arith_denote(e)),
    decreases e,
{
    reveal(se_eval_expr);
    match e {
        ExprM::IntLit(_) => {},
        ExprM::Infix(op, l, r) => {
            lemma_arith_eval(arena, cur, *l, (fuel - 1) as nat);
            lemma_arith_eval(arena, cur, *r, (fuel - 1) as nat);
        },
        _ => {},
    }
}

/// A single-expression arithmetic program evaluates to its arithmetic
/// value, in any interpreter state, which it leaves unchanged — arithmetic
/// at the top level means arithmetic.
pub proof fn lemma_arith_program(arena: Seq<EnvM>, cur: int, e: ExprM, n: i64)
    requires
        arith_expr(e),
        arith_denote(e) == Ok::<ObjM, ErrM>(ObjM::Int(n)),
        arith_height(e) + 2 <= EVAL_DEPTH_LIMIT,
    ensures
        se_eval_program(
            arena,
            cur,
            seq![Ok::<StmtM, ParseError>(StmtM::Expr(e))],
            0,
            ObjM::Null,
            EVAL_DEPTH_LIMIT as nat,
        ) == (arena, Ok::<ObjM, ErrM>(ObjM::Int(n))),
{
    reveal_with_fuel(se_eval_program, 2);
    reveal(se_eval_stmt);
    reveal(se_eval_expr);
    lemma_arith_eval(arena, cur, e, (EVAL_DEPTH_LIMIT - 2) as nat);
}

/// A call with the wrong number of arguments is rejected with an arity
/// error naming both counts — and nothing more happens: the final scope
/// arena is the one the argument evaluation left behind, so the body was
/// never entered and no parameter was bound.
pub proof fn lemma_call_arity_mismatch(
    arena: Seq<EnvM>,
    cur: int,
    target: ExprM,
    args: Seq<ExprM>,
    params: Seq<Seq<char>>,
    body: Seq<StmtM>,
    env: int,
    a1: Seq<EnvM>,
    a2: Seq<EnvM>,
    vs: Seq<ObjM>,
    fuel: nat,
)
    requires
        fuel >= 1,
        se_eval_expr(arena, cur, target, (fuel - 1) as nat) == (
            a1,
            Ok::<ObjM, ErrM>(ObjM::Func { params, body, env }),
        ),
        se_args_from(a1, cur, args, 0, (fuel - 1) as nat) == (a2, Ok::<Seq<ObjM>, ErrM>(vs)),
        params.len() != vs.len(),
    ensures
        se_eval_call(arena, cur, target, args, fuel) == (
            a2,
            Err::<ObjM, ErrM>(
                ErrM::Arity { expected: params.len() as int, given: vs.len() as int },
            ),
        ),
{
    reveal(se_eval_call);
    reveal(se_eval_expr);
    reveal(se_args_from);
}

/// The unary plus is the identity on every integer value, so chains of it
/// change nothing.
pub proof fn lemma_prefix_plus_identity(v: ObjM)
    requires
        v is Int,
    ensures
        se_prefix(Prefix::Plus, v) == Ok::<ObjM, ErrM>(v),
{
}

/// A function literal captures the scope that is current at its definition
/// site: evaluating it yields a closure over exactly that scope, and
/// changes nothing.  (A call then encloses its fresh scope in the captured
/// scope, never the caller's: see `se_eval_call`.)
pub proof fn lemma_closure_captures_definition_scope(
    arena: Seq<EnvM>,
    cur: int,
    params: Seq<Seq<char>>,
    body: Seq<StmtM>,
    fuel: nat,
)
    requires
        fuel >= 1,
    ensures
        se_eval_expr(arena, cur, ExprM::Func { params, body }, fuel) == (
            arena,
            Ok::<ObjM, ErrM>(ObjM::Func { params, body, env: cur }),
        ),
{
    reveal(se_eval_expr);
}

/// The state of a fresh interpreter is uniquely determined: one scope, no
/// bindings, no enclosing scope.
pub proof fn lemma_fresh_state_unique(s1: Seq<EnvM>, s2: Seq<EnvM>)
    requires
        s1.len() == 1,
        s2.len() == 1,
        s1[0].bindings == Map::<Seq<char>, ObjM>::empty(),
        s2[0].bindings == Map::<Seq<char>, ObjM>::empty(),
        s1[0].outer is None,
        s2[0].outer is None,
    ensures
        s1 == s2,
{
    assert(s1[0] == s2[0]);
    assert(s1 =~= s2);
}

/// Evaluation is idempotent across interpreter instances: two fresh
/// interpreters given the same program produce the same outcome, because an
/// outcome depends on nothing but the interpreter state and the program.
pub proof fn lemma_fresh_evaluation_deterministic(
    s1: Seq<EnvM>,
    s2: Seq<EnvM>,
    prog: Seq<Result<StmtM, ParseError>>,
)
    requires
        s1.len() == 1,
        s2.len() == 1,
        s1[0].bindings == Map::<Seq<char>, ObjM>::empty(),
        s2[0].bindings == Map::<Seq<char>, ObjM>::empty(),
        s1[0].outer is None,
        s2[0].outer is None,
    ensures
        se_eval_program(s1, 0, prog, 0, ObjM::Null, EVAL_DEPTH_LIMIT as nat) == se_eval_program(
            s2,
            0,
            prog,
            0,
            ObjM::Null,
            EVAL_DEPTH_LIMIT as nat,
        ),
{
    lemma_fresh_state_unique(s1, s2);
}

/// Whether an executable evaluation step with result `r` and final arena
/// `arena` agrees with the spec-level step `s`.
pub open spec fn eval_step_matches(
    r: Result<Object, EvalError>,
    s: (Seq<EnvM>, Result<ObjM, ErrM>),
    arena: Seq<EnvM>,
) -> bool {
    &&& arena == s.0
    &&& match (r, s.1) {
        (Ok(o), Ok(m)) => obj_model(o) == m,
        (Err(e), Err(m)) => err_model(e) == m,
        _ => false,
    }
}

/// The interpreter: an arena of scopes and the index of the current one.
/// One interpreter keeps its top-level bindings across calls to `eval`, so a
/// session's `let` bindings persist from one input chunk to the next.
pub struct Eval {
    envs: Vec<Env>,
    cur: usize,
}

impl Default for Eval {
    /// A fresh interpreter, as `new` builds it.
    fn default() -> (e: Eval)
        ensures
            e.wf(),
            e.arena().len() == 1,
            e.arena()[0].bindings == Map::<Seq<char>, ObjM>::empty(),
            e.arena()[0].outer is None,
            e.cur_env() == 0,
    {
        Eval::new()
    }
}

impl Eval {
    /// The models of the scopes in the arena.
    pub closed spec fn arena(&self) -> Seq<EnvM> {
        self.envs@.map_values(|e: Env| e.model())
    }

    /// The arena index of the current scope.
    pub closed spec fn cur_env(&self) -> int {
        self.cur as int
    }

    /// There is at least one scope, and the current index is in the arena.
    pub closed spec fn wf(&self) -> bool {
        self.envs@.len() >= 1 && (self.cur as int) < self.envs@.len()
    }

    /// A fresh interpreter: one empty top-level scope.
    pub fn new() -> (e: Eval)
        ensures
            e.wf(),
            e.arena().len() == 1,
            e.arena()[0].bindings == Map::<Seq<char>, ObjM>::empty(),
            e.arena()[0].outer is None,
            e.cur_env() == 0,
    {
        let mut envs: Vec<Env> = Vec::new();
        envs.push(Env::new());
        Eval { envs, cur: 0 }
    }

    /// Looks a name up through the chain of enclosing scopes.
    #[verifier::loop_isolation(false)]
    fn lookup_value(&self, name: &String) -> (r: Option<Object>)
        requires
            self.wf(),
        ensures
            match (r, spec_lookup(self.arena(), self.cur_env(), name@)) {
                (Some(o), Some(m)) => obj_model(o) == m,
                (None, None) => true,
                _ => false,
            },
    {
        let mut idx = self.cur;
        loop
            invariant
                (idx as int) < self.envs@.len(),
                spec_lookup(self.arena(), self.cur_env(), name@) == spec_lookup(
                    self.arena(),
                    idx as int,
                    name@,
                ),
            decreases idx,
        {
            match self.envs[idx].get(name) {
                Some(o) => {
                    return Some(o);
                },
                None => {
                    match self.envs[idx].outer_index() {
                        Some(o) => {
                            if o < idx {
                                idx = o;
                            } else {
                                return None;
                            }
                        },
                        None => {
                            return None;
                        },
                    }
                },
            }
        }
    }

    /// Evaluates an identifier by scope lookup.
    fn eval_identifier(&mut self, id: &Identifier) -> (r: Result<Object, EvalError>)
        requires
            old(self).wf(),
        ensures
            *final(self) == *old(self),
            match (r, spec_lookup(old(self).arena(), old(self).cur_env(), id@)) {
                (Ok(o), Some(m)) => obj_model(o) == m,
                (Err(e), None) => err_model(e) == ErrM::IdentNotFound(id@),
                _ => false,
            },
    {
        match self.lookup_value(&id.0) {
            Some(o) => Ok(o),
            None => Err(EvalError::IdentifierNotFound(id.0.clone())),
        }
    }

    /// Evaluates a literal.
    fn eval_literal(&self, literal: &Literal) -> (r: Object)
        ensures
            obj_model(r) == (match *literal {
                Literal::Int(n) => ObjM::Int(n),
                Literal::Str(s) => ObjM::Str(s@),
                Literal::Bool(b) => ObjM::Bool(b),
            }),
    {
        match literal {
            Literal::Int(n) => Object::Int(*n),
            Literal::Str(s) => Object::Str(s.clone()),
            Literal::Bool(b) => Object::Bool(*b),
        }
    }

    /// Truthiness of a value.
    fn is_truthy(&self, condition: &Object) -> (r: bool)
        ensures
            r == truthy(obj_model(*condition)),
    {
        !(matches!(condition, Object::Null) || matches!(condition, Object::Bool(false)))
    }

    /// Applies `!` to a value.
    fn eval_bang(&self, obj: Object) -> (r: Result<Object, EvalError>)
        ensures
            match (r, se_prefix(Prefix::Not, obj_model(obj))) {
                (Ok(o), Ok(m)) => obj_model(o) == m,
                (Err(e), Err(m)) => err_model(e) == m,
                _ => false,
            },
    {
        match obj {
            Object::Bool(value) => Ok(Object::Bool(!value)),
            other => Err(
                EvalError::UnsupportedPrefix {
                    operator: Prefix::Not,
                    operand: other.get_type().to_owned(),
                },
            ),
        }
    }

    /// Applies `-` to a value.
    fn eval_prefix_minus(&self, obj: Object) -> (r: Result<Object, EvalError>)
        ensures
            match (r, se_prefix(Prefix::Minus, obj_model(obj))) {
                (Ok(o), Ok(m)) => obj_model(o) == m,
                (Err(e), Err(m)) => err_model(e) == m,
                _ => false,
            },
    {
        match obj {
            Object::Int(num) => {
                if num == i64::MIN {
                    Err(EvalError::IntegerOverflow)
                } else {
                    Ok(Object::Int(-num))
                }
            },
            other => Err(
                EvalError::UnsupportedPrefix {
                    operator: Prefix::Minus,
                    operand: other.get_type().to_owned(),
                },
            ),
        }
    }

    /// Applies `+` to a value: the identity on integers.
    fn eval_prefix_plus(&self, obj: Object) -> (r: Result<Object, EvalError>)
        ensures
            match (r, se_prefix(Prefix::Plus, obj_model(obj))) {
                (Ok(o), Ok(m)) => obj_model(o) == m,
                (Err(e), Err(m)) => err_model(e) == m,
                _ => false,
            },
    {
        match obj {
            Object::Int(_) => Ok(obj),
            other => Err(
                EvalError::UnsupportedPrefix {
                    operator: Prefix::Plus,
                    operand: other.get_type().to_owned(),
                },
            ),
        }
    }

    /// Evaluates the operand, then applies the unary operator.
    fn eval_prefix(&mut self, operator: Prefix, right: &Expression, fuel: u64) -> (r: Result<
        Object,
        EvalError,
    >)
        requires
            old(self).wf(),
            fuel >= 1,
        ensures
            final(self).wf(),
            final(self).cur_env() == old(self).cur_env(),
            final(self).arena().len() >= old(self).arena().len(),
            ({
                let (a1, inner) = se_eval_expr(
                    old(self).arena(),
                    old(self).cur_env(),
                    expr_model(*right),
                    (fuel - 1) as nat,
                );
                final(self).arena() == a1 && match inner {
                    Err(m) => r matches Err(e) && err_model(e) == m,
                    Ok(v) => match (r, se_prefix(operator, v)) {
                        (Ok(o), Ok(m)) => obj_model(o) == m,
                        (Err(e), Err(m)) => err_model(e) == m,
                        _ => false,
                    },
                }
            }),
        decreases fuel, 0int, 2int,
    {
        let expr = match self.eval_expr(right, fuel - 1) {
            Ok(v) => v,
            Err(e) => {
                return Err(e);
            },
        };
        match operator {
            Prefix::Not => self.eval_bang(expr),
            Prefix::Minus => self.eval_prefix_minus(expr),
            Prefix::Plus => self.eval_prefix_plus(expr),
        }
    }

    /// An integer operator on two integers, with checked arithmetic.
    fn eval_integer_infix(&self, operator: Infix, left: i64, right: i64) -> (r: Result<
        Object,
        EvalError,
    >)
        ensures
            match (r, se_int_infix(operator, left, right)) {
                (Ok(o), Ok(m)) => obj_model(o) == m,
                (Err(e), Err(m)) => err_model(e) == m,
                _ => false,
            },
    {
        match operator {
            Infix::Plus => match left.checked_add(right) {
                Some(v) => Ok(Object::Int(v)),
                None => Err(EvalError::IntegerOverflow),
            },
            Infix::Minus => match left.checked_sub(right) {
                Some(v) => Ok(Object::Int(v)),
                None => Err(EvalError::IntegerOverflow),
            },
            Infix::Product => match left.checked_mul(right) {
                Some(v) => Ok(Object::Int(v)),
                None => Err(EvalError::IntegerOverflow),
            },
            Infix::Divide => {
                if right == 0 {
                    Err(EvalError::DivisionByZero)
                } else {
                    match left.checked_div(right) {
                        Some(v) => Ok(Object::Int(v)),
                        None => Err(EvalError::IntegerOverflow),
                    }
                }
            },
            Infix::Equal => Ok(Object::Bool(left == right)),
            Infix::NotEqual => Ok(Object::Bool(left != right)),
            Infix::GreaterThan => Ok(Object::Bool(left > right)),
            Infix::LessThan => Ok(Object::Bool(left < right)),
        }
    }

    /// A boolean operator on two booleans: only `==` and `!=`.
    fn eval_bool_infix(&self, operator: Infix, left: bool, right: bool) -> (r: Result<
        Object,
        EvalError,
    >)
        ensures
            match (r, se_infix(operator, ObjM::Bool(left), ObjM::Bool(right))) {
                (Ok(o), Ok(m)) => obj_model(o) == m,
                (Err(e), Err(m)) => err_model(e) == m,
                _ => false,
            },
    {
        proof {
            reveal_strlit("bool");
        }
        match operator {
            Infix::Equal => Ok(Object::Bool(left == right)),
            Infix::NotEqual => Ok(Object::Bool(left != right)),
            _ => Err(
                EvalError::UnsupportedInfix {
                    operator,
                    left: "bool".to_owned(),
                    right: "bool".to_owned(),
                },
            ),
        }
    }

    /// A string operator on two strings: only `+`, concatenation.
    fn eval_string_infix(&self, operator: Infix, left: &String, right: &String) -> (r: Result<
        Object,
        EvalError,
    >)
        ensures
            match (r, se_infix(operator, ObjM::Str(left@), ObjM::Str(right@))) {
                (Ok(o), Ok(m)) => obj_model(o) == m,
                (Err(e), Err(m)) => err_model(e) == m,
                _ => false,
            },
    {
        proof {
            reveal_strlit("string");
        }
        match operator {
            Infix::Plus => Ok(Object::Str(left.clone().concat(right.as_str()))),
            _ => Err(
                EvalError::UnsupportedInfix {
                    operator,
                    left: "string".to_owned(),
                    right: "string".to_owned(),
                },
            ),
        }
    }

    /// Evaluates both operands, left first, then applies the operator.
    fn eval_infix(&mut self, operator: Infix, left: &Expression, right: &Expression, fuel: u64)
        -> (r: Result<Object, EvalError>)
        requires
            old(self).wf(),
            fuel >= 1,
        ensures
            final(self).wf(),
            final(self).cur_env() == old(self).cur_env(),
            final(self).arena().len() >= old(self).arena().len(),
            ({
                let (a1, lr) = se_eval_expr(
                    old(self).arena(),
                    old(self).cur_env(),
                    expr_model(*left),
                    (fuel - 1) as nat,
                );
                match lr {
                    Err(m) => final(self).arena() == a1 && (r matches Err(e) && err_model(e) == m),
                    Ok(lv) => ({
                        let (a2, rr) = se_eval_expr(
                            a1,
                            old(self).cur_env(),
                            expr_model(*right),
                            (fuel - 1) as nat,
                        );
                        final(self).arena() == a2 && match rr {
                            Err(m) => r matches Err(e) && err_model(e) == m,
                            Ok(rv) => match (r, se_infix(operator, lv, rv)) {
                                (Ok(o), Ok(m)) => obj_model(o) == m,
                                (Err(e), Err(m)) => err_model(e) == m,
                                _ => false,
                            },
                        }
                    }),
                }
            }),
        decreases fuel, 0int, 2int,
    {
        let lv = match self.eval_expr(left, fuel - 1) {
            Ok(v) => v,
            Err(e) => {
                return Err(e);
            },
        };
        let rv = match self.eval_expr(right, fuel - 1) {
            Ok(v) => v,
            Err(e) => {
                return Err(e);
            },
        };
        match (lv, rv) {
            (Object::Int(a), Object::Int(b)) => self.eval_integer_infix(operator, a, b),
            (Object::Bool(a), Object::Bool(b)) => self.eval_bool_infix(operator, a, b),
            (Object::Str(a), Object::Str(b)) => self.eval_string_infix(operator, &a, &b),
            (l, r2) => Err(
                EvalError::UnsupportedInfix {
                    operator,
                    left: l.get_type().to_owned(),
                    right: r2.get_type().to_owned(),
                },
            ),
        }
    }

    /// Evaluates the condition, then the consequence or the alternative; an
    /// empty alternative evaluates to null.
    fn eval_if(&mut self, if_expr: &IfExpression, fuel: u64) -> (r: Result<Object, EvalError>)
        requires
            old(self).wf(),
            fuel >= 1,
        ensures
            final(self).wf(),
            final(self).cur_env() == old(self).cur_env(),
            final(self).arena().len() >= old(self).arena().len(),
            ({
                let (a1, c) = se_eval_expr(
                    old(self).arena(),
                    old(self).cur_env(),
                    expr_model(*if_expr.condition),
                    (fuel - 1) as nat,
                );
                match c {
                    Err(m) => final(self).arena() == a1 && (r matches Err(e) && err_model(e) == m),
                    Ok(cv) => eval_step_matches(
                        r,
                        if truthy(cv) {
                            se_eval_block(
                                a1,
                                old(self).cur_env(),
                                block_model(if_expr.consequence@),
                                (fuel - 1) as nat,
                            )
                        } else {
                            se_eval_block(
                                a1,
                                old(self).cur_env(),
                                block_model(if_expr.alternative@),
                                (fuel - 1) as nat,
                            )
                        },
                        final(self).arena(),
                    ),
                }
            }),
        decreases fuel, 0int, 2int,
    {
        let condition = match self.eval_expr(&if_expr.condition, fuel - 1) {
            Ok(v) => v,
            Err(e) => {
                return Err(e);
            },
        };
        if self.is_truthy(&condition) {
            self.eval_block_statement(&if_expr.consequence, fuel - 1)
        } else {
            self.eval_block_statement(&if_expr.alternative, fuel - 1)
        }
    }

    /// Evaluates one statement.
    fn eval_statement(&mut self, statement: &Statement, fuel: u64) -> (r: Result<Object, EvalError>)
        requires
            old(self).wf(),
        ensures
            final(self).wf(),
            final(self).cur_env() == old(self).cur_env(),
            final(self).arena().len() >= old(self).arena().len(),
            eval_step_matches(
                r,
                se_eval_stmt(
                    old(self).arena(),
                    old(self).cur_env(),
                    crate::ast::stmt_model(*statement),
                    fuel as nat,
                ),
                final(self).arena(),
            ),
        decreases fuel, 0int, 1int,
    {
        reveal(se_eval_stmt);
        reveal(se_eval_expr);
        if fuel == 0 {
            return Err(EvalError::DepthExceeded);
        }
        match statement {
            Statement::Let(id, value) => {
                let v = match self.eval_expr(value, fuel - 1) {
                    Ok(v) => v,
                    Err(e) => {
                        return Err(e);
                    },
                };
                let ghost a1 = self.arena();
                let ghost vm = obj_model(v);
                let cur = self.cur;
                proof {
                    assert((cur as int) < self.envs@.len());
                }
                self.envs[cur].assign(id.0.clone(), v);
                proof {
                    assert(self.arena() =~= a1.update(
                        cur as int,
                        EnvM {
                            bindings: a1[cur as int].bindings.insert(id@, vm),
                            outer: a1[cur as int].outer,
                        },
                    ));
                }
                Ok(Object::Empty)
            },
            Statement::Return(value) => {
                match self.eval_expr(value, fuel - 1) {
                    Ok(v) => Ok(Object::ReturnValue(Box::new(v))),
                    Err(e) => Err(e),
                }
            },
            Statement::Expression(expr) => self.eval_expr(expr, fuel - 1),
        }
    }

    /// Evaluates the statements of a block in order.
    #[verifier::loop_isolation(false)]
    fn eval_block_statement(&mut self, block: &BlockStatement, fuel: u64) -> (r: Result<
        Object,
        EvalError,
    >)
        requires
            old(self).wf(),
        ensures
            final(self).wf(),
            final(self).cur_env() == old(self).cur_env(),
            final(self).arena().len() >= old(self).arena().len(),
            eval_step_matches(
                r,
                se_eval_block(
                    old(self).arena(),
                    old(self).cur_env(),
                    block_model(block@),
                    fuel as nat,
                ),
                final(self).arena(),
            ),
        decreases fuel, 0int, 2int,
    {
        reveal(se_eval_block);
        reveal(se_block_from);
        reveal(se_eval_stmt);
        let ghost bm = block_model(block@);
        let ghost centry = se_block_from(
            old(self).arena(),
            old(self).cur_env(),
            bm,
            0,
            ObjM::Null,
            fuel as nat,
        );
        let mut result = Object::Null;
        let mut i: usize = 0;
        loop
            invariant
                self.wf(),
                self.cur_env() == old(self).cur_env(),
                self.arena().len() >= old(self).arena().len(),
                0 <= i <= block@.len(),
                !(obj_model(result) is Ret),
                se_block_from(self.arena(), self.cur_env(), bm, i as int, obj_model(result), fuel as nat)
                    == centry,
            decreases block@.len() - i,
        {
            reveal(se_block_from);
            reveal(se_eval_stmt);
            if i >= block.len() {
                return Ok(result);
            }
            if fuel == 0 {
                return Err(EvalError::DepthExceeded);
            }
            let v = match self.eval_statement(&block[i], fuel - 1) {
                Ok(v) => v,
                Err(e) => {
                    return Err(e);
                },
            };
            if matches!(v, Object::ReturnValue(_)) {
                return Ok(v);
            }
            result = v;
            i = i + 1;
        }
    }

    /// Evaluates argument expressions left to right in the caller's scope.
    #[verifier::loop_isolation(false)]
    fn eval_args(&mut self, args: &Vec<Expression>, fuel: u64) -> (r: Result<Vec<Object>, EvalError>)
        requires
            old(self).wf(),
        ensures
            final(self).wf(),
            final(self).cur_env() == old(self).cur_env(),
            final(self).arena().len() >= old(self).arena().len(),
            ({
                let s = se_args_from(
                    old(self).arena(),
                    old(self).cur_env(),
                    exprs_model(args@),
                    0,
                    fuel as nat,
                );
                final(self).arena() == s.0 && match (r, s.1) {
                    (Ok(vs), Ok(m)) => objs_model(vs@) == m,
                    (Err(e), Err(m)) => err_model(e) == m,
                    _ => false,
                }
            }),
        decreases fuel, 0int, 2int,
    {
        reveal(se_args_from);
        reveal(se_eval_expr);
        let ghost am = exprs_model(args@);
        let ghost centry = se_args_from(old(self).arena(), old(self).cur_env(), am, 0, fuel as nat);
        let mut vs: Vec<Object> = Vec::new();
        let mut i: usize = 0;
        loop
            invariant
                self.wf(),
                self.cur_env() == old(self).cur_env(),
                self.arena().len() >= old(self).arena().len(),
                0 <= i <= args@.len(),
                vs@.len() == i,
                ({
                    let s = se_args_from(self.arena(), self.cur_env(), am, i as int, fuel as nat);
                    match s.1 {
                        Ok(rest) => centry == (s.0, Ok::<Seq<ObjM>, ErrM>(objs_model(vs@) + rest)),
                        Err(e) => centry == (s.0, Err::<Seq<ObjM>, ErrM>(e)),
                    }
                }),
            decreases args@.len() - i,
        {
            reveal(se_args_from);
            reveal(se_eval_expr);
            if i >= args.len() {
                proof {
                    assert(objs_model(vs@) + Seq::<ObjM>::empty() =~= objs_model(vs@));
                }
                return Ok(vs);
            }
            if fuel == 0 {
                return Err(EvalError::DepthExceeded);
            }
            let ghost vs_before = vs@;
            let v = match self.eval_expr(&args[i], fuel - 1) {
                Ok(v) => v,
                Err(e) => {
                    return Err(e);
                },
            };
            vs.push(v);
            i = i + 1;
            proof {
                let vm = obj_model(vs@.last());
                assert(objs_model(vs@) =~= objs_model(vs_before) + seq![vm]);
                let s = se_args_from(self.arena(), self.cur_env(), am, i as int, fuel as nat);
                if s.1 is Ok {
                    let rest = s.1->Ok_0;
                    assert(objs_model(vs_before) + (seq![vm] + rest) =~= objs_model(vs@) + rest);
                }
            }
        }
    }

    /// Peels every layer of the `return` sentinel off a value.
    fn unwrap_return(&self, obj: Object) -> (r: Object)
        ensures
            obj_model(r) == strip_ret(obj_model(obj)),
            !(obj_model(r) is Ret),
        decreases obj,
    {
        match obj {
            Object::ReturnValue(v) => self.unwrap_return(*v),
            other => {
                proof {
                    lemma_strip_ret_not_ret(obj_model(other));
                }
                other
            },
        }
    }

    /// Evaluates a call: callee, then arguments, then the body in a fresh
    /// scope enclosed by the callee's captured scope; the caller's scope is
    /// restored afterwards, and a propagating `return` is unwrapped here.
    #[verifier::loop_isolation(false)]
    fn eval_call(&mut self, function: &Expression, args: &Vec<Expression>, fuel: u64) -> (r: Result<
        Object,
        EvalError,
    >)
        requires
            old(self).wf(),
        ensures
            final(self).wf(),
            final(self).cur_env() == old(self).cur_env(),
            final(self).arena().len() >= old(self).arena().len(),
            eval_step_matches(
                r,
                se_eval_call(
                    old(self).arena(),
                    old(self).cur_env(),
                    expr_model(*function),
                    exprs_model(args@),
                    fuel as nat,
                ),
                final(self).arena(),
            ),
        decreases fuel, 0int, 4int,
    {
        reveal(se_eval_call);
        reveal(se_eval_expr);
        reveal(se_args_from);
        reveal(se_eval_block);
        if fuel == 0 {
            return Err(EvalError::DepthExceeded);
        }
        let fv = match self.eval_expr(function, fuel - 1) {
            Ok(v) => v,
            Err(e) => {
                return Err(e);
            },
        };
        let (params, body, fenv) = match fv {
            Object::Function(p, b, e) => (p, b, e),
            other => {
                return Err(EvalError::NotAFunction(other.render()));
            },
        };
        let vs = match self.eval_args(args, fuel - 1) {
            Ok(vs) => vs,
            Err(e) => {
                return Err(e);
            },
        };
        if params.len() != vs.len() {
            return Err(EvalError::ArityMismatch { expected: params.len(), given: vs.len() });
        }
        let ghost a2 = self.arena();
        let ghost pm = params@.map_values(|p: Identifier| p@);
        let new_idx = self.envs.len();
        self.envs.push(Env::new_enclosed(fenv));
        proof {
            assert(self.arena() =~= a2.push(
                EnvM { bindings: Map::<Seq<char>, ObjM>::empty(), outer: Some(fenv as int) },
            ));
            assert(bind_params(pm.subrange(0, 0), objs_model(vs@).subrange(0, 0))
                =~= Map::<Seq<char>, ObjM>::empty());
        }
        let mut k: usize = 0;
        while k < params.len()
            invariant
                self.wf(),
                k <= params@.len(),
                params@.len() == vs@.len(),
                new_idx == self.envs@.len() - 1,
                self.cur_env() == old(self).cur_env(),
                self.arena() =~= a2.push(
                    EnvM {
                        bindings: bind_params(
                            pm.subrange(0, k as int),
                            objs_model(vs@).subrange(0, k as int),
                        ),
                        outer: Some(fenv as int),
                    },
                ),
            decreases params@.len() - k,
        {
            let name = params[k].0.clone();
            let value = crate::object::clone_object(&vs[k]);
            let ghost nm = name@;
            let ghost vmm = obj_model(value);
            let ghost abefore = self.arena();
            self.envs[new_idx].assign(name, value);
            proof {
                assert(abefore == a2.push(
                    EnvM {
                        bindings: bind_params(
                            pm.subrange(0, k as int),
                            objs_model(vs@).subrange(0, k as int),
                        ),
                        outer: Some(fenv as int),
                    },
                ));
                assert(self.envs@.len() == abefore.len());
                assert(forall|j: int|
                    0 <= j < abefore.len() && j != new_idx ==> self.arena()[j] == abefore[j]);
                assert(self.arena()[new_idx as int] == EnvM {
                    bindings: abefore[new_idx as int].bindings.insert(nm, vmm),
                    outer: abefore[new_idx as int].outer,
                });
                assert(nm == pm[k as int]);
                assert(vmm == obj_model(vs@[k as int]));
                let pk = pm.subrange(0, k + 1);
                let vk = objs_model(vs@).subrange(0, k + 1);
                assert(pk.drop_last() =~= pm.subrange(0, k as int));
                assert(vk.drop_last() =~= objs_model(vs@).subrange(0, k as int));
                assert(pk.last() == pm[k as int]);
                assert(vk.last() == obj_model(vs@[k as int]));
                assert(bind_params(pk, vk) == bind_params(
                    pm.subrange(0, k as int),
                    objs_model(vs@).subrange(0, k as int),
                ).insert(pm[k as int], obj_model(vs@[k as int])));
                assert(new_idx as int == a2.len());
                assert(abefore[new_idx as int] == EnvM {
                    bindings: bind_params(
                        pm.subrange(0, k as int),
                        objs_model(vs@).subrange(0, k as int),
                    ),
                    outer: Some(fenv as int),
                });
                assert(self.arena()[new_idx as int] == EnvM {
                    bindings: bind_params(pk, vk),
                    outer: Some(fenv as int),
                });
                let target = a2.push(EnvM { bindings: bind_params(pk, vk), outer: Some(fenv as int) });
                assert(self.arena().len() == target.len());
                assert forall|j: int| 0 <= j < self.arena().len() implies self.arena()[j]
                    == target[j] by {
                    if j != new_idx {
                        assert(self.arena()[j] == abefore[j]);
                        assert(abefore[j] == a2[j]);
                        assert(target[j] == a2[j]);
                    }
                }
                assert(self.arena() =~= target);
            }
            k = k + 1;
        }
        proof {
            assert(pm.subrange(0, pm.len() as int) =~= pm);
            assert(objs_model(vs@).subrange(0, objs_model(vs@).len() as int) =~= objs_model(vs@));
        }
        let saved = self.cur;
        self.cur = new_idx;
        let obj = self.eval_block_statement(&body, fuel - 1);
        self.cur = saved;
        match obj {
            Ok(v) => Ok(self.unwrap_return(v)),
            Err(e) => Err(e),
        }
    }

    /// Evaluates one expression.
    fn eval_expr(&mut self, expression: &Expression, fuel: u64) -> (r: Result<Object, EvalError>)
        requires
            old(self).wf(),
        ensures
            final(self).wf(),
            final(self).cur_env() == old(self).cur_env(),
            final(self).arena().len() >= old(self).arena().len(),
            eval_step_matches(
                r,
                se_eval_expr(
                    old(self).arena(),
                    old(self).cur_env(),
                    expr_model(*expression),
                    fuel as nat,
                ),
                final(self).arena(),
            ),
        decreases fuel, 0int, 3int,
    {
        reveal(se_eval_expr);
        reveal(se_eval_call);
        reveal(se_eval_block);
        if fuel == 0 {
            return Err(EvalError::DepthExceeded);
        }
        match expression {
            Expression::Literal(literal) => Ok(self.eval_literal(literal)),
            Expression::Prefix(operator, right) => self.eval_prefix(*operator, right, fuel),
            Expression::Infix(operator, left, right) => self.eval_infix(
                *operator,
                left,
                right,
                fuel,
            ),
            Expression::If(if_expr) => self.eval_if(if_expr, fuel),
            Expression::Identifier(id) => self.eval_identifier(id),
            Expression::Function { params, body } => {
                let cur = self.cur;
                Ok(
                    Object::Function(
                        crate::ast::clone_idents(params),
                        crate::ast::clone_block(body),
                        cur,
                    ),
                )
            },
            Expression::Call { function, args } => self.eval_call(function, args, fuel - 1),
        }
    }

    /// Evaluates a whole program against this interpreter's persistent
    /// top-level scope: statements in order, stopping at the first recorded
    /// parse failure or evaluation failure; a top-level `return` ends
    /// evaluation early with its value; the result is the last statement's
    /// value.  The `return` propagation sentinel never surfaces here: every
    /// layer of it is peeled off.
    #[verifier::loop_isolation(false)]
    pub fn eval(&mut self, program: Program) -> (r: Result<Object, EvalError>)
        requires
            old(self).wf(),
        ensures
            final(self).wf(),
            final(self).cur_env() == old(self).cur_env(),
            eval_step_matches(
                r,
                se_eval_program(
                    old(self).arena(),
                    old(self).cur_env(),
                    program_model(program@),
                    0,
                    ObjM::Null,
                    EVAL_DEPTH_LIMIT as nat,
                ),
                final(self).arena(),
            ),
            r matches Ok(o) ==> !(obj_model(o) is Ret),
    {
        reveal(se_eval_program);
        reveal(se_eval_stmt);
        let ghost prm = program_model(program@);
        let ghost centry = se_eval_program(
            old(self).arena(),
            old(self).cur_env(),
            prm,
            0,
            ObjM::Null,
            EVAL_DEPTH_LIMIT as nat,
        );
        let mut result = Object::Null;
        let mut i: usize = 0;
        loop
            invariant
                self.wf(),
                self.cur_env() == old(self).cur_env(),
                0 <= i <= program@.len(),
                !(obj_model(result) is Ret),
                se_eval_program(
                    self.arena(),
                    self.cur_env(),
                    prm,
                    i as int,
                    obj_model(result),
                    EVAL_DEPTH_LIMIT as nat,
                ) == centry,
            decreases program@.len() - i,
        {
            reveal(se_eval_program);
            reveal(se_eval_stmt);
            if i >= program.len() {
                return Ok(result);
            }
            let st = match &program[i] {
                Err(pe) => {
                    return Err(EvalError::Parse(*pe));
                },
                Ok(st) => st,
            };
            let v = match self.eval_statement(st, EVAL_DEPTH_LIMIT - 1) {
                Ok(v) => v,
                Err(e) => {
                    return Err(e);
                },
            };
            if matches!(v, Object::ReturnValue(_)) {
                return Ok(self.unwrap_return(v));
            }
            result = v;
            i = i + 1;
        }
    }
}

} // verus!
