//! The runtime value model and its textual rendering.

use vstd::prelude::*;
use vstd::string::StringExecFns;
use crate::ast::{BlockStatement, Identifier, StmtM, block_model};

verus! {

broadcast use vstd::seq::axiom_seq_index_decreases;

/// A runtime value.  A `Function` value is a closure: it carries the index
/// of the environment that was current at its definition site.
#[derive(Debug, PartialEq)]
pub enum Object {
    Int(i64),
    Bool(bool),
    Str(String),
    Null,
    /// Result of a `let` binding; distinct from `Null` so that the REPL
    /// boundary can suppress printing.
    Empty,
    /// Internal propagation sentinel for `return`; never surfaced by the
    /// top-level evaluation entry point.
    ReturnValue(Box<Object>),
    Function(Vec<Identifier>, BlockStatement, usize),
}

/// Mathematical model of a runtime value.
pub enum ObjM {
    Int(i64),
    Bool(bool),
    Str(Seq<char>),
    Null,
    Empty,
    Ret(Box<ObjM>),
    Func { params: Seq<Seq<char>>, body: Seq<StmtM>, env: int },
}

/// Model of a runtime value.
pub open spec fn obj_model(o: Object) -> ObjM
    decreases o,
{
    match o {
        Object::Int(n) => ObjM::Int(n),
        Object::Bool(b) => ObjM::Bool(b),
        Object::Str(s) => ObjM::Str(s@),
        Object::Null => ObjM::Null,
        Object::Empty => ObjM::Empty,
        Object::ReturnValue(v) => ObjM::Ret(Box::new(obj_model(*v))),
        Object::Function(params, body, env) => ObjM::Func {
            params: params@.map_values(|p: Identifier| p@),
            body: block_model(body@),
            env: env as int,
        },
    }
}

/// The type name of a value, as it appears in diagnostics; a propagating
/// `return` reports the type of the value it wraps.
pub open spec fn type_label(m: ObjM) -> Seq<char>
    decreases m,
{
    match m {
        ObjM::Int(_) => "int"@,
        ObjM::Bool(_) => "bool"@,
        ObjM::Str(_) => "string"@,
        ObjM::Null => "null"@,
        ObjM::Empty => "empty"@,
        ObjM::Ret(v) => type_label(*v),
        ObjM::Func { .. } => "function"@,
    }
}

/// The decimal digits of `n`, most significant first.
pub open spec fn dec_digits(n: nat) -> Seq<char>
    decreases n,
{
    if n < 10 {
        seq![digit_char(n)]
    } else {
        dec_digits(n / 10).push(digit_char(n % 10))
    }
}

/// The character of a single decimal digit.
pub open spec fn digit_char(d: nat) -> char {
    if d == 0 {
        '0'
    } else if d == 1 {
        '1'
    } else if d == 2 {
        '2'
    } else if d == 3 {
        '3'
    } else if d == 4 {
        '4'
    } else if d == 5 {
        '5'
    } else if d == 6 {
        '6'
    } else if d == 7 {
        '7'
    } else if d == 8 {
        '8'
    } else {
        '9'
    }
}

/// The decimal rendering of a signed integer.
pub open spec fn dec_int(n: int) -> Seq<char> {
    if n < 0 {
        seq!['-'] + dec_digits((-n) as nat)
    } else {
        dec_digits(n as nat)
    }
}

/// The parameter names joined with commas.
pub open spec fn join_comma(ps: Seq<Seq<char>>) -> Seq<char>
    decreases ps.len(),
{
    if ps.len() == 0 {
        Seq::empty()
    } else if ps.len() == 1 {
        ps[0]
    } else {
        join_comma(ps.drop_last()) + ","@ + ps.last()
    }
}

/// The textual rendering of a value: decimal digits for an integer,
/// `true`/`false` for a boolean, the text itself for a string, `NULL` for
/// the null value, nothing for the empty value, and `fn(p1,p2,...)` for a
/// function.
pub open spec fn render_model(m: ObjM) -> Seq<char>
    decreases m,
{
    match m {
        ObjM::Int(n) => dec_int(n as int),
        ObjM::Bool(b) => if b {
            "true"@
        } else {
            "false"@
        },
        ObjM::Str(s) => s,
        ObjM::Null => "NULL"@,
        ObjM::Empty => Seq::empty(),
        ObjM::Ret(v) => render_model(*v),
        ObjM::Func { params, .. } => "fn("@ + join_comma(params) + ")"@,
    }
}

/// The string slice holding a single decimal digit.
fn digit_str(d: u64) -> (r: &'static str)
    requires
        d < 10,
    ensures
        r@ == seq![digit_char(d as nat)],
{
    proof {
        reveal_strlit("0");
        reveal_strlit("1");
        reveal_strlit("2");
        reveal_strlit("3");
        reveal_strlit("4");
        reveal_strlit("5");
        reveal_strlit("6");
        reveal_strlit("7");
        reveal_strlit("8");
        reveal_strlit("9");
    }
    let r: &'static str = if d == 0 {
        "0"
    } else if d == 1 {
        "1"
    } else if d == 2 {
        "2"
    } else if d == 3 {
        "3"
    } else if d == 4 {
        "4"
    } else if d == 5 {
        "5"
    } else if d == 6 {
        "6"
    } else if d == 7 {
        "7"
    } else if d == 8 {
        "8"
    } else {
        "9"
    };
    proof {
        assert(r@ =~= seq![digit_char(d as nat)]);
    }
    r
}

/// Appends the decimal digits of `v` to `out`.
fn push_dec_u64(out: &mut String, v: u64)
    ensures
        final(out)@ == old(out)@ + dec_digits(v as nat),
    decreases v,
{
    if v < 10 {
        out.append(digit_str(v));
    } else {
        push_dec_u64(out, v / 10);
        out.append(digit_str(v % 10));
        proof {
            assert(old(out)@ + dec_digits((v / 10) as nat) + seq![
                digit_char((v % 10) as nat),
            ] =~= old(out)@ + dec_digits(v as nat));
        }
    }
}

/// The decimal rendering of an unsigned 64-bit integer.
pub fn render_u64(v: u64) -> (r: String)
    ensures
        r@ == dec_digits(v as nat),
{
    let mut out = String::new();
    push_dec_u64(&mut out, v);
    proof {
        assert(out@ =~= dec_digits(v as nat));
    }
    out
}

/// The decimal rendering of a signed 64-bit integer.
pub fn render_int(n: i64) -> (r: String)
    ensures
        r@ == dec_int(n as int),
{
    let mut out = String::new();
    if n < 0 {
        proof {
            reveal_strlit("-");
        }
        out.append("-");
        let wide: i128 = -(n as i128);
        let mag: u64 = wide as u64;
        push_dec_u64(&mut out, mag);
        proof {
            assert(out@ =~= dec_int(n as int));
        }
    } else {
        let mag: u64 = n as u64;
        push_dec_u64(&mut out, mag);
        proof {
            assert(out@ =~= dec_int(n as int));
        }
    }
    out
}

/// A copy of a value with the same model.
pub fn clone_object(o: &Object) -> (r: Object)
    ensures
        obj_model(r) == obj_model(*o),
    decreases o,
{
    match o {
        Object::Int(n) => Object::Int(*n),
        Object::Bool(b) => Object::Bool(*b),
        Object::Str(s) => Object::Str(s.clone()),
        Object::Null => Object::Null,
        Object::Empty => Object::Empty,
        Object::ReturnValue(v) => Object::ReturnValue(Box::new(clone_object(v))),
        Object::Function(params, body, env) => Object::Function(
            crate::ast::clone_idents(params),
            crate::ast::clone_block(body),
            *env,
        ),
    }
}

impl Object {
    /// The type name of this value, as it appears in diagnostics.
    pub fn get_type(&self) -> (r: &'static str)
        ensures
            r@ == type_label(obj_model(*self)),
        decreases self,
    {
        match self {
            Object::Int(_) => "int",
            Object::Bool(_) => "bool",
            Object::Str(_) => "string",
            Object::Null => "null",
            Object::Empty => "empty",
            Object::ReturnValue(v) => v.get_type(),
            Object::Function(_, _, _) => "function",
        }
    }

    /// The textual rendering of this value.
    pub fn render(&self) -> (r: String)
        ensures
            r@ == render_model(obj_model(*self)),
        decreases self,
    {
        match self {
            Object::Int(n) => render_int(*n),
            Object::Bool(b) => {
                proof {
                    reveal_strlit("true");
                    reveal_strlit("false");
                }
                if *b {
                    "true".to_owned()
                } else {
                    "false".to_owned()
                }
            },
            Object::Str(s) => s.clone(),
            Object::Null => "NULL".to_owned(),
            Object::Empty => String::new(),
            Object::ReturnValue(v) => v.render(),
            Object::Function(params, _, _) => {
                proof {
                    reveal_strlit("fn(");
                    reveal_strlit(")");
                    reveal_strlit(",");
                }
                let mut out = String::new();
                out.append("fn(");
                let mut k: usize = 0;
                let ghost pm = params@.map_values(|p: Identifier| p@);
                while k < params.len()
                    invariant
                        0 <= k <= params@.len(),
                        pm == params@.map_values(|p: Identifier| p@),
                        pm.len() == params@.len(),
                        out@ == "fn("@ + join_comma(pm.subrange(0, k as int)),
                    decreases params@.len() - k,
                {
                    if k > 0 {
                        out.append(",");
                    }
                    out.append(params[k].0.as_str());
                    proof {
                        assert(pm.subrange(0, k + 1 as int).drop_last() =~= pm.subrange(
                            0,
                            k as int,
                        ));
                        assert(pm.subrange(0, k + 1 as int).last() == pm[k as int]);
                        if k == 0 {
                            assert(out@ =~= "fn("@ + join_comma(pm.subrange(0, k + 1 as int)));
                        } else {
                            assert(out@ =~= "fn("@ + join_comma(pm.subrange(0, k + 1 as int)));
                        }
                    }
                    k = k + 1;
                }
                out.append(")");
                proof {
                    assert(pm.subrange(0, pm.len() as int) =~= pm);
                    assert(out@ =~= "fn("@ + join_comma(pm) + ")"@);
                }
                out
            },
        }
    }
}

} // verus!
