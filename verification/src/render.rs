//! The compiled program's runtime.
//!
//! A compiled program is a sequence of instructions over one shared output
//! buffer.  Running it needs values for the embedded expressions; the host
//! supplies them through an environment of named `Value`s.  The interpreter
//! here understands the canonical expression forms — a name, a literal, a
//! parenthesized atom, a bracketed list — and reports every other form as
//! an error rather than guessing.
//!
//! Rendering a value follows the `ToHtml` capability: raw text is escaped,
//! pre-escaped markup is appended verbatim, numbers render in decimal.  An
//! optional attribute value resolves three ways, following the
//! `OptionalAttr` capability: absent, bare, or present with a value.
//!
//! The whole runtime exists twice: as ghost functions (`spec_run_instrs`
//! and companions), which are the reference semantics, and as executable
//! functions proven to return exactly what the ghost runtime returns.

use vstd::prelude::*;
use vstd::string::StrSliceExecFns;
use crate::escape::{escape_into, escape_text};
use crate::strutil::{dec_digits, str_eq, u64_to_string};
use crate::token::SpecTok;

verus! {

/// A runtime value a template expression can take.
#[derive(Debug)]
pub enum Value {
    /// Raw text: escaped when rendered.
    Text(String),
    /// Pre-escaped markup: appended verbatim when rendered.
    Safe(String),
    /// An unsigned number: rendered in decimal.
    Int(u64),
    /// A boolean: usable as an optional attribute value.
    Bool(bool),
    /// A list: usable as a loop source.
    List(Vec<Value>),
    /// An optional value: usable as an optional attribute value, and
    /// renderable (absent renders as nothing).
    Maybe(Option<Box<Value>>),
}

/// Ghost mirror of `Value`.
#[verifier::ext_equal]
pub enum SpecValue {
    Text(Seq<char>),
    Safe(Seq<char>),
    Int(u64),
    Bool(bool),
    List(Seq<SpecValue>),
    Maybe(Option<Box<SpecValue>>),
}

/// Ghost mirror of one value.
pub open spec fn view_value(v: Value) -> SpecValue
    decreases v, 0int,
{
    match v {
        Value::Text(s) => SpecValue::Text(s@),
        Value::Safe(s) => SpecValue::Safe(s@),
        Value::Int(n) => SpecValue::Int(n),
        Value::Bool(b) => SpecValue::Bool(b),
        Value::List(vs) => SpecValue::List(view_values(vs@)),
        Value::Maybe(o) => SpecValue::Maybe(
            match o {
                Some(b) => Some(Box::new(view_value(*b))),
                None => None,
            },
        ),
    }
}

/// Ghost mirror of a value sequence.
pub open spec fn view_values(vs: Seq<Value>) -> Seq<SpecValue>
    decreases vs, 1int,
{
    if vs.len() == 0 {
        Seq::empty()
    } else {
        seq![view_value(vs[0])] + view_values(vs.drop_first())
    }
}

impl View for Value {
    type V = SpecValue;

    open spec fn view(&self) -> SpecValue {
        view_value(*self)
    }
}

/// The mirror of a value sequence keeps its length, and mirrors it element
/// by element.
pub proof fn lemma_view_values_index(vs: Seq<Value>, i: int)
    requires
        0 <= i < vs.len(),
    ensures
        view_values(vs).len() == vs.len(),
        view_values(vs)[i] == view_value(vs[i]),
    decreases i,
{
    lemma_view_values_len(vs);
    if i > 0 {
        lemma_view_values_index(vs.drop_first(), i - 1);
    }
}

/// The mirror of a value sequence has the same length.
pub proof fn lemma_view_values_len(vs: Seq<Value>)
    ensures
        view_values(vs).len() == vs.len(),
    decreases vs.len(),
{
    if vs.len() > 0 {
        lemma_view_values_len(vs.drop_first());
    }
}

/// Extending a value sequence by one value extends its mirror accordingly.
pub proof fn lemma_view_values_push(vs: Seq<Value>, v: Value)
    ensures
        view_values(vs.push(v)) == view_values(vs).push(view_value(v)),
    decreases vs.len(),
{
    if vs.len() == 0 {
        assert(vs.push(v).drop_first() =~= vs);
        assert(vs.push(v)[0] == v);
        assert(view_values(vs.push(v)) =~= view_values(vs).push(view_value(v)));
    } else {
        assert(vs.push(v).drop_first() =~= vs.drop_first().push(v));
        lemma_view_values_push(vs.drop_first(), v);
        assert(vs.push(v)[0] == vs[0]);
        assert(view_values(vs.push(v)) == seq![view_value(vs.push(v)[0])] + view_values(
            vs.push(v).drop_first(),
        ));
        assert(view_values(vs) == seq![view_value(vs[0])] + view_values(vs.drop_first()));
        assert(seq![view_value(vs[0])] + view_values(vs.drop_first()).push(view_value(v))
            =~= (seq![view_value(vs[0])] + view_values(vs.drop_first())).push(view_value(v)));
        assert(view_values(vs.push(v)) =~= view_values(vs).push(view_value(v)));
    }
}

/// A deep copy of one value, preserving its mirror.
pub fn value_clone(v: &Value) -> (r: Value)
    ensures
        r@ == v@,
    decreases *v,
{
    match v {
        Value::Text(s) => Value::Text(s.clone()),
        Value::Safe(s) => Value::Safe(s.clone()),
        Value::Int(n) => Value::Int(*n),
        Value::Bool(b) => Value::Bool(*b),
        Value::List(vs) => {
            let mut out: Vec<Value> = Vec::new();
            let n = vs.len();
            let mut i: usize = 0;
            proof {
                lemma_view_values_len(vs@);
                assert(view_values(out@) =~= view_values(vs@).subrange(0, 0));
            }
            while i < n
                invariant
                    n == vs@.len(),
                    0 <= i <= n,
                    *v == Value::List(*vs),
                    view_values(vs@).len() == n,
                    view_values(out@) == view_values(vs@).subrange(0, i as int),
                decreases n - i,
            {
                proof {
                    assert((*v)->List_0 == *vs);
                    assert(decreases_to!(*v => (*v)->List_0));
                    assert(decreases_to!(*vs => vs@));
                    assert(decreases_to!(vs@ => vs@[i as int]));
                }
                let c = value_clone(&vs[i]);
                let ghost prev = out@;
                out.push(c);
                proof {
                    lemma_view_values_push(prev, c);
                    lemma_view_values_index(vs@, i as int);
                    assert(view_values(out@) =~= view_values(vs@).subrange(0, i + 1));
                }
                i += 1;
            }
            proof {
                assert(view_values(vs@).subrange(0, n as int) =~= view_values(vs@));
            }
            Value::List(out)
        },
        Value::Maybe(o) => match o {
            None => Value::Maybe(None),
            Some(b) => {
                proof {
                    assert((*v)->Maybe_0 == *o);
                    assert(decreases_to!(*v => (*v)->Maybe_0));
                }
                let c = value_clone(&*b);
                Value::Maybe(Some(Box::new(c)))
            },
        },
    }
}

/// An environment: named values supplied by the host, later bindings
/// shadowing earlier ones.
#[derive(Debug)]
pub struct Env(pub Vec<(String, Value)>);

/// Ghost mirror of an environment.
pub open spec fn view_env(bs: Seq<(String, Value)>) -> Seq<(Seq<char>, SpecValue)> {
    bs.map_values(|b: (String, Value)| (b.0@, view_value(b.1)))
}

impl View for Env {
    type V = Seq<(Seq<char>, SpecValue)>;

    open spec fn view(&self) -> Seq<(Seq<char>, SpecValue)> {
        view_env(self.0@)
    }
}

/// The value of a name: the latest binding wins.
pub open spec fn env_lookup(env: Seq<(Seq<char>, SpecValue)>, name: Seq<char>) -> Option<SpecValue>
    decreases env.len(),
{
    if env.len() == 0 {
        None
    } else if env.last().0 == name {
        Some(env.last().1)
    } else {
        env_lookup(env.drop_last(), name)
    }
}

impl Env {
    /// An empty environment.
    pub fn new() -> (r: Env)
        ensures
            r@ == Seq::<(Seq<char>, SpecValue)>::empty(),
    {
        let e = Env(Vec::new());
        proof {
            assert(view_env(e.0@) =~= Seq::<(Seq<char>, SpecValue)>::empty());
        }
        e
    }

    /// Add a binding; it shadows earlier bindings of the same name.
    pub fn bind(&mut self, name: String, value: Value)
        ensures
            final(self)@ == old(self)@.push((name@, view_value(value))),
    {
        let ghost prev = self.0@;
        let ghost entry = (name@, view_value(value));
        self.0.push((name, value));
        proof {
            assert(view_env(self.0@) =~= view_env(prev).push(entry));
        }
    }

    /// Look a name up; the latest binding wins.
    pub fn lookup(&self, name: &str) -> (r: Option<Value>)
        ensures
            match r {
                Some(v) => env_lookup(self@, name@) == Some(view_value(v)),
                None => env_lookup(self@, name@) is None,
            },
    {
        let n = self.0.len();
        let mut i: usize = n;
        proof {
            assert(self@.subrange(0, n as int) =~= self@);
        }
        while i > 0
            invariant
                0 <= i <= n,
                n == self.0@.len(),
                self@.len() == n,
                env_lookup(self@, name@) == env_lookup(self@.subrange(0, i as int), name@),
            decreases i,
        {
            i = i - 1;
            proof {
                assert(self@[i as int] == (self.0@[i as int].0@, view_value(self.0@[i as int].1)));
            }
            if str_eq(self.0[i].0.as_str(), name) {
                let v = value_clone(&self.0[i].1);
                proof {
                    let sub = self@.subrange(0, i + 1);
                    assert(sub.last() == self@[i as int]);
                    assert(env_lookup(sub, name@) == Some(self@[i as int].1));
                }
                return Some(v);
            }
            proof {
                let sub = self@.subrange(0, i + 1);
                assert(sub.last() == self@[i as int]);
                assert(sub.drop_last() =~= self@.subrange(0, i as int));
            }
        }
        proof {
            assert(self@.subrange(0, 0) =~= Seq::<(Seq<char>, SpecValue)>::empty());
        }
        None
    }
}

} // verus!

verus! {

use vstd::string::StringExecFns;

/// Why the runtime could not finish.
#[derive(Clone, Copy, PartialEq, Eq, Structural, Debug)]
pub enum EvalError {
    /// An expression names nothing in the environment.
    UnboundName,
    /// An expression form the interpreter does not understand.
    UnsupportedExpr,
    /// A loop source did not evaluate to a list.
    NotAList,
    /// A condition did not evaluate to a boolean.
    NotABool,
    /// A rendered value has no text form (a bare boolean or list).
    NotRenderable,
    /// An optional attribute value was neither a boolean nor an optional.
    NotAnOptional,
    /// A loop binding or match pattern form the interpreter does not
    /// understand.
    UnsupportedPattern,
    /// No arm of a match accepted the scrutinee.
    NoArmMatched,
    /// An `@unimplemented` or `@unreachable` path was reached.
    Aborted,
    /// A `@while` loop ran longer than the given fuel allows.
    OutOfFuel,
}

/// The rendering of one value, following the `ToHtml` capability: text is
/// escaped, pre-escaped markup passes through, numbers render in decimal,
/// an absent optional renders as nothing.  A bare boolean or a list has no
/// rendering.
pub open spec fn spec_render_value(v: SpecValue) -> Result<Seq<char>, EvalError>
    decreases v,
{
    match v {
        SpecValue::Text(s) => Ok(escape_text(s)),
        SpecValue::Safe(s) => Ok(s),
        SpecValue::Int(n) => Ok(dec_digits(n)),
        SpecValue::Bool(_) => Err(EvalError::NotRenderable),
        SpecValue::List(_) => Err(EvalError::NotRenderable),
        SpecValue::Maybe(None) => Ok(Seq::empty()),
        SpecValue::Maybe(Some(b)) => spec_render_value(*b),
    }
}

/// The three-way resolution of an optional attribute value, following the
/// `OptionalAttr` capability: `false` and an absent optional omit the
/// attribute, `true` keeps it bare, a present optional gives its value.
pub open spec fn spec_tristate(v: SpecValue) -> Result<Option<Option<SpecValue>>, EvalError> {
    match v {
        SpecValue::Bool(false) => Ok(None),
        SpecValue::Bool(true) => Ok(Some(None)),
        SpecValue::Maybe(None) => Ok(None),
        SpecValue::Maybe(Some(b)) => Ok(Some(Some(*b))),
        _ => Err(EvalError::NotAnOptional),
    }
}

/// Append the rendering of a value to the buffer.
pub fn render_value_into(v: &Value, out: &mut String) -> (r: Result<(), EvalError>)
    ensures
        match r {
            Ok(()) => spec_render_value(v@) matches Ok(t) && final(out)@ == old(out)@ + t,
            Err(e) => spec_render_value(v@) == Err::<Seq<char>, EvalError>(e) && final(out)@ == old(
                out,
            )@,
        },
    decreases *v,
{
    match v {
        Value::Text(s) => {
            escape_into(out, s.as_str());
            Ok(())
        },
        Value::Safe(s) => {
            out.append(s.as_str());
            Ok(())
        },
        Value::Int(n) => {
            let d = u64_to_string(*n);
            out.append(d.as_str());
            Ok(())
        },
        Value::Bool(_) => Err(EvalError::NotRenderable),
        Value::List(_) => Err(EvalError::NotRenderable),
        Value::Maybe(o) => match o {
            None => {
                proof {
                    assert(old(out)@ + Seq::<char>::empty() =~= old(out)@);
                }
                Ok(())
            },
            Some(b) => {
                proof {
                    assert((*v)->Maybe_0 == *o);
                    assert(decreases_to!(*v => (*v)->Maybe_0));
                }
                render_value_into(&*b, out)
            },
        },
    }
}

/// Resolve an optional attribute value three ways.
pub fn tristate(v: &Value) -> (r: Result<Option<Option<Value>>, EvalError>)
    ensures
        match r {
            Ok(None) => spec_tristate(v@) == Ok::<Option<Option<SpecValue>>, EvalError>(None),
            Ok(Some(None)) => spec_tristate(v@) == Ok::<Option<Option<SpecValue>>, EvalError>(
                Some(None),
            ),
            Ok(Some(Some(inner))) => spec_tristate(v@) == Ok::<
                Option<Option<SpecValue>>,
                EvalError,
            >(Some(Some(view_value(inner)))),
            Err(e) => spec_tristate(v@) == Err::<Option<Option<SpecValue>>, EvalError>(e),
        },
{
    match v {
        Value::Bool(false) => Ok(None),
        Value::Bool(true) => Ok(Some(None)),
        Value::Maybe(None) => Ok(None),
        Value::Maybe(Some(b)) => Ok(Some(Some(value_clone(&*b)))),
        _ => Err(EvalError::NotAnOptional),
    }
}

/// The value of one expression atom.
pub open spec fn spec_eval_atom(
    env: Seq<(Seq<char>, SpecValue)>,
    t: SpecTok,
) -> Result<SpecValue, EvalError>
    decreases t, 1int,
{
    match t {
        SpecTok::Ident(s) => if s == "true"@ {
            Ok(SpecValue::Bool(true))
        } else if s == "false"@ {
            Ok(SpecValue::Bool(false))
        } else {
            match env_lookup(env, s) {
                Some(v) => Ok(v),
                None => Err(EvalError::UnboundName),
            }
        },
        SpecTok::LitStr(s) => Ok(SpecValue::Text(s)),
        SpecTok::LitInt(n) => Ok(SpecValue::Int(n)),
        SpecTok::Group(crate::token::Delim::Paren, inner) => if inner.len() == 1 {
            spec_eval_atom(env, inner[0])
        } else {
            Err(EvalError::UnsupportedExpr)
        },
        SpecTok::Group(crate::token::Delim::Bracket, items) => match spec_eval_list(
            env,
            items,
            0,
        ) {
            Ok(vs) => Ok(SpecValue::List(vs)),
            Err(e) => Err(e),
        },
        _ => Err(EvalError::UnsupportedExpr),
    }
}

/// The values of a comma-separated list of atoms.
pub open spec fn spec_eval_list(
    env: Seq<(Seq<char>, SpecValue)>,
    items: Seq<SpecTok>,
    pos: int,
) -> Result<Seq<SpecValue>, EvalError>
    decreases items, items.len() - pos,
{
    if !(0 <= pos) {
        Err(EvalError::UnsupportedExpr)
    } else if pos >= items.len() {
        Ok(Seq::empty())
    } else {
        match spec_eval_atom(env, items[pos]) {
            Err(e) => Err(e),
            Ok(v) => if pos + 1 >= items.len() {
                Ok(seq![v])
            } else if items[pos + 1] is Comma {
                match spec_eval_list(env, items, pos + 2) {
                    Err(e) => Err(e),
                    Ok(rest) => Ok(seq![v] + rest),
                }
            } else {
                Err(EvalError::UnsupportedExpr)
            },
        }
    }
}

/// The value of one embedded expression: a single atom.
pub open spec fn spec_eval(
    env: Seq<(Seq<char>, SpecValue)>,
    e: Seq<SpecTok>,
) -> Result<SpecValue, EvalError> {
    if e.len() == 1 {
        spec_eval_atom(env, e[0])
    } else {
        Err(EvalError::UnsupportedExpr)
    }
}

} // verus!

verus! {

use crate::codegen::{SpecInstr, SpecInstrArm};

/// A structural size of one instruction: the termination measure for the
/// runtime.
pub open spec fn sinstr_size(i: SpecInstr) -> nat
    decreases i, 0int,
{
    1 + match i {
        SpecInstr::Iterate { body, .. } => sinstrs_size(body),
        SpecInstr::Cond { then_branch, else_branch, .. } => sinstrs_size(then_branch)
            + sinstrs_size(else_branch),
        SpecInstr::Select { arms, .. } => siarms_size(arms),
        SpecInstr::Repeat { body, .. } => sinstrs_size(body),
        _ => 0nat,
    }
}

/// A structural size of an instruction sequence.
pub open spec fn sinstrs_size(is: Seq<SpecInstr>) -> nat
    decreases is, 1int,
{
    if is.len() == 0 {
        0
    } else {
        sinstr_size(is[0]) + sinstrs_size(is.drop_first())
    }
}

/// A structural size of a `Select` arm sequence.
pub open spec fn siarms_size(arms: Seq<SpecInstrArm>) -> nat
    decreases arms, 1int,
{
    if arms.len() == 0 {
        0
    } else {
        1 + sinstrs_size(arms[0].body) + siarms_size(arms.drop_first())
    }
}

/// An element of an instruction sequence stands no higher than the
/// sequence.
pub proof fn lemma_sinstrs_size_elem(is: Seq<SpecInstr>, i: int)
    requires
        0 <= i < is.len(),
    ensures
        sinstr_size(is[i]) <= sinstrs_size(is),
    decreases i,
{
    if i > 0 {
        lemma_sinstrs_size_elem(is.drop_first(), i - 1);
    }
}

/// An arm's body stands strictly below the arm sequence.
pub proof fn lemma_siarms_size_elem(arms: Seq<SpecInstrArm>, i: int)
    requires
        0 <= i < arms.len(),
    ensures
        sinstrs_size(arms[i].body) < siarms_size(arms),
    decreases i,
{
    if i > 0 {
        lemma_siarms_size_elem(arms.drop_first(), i - 1);
    }
}

/// The name a loop binding pattern binds: a single identifier, or nothing
/// the interpreter understands.
pub open spec fn spec_pat_name(p: Seq<SpecTok>) -> Option<Seq<char>> {
    if p.len() == 1 {
        match p[0] {
            SpecTok::Ident(s) => Some(s),
            _ => None,
        }
    } else {
        None
    }
}

/// Match one arm pattern against a value: `Ok(Some(env))` on a match with
/// the bindings added, `Ok(None)` on a clean mismatch.  Supported
/// patterns: `_`, a binding identifier, a string literal, an integer
/// literal.
pub open spec fn spec_arm_match(
    env: Seq<(Seq<char>, SpecValue)>,
    pat: Seq<SpecTok>,
    v: SpecValue,
) -> Result<Option<Seq<(Seq<char>, SpecValue)>>, EvalError> {
    if pat.len() == 1 {
        match pat[0] {
            SpecTok::Ident(s) => if s == "_"@ {
                Ok(Some(env))
            } else {
                Ok(Some(env.push((s, v))))
            },
            SpecTok::LitStr(s) => match v {
                SpecValue::Text(t) => if t == s {
                    Ok(Some(env))
                } else {
                    Ok(None)
                },
                _ => Ok(None),
            },
            SpecTok::LitInt(n) => match v {
                SpecValue::Int(m) => if m == n {
                    Ok(Some(env))
                } else {
                    Ok(None)
                },
                _ => Ok(None),
            },
            _ => Err(EvalError::UnsupportedPattern),
        }
    } else {
        Err(EvalError::UnsupportedPattern)
    }
}

/// Run one instruction: the text it appends, and the error that stopped
/// it, if one did.
pub open spec fn spec_run_instr(
    i: SpecInstr,
    env: Seq<(Seq<char>, SpecValue)>,
    fuel: nat,
) -> (Seq<char>, Option<EvalError>)
    decreases fuel, sinstr_size(i), 0int, 0int,
{
    match i {
        SpecInstr::Lit(s) => (s, None),
        SpecInstr::Rendered(e) => match spec_eval(env, e) {
            Err(er) => (Seq::empty(), Some(er)),
            Ok(v) => match spec_render_value(v) {
                Ok(t) => (t, None),
                Err(er) => (Seq::empty(), Some(er)),
            },
        },
        SpecInstr::OptAttr { name, value } => match spec_eval(env, value) {
            Err(er) => (Seq::empty(), Some(er)),
            Ok(v) => match spec_tristate(v) {
                Err(er) => (Seq::empty(), Some(er)),
                Ok(None) => (Seq::empty(), None),
                Ok(Some(None)) => (seq![' '] + name, None),
                Ok(Some(Some(inner))) => match spec_render_value(inner) {
                    Err(er) => (Seq::empty(), Some(er)),
                    Ok(t) => (seq![' '] + name + seq!['=', '"'] + t + seq!['"'], None),
                },
            },
        },
        SpecInstr::Iterate { pat, source, body } => match spec_pat_name(pat) {
            None => (Seq::empty(), Some(EvalError::UnsupportedPattern)),
            Some(name) => match spec_eval(env, source) {
                Err(er) => (Seq::empty(), Some(er)),
                Ok(SpecValue::List(items)) => spec_run_iterate(body, name, items, 0, env, fuel),
                Ok(_) => (Seq::empty(), Some(EvalError::NotAList)),
            },
        },
        SpecInstr::Cond { cond, then_branch, else_branch } => match spec_eval(env, cond) {
            Err(er) => (Seq::empty(), Some(er)),
            Ok(SpecValue::Bool(true)) => spec_run_instrs(then_branch, env, fuel),
            Ok(SpecValue::Bool(false)) => spec_run_instrs(else_branch, env, fuel),
            Ok(_) => (Seq::empty(), Some(EvalError::NotABool)),
        },
        SpecInstr::Bind { .. } => (Seq::empty(), None),
        SpecInstr::Select { scrutinee, arms } => match spec_eval(env, scrutinee) {
            Err(er) => (Seq::empty(), Some(er)),
            Ok(v) => spec_run_arms(arms, v, env, fuel),
        },
        SpecInstr::Repeat { cond, body } => match spec_eval(env, cond) {
            Err(er) => (Seq::empty(), Some(er)),
            Ok(SpecValue::Bool(false)) => (Seq::empty(), None),
            Ok(SpecValue::Bool(true)) => if fuel == 0 {
                (Seq::empty(), Some(EvalError::OutOfFuel))
            } else {
                let r1 = spec_run_instrs(body, env, fuel);
                if r1.1 is Some {
                    r1
                } else {
                    let r2 = spec_run_instr(i, env, (fuel - 1) as nat);
                    (r1.0 + r2.0, r2.1)
                }
            },
            Ok(_) => (Seq::empty(), Some(EvalError::NotABool)),
        },
        SpecInstr::Abort => (Seq::empty(), Some(EvalError::Aborted)),
    }
}

/// Run a sequence of instructions, left to right, threading the bindings a
/// `Bind` introduces through the remainder of the sequence.
pub open spec fn spec_run_instrs(
    is: Seq<SpecInstr>,
    env: Seq<(Seq<char>, SpecValue)>,
    fuel: nat,
) -> (Seq<char>, Option<EvalError>)
    decreases fuel, sinstrs_size(is), 0int, 1int,
{
    if is.len() == 0 {
        (Seq::empty(), None)
    } else {
        match is[0] {
            SpecInstr::Bind { pat, init } => match spec_pat_name(pat) {
                None => (Seq::empty(), Some(EvalError::UnsupportedPattern)),
                Some(name) => match spec_eval(env, init) {
                    Err(er) => (Seq::empty(), Some(er)),
                    Ok(v) => {
                        proof {
                            assert(sinstr_size(is[0]) >= 1);
                        }
                        spec_run_instrs(is.drop_first(), env.push((name, v)), fuel)
                    },
                },
            },
            _ => {
                let r1 = spec_run_instr(is[0], env, fuel);
                if r1.1 is Some {
                    r1
                } else {
                    let r2 = spec_run_instrs(is.drop_first(), env, fuel);
                    (r1.0 + r2.0, r2.1)
                }
            },
        }
    }
}

/// Run a loop body once per remaining list element, binding the name to
/// each element in turn.
pub open spec fn spec_run_iterate(
    body: Seq<SpecInstr>,
    name: Seq<char>,
    items: Seq<SpecValue>,
    idx: int,
    env: Seq<(Seq<char>, SpecValue)>,
    fuel: nat,
) -> (Seq<char>, Option<EvalError>)
    decreases fuel, sinstrs_size(body), items.len() - idx + 1, 0int,
{
    if !(0 <= idx < items.len()) {
        (Seq::empty(), None)
    } else {
        let r1 = spec_run_instrs(body, env.push((name, items[idx])), fuel);
        if r1.1 is Some {
            r1
        } else {
            let r2 = spec_run_iterate(body, name, items, idx + 1, env, fuel);
            (r1.0 + r2.0, r2.1)
        }
    }
}

/// Run the first arm whose pattern and guard accept the value.
pub open spec fn spec_run_arms(
    arms: Seq<SpecInstrArm>,
    v: SpecValue,
    env: Seq<(Seq<char>, SpecValue)>,
    fuel: nat,
) -> (Seq<char>, Option<EvalError>)
    decreases fuel, siarms_size(arms), 0int, 0int,
{
    if arms.len() == 0 {
        (Seq::empty(), Some(EvalError::NoArmMatched))
    } else {
        match spec_arm_match(env, arms[0].pat, v) {
            Err(er) => (Seq::empty(), Some(er)),
            Ok(None) => spec_run_arms(arms.drop_first(), v, env, fuel),
            Ok(Some(env2)) => match arms[0].guard {
                None => spec_run_instrs(arms[0].body, env2, fuel),
                Some(g) => match spec_eval(env2, g) {
                    Err(er) => (Seq::empty(), Some(er)),
                    Ok(SpecValue::Bool(true)) => spec_run_instrs(arms[0].body, env2, fuel),
                    Ok(SpecValue::Bool(false)) => spec_run_arms(arms.drop_first(), v, env, fuel),
                    Ok(_) => (Seq::empty(), Some(EvalError::NotABool)),
                },
            },
        }
    }
}

} // verus!

verus! {

use crate::ast::Expr;
use crate::token::{lemma_view_toks_index, lemma_view_toks_len, view_toks, Delim, Tok};

/// Mirroring distributes over concatenation of value sequences.
pub proof fn lemma_view_values_concat(a: Seq<Value>, b: Seq<Value>)
    ensures
        view_values(a + b) == view_values(a) + view_values(b),
    decreases a.len(),
{
    if a.len() == 0 {
        assert(a + b =~= b);
        assert(view_values(a) + view_values(b) =~= view_values(b));
    } else {
        assert((a + b).drop_first() =~= a.drop_first() + b);
        lemma_view_values_concat(a.drop_first(), b);
        assert((a + b)[0] == a[0]);
        assert(view_values(a + b) == seq![view_value((a + b)[0])] + view_values(
            (a + b).drop_first(),
        ));
        assert(view_values(a) == seq![view_value(a[0])] + view_values(a.drop_first()));
        assert(seq![view_value(a[0])] + (view_values(a.drop_first()) + view_values(b))
            =~= (seq![view_value(a[0])] + view_values(a.drop_first())) + view_values(b));
        assert(view_values(a + b) =~= view_values(a) + view_values(b));
    }
}

/// A deep copy of an environment, preserving its mirror.
pub fn env_clone(env: &Env) -> (r: Env)
    ensures
        r@ == env@,
{
    let n = env.0.len();
    let mut out: Vec<(String, Value)> = Vec::new();
    let mut i: usize = 0;
    proof {
        assert(view_env(out@) =~= env@.subrange(0, 0));
    }
    while i < n
        invariant
            n == env.0@.len(),
            0 <= i <= n,
            env@.len() == n,
            view_env(out@) == env@.subrange(0, i as int),
        decreases n - i,
    {
        let p = &env.0[i];
        let c = (p.0.clone(), value_clone(&p.1));
        let ghost prev = out@;
        out.push(c);
        proof {
            assert(view_env(out@) =~= view_env(prev).push((c.0@, view_value(c.1))));
            assert(env@[i as int] == (env.0@[i as int].0@, view_value(env.0@[i as int].1)));
            assert(view_env(out@) =~= env@.subrange(0, i + 1));
        }
        i += 1;
    }
    proof {
        assert(env@.subrange(0, n as int) =~= env@);
    }
    Env(out)
}

/// The value of one expression atom.
pub fn eval_atom(env: &Env, t: &Tok) -> (r: Result<Value, EvalError>)
    ensures
        match r {
            Ok(v) => spec_eval_atom(env@, t@) == Ok::<SpecValue, EvalError>(view_value(v)),
            Err(e) => spec_eval_atom(env@, t@) == Err::<SpecValue, EvalError>(e),
        },
    decreases t@, 1int,
{
    match t {
        Tok::Ident(s) => {
            if str_eq(s.as_str(), "true") {
                Ok(Value::Bool(true))
            } else if str_eq(s.as_str(), "false") {
                Ok(Value::Bool(false))
            } else {
                match env.lookup(s.as_str()) {
                    Some(v) => Ok(v),
                    None => Err(EvalError::UnboundName),
                }
            }
        },
        Tok::LitStr(s) => Ok(Value::Text(s.clone())),
        Tok::LitInt(n) => Ok(Value::Int(*n)),
        Tok::Group(Delim::Paren, inner) => {
            proof {
                lemma_view_toks_len(inner@);
            }
            if inner.len() == 1 {
                proof {
                    lemma_view_toks_index(inner@, 0);
                    assert((t@)->Group_1 == view_toks(inner@));
                    assert(decreases_to!(t@ => (t@)->Group_1));
                }
                eval_atom(env, &inner[0])
            } else {
                Err(EvalError::UnsupportedExpr)
            }
        },
        Tok::Group(Delim::Bracket, items) => {
            proof {
                assert((t@)->Group_1 == view_toks(items@));
                assert(decreases_to!(t@ => (t@)->Group_1));
            }
            match eval_list(env, items, 0) {
                Ok(vs) => Ok(Value::List(vs)),
                Err(e) => Err(e),
            }
        },
        _ => Err(EvalError::UnsupportedExpr),
    }
}

/// The values of a comma-separated list of atoms, from `pos` to the end.
pub fn eval_list(env: &Env, items: &Vec<Tok>, pos: usize) -> (r: Result<Vec<Value>, EvalError>)
    ensures
        match r {
            Ok(vs) => spec_eval_list(env@, view_toks(items@), pos as int) == Ok::<
                Seq<SpecValue>,
                EvalError,
            >(view_values(vs@)),
            Err(e) => spec_eval_list(env@, view_toks(items@), pos as int) == Err::<
                Seq<SpecValue>,
                EvalError,
            >(e),
        },
    decreases view_toks(items@), view_toks(items@).len() - pos,
{
    let ghost ts = view_toks(items@);
    proof {
        lemma_view_toks_len(items@);
    }
    let n = items.len();
    if pos >= n {
        let r: Vec<Value> = Vec::new();
        proof {
            assert(view_values(r@) =~= Seq::<SpecValue>::empty());
        }
        return Ok(r);
    }
    proof {
        lemma_view_toks_index(items@, pos as int);
        assert(decreases_to!(ts => ts[pos as int]));
    }
    match eval_atom(env, &items[pos]) {
        Err(e) => Err(e),
        Ok(v) => {
            if pos + 1 >= n {
                let mut r: Vec<Value> = Vec::new();
                let ghost vv = view_value(v);
                r.push(v);
                proof {
                    lemma_view_values_push(Seq::<Value>::empty(), r@[0]);
                    assert(view_values(Seq::<Value>::empty()) =~= Seq::<SpecValue>::empty());
                    assert(Seq::<Value>::empty().push(r@[0]) =~= r@);
                    assert(view_values(r@) =~= seq![vv]);
                }
                Ok(r)
            } else {
                proof {
                    lemma_view_toks_index(items@, pos + 1);
                }
                if matches!(&items[pos + 1], Tok::Comma) {
                    match eval_list(env, items, pos + 2) {
                        Err(e) => Err(e),
                        Ok(mut rest) => {
                            let ghost m = rest@;
                            let ghost vv = view_value(v);
                            let mut r: Vec<Value> = Vec::new();
                            r.push(v);
                            let ghost one = r@;
                            r.append(&mut rest);
                            proof {
                                lemma_view_values_push(Seq::<Value>::empty(), one[0]);
                                assert(view_values(Seq::<Value>::empty())
                                    =~= Seq::<SpecValue>::empty());
                                assert(Seq::<Value>::empty().push(one[0]) =~= one);
                                assert(view_values(one) =~= seq![vv]);
                                lemma_view_values_concat(one, m);
                                assert(view_values(r@) =~= seq![vv] + view_values(m));
                            }
                            Ok(r)
                        },
                    }
                } else {
                    Err(EvalError::UnsupportedExpr)
                }
            }
        },
    }
}

/// The value of one embedded expression.
pub fn eval_expr(env: &Env, e: &Expr) -> (r: Result<Value, EvalError>)
    ensures
        match r {
            Ok(v) => spec_eval(env@, e@) == Ok::<SpecValue, EvalError>(view_value(v)),
            Err(er) => spec_eval(env@, e@) == Err::<SpecValue, EvalError>(er),
        },
{
    proof {
        lemma_view_toks_len(e.0@);
    }
    if e.0.len() == 1 {
        proof {
            lemma_view_toks_index(e.0@, 0);
        }
        eval_atom(env, &e.0[0])
    } else {
        Err(EvalError::UnsupportedExpr)
    }
}

} // verus!

verus! {

use vstd::string::StringExecFns as StringExecFnsRun;
use crate::ast::Pat;
use crate::codegen::{lemma_view_instrs_index, lemma_view_instrs_len, view_iarm, view_iarms, view_instr, view_instrs, Instr, InstrArm};

/// The mirror of a `Select` arm sequence has the same length.
pub proof fn lemma_view_iarms_len(arms: Seq<InstrArm>)
    ensures
        view_iarms(arms).len() == arms.len(),
    decreases arms.len(),
{
    if arms.len() > 0 {
        lemma_view_iarms_len(arms.drop_first());
    }
}

/// The mirror of a `Select` arm sequence keeps its length, and mirrors it
/// element by element.
pub proof fn lemma_view_iarms_index(arms: Seq<InstrArm>, i: int)
    requires
        0 <= i < arms.len(),
    ensures
        view_iarms(arms).len() == arms.len(),
        view_iarms(arms)[i] == view_iarm(arms[i]),
    decreases i,
{
    lemma_view_iarms_len(arms);
    if i > 0 {
        lemma_view_iarms_index(arms.drop_first(), i - 1);
    }
}

/// The name a loop binding pattern binds.
pub fn pat_name(p: &Pat) -> (r: Option<String>)
    ensures
        match r {
            Some(s) => spec_pat_name(p@) == Some(s@),
            None => spec_pat_name(p@) is None,
        },
{
    proof {
        lemma_view_toks_len(p.0@);
    }
    if p.0.len() == 1 {
        proof {
            lemma_view_toks_index(p.0@, 0);
        }
        if let Tok::Ident(s) = &p.0[0] {
            return Some(s.clone());
        }
    }
    None
}

/// Match one arm pattern against a value.
pub fn arm_match(env: &Env, pat: &Pat, v: &Value) -> (r: Result<Option<Env>, EvalError>)
    ensures
        match r {
            Ok(Some(e2)) => spec_arm_match(env@, pat@, v@) == Ok::<
                Option<Seq<(Seq<char>, SpecValue)>>,
                EvalError,
            >(Some(e2@)),
            Ok(None) => spec_arm_match(env@, pat@, v@) == Ok::<
                Option<Seq<(Seq<char>, SpecValue)>>,
                EvalError,
            >(None),
            Err(e) => spec_arm_match(env@, pat@, v@) == Err::<
                Option<Seq<(Seq<char>, SpecValue)>>,
                EvalError,
            >(e),
        },
{
    proof {
        lemma_view_toks_len(pat.0@);
    }
    if pat.0.len() == 1 {
        proof {
            lemma_view_toks_index(pat.0@, 0);
        }
        match &pat.0[0] {
            Tok::Ident(s) => {
                if str_eq(s.as_str(), "_") {
                    Ok(Some(env_clone(env)))
                } else {
                    let mut e2 = env_clone(env);
                    e2.bind(s.clone(), value_clone(v));
                    Ok(Some(e2))
                }
            },
            Tok::LitStr(s) => match v {
                Value::Text(t) => {
                    if str_eq(t.as_str(), s.as_str()) {
                        Ok(Some(env_clone(env)))
                    } else {
                        Ok(None)
                    }
                },
                _ => Ok(None),
            },
            Tok::LitInt(n) => match v {
                Value::Int(m) => {
                    if *m == *n {
                        Ok(Some(env_clone(env)))
                    } else {
                        Ok(None)
                    }
                },
                _ => Ok(None),
            },
            _ => Err(EvalError::UnsupportedPattern),
        }
    } else {
        Err(EvalError::UnsupportedPattern)
    }
}

/// Run one instruction, appending what it produces to the shared buffer.
#[verifier::rlimit(60)]
pub fn run_instr(i: &Instr, env: &Env, fuel: u64, out: &mut String) -> (r: Result<(), EvalError>)
    ensures
        ({
            let sr = spec_run_instr(i@, env@, fuel as nat);
            match r {
                Ok(()) => sr.1 is None && final(out)@ == old(out)@ + sr.0,
                Err(e) => sr.1 == Some(e) && final(out)@ == old(out)@ + sr.0,
            }
        }),
    decreases fuel as nat, sinstr_size(i@), 0int, 0int,
{
    match i {
        Instr::Lit(s) => {
            out.append(s.as_str());
            Ok(())
        },
        Instr::Rendered(e) => match eval_expr(env, e) {
            Err(er) => {
                proof {
                    assert(old(out)@ + Seq::<char>::empty() =~= old(out)@);
                }
                Err(er)
            },
            Ok(v) => match render_value_into(&v, out) {
                Ok(()) => Ok(()),
                Err(er) => {
                    proof {
                        assert(old(out)@ + Seq::<char>::empty() =~= old(out)@);
                    }
                    Err(er)
                },
            },
        },
        Instr::OptAttr { name, value } => match eval_expr(env, value) {
            Err(er) => {
                proof {
                    assert(old(out)@ + Seq::<char>::empty() =~= old(out)@);
                }
                Err(er)
            },
            Ok(v) => match tristate(&v) {
                Err(er) => {
                    proof {
                        assert(old(out)@ + Seq::<char>::empty() =~= old(out)@);
                    }
                    Err(er)
                },
                Ok(None) => {
                    proof {
                        assert(old(out)@ + Seq::<char>::empty() =~= old(out)@);
                    }
                    Ok(())
                },
                Ok(Some(None)) => {
                    out.append(" ");
                    out.append(name.as_str());
                    proof {
                        reveal_strlit(" ");
                        assert(old(out)@ + (seq![' '] + name@) =~= (old(out)@ + " "@) + name@);
                    }
                    Ok(())
                },
                Ok(Some(Some(inner))) => {
                    let mut tmp = String::new();
                    match render_value_into(&inner, &mut tmp) {
                        Err(er) => {
                            proof {
                                assert(old(out)@ + Seq::<char>::empty() =~= old(out)@);
                            }
                            Err(er)
                        },
                        Ok(()) => {
                            out.append(" ");
                            out.append(name.as_str());
                            out.append("=\"");
                            out.append(tmp.as_str());
                            out.append("\"");
                            proof {
                                reveal_strlit(" ");
                                reveal_strlit("=\"");
                                reveal_strlit("\"");
                                let sr = spec_run_instr(i@, env@, fuel as nat);
                                assert(final(out)@ =~= old(out)@ + sr.0);
                            }
                            Ok(())
                        },
                    }
                },
            },
        },
        Instr::Iterate { pat, source, body } => match pat_name(pat) {
            None => {
                proof {
                    assert(old(out)@ + Seq::<char>::empty() =~= old(out)@);
                }
                Err(EvalError::UnsupportedPattern)
            },
            Some(name) => match eval_expr(env, source) {
                Err(er) => {
                    proof {
                        assert(old(out)@ + Seq::<char>::empty() =~= old(out)@);
                    }
                    Err(er)
                },
                Ok(v) => match v {
                    Value::List(items) => {
                        proof {
                            assert(sinstr_size(i@) == 1 + sinstrs_size(view_instrs(body@)));
                        }
                        run_iterate(body, &name, &items, 0, env, fuel, out)
                    },
                    _ => {
                        proof {
                            assert(old(out)@ + Seq::<char>::empty() =~= old(out)@);
                        }
                        Err(EvalError::NotAList)
                    },
                },
            },
        },
        Instr::Cond { cond, then_branch, else_branch } => match eval_expr(env, cond) {
            Err(er) => {
                proof {
                    assert(old(out)@ + Seq::<char>::empty() =~= old(out)@);
                }
                Err(er)
            },
            Ok(v) => match v {
                Value::Bool(true) => {
                    proof {
                        assert(sinstr_size(i@) == 1 + sinstrs_size(view_instrs(then_branch@))
                            + sinstrs_size(view_instrs(else_branch@)));
                        assert(view_instrs(then_branch@).skip(0) =~= view_instrs(then_branch@));
                    }
                    run_instrs_from(then_branch, 0, env, fuel, out)
                },
                Value::Bool(false) => {
                    proof {
                        assert(sinstr_size(i@) == 1 + sinstrs_size(view_instrs(then_branch@))
                            + sinstrs_size(view_instrs(else_branch@)));
                        assert(view_instrs(else_branch@).skip(0) =~= view_instrs(else_branch@));
                    }
                    run_instrs_from(else_branch, 0, env, fuel, out)
                },
                _ => {
                    proof {
                        assert(old(out)@ + Seq::<char>::empty() =~= old(out)@);
                    }
                    Err(EvalError::NotABool)
                },
            },
        },
        Instr::Bind { .. } => {
            proof {
                assert(old(out)@ + Seq::<char>::empty() =~= old(out)@);
            }
            Ok(())
        },
        Instr::Select { scrutinee, arms } => match eval_expr(env, scrutinee) {
            Err(er) => {
                proof {
                    assert(old(out)@ + Seq::<char>::empty() =~= old(out)@);
                }
                Err(er)
            },
            Ok(v) => {
                proof {
                    assert(sinstr_size(i@) == 1 + siarms_size(view_iarms(arms@)));
                    assert(view_iarms(arms@).skip(0) =~= view_iarms(arms@));
                }
                run_arms(arms, 0, &v, env, fuel, out)
            },
        },
        Instr::Repeat { cond, body } => match eval_expr(env, cond) {
            Err(er) => {
                proof {
                    assert(old(out)@ + Seq::<char>::empty() =~= old(out)@);
                }
                Err(er)
            },
            Ok(v) => match v {
                Value::Bool(false) => {
                    proof {
                        assert(old(out)@ + Seq::<char>::empty() =~= old(out)@);
                    }
                    Ok(())
                },
                Value::Bool(true) => {
                    if fuel == 0 {
                        proof {
                            assert(old(out)@ + Seq::<char>::empty() =~= old(out)@);
                        }
                        return Err(EvalError::OutOfFuel);
                    }
                    proof {
                        assert(sinstr_size(i@) == 1 + sinstrs_size(view_instrs(body@)));
                        assert(view_instrs(body@).skip(0) =~= view_instrs(body@));
                    }
                    match run_instrs_from(body, 0, env, fuel, out) {
                        Err(er) => Err(er),
                        Ok(()) => {
                            let ghost mid = out@;
                            let rr = run_instr(i, env, fuel - 1, out);
                            proof {
                                let sr = spec_run_instr(i@, env@, fuel as nat);
                                let r1 = spec_run_instrs(view_instrs(body@), env@, fuel as nat);
                                let r2 = spec_run_instr(i@, env@, (fuel - 1) as nat);
                                assert((old(out)@ + r1.0) + r2.0 =~= old(out)@ + (r1.0 + r2.0));
                            }
                            rr
                        },
                    }
                },
                _ => {
                    proof {
                        assert(old(out)@ + Seq::<char>::empty() =~= old(out)@);
                    }
                    Err(EvalError::NotABool)
                },
            },
        },
        Instr::Abort => {
            proof {
                assert(old(out)@ + Seq::<char>::empty() =~= old(out)@);
            }
            Err(EvalError::Aborted)
        },
    }
}

/// Run the instructions from `idx` on, threading `Bind` bindings through
/// the remainder.
pub fn run_instrs_from(
    instrs: &Vec<Instr>,
    idx: usize,
    env: &Env,
    fuel: u64,
    out: &mut String,
) -> (r: Result<(), EvalError>)
    requires
        idx <= instrs@.len(),
    ensures
        ({
            let sr = spec_run_instrs(view_instrs(instrs@).skip(idx as int), env@, fuel as nat);
            match r {
                Ok(()) => sr.1 is None && final(out)@ == old(out)@ + sr.0,
                Err(e) => sr.1 == Some(e) && final(out)@ == old(out)@ + sr.0,
            }
        }),
    decreases fuel as nat, sinstrs_size(view_instrs(instrs@).skip(idx as int)), 0int, 1int,
{
    let ghost vis = view_instrs(instrs@);
    proof {
        lemma_view_instrs_len(instrs@);
    }
    let n = instrs.len();
    if idx >= n {
        proof {
            assert(vis.skip(idx as int) =~= Seq::<SpecInstr>::empty());
            assert(old(out)@ + Seq::<char>::empty() =~= old(out)@);
        }
        return Ok(());
    }
    proof {
        lemma_view_instrs_index(instrs@, idx as int);
        assert(vis.skip(idx as int)[0] == vis[idx as int]);
        assert(vis.skip(idx as int).drop_first() =~= vis.skip(idx + 1));
        assert(sinstrs_size(vis.skip(idx as int)) == sinstr_size(vis.skip(idx as int)[0])
            + sinstrs_size(vis.skip(idx as int).drop_first()));
        assert(sinstr_size(vis[idx as int]) >= 1);
    }
    match &instrs[idx] {
        Instr::Bind { pat, init } => match pat_name(pat) {
            None => {
                proof {
                    assert(old(out)@ + Seq::<char>::empty() =~= old(out)@);
                }
                Err(EvalError::UnsupportedPattern)
            },
            Some(name) => match eval_expr(env, init) {
                Err(er) => {
                    proof {
                        assert(old(out)@ + Seq::<char>::empty() =~= old(out)@);
                    }
                    Err(er)
                },
                Ok(v) => {
                    let mut env2 = env_clone(env);
                    env2.bind(name, v);
                    run_instrs_from(instrs, idx + 1, &env2, fuel, out)
                },
            },
        },
        _ => match run_instr(&instrs[idx], env, fuel, out) {
            Err(er) => Err(er),
            Ok(()) => {
                let ghost mid = out@;
                let rr = run_instrs_from(instrs, idx + 1, env, fuel, out);
                proof {
                    let r1 = spec_run_instr(vis[idx as int], env@, fuel as nat);
                    let r2 = spec_run_instrs(vis.skip(idx + 1), env@, fuel as nat);
                    assert((old(out)@ + r1.0) + r2.0 =~= old(out)@ + (r1.0 + r2.0));
                }
                rr
            },
        },
    }
}

/// Run a loop body once per list element from `idx` on.
pub fn run_iterate(
    body: &Vec<Instr>,
    name: &String,
    items: &Vec<Value>,
    idx: usize,
    env: &Env,
    fuel: u64,
    out: &mut String,
) -> (r: Result<(), EvalError>)
    ensures
        ({
            let sr = spec_run_iterate(
                view_instrs(body@),
                name@,
                view_values(items@),
                idx as int,
                env@,
                fuel as nat,
            );
            match r {
                Ok(()) => sr.1 is None && final(out)@ == old(out)@ + sr.0,
                Err(e) => sr.1 == Some(e) && final(out)@ == old(out)@ + sr.0,
            }
        }),
    decreases
        fuel as nat,
        sinstrs_size(view_instrs(body@)),
        view_values(items@).len() - idx + 1,
        0int,
{
    proof {
        lemma_view_values_len(items@);
    }
    let n = items.len();
    if idx >= n {
        proof {
            assert(old(out)@ + Seq::<char>::empty() =~= old(out)@);
        }
        return Ok(());
    }
    proof {
        lemma_view_values_index(items@, idx as int);
    }
    let mut env2 = env_clone(env);
    env2.bind(name.clone(), value_clone(&items[idx]));
    proof {
        assert(view_instrs(body@).skip(0) =~= view_instrs(body@));
    }
    match run_instrs_from(body, 0, &env2, fuel, out) {
        Err(er) => Err(er),
        Ok(()) => {
            let rr = run_iterate(body, name, items, idx + 1, env, fuel, out);
            proof {
                let r1 = spec_run_instrs(
                    view_instrs(body@),
                    env@.push((name@, view_values(items@)[idx as int])),
                    fuel as nat,
                );
                let r2 = spec_run_iterate(
                    view_instrs(body@),
                    name@,
                    view_values(items@),
                    idx + 1,
                    env@,
                    fuel as nat,
                );
                assert((old(out)@ + r1.0) + r2.0 =~= old(out)@ + (r1.0 + r2.0));
            }
            rr
        },
    }
}

/// Run the first arm from `idx` on whose pattern and guard accept the
/// value.
pub fn run_arms(
    arms: &Vec<InstrArm>,
    idx: usize,
    v: &Value,
    env: &Env,
    fuel: u64,
    out: &mut String,
) -> (r: Result<(), EvalError>)
    requires
        idx <= arms@.len(),
    ensures
        ({
            let sr = spec_run_arms(view_iarms(arms@).skip(idx as int), v@, env@, fuel as nat);
            match r {
                Ok(()) => sr.1 is None && final(out)@ == old(out)@ + sr.0,
                Err(e) => sr.1 == Some(e) && final(out)@ == old(out)@ + sr.0,
            }
        }),
    decreases fuel as nat, siarms_size(view_iarms(arms@).skip(idx as int)), 0int, 0int,
{
    let ghost vas = view_iarms(arms@);
    proof {
        lemma_view_iarms_len(arms@);
    }
    let n = arms.len();
    if idx >= n {
        proof {
            assert(vas.skip(idx as int) =~= Seq::<SpecInstrArm>::empty());
            assert(old(out)@ + Seq::<char>::empty() =~= old(out)@);
        }
        return Err(EvalError::NoArmMatched);
    }
    proof {
        lemma_view_iarms_index(arms@, idx as int);
        assert(vas.skip(idx as int)[0] == vas[idx as int]);
        assert(vas.skip(idx as int).drop_first() =~= vas.skip(idx + 1));
        assert(siarms_size(vas.skip(idx as int)) == 1 + sinstrs_size(vas.skip(idx as int)[0].body)
            + siarms_size(vas.skip(idx as int).drop_first()));
    }
    let a = &arms[idx];
    match arm_match(env, &a.pat, v) {
        Err(er) => {
            proof {
                assert(old(out)@ + Seq::<char>::empty() =~= old(out)@);
            }
            Err(er)
        },
        Ok(None) => run_arms(arms, idx + 1, v, env, fuel, out),
        Ok(Some(env2)) => {
            proof {
                assert(view_instrs(a.body@).skip(0) =~= view_instrs(a.body@));
                assert(vas[idx as int].body == view_instrs(a.body@));
            }
            match &a.guard {
                None => run_instrs_from(&a.body, 0, &env2, fuel, out),
                Some(g) => match eval_expr(&env2, g) {
                    Err(er) => {
                        proof {
                            assert(old(out)@ + Seq::<char>::empty() =~= old(out)@);
                        }
                        Err(er)
                    },
                    Ok(gv) => match gv {
                        Value::Bool(true) => run_instrs_from(&a.body, 0, &env2, fuel, out),
                        Value::Bool(false) => run_arms(arms, idx + 1, v, env, fuel, out),
                        _ => {
                            proof {
                                assert(old(out)@ + Seq::<char>::empty() =~= old(out)@);
                            }
                            Err(EvalError::NotABool)
                        },
                    },
                },
            }
        },
    }
}

/// Run a whole compiled program in the given environment, appending its
/// output to the buffer.  The fuel bounds how many times the `@while`
/// loops may repeat; every other construct runs regardless of fuel.
pub fn run_instrs(instrs: &Vec<Instr>, env: &Env, fuel: u64, out: &mut String) -> (r: Result<
    (),
    EvalError,
>)
    ensures
        ({
            let sr = spec_run_instrs(view_instrs(instrs@), env@, fuel as nat);
            match r {
                Ok(()) => sr.1 is None && final(out)@ == old(out)@ + sr.0,
                Err(e) => sr.1 == Some(e) && final(out)@ == old(out)@ + sr.0,
            }
        }),
{
    proof {
        assert(view_instrs(instrs@).skip(0) =~= view_instrs(instrs@));
    }
    run_instrs_from(instrs, 0, env, fuel, out)
}

} // verus!

verus! {

use crate::html::SafeText;

/// Run a whole compiled program in the given environment and wrap the
/// fully built buffer as pre-escaped markup, the artifact one template
/// evaluation produces.
pub fn render_template(instrs: &Vec<Instr>, env: &Env, fuel: u64) -> (r: Result<
    SafeText,
    EvalError,
>)
    ensures
        ({
            let sr = spec_run_instrs(view_instrs(instrs@), env@, fuel as nat);
            match r {
                Ok(st) => sr.1 is None && st@ == sr.0,
                Err(e) => sr.1 == Some(e),
            }
        }),
{
    let mut out = String::new();
    match run_instrs(instrs, env, fuel, &mut out) {
        Ok(()) => {
            proof {
                let sr = spec_run_instrs(view_instrs(instrs@), env@, fuel as nat);
                assert(Seq::<char>::empty() + sr.0 =~= sr.0);
            }
            Ok(SafeText(out))
        },
        Err(e) => Err(e),
    }
}

} // verus!
