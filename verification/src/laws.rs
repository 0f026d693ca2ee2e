//! The laws the template engine obeys, stated across module boundaries and
//! proved from the contracts the modules export.  Escaping's own laws — it
//! replaces exactly `"`, `&`, `<`, `>` and leaves everything else,
//! apostrophes and multi-byte characters included, untouched — stand next
//! to the escaping engine itself.

use vstd::prelude::*;
use crate::ast::{SpecAttr, SpecContent, SpecEntry};
use crate::codegen::{
    close_tag_text, is_void_tag, open_tag_text, spec_literal_of, spec_lower_attrs,
    spec_lower_content, spec_lower_entry, spec_lower_flat, SpecInstr,
};
use crate::escape::escape_text;
use crate::render::{
    spec_eval, spec_render_value, spec_run_instr, spec_run_instrs, spec_run_iterate, EvalError,
    SpecValue,
};
use crate::token::SpecTok;

verus! {

/// Running a concatenation of instruction sequences, the first free of
/// bindings: the first runs, and if it finishes, the second runs after it
/// on the same environment.
pub proof fn lemma_run_concat(
    a: Seq<SpecInstr>,
    b: Seq<SpecInstr>,
    env: Seq<(Seq<char>, SpecValue)>,
    fuel: nat,
)
    requires
        forall|i: int| 0 <= i < a.len() ==> !(a[i] is Bind),
    ensures
        ({
            let ra = spec_run_instrs(a, env, fuel);
            let rb = spec_run_instrs(b, env, fuel);
            let rc = spec_run_instrs(a + b, env, fuel);
            if ra.1 is Some {
                rc == ra
            } else {
                rc == (ra.0 + rb.0, rb.1)
            }
        }),
    decreases a.len(),
{
    let ra = spec_run_instrs(a, env, fuel);
    let rb = spec_run_instrs(b, env, fuel);
    let rc = spec_run_instrs(a + b, env, fuel);
    if a.len() == 0 {
        assert(a + b =~= b);
        assert(ra == (Seq::<char>::empty(), None::<EvalError>));
        assert(Seq::<char>::empty() + rb.0 =~= rb.0);
    } else {
        assert(!(a[0] is Bind));
        assert((a + b)[0] == a[0]);
        assert((a + b).len() > 0);
        assert((a + b).drop_first() =~= a.drop_first() + b);
        lemma_run_concat(a.drop_first(), b, env, fuel);
        let r1 = spec_run_instr(a[0], env, fuel);
        let ras = spec_run_instrs(a.drop_first(), env, fuel);
        let rds = spec_run_instrs(a.drop_first() + b, env, fuel);
        if r1.1 is Some {
            assert(ra == r1);
            assert(rc == r1);
        } else {
            assert(ra == (r1.0 + ras.0, ras.1));
            assert(rc == (r1.0 + rds.0, rds.1));
            if ras.1 is None {
                assert(rds == (ras.0 + rb.0, rb.1));
                assert(r1.0 + (ras.0 + rb.0) =~= (r1.0 + ras.0) + rb.0);
            }
        }
    }
}

/// Running one literal instruction appends exactly its text.
pub proof fn lemma_run_lit(s: Seq<char>, env: Seq<(Seq<char>, SpecValue)>, fuel: nat)
    ensures
        spec_run_instrs(seq![SpecInstr::Lit(s)], env, fuel) == (s, None::<EvalError>),
{
    let is = seq![SpecInstr::Lit(s)];
    assert(is[0] == SpecInstr::Lit(s));
    assert(spec_run_instr(is[0], env, fuel) == (s, None::<EvalError>));
    assert(is.drop_first() =~= Seq::<SpecInstr>::empty());
    assert(spec_run_instrs(Seq::<SpecInstr>::empty(), env, fuel) == (
        Seq::<char>::empty(),
        None::<EvalError>,
    ));
    assert(s + Seq::<char>::empty() =~= s);
}

/// Running one rendered-expression instruction appends exactly the escaped
/// rendering of the expression's value.
pub proof fn lemma_run_rendered(
    e: Seq<SpecTok>,
    t: Seq<char>,
    env: Seq<(Seq<char>, SpecValue)>,
    fuel: nat,
    v: SpecValue,
)
    requires
        spec_eval(env, e) == Ok::<SpecValue, EvalError>(v),
        spec_render_value(v) == Ok::<Seq<char>, EvalError>(t),
    ensures
        spec_run_instrs(seq![SpecInstr::Rendered(e)], env, fuel) == (t, None::<EvalError>),
{
    let is = seq![SpecInstr::Rendered(e)];
    assert(is[0] == SpecInstr::Rendered(e));
    assert(spec_run_instr(is[0], env, fuel) == (t, None::<EvalError>));
    assert(is.drop_first() =~= Seq::<SpecInstr>::empty());
    assert(spec_run_instrs(Seq::<SpecInstr>::empty(), env, fuel) == (
        Seq::<char>::empty(),
        None::<EvalError>,
    ));
    assert(t + Seq::<char>::empty() =~= t);
}

/// Static/dynamic equivalence.  Lowering content that is the string
/// literal `s` splices the compile-time-escaped text; lowering any other
/// expression defers to a runtime rendering.  Whenever that expression
/// evaluates to the same raw text `s`, the two compiled programs append
/// byte-identical output.
pub proof fn lemma_static_dynamic_equivalence(
    s: Seq<char>,
    e: Seq<SpecTok>,
    env: Seq<(Seq<char>, SpecValue)>,
    fuel: nat,
)
    requires
        spec_eval(env, e) == Ok::<SpecValue, EvalError>(SpecValue::Text(s)),
    ensures
        spec_run_instrs(spec_lower_flat(seq![SpecTok::LitStr(s)]), env, fuel) == (
            escape_text(s),
            None::<EvalError>,
        ),
        spec_run_instrs(spec_lower_flat(e), env, fuel) == (escape_text(s), None::<EvalError>),
{
    assert(spec_literal_of(seq![SpecTok::LitStr(s)]) == Some(s));
    lemma_run_lit(escape_text(s), env, fuel);
    match spec_literal_of(e) {
        Some(t) => {
            // the expression is itself a string literal; it evaluates to
            // its own text, so the texts coincide
            assert(spec_eval(env, e) == Ok::<SpecValue, EvalError>(SpecValue::Text(t)));
            assert(t == s);
            lemma_run_lit(escape_text(s), env, fuel);
        },
        None => {
            lemma_run_rendered(e, escape_text(s), env, fuel, SpecValue::Text(s));
        },
    }
}

/// Static/dynamic equivalence for a whole element: compiling
/// `tag: "s" ;` and compiling `tag: expr ;`, where `expr` evaluates to the
/// raw text `s`, produce byte-identical output.
pub proof fn lemma_static_dynamic_element(
    tag: Seq<char>,
    s: Seq<char>,
    e: Seq<SpecTok>,
    env: Seq<(Seq<char>, SpecValue)>,
    fuel: nat,
)
    requires
        !is_void_tag(tag),
        spec_eval(env, e) == Ok::<SpecValue, EvalError>(SpecValue::Text(s)),
    ensures
        ({
            let st = spec_lower_entry(
                SpecEntry::Element {
                    tag: Some(tag),
                    attrs: Seq::empty(),
                    content: SpecContent::Flat(seq![SpecTok::LitStr(s)]),
                },
            );
            let dy = spec_lower_entry(
                SpecEntry::Element {
                    tag: Some(tag),
                    attrs: Seq::empty(),
                    content: SpecContent::Flat(e),
                },
            );
            st matches Ok(si) && (dy matches Ok(di) && spec_run_instrs(si, env, fuel)
                == spec_run_instrs(di, env, fuel))
        }),
{
    lemma_static_dynamic_equivalence(s, e, env, fuel);
    let open = seq![SpecInstr::Lit(open_tag_text(tag))];
    let gt = seq![SpecInstr::Lit(seq!['>'])];
    let close = seq![SpecInstr::Lit(close_tag_text(tag))];
    let cs = spec_lower_flat(seq![SpecTok::LitStr(s)]);
    let cd = spec_lower_flat(e);
    assert(cs.len() == 1 && !(cs[0] is Bind));
    assert(cd.len() == 1 && !(cd[0] is Bind));
    assert(spec_lower_content(SpecContent::Flat(seq![SpecTok::LitStr(s)])) == Ok::<
        Seq<SpecInstr>,
        Seq<char>,
    >(cs));
    assert(spec_lower_content(SpecContent::Flat(e)) == Ok::<Seq<SpecInstr>, Seq<char>>(cd));
    assert(spec_lower_attrs(Seq::<SpecAttr>::empty()) == Seq::<SpecInstr>::empty());
    let si = open + Seq::<SpecInstr>::empty() + gt + cs + close;
    let di = open + Seq::<SpecInstr>::empty() + gt + cd + close;
    assert(spec_lower_entry(
        SpecEntry::Element {
            tag: Some(tag),
            attrs: Seq::empty(),
            content: SpecContent::Flat(seq![SpecTok::LitStr(s)]),
        },
    ) == Ok::<Seq<SpecInstr>, Seq<char>>(si));
    assert(spec_lower_entry(
        SpecEntry::Element { tag: Some(tag), attrs: Seq::empty(), content: SpecContent::Flat(e) },
    ) == Ok::<Seq<SpecInstr>, Seq<char>>(di));
    lemma_frame_run(open_tag_text(tag), cs, escape_text(s), close_tag_text(tag), env, fuel);
    lemma_frame_run(open_tag_text(tag), cd, escape_text(s), close_tag_text(tag), env, fuel);
    assert(open + Seq::<SpecInstr>::empty() =~= open);
    assert(si =~= open + gt + cs + close);
    assert(di =~= open + gt + cd + close);
}

/// Running an element frame — open tag, `>`, content instructions, close
/// tag — appends exactly the frame texts around the content's own output.
pub proof fn lemma_frame_run(
    open: Seq<char>,
    content: Seq<SpecInstr>,
    ct: Seq<char>,
    close: Seq<char>,
    env: Seq<(Seq<char>, SpecValue)>,
    fuel: nat,
)
    requires
        spec_run_instrs(content, env, fuel) == (ct, None::<EvalError>),
        forall|i: int| 0 <= i < content.len() ==> !(content[i] is Bind),
    ensures
        spec_run_instrs(
            seq![SpecInstr::Lit(open)] + seq![SpecInstr::Lit(seq!['>'])] + content + seq![
                SpecInstr::Lit(close),
            ],
            env,
            fuel,
        ) == (open + seq!['>'] + ct + close, None::<EvalError>),
{
    let lo = seq![SpecInstr::Lit(open)];
    let lg = seq![SpecInstr::Lit(seq!['>'])];
    let lc = seq![SpecInstr::Lit(close)];
    lemma_run_lit(open, env, fuel);
    lemma_run_lit(seq!['>'], env, fuel);
    lemma_run_lit(close, env, fuel);
    lemma_run_concat(content, lc, env, fuel);
    assert(spec_run_instrs(content + lc, env, fuel) == (
        ct + close,
        None::<EvalError>,
    ));
    lemma_run_concat(lg, content + lc, env, fuel);
    assert(spec_run_instrs(lg + (content + lc), env, fuel) == (
        seq!['>'] + (ct + close),
        None::<EvalError>,
    ));
    lemma_run_concat(lo, lg + (content + lc), env, fuel);
    assert(lo + (lg + (content + lc)) =~= lo + lg + content + lc);
    assert(open + (seq!['>'] + (ct + close)) =~= open + seq!['>'] + ct + close);
}

/// Void-element rejection.  An element whose tag is a void element,
/// whatever its letter case, compiles exactly when its content is empty;
/// anything else is a compile-time diagnostic naming the tag as written.
pub proof fn lemma_void_element_rejection(
    tag: Seq<char>,
    attrs: Seq<SpecAttr>,
    content: SpecContent,
)
    requires
        is_void_tag(tag),
    ensures
        content is Empty ==> spec_lower_entry(
            SpecEntry::Element { tag: Some(tag), attrs, content },
        ) is Ok,
        !(content is Empty) ==> spec_lower_entry(
            SpecEntry::Element { tag: Some(tag), attrs, content },
        ) == Err::<Seq<SpecInstr>, Seq<char>>(tag),
{
    if content is Empty {
        assert(spec_lower_content(content) == Ok::<Seq<SpecInstr>, Seq<char>>(Seq::empty()));
    }
}

/// Optional-attribute tristate.  For the lowered optional-attribute
/// instruction: a `false` or absent value leaves the attribute out
/// entirely, `true` appends the bare name, and a present value appends the
/// name with the value's escaped rendering in quotes.
pub proof fn lemma_optional_attr_tristate(
    name: Seq<char>,
    e: Seq<SpecTok>,
    env: Seq<(Seq<char>, SpecValue)>,
    fuel: nat,
    b: SpecValue,
    t: Seq<char>,
)
    ensures
        spec_eval(env, e) == Ok::<SpecValue, EvalError>(SpecValue::Bool(false))
            ==> spec_run_instr(SpecInstr::OptAttr { name, value: e }, env, fuel) == (
            Seq::<char>::empty(),
            None::<EvalError>,
        ),
        spec_eval(env, e) == Ok::<SpecValue, EvalError>(SpecValue::Bool(true)) ==> spec_run_instr(
            SpecInstr::OptAttr { name, value: e },
            env,
            fuel,
        ) == (seq![' '] + name, None::<EvalError>),
        spec_eval(env, e) == Ok::<SpecValue, EvalError>(SpecValue::Maybe(None))
            ==> spec_run_instr(SpecInstr::OptAttr { name, value: e }, env, fuel) == (
            Seq::<char>::empty(),
            None::<EvalError>,
        ),
        (spec_eval(env, e) == Ok::<SpecValue, EvalError>(SpecValue::Maybe(Some(Box::new(b))))
            && spec_render_value(b) == Ok::<Seq<char>, EvalError>(t)) ==> spec_run_instr(
            SpecInstr::OptAttr { name, value: e },
            env,
            fuel,
        ) == (seq![' '] + name + seq!['=', '"'] + t + seq!['"'], None::<EvalError>),
{
}

/// Ordering.  A loop's output is its body's output for the element at
/// hand, followed immediately — nothing in between — by the output for the
/// remaining elements, in list order; and the loop stops at the first
/// failing iteration.
pub proof fn lemma_iterate_order(
    body: Seq<SpecInstr>,
    name: Seq<char>,
    items: Seq<SpecValue>,
    idx: int,
    env: Seq<(Seq<char>, SpecValue)>,
    fuel: nat,
)
    requires
        0 <= idx < items.len(),
    ensures
        ({
            let whole = spec_run_iterate(body, name, items, idx, env, fuel);
            let first = spec_run_instrs(body, env.push((name, items[idx])), fuel);
            let rest = spec_run_iterate(body, name, items, idx + 1, env, fuel);
            &&& (first.1 is None ==> whole == (first.0 + rest.0, rest.1))
            &&& (first.1 is Some ==> whole == first)
        }),
{
}

} // verus!
