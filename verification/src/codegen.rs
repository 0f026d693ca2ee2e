//! The code generator.
//!
//! Lowers a parsed `Program` into an imperative program over one shared
//! output buffer: a sequence of instructions (`Instr`) that either append
//! text known safe at compile time (`Lit`), append the escaped rendering of
//! an embedded expression at the compiled program's runtime (`Rendered`),
//! or are control instructions whose bodies append to the same buffer.
//!
//! Two rules of the language live here:
//!
//! * a void element (`br`, `img`, …, case-insensitively) must have empty
//!   content — anything else is a compile-time diagnostic naming the tag;
//! * literal string content and literal string attribute values are
//!   HTML-escaped here, at compile time; every other expression is lowered
//!   to a `Rendered` instruction and escaped exactly once at runtime.
//!
//! Attribute names arrive with underscores (host identifiers cannot hold
//! hyphens) and are serialized with hyphens.
//!
//! A stub directive lowers to an `Abort` instruction.  Entries standing
//! after a stub in the same program are still lowered: they are dead at
//! runtime, but nothing rejects them while compiling.

use vstd::prelude::*;
use vstd::string::{StrSliceExecFns, StringExecFns};
use crate::ast::{SpecAttr, SpecAttrValue, SpecContent, SpecEntry, SpecMatchArm};
use crate::ast::{Attr, AttrValue, Content, Entry, Expr, MatchArm, Pat, Program};
use crate::escape::escape_text;
use crate::token::SpecTok;

verus! {

/// One instruction of the compiled program.  Running a sequence of
/// instructions appends text to one shared output buffer, left to right.
#[derive(Debug)]
pub enum Instr {
    /// Append this text verbatim: it is known safe at compile time.
    Lit(String),
    /// Render the expression's value, escape it, and append it.
    Rendered(Expr),
    /// The three-way runtime branch of an optional attribute: append
    /// nothing, or ` name`, or ` name="` value `"`.  The name is already
    /// hyphen-translated.
    OptAttr { name: String, value: Expr },
    /// Run the body once per element of the source expression, binding the
    /// pattern.
    Iterate { pat: Pat, source: Expr, body: Vec<Instr> },
    /// Run one of the two branches; a missing `else` is an empty branch.
    Cond { cond: Expr, then_branch: Vec<Instr>, else_branch: Vec<Instr> },
    /// Bind a local name for the remaining instructions of the enclosing
    /// sequence.
    Bind { pat: Pat, init: Expr },
    /// Run the body of the first arm whose pattern (and guard) matches.
    Select { scrutinee: Expr, arms: Vec<InstrArm> },
    /// Run the body as long as the condition holds.
    Repeat { cond: Expr, body: Vec<Instr> },
    /// Abandon this execution path.
    Abort,
}

/// One arm of a `Select` instruction.
#[derive(Debug)]
pub struct InstrArm {
    pub pat: Pat,
    pub guard: Option<Expr>,
    pub body: Vec<Instr>,
}

/// Ghost mirror of `Instr`.
#[verifier::ext_equal]
pub enum SpecInstr {
    Lit(Seq<char>),
    Rendered(Seq<SpecTok>),
    OptAttr { name: Seq<char>, value: Seq<SpecTok> },
    Iterate { pat: Seq<SpecTok>, source: Seq<SpecTok>, body: Seq<SpecInstr> },
    Cond { cond: Seq<SpecTok>, then_branch: Seq<SpecInstr>, else_branch: Seq<SpecInstr> },
    Bind { pat: Seq<SpecTok>, init: Seq<SpecTok> },
    Select { scrutinee: Seq<SpecTok>, arms: Seq<SpecInstrArm> },
    Repeat { cond: Seq<SpecTok>, body: Seq<SpecInstr> },
    Abort,
}

/// Ghost mirror of `InstrArm`.
#[verifier::ext_equal]
pub struct SpecInstrArm {
    pub pat: Seq<SpecTok>,
    pub guard: Option<Seq<SpecTok>>,
    pub body: Seq<SpecInstr>,
}

/// Ghost mirror of one instruction.
pub open spec fn view_instr(i: Instr) -> SpecInstr
    decreases i, 0int,
{
    match i {
        Instr::Lit(s) => SpecInstr::Lit(s@),
        Instr::Rendered(e) => SpecInstr::Rendered(e@),
        Instr::OptAttr { name, value } => SpecInstr::OptAttr { name: name@, value: value@ },
        Instr::Iterate { pat, source, body } => SpecInstr::Iterate {
            pat: pat@,
            source: source@,
            body: view_instrs(body@),
        },
        Instr::Cond { cond, then_branch, else_branch } => SpecInstr::Cond {
            cond: cond@,
            then_branch: view_instrs(then_branch@),
            else_branch: view_instrs(else_branch@),
        },
        Instr::Bind { pat, init } => SpecInstr::Bind { pat: pat@, init: init@ },
        Instr::Select { scrutinee, arms } => SpecInstr::Select {
            scrutinee: scrutinee@,
            arms: view_iarms(arms@),
        },
        Instr::Repeat { cond, body } => SpecInstr::Repeat {
            cond: cond@,
            body: view_instrs(body@),
        },
        Instr::Abort => SpecInstr::Abort,
    }
}

/// Ghost mirror of an instruction sequence.
pub open spec fn view_instrs(is: Seq<Instr>) -> Seq<SpecInstr>
    decreases is, 1int,
{
    if is.len() == 0 {
        Seq::empty()
    } else {
        seq![view_instr(is[0])] + view_instrs(is.drop_first())
    }
}

/// Ghost mirror of one `Select` arm.
pub open spec fn view_iarm(a: InstrArm) -> SpecInstrArm
    decreases a, 0int,
{
    SpecInstrArm {
        pat: a.pat@,
        guard: match a.guard {
            Some(g) => Some(g@),
            None => None,
        },
        body: view_instrs(a.body@),
    }
}

/// Ghost mirror of a `Select` arm sequence.
pub open spec fn view_iarms(arms: Seq<InstrArm>) -> Seq<SpecInstrArm>
    decreases arms, 1int,
{
    if arms.len() == 0 {
        Seq::empty()
    } else {
        seq![view_iarm(arms[0])] + view_iarms(arms.drop_first())
    }
}

impl View for Instr {
    type V = SpecInstr;

    open spec fn view(&self) -> SpecInstr {
        view_instr(*self)
    }
}

/// The mirror of an instruction sequence keeps its length, and mirrors it
/// element by element.
pub proof fn lemma_view_instrs_index(is: Seq<Instr>, i: int)
    requires
        0 <= i < is.len(),
    ensures
        view_instrs(is).len() == is.len(),
        view_instrs(is)[i] == view_instr(is[i]),
    decreases i,
{
    lemma_view_instrs_len(is);
    if i > 0 {
        lemma_view_instrs_index(is.drop_first(), i - 1);
    }
}

/// The mirror of an instruction sequence has the same length.
pub proof fn lemma_view_instrs_len(is: Seq<Instr>)
    ensures
        view_instrs(is).len() == is.len(),
    decreases is.len(),
{
    if is.len() > 0 {
        lemma_view_instrs_len(is.drop_first());
    }
}

/// Mirroring distributes over concatenation of instruction sequences.
pub proof fn lemma_view_instrs_concat(a: Seq<Instr>, b: Seq<Instr>)
    ensures
        view_instrs(a + b) == view_instrs(a) + view_instrs(b),
    decreases a.len(),
{
    if a.len() == 0 {
        assert(a + b =~= b);
        assert(view_instrs(a) + view_instrs(b) =~= view_instrs(b));
    } else {
        assert((a + b).drop_first() =~= a.drop_first() + b);
        lemma_view_instrs_concat(a.drop_first(), b);
        assert((a + b)[0] == a[0]);
        assert(view_instrs(a + b) == seq![view_instr((a + b)[0])] + view_instrs(
            (a + b).drop_first(),
        ));
        assert(view_instrs(a) == seq![view_instr(a[0])] + view_instrs(a.drop_first()));
        assert(seq![view_instr(a[0])] + (view_instrs(a.drop_first()) + view_instrs(b))
            =~= (seq![view_instr(a[0])] + view_instrs(a.drop_first())) + view_instrs(b));
        assert(view_instrs(a + b) =~= view_instrs(a) + view_instrs(b));
    }
}

/// ASCII lowering of one character, as the void-element rule compares.
pub open spec fn lower_char_ascii(c: char) -> char {
    if 'A' <= c && c <= 'Z' {
        (((c as u8) + 32) as char)
    } else {
        c
    }
}

/// Case-insensitive (ASCII) equality of two character sequences.
pub open spec fn ci_eq(a: Seq<char>, b: Seq<char>) -> bool {
    a.len() == b.len() && forall|i: int|
        0 <= i < a.len() ==> lower_char_ascii(a[i]) == lower_char_ascii(b[i])
}

/// Is this tag name a void element?  Void elements structurally cannot
/// contain content; the comparison ignores ASCII case.
pub open spec fn is_void_tag(tag: Seq<char>) -> bool {
    ||| ci_eq(tag, "area"@)
    ||| ci_eq(tag, "base"@)
    ||| ci_eq(tag, "br"@)
    ||| ci_eq(tag, "col"@)
    ||| ci_eq(tag, "embed"@)
    ||| ci_eq(tag, "hr"@)
    ||| ci_eq(tag, "img"@)
    ||| ci_eq(tag, "input"@)
    ||| ci_eq(tag, "link"@)
    ||| ci_eq(tag, "meta"@)
    ||| ci_eq(tag, "param"@)
    ||| ci_eq(tag, "source"@)
    ||| ci_eq(tag, "track"@)
    ||| ci_eq(tag, "wbr"@)
}

/// Underscore-to-hyphen translation of an attribute name.
pub open spec fn dash_name(s: Seq<char>) -> Seq<char> {
    s.map_values(|c: char| if c == '_' { '-' } else { c })
}

/// The text that opens an element: `<` and the tag name.
pub open spec fn open_tag_text(tag: Seq<char>) -> Seq<char> {
    seq!['<'] + tag
}

/// The text that closes a non-void element: `</`, the tag name, `>`.
pub open spec fn close_tag_text(tag: Seq<char>) -> Seq<char> {
    seq!['<', '/'] + tag + seq!['>']
}

/// The text that begins a valued attribute: a space, the hyphen-translated
/// name, `="`.
pub open spec fn attr_open_text(name: Seq<char>) -> Seq<char> {
    seq![' '] + dash_name(name) + seq!['=', '"']
}

/// The text of a bare flag attribute: a space and the hyphen-translated
/// name.
pub open spec fn attr_flag_text(name: Seq<char>) -> Seq<char> {
    seq![' '] + dash_name(name)
}

/// Is this opaque expression exactly one string literal?  Such content is
/// escaped now, at compile time; everything else is escaped when the
/// compiled program runs.
pub open spec fn spec_literal_of(e: Seq<SpecTok>) -> Option<Seq<char>> {
    if e.len() == 1 {
        match e[0] {
            SpecTok::LitStr(s) => Some(s),
            _ => None,
        }
    } else {
        None
    }
}

/// The ghost lowering of a content expression position: the compile-time
/// versus runtime escaping split.
pub open spec fn spec_lower_flat(e: Seq<SpecTok>) -> Seq<SpecInstr> {
    match spec_literal_of(e) {
        Some(s) => seq![SpecInstr::Lit(escape_text(s))],
        None => seq![SpecInstr::Rendered(e)],
    }
}

/// The ghost lowering of one attribute.
pub open spec fn spec_lower_attr(a: SpecAttr) -> Seq<SpecInstr> {
    match a.value {
        SpecAttrValue::Flag => seq![SpecInstr::Lit(attr_flag_text(a.name))],
        SpecAttrValue::Always(e) => seq![SpecInstr::Lit(attr_open_text(a.name))]
            + spec_lower_flat(e) + seq![SpecInstr::Lit(seq!['"'])],
        SpecAttrValue::Optional(e) => seq![
            SpecInstr::OptAttr { name: dash_name(a.name), value: e },
        ],
    }
}

/// The ghost lowering of an attribute list.
pub open spec fn spec_lower_attrs(attrs: Seq<SpecAttr>) -> Seq<SpecInstr>
    decreases attrs.len(),
{
    if attrs.len() == 0 {
        Seq::empty()
    } else {
        spec_lower_attr(attrs[0]) + spec_lower_attrs(attrs.drop_first())
    }
}

/// The ghost lowering of one entry.  The error, when there is one, is the
/// name of a void element that was given content.
pub open spec fn spec_lower_entry(e: SpecEntry) -> Result<Seq<SpecInstr>, Seq<char>>
    decreases e, 0int,
{
    match e {
        SpecEntry::Iterate { pat, source, body } => match spec_lower_entries(body) {
            Err(t) => Err(t),
            Ok(b) => Ok(seq![SpecInstr::Iterate { pat, source, body: b }]),
        },
        SpecEntry::Conditional { cond, then_branch, else_branch } => match spec_lower_entries(
            then_branch,
        ) {
            Err(t) => Err(t),
            Ok(tb) => match else_branch {
                None => Ok(
                    seq![
                        SpecInstr::Cond { cond, then_branch: tb, else_branch: Seq::empty() },
                    ],
                ),
                Some(b) => match spec_lower_entry(*b) {
                    Err(t) => Err(t),
                    Ok(eb) => Ok(
                        seq![SpecInstr::Cond { cond, then_branch: tb, else_branch: eb }],
                    ),
                },
            },
        },
        SpecEntry::Binding { pat, init } => Ok(seq![SpecInstr::Bind { pat, init }]),
        SpecEntry::Match { scrutinee, arms } => match spec_lower_arms(arms) {
            Err(t) => Err(t),
            Ok(ia) => Ok(seq![SpecInstr::Select { scrutinee, arms: ia }]),
        },
        SpecEntry::Unimplemented => Ok(seq![SpecInstr::Abort]),
        SpecEntry::Unreachable => Ok(seq![SpecInstr::Abort]),
        SpecEntry::WhileLoop { cond, body } => match spec_lower_entries(body) {
            Err(t) => Err(t),
            Ok(b) => Ok(seq![SpecInstr::Repeat { cond, body: b }]),
        },
        SpecEntry::Element { tag: None, attrs, content } => spec_lower_content(content),
        SpecEntry::Element { tag: Some(tag), attrs, content } => {
            if is_void_tag(tag) && !(content is Empty) {
                Err(tag)
            } else {
                match spec_lower_content(content) {
                    Err(t) => Err(t),
                    Ok(c) => Ok(
                        seq![SpecInstr::Lit(open_tag_text(tag))] + spec_lower_attrs(attrs)
                            + seq![SpecInstr::Lit(seq!['>'])] + c + (if is_void_tag(tag) {
                            Seq::<SpecInstr>::empty()
                        } else {
                            seq![SpecInstr::Lit(close_tag_text(tag))]
                        }),
                    ),
                }
            }
        },
    }
}

/// The ghost lowering of a content node.
pub open spec fn spec_lower_content(c: SpecContent) -> Result<Seq<SpecInstr>, Seq<char>>
    decreases c, 0int,
{
    match c {
        SpecContent::Empty => Ok(Seq::empty()),
        SpecContent::Flat(e) => Ok(spec_lower_flat(e)),
        SpecContent::Nested(body) => spec_lower_entries(body),
    }
}

/// The ghost lowering of an entry sequence: the concatenation of each
/// entry's instructions, in order, or the first error.
pub open spec fn spec_lower_entries(es: Seq<SpecEntry>) -> Result<Seq<SpecInstr>, Seq<char>>
    decreases es, 1int,
{
    if es.len() == 0 {
        Ok(Seq::empty())
    } else {
        match spec_lower_entry(es[0]) {
            Err(t) => Err(t),
            Ok(first) => match spec_lower_entries(es.drop_first()) {
                Err(t) => Err(t),
                Ok(rest) => Ok(first + rest),
            },
        }
    }
}

/// The ghost lowering of a match arm sequence.
pub open spec fn spec_lower_arms(arms: Seq<SpecMatchArm>) -> Result<Seq<SpecInstrArm>, Seq<char>>
    decreases arms, 1int,
{
    if arms.len() == 0 {
        Ok(Seq::empty())
    } else {
        match spec_lower_entry(*arms[0].body) {
            Err(t) => Err(t),
            Ok(body) => match spec_lower_arms(arms.drop_first()) {
                Err(t) => Err(t),
                Ok(rest) => Ok(
                    seq![
                        SpecInstrArm { pat: arms[0].pat, guard: arms[0].guard, body },
                    ] + rest,
                ),
            },
        }
    }
}

} // verus!

verus! {

use crate::ast::{view_attr, view_attrs, view_content, view_entries, view_entry, view_arms};
use crate::escape::escape;
use crate::parser::ParseError;
use crate::token::{copy_range, lemma_view_toks_index, lemma_view_toks_len, view_toks, Tok};

/// Extending an instruction sequence by one instruction extends its mirror
/// accordingly.
pub proof fn lemma_view_instrs_push(is: Seq<Instr>, i: Instr)
    ensures
        view_instrs(is.push(i)) == view_instrs(is).push(view_instr(i)),
    decreases is.len(),
{
    if is.len() == 0 {
        assert(is.push(i).drop_first() =~= is);
        assert(is.push(i)[0] == i);
        assert(view_instrs(is.push(i)) =~= view_instrs(is).push(view_instr(i)));
    } else {
        assert(is.push(i).drop_first() =~= is.drop_first().push(i));
        lemma_view_instrs_push(is.drop_first(), i);
        assert(is.push(i)[0] == is[0]);
        assert(view_instrs(is.push(i)) == seq![view_instr(is.push(i)[0])] + view_instrs(
            is.push(i).drop_first(),
        ));
        assert(view_instrs(is) == seq![view_instr(is[0])] + view_instrs(is.drop_first()));
        assert(seq![view_instr(is[0])] + view_instrs(is.drop_first()).push(view_instr(i))
            =~= (seq![view_instr(is[0])] + view_instrs(is.drop_first())).push(view_instr(i)));
        assert(view_instrs(is.push(i)) =~= view_instrs(is).push(view_instr(i)));
    }
}

/// A singleton instruction sequence mirrors to the singleton of its
/// element's mirror.
pub proof fn lemma_view_instrs_one(is: Seq<Instr>)
    requires
        is.len() == 1,
    ensures
        view_instrs(is) == seq![view_instr(is[0])],
{
    assert(is.drop_first() =~= Seq::<Instr>::empty());
    assert(view_instrs(Seq::<Instr>::empty()) =~= Seq::<SpecInstr>::empty());
    assert(view_instrs(is.drop_first()) == view_instrs(Seq::<Instr>::empty()));
    assert(view_instrs(is) =~= seq![view_instr(is[0])]);
}

/// A compile-time diagnostic: a void element was given content.
#[derive(Debug)]
pub struct CompileError {
    /// The offending tag, as written.
    pub void_tag: String,
}

/// ASCII lowering of one character.
pub fn lower_char_exec(c: char) -> (r: char)
    ensures
        r == lower_char_ascii(c),
{
    if 'A' <= c && c <= 'Z' {
        ((c as u8) + 32) as char
    } else {
        c
    }
}

/// Case-insensitive (ASCII) equality of two tag names.
pub fn tag_ci_eq(a: &str, b: &str) -> (r: bool)
    ensures
        r == ci_eq(a@, b@),
{
    let an = a.unicode_len();
    let bn = b.unicode_len();
    if an != bn {
        return false;
    }
    let mut i: usize = 0;
    while i < an
        invariant
            an == a@.len(),
            an == b@.len(),
            0 <= i <= an,
            forall|j: int| 0 <= j < i ==> lower_char_ascii(a@[j]) == lower_char_ascii(b@[j]),
        decreases an - i,
    {
        if lower_char_exec(a.get_char(i)) != lower_char_exec(b.get_char(i)) {
            return false;
        }
        i += 1;
    }
    true
}

/// Is this tag name a void element?
pub fn is_void(tag: &str) -> (r: bool)
    ensures
        r == is_void_tag(tag@),
{
    tag_ci_eq(tag, "area") || tag_ci_eq(tag, "base") || tag_ci_eq(tag, "br") || tag_ci_eq(
        tag,
        "col",
    ) || tag_ci_eq(tag, "embed") || tag_ci_eq(tag, "hr") || tag_ci_eq(tag, "img") || tag_ci_eq(
        tag,
        "input",
    ) || tag_ci_eq(tag, "link") || tag_ci_eq(tag, "meta") || tag_ci_eq(tag, "param") || tag_ci_eq(
        tag,
        "source",
    ) || tag_ci_eq(tag, "track") || tag_ci_eq(tag, "wbr")
}

/// Underscore-to-hyphen translation of an attribute name.
pub fn dash_name_exec(name: &str) -> (r: String)
    ensures
        r@ == dash_name(name@),
{
    let n = name.unicode_len();
    let mut out = String::new();
    let mut i: usize = 0;
    while i < n
        invariant
            n == name@.len(),
            0 <= i <= n,
            out@.len() == i,
            forall|j: int| 0 <= j < i ==> out@[j] == dash_name(name@)[j],
        decreases n - i,
    {
        let c = name.get_char(i);
        if c == '_' {
            out.push('-');
        } else {
            out.push(c);
        }
        i += 1;
    }
    proof {
        assert(out@ =~= dash_name(name@));
    }
    out
}

/// A copy of an opaque expression, preserving its mirror.
pub fn expr_clone(e: &Expr) -> (r: Expr)
    ensures
        r@ == e@,
{
    let n = e.0.len();
    let v = copy_range(&e.0, 0, n);
    proof {
        assert(e.0@.subrange(0, n as int) =~= e.0@);
        lemma_view_toks_len(e.0@);
        assert(view_toks(v@) =~= view_toks(e.0@));
    }
    Expr(v)
}

/// A copy of an opaque pattern, preserving its mirror.
pub fn pat_clone(p: &Pat) -> (r: Pat)
    ensures
        r@ == p@,
{
    let n = p.0.len();
    let v = copy_range(&p.0, 0, n);
    proof {
        assert(p.0@.subrange(0, n as int) =~= p.0@);
        lemma_view_toks_len(p.0@);
        assert(view_toks(v@) =~= view_toks(p.0@));
    }
    Pat(v)
}

/// Lower a content expression position: a lone string literal is escaped
/// now; anything else is rendered and escaped at the compiled program's
/// runtime.
pub fn lower_flat(e: &Expr) -> (r: Vec<Instr>)
    ensures
        view_instrs(r@) == spec_lower_flat(e@),
{
    proof {
        lemma_view_toks_len(e.0@);
    }
    if e.0.len() == 1 {
        proof {
            lemma_view_toks_index(e.0@, 0);
        }
        if let Tok::LitStr(s) = &e.0[0] {
            let lit = Instr::Lit(escape(s.as_str()));
            let mut r: Vec<Instr> = Vec::new();
            r.push(lit);
            proof {
                lemma_view_instrs_one(r@);
            }
            return r;
        }
    }
    let mut r: Vec<Instr> = Vec::new();
    r.push(Instr::Rendered(expr_clone(e)));
    proof {
        lemma_view_instrs_one(r@);
    }
    r
}

/// Lower one attribute to its instructions.
pub fn lower_attr(a: &Attr) -> (r: Vec<Instr>)
    ensures
        view_instrs(r@) == spec_lower_attr(view_attr(*a)),
{
    match &a.value {
        AttrValue::Flag => {
            let mut s = String::from_str(" ");
            let dashed = dash_name_exec(a.name.as_str());
            s.append(dashed.as_str());
            proof {
                reveal_strlit(" ");
                assert(s@ =~= attr_flag_text(a.name@));
            }
            let mut r: Vec<Instr> = Vec::new();
            r.push(Instr::Lit(s));
            proof {
                lemma_view_instrs_one(r@);
            }
            r
        },
        AttrValue::Always(e) => {
            let mut s = String::from_str(" ");
            let dashed = dash_name_exec(a.name.as_str());
            s.append(dashed.as_str());
            s.append("=\"");
            proof {
                reveal_strlit(" ");
                reveal_strlit("=\"");
                assert(s@ =~= attr_open_text(a.name@));
            }
            let mut r: Vec<Instr> = Vec::new();
            r.push(Instr::Lit(s));
            let ghost r1 = r@;
            let mut mid = lower_flat(e);
            let ghost m = mid@;
            r.append(&mut mid);
            let ghost r2 = r@;
            let q = String::from_str("\"");
            proof {
                reveal_strlit("\"");
                assert(q@ =~= seq!['"']);
            }
            r.push(Instr::Lit(q));
            proof {
                lemma_view_instrs_one(r1);
                lemma_view_instrs_concat(r1, m);
                lemma_view_instrs_push(r2, r@[r@.len() - 1]);
                assert(r2.push(r@[r@.len() - 1]) =~= r@);
                assert(view_instrs(r@) =~= spec_lower_attr(view_attr(*a)));
            }
            r
        },
        AttrValue::Optional(e) => {
            let name = dash_name_exec(a.name.as_str());
            let mut r: Vec<Instr> = Vec::new();
            r.push(Instr::OptAttr { name, value: expr_clone(e) });
            proof {
                lemma_view_instrs_one(r@);
            }
            r
        },
    }
}

/// Lower a whole attribute list, in order.
pub fn lower_attrs_exec(attrs: &Vec<Attr>) -> (r: Vec<Instr>)
    ensures
        view_instrs(r@) == spec_lower_attrs(view_attrs(attrs@)),
{
    let ghost full = view_attrs(attrs@);
    let n = attrs.len();
    let mut out: Vec<Instr> = Vec::new();
    let mut i: usize = 0;
    proof {
        assert(full.skip(0) =~= full);
        assert(view_instrs(out@) + spec_lower_attrs(full) =~= spec_lower_attrs(full));
    }
    while i < n
        invariant
            n == attrs@.len(),
            full == view_attrs(attrs@),
            full.len() == n,
            0 <= i <= n,
            spec_lower_attrs(full) == view_instrs(out@) + spec_lower_attrs(full.skip(i as int)),
        decreases n - i,
    {
        let mut one = lower_attr(&attrs[i]);
        let ghost m = one@;
        let ghost prev = out@;
        out.append(&mut one);
        proof {
            lemma_view_instrs_concat(prev, m);
            assert(full.skip(i as int)[0] == full[i as int]);
            assert(full[i as int] == view_attr(attrs@[i as int]));
            assert(full.skip(i as int).drop_first() =~= full.skip(i + 1));
            assert(spec_lower_attrs(full.skip(i as int)) == spec_lower_attr(full[i as int])
                + spec_lower_attrs(full.skip(i + 1)));
            assert((view_instrs(prev) + (spec_lower_attr(full[i as int]) + spec_lower_attrs(
                full.skip(i + 1),
            ))) =~= (view_instrs(out@) + spec_lower_attrs(full.skip(i + 1))));
        }
        i += 1;
    }
    proof {
        assert(full.skip(n as int) =~= Seq::<SpecAttr>::empty());
        assert(view_instrs(out@) + spec_lower_attrs(full.skip(n as int)) =~= view_instrs(out@));
    }
    out
}

} // verus!

verus! {

use crate::parser::spec_parse_program;


/// A structural size of one mirrored entry: the termination measure for
/// the lowering functions.
pub open spec fn sentry_size(e: SpecEntry) -> nat
    decreases e, 0int,
{
    1 + match e {
        SpecEntry::Iterate { body, .. } => sentries_size(body),
        SpecEntry::Conditional { then_branch, else_branch, .. } => sentries_size(then_branch) + (
        match else_branch {
            Some(b) => sentry_size(*b),
            None => 0nat,
        }),
        SpecEntry::Binding { .. } => 0,
        SpecEntry::Match { arms, .. } => sarms_size(arms),
        SpecEntry::Unimplemented => 0,
        SpecEntry::Unreachable => 0,
        SpecEntry::WhileLoop { body, .. } => sentries_size(body),
        SpecEntry::Element { content, .. } => scontent_size(content),
    }
}

/// A structural size of a mirrored entry sequence.
pub open spec fn sentries_size(es: Seq<SpecEntry>) -> nat
    decreases es, 1int,
{
    if es.len() == 0 {
        0
    } else {
        sentry_size(es[0]) + sentries_size(es.drop_first())
    }
}

/// A structural size of a mirrored match arm sequence.
pub open spec fn sarms_size(arms: Seq<SpecMatchArm>) -> nat
    decreases arms, 1int,
{
    if arms.len() == 0 {
        0
    } else {
        sentry_size(*arms[0].body) + sarms_size(arms.drop_first())
    }
}

/// A structural size of a mirrored content node.
pub open spec fn scontent_size(c: SpecContent) -> nat
    decreases c, 0int,
{
    match c {
        SpecContent::Empty => 0,
        SpecContent::Flat(_) => 0,
        SpecContent::Nested(body) => 1 + sentries_size(body),
    }
}

/// An element of an entry sequence stands no higher than the sequence.
pub proof fn lemma_sentries_size_elem(es: Seq<SpecEntry>, i: int)
    requires
        0 <= i < es.len(),
    ensures
        sentry_size(es[i]) <= sentries_size(es),
    decreases i,
{
    if i > 0 {
        lemma_sentries_size_elem(es.drop_first(), i - 1);
    }
}

/// An arm's body stands no higher than the arm sequence.
pub proof fn lemma_sarms_size_elem(arms: Seq<SpecMatchArm>, i: int)
    requires
        0 <= i < arms.len(),
    ensures
        sentry_size(*arms[i].body) <= sarms_size(arms),
    decreases i,
{
    if i > 0 {
        lemma_sarms_size_elem(arms.drop_first(), i - 1);
    }
}

/// Extending a `Select` arm sequence by one arm extends its mirror
/// accordingly.
pub proof fn lemma_view_iarms_push(arms: Seq<InstrArm>, a: InstrArm)
    ensures
        view_iarms(arms.push(a)) == view_iarms(arms).push(view_iarm(a)),
    decreases arms.len(),
{
    if arms.len() == 0 {
        assert(arms.push(a).drop_first() =~= arms);
        assert(arms.push(a)[0] == a);
        assert(view_iarms(arms.push(a)) =~= view_iarms(arms).push(view_iarm(a)));
    } else {
        assert(arms.push(a).drop_first() =~= arms.drop_first().push(a));
        lemma_view_iarms_push(arms.drop_first(), a);
        assert(arms.push(a)[0] == arms[0]);
        assert(view_iarms(arms.push(a)) == seq![view_iarm(arms.push(a)[0])] + view_iarms(
            arms.push(a).drop_first(),
        ));
        assert(view_iarms(arms) == seq![view_iarm(arms[0])] + view_iarms(arms.drop_first()));
        assert(seq![view_iarm(arms[0])] + view_iarms(arms.drop_first()).push(view_iarm(a))
            =~= (seq![view_iarm(arms[0])] + view_iarms(arms.drop_first())).push(view_iarm(a)));
        assert(view_iarms(arms.push(a)) =~= view_iarms(arms).push(view_iarm(a)));
    }
}

impl Entry {
    /// Lower one entry to its instructions, validating the void-element
    /// rule.
    pub fn lower(&self) -> (r: Result<Vec<Instr>, CompileError>)
        ensures
            match r {
                Ok(is) => spec_lower_entry(view_entry(*self)) == Ok::<Seq<SpecInstr>, Seq<char>>(
                    view_instrs(is@),
                ),
                Err(ce) => spec_lower_entry(view_entry(*self)) == Err::<
                    Seq<SpecInstr>,
                    Seq<char>,
                >(ce.void_tag@),
            },
        decreases sentry_size(view_entry(*self)), 0int,
    {
        match self {
            Entry::Iterate { pat, source, body } => match lower_entries(&body.0) {
                Err(ce) => Err(ce),
                Ok(b) => {
                    let one = Instr::Iterate {
                        pat: pat_clone(pat),
                        source: expr_clone(source),
                        body: b,
                    };
                    let mut r: Vec<Instr> = Vec::new();
                    r.push(one);
                    proof {
                        lemma_view_instrs_one(r@);
                    }
                    Ok(r)
                },
            },
            Entry::Conditional { cond, then_branch, else_branch } => {
                match lower_entries(&then_branch.0) {
                    Err(ce) => Err(ce),
                    Ok(tb) => {
                        let eb: Vec<Instr> = match else_branch {
                            None => Vec::new(),
                            Some(b) => match b.lower() {
                                Err(ce) => {
                                    return Err(ce);
                                },
                                Ok(v) => v,
                            },
                        };
                        let one = Instr::Cond {
                            cond: expr_clone(cond),
                            then_branch: tb,
                            else_branch: eb,
                        };
                        let mut r: Vec<Instr> = Vec::new();
                        r.push(one);
                        proof {
                            lemma_view_instrs_one(r@);
                        }
                        Ok(r)
                    },
                }
            },
            Entry::Binding { pat, init } => {
                let one = Instr::Bind { pat: pat_clone(pat), init: expr_clone(init) };
                let mut r: Vec<Instr> = Vec::new();
                r.push(one);
                proof {
                    lemma_view_instrs_one(r@);
                }
                Ok(r)
            },
            Entry::Match { scrutinee, arms } => match lower_arms(arms) {
                Err(ce) => Err(ce),
                Ok(ia) => {
                    let one = Instr::Select { scrutinee: expr_clone(scrutinee), arms: ia };
                    let mut r: Vec<Instr> = Vec::new();
                    r.push(one);
                    proof {
                        lemma_view_instrs_one(r@);
                    }
                    Ok(r)
                },
            },
            Entry::Unimplemented => {
                let mut r: Vec<Instr> = Vec::new();
                r.push(Instr::Abort);
                proof {
                    lemma_view_instrs_one(r@);
                }
                Ok(r)
            },
            Entry::Unreachable => {
                let mut r: Vec<Instr> = Vec::new();
                r.push(Instr::Abort);
                proof {
                    lemma_view_instrs_one(r@);
                }
                Ok(r)
            },
            Entry::WhileLoop { cond, body } => match lower_entries(&body.0) {
                Err(ce) => Err(ce),
                Ok(b) => {
                    let one = Instr::Repeat { cond: expr_clone(cond), body: b };
                    let mut r: Vec<Instr> = Vec::new();
                    r.push(one);
                    proof {
                        lemma_view_instrs_one(r@);
                    }
                    Ok(r)
                },
            },
            // an anonymous block: the parser never attaches attributes here
            Entry::Element { tag: None, attrs: _, content } => content.lower(),
            Entry::Element { tag: Some(tag), attrs, content } => {
                let void = is_void(tag.as_str());
                if void && !matches!(content, Content::Empty) {
                    return Err(CompileError { void_tag: tag.clone() });
                }
                match content.lower() {
                    Err(ce) => Err(ce),
                    Ok(c) => {
                        let mut out: Vec<Instr> = Vec::new();
                        let mut s = String::from_str("<");
                        s.append(tag.as_str());
                        proof {
                            reveal_strlit("<");
                            assert(s@ =~= open_tag_text(tag@));
                        }
                        out.push(Instr::Lit(s));
                        let ghost o1 = out@;
                        let mut ai = lower_attrs_exec(attrs);
                        let ghost a1 = ai@;
                        out.append(&mut ai);
                        let ghost o2 = out@;
                        let gt = String::from_str(">");
                        proof {
                            reveal_strlit(">");
                            assert(gt@ =~= seq!['>']);
                        }
                        out.push(Instr::Lit(gt));
                        let ghost o3 = out@;
                        let mut c = c;
                        let ghost c1 = c@;
                        out.append(&mut c);
                        let ghost o4 = out@;
                        if !void {
                            let mut cs = String::from_str("</");
                            cs.append(tag.as_str());
                            cs.append(">");
                            proof {
                                reveal_strlit("</");
                                reveal_strlit(">");
                                assert(cs@ =~= close_tag_text(tag@));
                            }
                            out.push(Instr::Lit(cs));
                        }
                        proof {
                            lemma_view_instrs_one(o1);
                            lemma_view_instrs_concat(o1, a1);
                            lemma_view_instrs_push(o2, o3[o3.len() - 1]);
                            assert(o2.push(o3[o3.len() - 1]) =~= o3);
                            lemma_view_instrs_concat(o3, c1);
                            if !is_void_tag(tag@) {
                                lemma_view_instrs_push(o4, out@[out@.len() - 1]);
                                assert(o4.push(out@[out@.len() - 1]) =~= out@);
                            }
                            assert(view_instrs(out@) =~= spec_lower_entry(
                                view_entry(*self),
                            )->Ok_0);
                        }
                        Ok(out)
                    },
                }
            },
        }
    }
}

impl Content {
    /// Lower a content node to its instructions.
    pub fn lower(&self) -> (r: Result<Vec<Instr>, CompileError>)
        ensures
            match r {
                Ok(is) => spec_lower_content(view_content(*self)) == Ok::<
                    Seq<SpecInstr>,
                    Seq<char>,
                >(view_instrs(is@)),
                Err(ce) => spec_lower_content(view_content(*self)) == Err::<
                    Seq<SpecInstr>,
                    Seq<char>,
                >(ce.void_tag@),
            },
        decreases scontent_size(view_content(*self)), 0int,
    {
        match self {
            Content::Empty => {
                let r: Vec<Instr> = Vec::new();
                proof {
                    assert(view_instrs(r@) =~= Seq::<SpecInstr>::empty());
                }
                Ok(r)
            },
            Content::Flat(e) => Ok(lower_flat(e)),
            Content::Nested(p) => lower_entries(&p.0),
        }
    }
}

/// Lower a sequence of entries: each entry's instructions, concatenated in
/// order.
pub fn lower_entries(es: &Vec<Entry>) -> (r: Result<Vec<Instr>, CompileError>)
    ensures
        match r {
            Ok(is) => spec_lower_entries(view_entries(es@)) == Ok::<Seq<SpecInstr>, Seq<char>>(
                view_instrs(is@),
            ),
            Err(ce) => spec_lower_entries(view_entries(es@)) == Err::<Seq<SpecInstr>, Seq<char>>(
                ce.void_tag@,
            ),
        },
    decreases sentries_size(view_entries(es@)), 1int,
{
    let ghost full = view_entries(es@);
    let n = es.len();
    let mut out: Vec<Instr> = Vec::new();
    let mut i: usize = 0;
    proof {
        crate::ast::lemma_view_entries_len(es@);
        assert(full.skip(0) =~= full);
        if let Ok(rest) = spec_lower_entries(full) {
            assert(view_instrs(out@) + rest =~= rest);
        }
    }
    while i < n
        invariant
            n == es@.len(),
            full == view_entries(es@),
            full.len() == n,
            0 <= i <= n,
            (match spec_lower_entries(full.skip(i as int)) {
                Ok(rest) => spec_lower_entries(full) == Ok::<Seq<SpecInstr>, Seq<char>>(
                    view_instrs(out@) + rest,
                ),
                Err(t) => spec_lower_entries(full) == Err::<Seq<SpecInstr>, Seq<char>>(t),
            }),
        decreases n - i,
{
        proof {
            crate::ast::lemma_view_entries_index(es@, i as int);
            lemma_sentries_size_elem(full, i as int);
            assert(full.skip(i as int)[0] == full[i as int]);
            assert(full.skip(i as int).drop_first() =~= full.skip(i + 1));
        }
        match es[i].lower() {
            Err(ce) => {
                return Err(ce);
            },
            Ok(mut one) => {
                let ghost m = one@;
                let ghost prev = out@;
                out.append(&mut one);
                proof {
                    lemma_view_instrs_concat(prev, m);
                    if let Ok(rest) = spec_lower_entries(full.skip(i + 1)) {
                        assert((view_instrs(prev) + (view_instrs(m) + rest)) =~= (view_instrs(out@)
                            + rest));
                    }
                }
            },
        }
        i += 1;
    }
    proof {
        assert(full.skip(n as int) =~= Seq::<SpecEntry>::empty());
        if let Ok(rest) = spec_lower_entries(full.skip(n as int)) {
            assert(view_instrs(out@) + rest =~= view_instrs(out@));
        }
    }
    Ok(out)
}

/// Lower a sequence of match arms.
pub fn lower_arms(arms: &Vec<MatchArm>) -> (r: Result<Vec<InstrArm>, CompileError>)
    ensures
        match r {
            Ok(ia) => spec_lower_arms(view_arms(arms@)) == Ok::<Seq<SpecInstrArm>, Seq<char>>(
                view_iarms(ia@),
            ),
            Err(ce) => spec_lower_arms(view_arms(arms@)) == Err::<Seq<SpecInstrArm>, Seq<char>>(
                ce.void_tag@,
            ),
        },
    decreases sarms_size(view_arms(arms@)), 1int,
{
    let ghost full = view_arms(arms@);
    let n = arms.len();
    let mut out: Vec<InstrArm> = Vec::new();
    let mut i: usize = 0;
    proof {
        crate::ast::lemma_view_arms_len(arms@);
        assert(full.skip(0) =~= full);
        if let Ok(rest) = spec_lower_arms(full) {
            assert(view_iarms(out@) + rest =~= rest);
        }
    }
    while i < n
        invariant
            n == arms@.len(),
            full == view_arms(arms@),
            full.len() == n,
            0 <= i <= n,
            (match spec_lower_arms(full.skip(i as int)) {
                Ok(rest) => spec_lower_arms(full) == Ok::<Seq<SpecInstrArm>, Seq<char>>(
                    view_iarms(out@) + rest,
                ),
                Err(t) => spec_lower_arms(full) == Err::<Seq<SpecInstrArm>, Seq<char>>(t),
            }),
        decreases n - i,
{
        proof {
            crate::ast::lemma_view_arms_index(arms@, i as int);
            lemma_sarms_size_elem(full, i as int);
            assert(full.skip(i as int)[0] == full[i as int]);
            assert(full.skip(i as int).drop_first() =~= full.skip(i + 1));
        }
        let a = &arms[i];
        match a.body.lower() {
            Err(ce) => {
                return Err(ce);
            },
            Ok(body) => {
                let guard = match &a.guard {
                    Some(g) => Some(expr_clone(g)),
                    None => None,
                };
                let one = InstrArm { pat: pat_clone(&a.pat), guard, body };
                let ghost prev = out@;
                let ghost vone = view_iarm(one);
                out.push(one);
                proof {
                    lemma_view_iarms_push(prev, out@[prev.len() as int]);
                    assert(view_iarms(out@) =~= view_iarms(prev).push(vone));
                    if let Ok(rest) = spec_lower_arms(full.skip(i + 1)) {
                        assert((view_iarms(prev) + (seq![vone] + rest)) =~= (view_iarms(out@)
                            + rest));
                    }
                }
            },
        }
        i += 1;
    }
    proof {
        assert(full.skip(n as int) =~= Seq::<SpecMatchArm>::empty());
        if let Ok(rest) = spec_lower_arms(full.skip(n as int)) {
            assert(view_iarms(out@) + rest =~= view_iarms(out@));
        }
    }
    Ok(out)
}

impl Program {
    /// Lower a whole template body to its compiled program.
    pub fn lower(&self) -> (r: Result<Vec<Instr>, CompileError>)
        ensures
            match r {
                Ok(is) => spec_lower_entries(self@) == Ok::<Seq<SpecInstr>, Seq<char>>(
                    view_instrs(is@),
                ),
                Err(ce) => spec_lower_entries(self@) == Err::<Seq<SpecInstr>, Seq<char>>(
                    ce.void_tag@,
                ),
            },
        decreases sentries_size(view_entries(self.0@)), 2int,
    {
        lower_entries(&self.0)
    }
}

/// A diagnostic from either stage of the compiler.
#[derive(Debug)]
pub enum TemplateError {
    /// The template did not parse.
    Parse(ParseError),
    /// A void element was given content.
    Void(CompileError),
}

/// The compiler's front door: parse a token sequence and lower it to a
/// compiled program.
pub fn compile(toks: &Vec<Tok>) -> (r: Result<Vec<Instr>, TemplateError>)
    ensures
        match r {
            Ok(is) => (spec_parse_program(view_toks(toks@)) matches Ok(p) && spec_lower_entries(p)
                == Ok::<Seq<SpecInstr>, Seq<char>>(view_instrs(is@))),
            Err(TemplateError::Parse(e)) => spec_parse_program(view_toks(toks@)) == Err::<
                Seq<SpecEntry>,
                ParseError,
            >(e),
            Err(TemplateError::Void(ce)) => (spec_parse_program(view_toks(toks@)) matches Ok(p)
                && spec_lower_entries(p) == Err::<Seq<SpecInstr>, Seq<char>>(ce.void_tag@)),
        },
{
    match Program::parse(toks) {
        Err(e) => Err(TemplateError::Parse(e)),
        Ok(p) => match p.lower() {
            Err(ce) => Err(TemplateError::Void(ce)),
            Ok(is) => Ok(is),
        },
    }
}

} // verus!
