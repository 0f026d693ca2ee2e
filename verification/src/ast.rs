//! The abstract syntax tree of a template body.
//!
//! A `Program` is an ordered sequence of `Entry` nodes; order is the order
//! in which text is appended to the output.  Embedded host-language
//! expressions and patterns are opaque token sequences: the compiler moves
//! them around but never interprets them while compiling.
//!
//! Each executable type has a ghost mirror (`SpecEntry` and friends) built
//! from `Seq`, which the contracts of the parser and the code generator
//! speak about; `view_entry` and its companions relate the two.

use vstd::prelude::*;
use crate::token::{view_toks, SpecTok, Tok};

verus! {

/// An embedded host-language expression: an opaque, non-empty sequence of
/// tokens.
#[derive(Debug)]
pub struct Expr(pub Vec<Tok>);

/// An embedded host-language binding pattern: an opaque, non-empty sequence
/// of tokens.
#[derive(Debug)]
pub struct Pat(pub Vec<Tok>);

impl View for Expr {
    type V = Seq<SpecTok>;

    open spec fn view(&self) -> Seq<SpecTok> {
        view_toks(self.0@)
    }
}

impl View for Pat {
    type V = Seq<SpecTok>;

    open spec fn view(&self) -> Seq<SpecTok> {
        view_toks(self.0@)
    }
}

/// The value position of one attribute.
#[derive(Debug)]
pub enum AttrValue {
    /// A bare attribute with no value at all, e.g. `input(disabled)`.
    Flag,
    /// `name = expr`: the attribute is always present, with this value.
    Always(Expr),
    /// `name ?= expr`: presence and value are decided at the compiled
    /// program's runtime, in three ways.
    Optional(Expr),
}

/// One attribute of an element: a name and a value position.  The name is
/// written with underscores wherever the serialized attribute has hyphens.
#[derive(Debug)]
pub struct Attr {
    pub name: String,
    pub value: AttrValue,
}

/// The content of an element.
#[derive(Debug)]
pub enum Content {
    /// `;` — no content.
    Empty,
    /// `: expr ;` — a single rendered expression.
    Flat(Expr),
    /// `{ ... }` — a nested program.
    Nested(Program),
}

/// One arm of a `@match` directive.
#[derive(Debug)]
pub struct MatchArm {
    pub pat: Pat,
    pub guard: Option<Expr>,
    pub body: Box<Entry>,
}

/// One node of a template body.
#[derive(Debug)]
pub enum Entry {
    /// `@for pat in expr { ... }`
    Iterate { pat: Pat, source: Expr, body: Program },
    /// `@if expr { ... }`, with an optional `else` arm that is either
    /// another `Conditional` (else-if chaining) or a final bare block.
    Conditional { cond: Expr, then_branch: Program, else_branch: Option<Box<Entry>> },
    /// `@let pat = expr ;`
    Binding { pat: Pat, init: Expr },
    /// `@match expr { arm* }`
    Match { scrutinee: Expr, arms: Vec<MatchArm> },
    /// `@unimplemented` — this path is intentionally incomplete.
    Unimplemented,
    /// `@unreachable` — this path is intentionally impossible.
    Unreachable,
    /// `@while expr { ... }`
    WhileLoop { cond: Expr, body: Program },
    /// A markup element, or with `tag: None` a bare content block.
    Element { tag: Option<String>, attrs: Vec<Attr>, content: Content },
}

/// An ordered sequence of entries: the compiled unit of a template body.
#[derive(Debug)]
pub struct Program(pub Vec<Entry>);

/// Ghost mirror of `AttrValue`.
#[verifier::ext_equal]
pub enum SpecAttrValue {
    Flag,
    Always(Seq<SpecTok>),
    Optional(Seq<SpecTok>),
}

/// Ghost mirror of `Attr`.
#[verifier::ext_equal]
pub struct SpecAttr {
    pub name: Seq<char>,
    pub value: SpecAttrValue,
}

/// Ghost mirror of `Content`.
#[verifier::ext_equal]
pub enum SpecContent {
    Empty,
    Flat(Seq<SpecTok>),
    Nested(Seq<SpecEntry>),
}

/// Ghost mirror of `MatchArm`.
#[verifier::ext_equal]
pub struct SpecMatchArm {
    pub pat: Seq<SpecTok>,
    pub guard: Option<Seq<SpecTok>>,
    pub body: Box<SpecEntry>,
}

/// Ghost mirror of `Entry`.
#[verifier::ext_equal]
pub enum SpecEntry {
    Iterate { pat: Seq<SpecTok>, source: Seq<SpecTok>, body: Seq<SpecEntry> },
    Conditional { cond: Seq<SpecTok>, then_branch: Seq<SpecEntry>, else_branch: Option<Box<SpecEntry>> },
    Binding { pat: Seq<SpecTok>, init: Seq<SpecTok> },
    Match { scrutinee: Seq<SpecTok>, arms: Seq<SpecMatchArm> },
    Unimplemented,
    Unreachable,
    WhileLoop { cond: Seq<SpecTok>, body: Seq<SpecEntry> },
    Element { tag: Option<Seq<char>>, attrs: Seq<SpecAttr>, content: SpecContent },
}

/// Ghost mirror of one attribute value position.
pub open spec fn view_attr_value(v: AttrValue) -> SpecAttrValue {
    match v {
        AttrValue::Flag => SpecAttrValue::Flag,
        AttrValue::Always(e) => SpecAttrValue::Always(e@),
        AttrValue::Optional(e) => SpecAttrValue::Optional(e@),
    }
}

/// Ghost mirror of one attribute.
pub open spec fn view_attr(a: Attr) -> SpecAttr {
    SpecAttr { name: a.name@, value: view_attr_value(a.value) }
}

/// Ghost mirror of an attribute list.
pub open spec fn view_attrs(attrs: Seq<Attr>) -> Seq<SpecAttr> {
    attrs.map_values(|a: Attr| view_attr(a))
}

/// Ghost mirror of one entry.
pub open spec fn view_entry(e: Entry) -> SpecEntry
    decreases e, 0int,
{
    match e {
        Entry::Iterate { pat, source, body } => SpecEntry::Iterate {
            pat: pat@,
            source: source@,
            body: view_entries(body.0@),
        },
        Entry::Conditional { cond, then_branch, else_branch } => SpecEntry::Conditional {
            cond: cond@,
            then_branch: view_entries(then_branch.0@),
            else_branch: match else_branch {
                Some(b) => Some(Box::new(view_entry(*b))),
                None => None,
            },
        },
        Entry::Binding { pat, init } => SpecEntry::Binding { pat: pat@, init: init@ },
        Entry::Match { scrutinee, arms } => SpecEntry::Match {
            scrutinee: scrutinee@,
            arms: view_arms(arms@),
        },
        Entry::Unimplemented => SpecEntry::Unimplemented,
        Entry::Unreachable => SpecEntry::Unreachable,
        Entry::WhileLoop { cond, body } => SpecEntry::WhileLoop {
            cond: cond@,
            body: view_entries(body.0@),
        },
        Entry::Element { tag, attrs, content } => SpecEntry::Element {
            tag: match tag {
                Some(t) => Some(t@),
                None => None,
            },
            attrs: view_attrs(attrs@),
            content: view_content(content),
        },
    }
}

/// Ghost mirror of an entry sequence.
pub open spec fn view_entries(es: Seq<Entry>) -> Seq<SpecEntry>
    decreases es, 1int,
{
    if es.len() == 0 {
        Seq::empty()
    } else {
        seq![view_entry(es[0])] + view_entries(es.drop_first())
    }
}

/// Ghost mirror of one match arm.
pub open spec fn view_arm(a: MatchArm) -> SpecMatchArm
    decreases a, 0int,
{
    SpecMatchArm {
        pat: a.pat@,
        guard: match a.guard {
            Some(g) => Some(g@),
            None => None,
        },
        body: Box::new(view_entry(*a.body)),
    }
}

/// Ghost mirror of a match arm sequence.
pub open spec fn view_arms(arms: Seq<MatchArm>) -> Seq<SpecMatchArm>
    decreases arms, 1int,
{
    if arms.len() == 0 {
        Seq::empty()
    } else {
        seq![view_arm(arms[0])] + view_arms(arms.drop_first())
    }
}

/// Ghost mirror of a content node.
pub open spec fn view_content(c: Content) -> SpecContent
    decreases c, 0int,
{
    match c {
        Content::Empty => SpecContent::Empty,
        Content::Flat(e) => SpecContent::Flat(e@),
        Content::Nested(p) => SpecContent::Nested(view_entries(p.0@)),
    }
}

impl View for Program {
    type V = Seq<SpecEntry>;

    open spec fn view(&self) -> Seq<SpecEntry> {
        view_entries(self.0@)
    }
}

impl View for Entry {
    type V = SpecEntry;

    open spec fn view(&self) -> SpecEntry {
        view_entry(*self)
    }
}

/// The mirror of a sequence keeps its length, and mirrors it element by
/// element.
pub proof fn lemma_view_entries_index(es: Seq<Entry>, i: int)
    requires
        0 <= i < es.len(),
    ensures
        view_entries(es).len() == es.len(),
        view_entries(es)[i] == view_entry(es[i]),
    decreases i,
{
    lemma_view_entries_len(es);
    if i > 0 {
        lemma_view_entries_index(es.drop_first(), i - 1);
    }
}

/// The mirror of an entry sequence has the same length.
pub proof fn lemma_view_entries_len(es: Seq<Entry>)
    ensures
        view_entries(es).len() == es.len(),
    decreases es.len(),
{
    if es.len() > 0 {
        lemma_view_entries_len(es.drop_first());
    }
}

/// The mirror of an arm sequence keeps its length, and mirrors it element
/// by element.
pub proof fn lemma_view_arms_index(arms: Seq<MatchArm>, i: int)
    requires
        0 <= i < arms.len(),
    ensures
        view_arms(arms).len() == arms.len(),
        view_arms(arms)[i] == view_arm(arms[i]),
    decreases i,
{
    lemma_view_arms_len(arms);
    if i > 0 {
        lemma_view_arms_index(arms.drop_first(), i - 1);
    }
}

/// The mirror of an arm sequence has the same length.
pub proof fn lemma_view_arms_len(arms: Seq<MatchArm>)
    ensures
        view_arms(arms).len() == arms.len(),
    decreases arms.len(),
{
    if arms.len() > 0 {
        lemma_view_arms_len(arms.drop_first());
    }
}

/// Extending an entry sequence by one entry extends its mirror accordingly.
pub proof fn lemma_view_entries_push(es: Seq<Entry>, e: Entry)
    ensures
        view_entries(es.push(e)) == view_entries(es).push(view_entry(e)),
    decreases es.len(),
{
    if es.len() == 0 {
        assert(es.push(e).drop_first() =~= es);
        assert(es.push(e)[0] == e);
        assert(view_entries(es.push(e)) =~= view_entries(es).push(view_entry(e)));
    } else {
        assert(es.push(e).drop_first() =~= es.drop_first().push(e));
        lemma_view_entries_push(es.drop_first(), e);
        assert(es.push(e)[0] == es[0]);
        assert(view_entries(es.push(e)) == seq![view_entry(es.push(e)[0])] + view_entries(
            es.push(e).drop_first(),
        ));
        assert(view_entries(es) == seq![view_entry(es[0])] + view_entries(es.drop_first()));
        assert(seq![view_entry(es[0])] + view_entries(es.drop_first()).push(view_entry(e))
            =~= (seq![view_entry(es[0])] + view_entries(es.drop_first())).push(view_entry(e)));
        assert(view_entries(es.push(e)) =~= view_entries(es).push(view_entry(e)));
    }
}

/// Extending an arm sequence by one arm extends its mirror accordingly.
pub proof fn lemma_view_arms_push(arms: Seq<MatchArm>, a: MatchArm)
    ensures
        view_arms(arms.push(a)) == view_arms(arms).push(view_arm(a)),
    decreases arms.len(),
{
    if arms.len() == 0 {
        assert(arms.push(a).drop_first() =~= arms);
        assert(arms.push(a)[0] == a);
        assert(view_arms(arms.push(a)) =~= view_arms(arms).push(view_arm(a)));
    } else {
        assert(arms.push(a).drop_first() =~= arms.drop_first().push(a));
        lemma_view_arms_push(arms.drop_first(), a);
        assert(arms.push(a)[0] == arms[0]);
        assert(view_arms(arms.push(a)) == seq![view_arm(arms.push(a)[0])] + view_arms(
            arms.push(a).drop_first(),
        ));
        assert(view_arms(arms) == seq![view_arm(arms[0])] + view_arms(arms.drop_first()));
        assert(seq![view_arm(arms[0])] + view_arms(arms.drop_first()).push(view_arm(a))
            =~= (seq![view_arm(arms[0])] + view_arms(arms.drop_first())).push(view_arm(a)));
        assert(view_arms(arms.push(a)) =~= view_arms(arms).push(view_arm(a)));
    }
}

} // verus!
