//! The token stream the template compiler consumes.
//!
//! The tokenizer itself is outside this library: any front end that can
//! produce identifiers, punctuation, literals and bracketed groups can feed
//! the parser.  Embedded host-language expressions are carried through as
//! opaque token sequences; the compiler never interprets them beyond the
//! boundaries the grammar needs (a top-level brace, a separator).
//!
//! `Tok` is the executable token; `SpecTok` is its ghost mirror built from
//! `Seq`, which every contract speaks about; `view_tok` and `view_toks`
//! relate the two.

use vstd::prelude::*;

verus! {

/// The bracket shape of a delimited token group.
#[derive(Clone, Copy, PartialEq, Eq, Structural, Debug)]
pub enum Delim {
    Paren,
    Brace,
    Bracket,
}

/// One token of the template notation.
#[derive(Debug)]
pub enum Tok {
    /// An identifier or keyword.
    Ident(String),
    /// A string literal, already decoded to its value.
    LitStr(String),
    /// An unsigned integer literal.
    LitInt(u64),
    /// `@`, the directive marker.
    At,
    /// `;`
    Semi,
    /// `:`
    Colon,
    /// `,`
    Comma,
    /// `=`
    Assign,
    /// `?`
    Question,
    /// `=>`
    FatArrow,
    /// Any other punctuation character, kept verbatim inside embedded
    /// expressions.
    Punct(char),
    /// A delimited group of tokens.
    Group(Delim, Vec<Tok>),
}

/// Ghost mirror of `Tok`.
#[verifier::ext_equal]
pub enum SpecTok {
    Ident(Seq<char>),
    LitStr(Seq<char>),
    LitInt(u64),
    At,
    Semi,
    Colon,
    Comma,
    Assign,
    Question,
    FatArrow,
    Punct(char),
    Group(Delim, Seq<SpecTok>),
}

/// Ghost mirror of one token.
pub open spec fn view_tok(t: Tok) -> SpecTok
    decreases t, 0int,
{
    match t {
        Tok::Ident(s) => SpecTok::Ident(s@),
        Tok::LitStr(s) => SpecTok::LitStr(s@),
        Tok::LitInt(n) => SpecTok::LitInt(n),
        Tok::At => SpecTok::At,
        Tok::Semi => SpecTok::Semi,
        Tok::Colon => SpecTok::Colon,
        Tok::Comma => SpecTok::Comma,
        Tok::Assign => SpecTok::Assign,
        Tok::Question => SpecTok::Question,
        Tok::FatArrow => SpecTok::FatArrow,
        Tok::Punct(c) => SpecTok::Punct(c),
        Tok::Group(d, inner) => SpecTok::Group(d, view_toks(inner@)),
    }
}

/// Ghost mirror of a token sequence.
pub open spec fn view_toks(ts: Seq<Tok>) -> Seq<SpecTok>
    decreases ts, 1int,
{
    if ts.len() == 0 {
        Seq::empty()
    } else {
        seq![view_tok(ts[0])] + view_toks(ts.drop_first())
    }
}

impl View for Tok {
    type V = SpecTok;

    open spec fn view(&self) -> SpecTok {
        view_tok(*self)
    }
}

/// The mirror of a token sequence has the same length.
pub proof fn lemma_view_toks_len(ts: Seq<Tok>)
    ensures
        view_toks(ts).len() == ts.len(),
    decreases ts.len(),
{
    if ts.len() > 0 {
        lemma_view_toks_len(ts.drop_first());
    }
}

/// The mirror of a token sequence keeps its length, and mirrors it element
/// by element.
pub proof fn lemma_view_toks_index(ts: Seq<Tok>, i: int)
    requires
        0 <= i < ts.len(),
    ensures
        view_toks(ts).len() == ts.len(),
        view_toks(ts)[i] == view_tok(ts[i]),
    decreases i,
{
    lemma_view_toks_len(ts);
    if i > 0 {
        lemma_view_toks_index(ts.drop_first(), i - 1);
    }
}

/// Extending a token sequence by one token extends its mirror accordingly.
pub proof fn lemma_view_toks_push(ts: Seq<Tok>, t: Tok)
    ensures
        view_toks(ts.push(t)) == view_toks(ts).push(view_tok(t)),
    decreases ts.len(),
{
    if ts.len() == 0 {
        assert(ts.push(t).drop_first() =~= ts);
        assert(ts.push(t)[0] == t);
        assert(view_toks(ts.push(t)) =~= view_toks(ts).push(view_tok(t)));
    } else {
        assert(ts.push(t).drop_first() =~= ts.drop_first().push(t));
        lemma_view_toks_push(ts.drop_first(), t);
        assert(ts.push(t)[0] == ts[0]);
        assert(view_toks(ts.push(t)) == seq![view_tok(ts.push(t)[0])] + view_toks(
            ts.push(t).drop_first(),
        ));
        assert(view_toks(ts) == seq![view_tok(ts[0])] + view_toks(ts.drop_first()));
        assert(seq![view_tok(ts[0])] + view_toks(ts.drop_first()).push(view_tok(t))
            =~= (seq![view_tok(ts[0])] + view_toks(ts.drop_first())).push(view_tok(t)));
        assert(view_toks(ts.push(t)) =~= view_toks(ts).push(view_tok(t)));
    }
}

/// A structural size of a token sequence: every token counts one, and a
/// group additionally counts the size of its contents plus one.  This is the
/// termination measure for every function that walks into nested groups.
pub open spec fn toks_size(ts: Seq<SpecTok>) -> nat
    decreases ts,
{
    if ts.len() == 0 {
        0
    } else {
        (match ts[0] {
            SpecTok::Group(_, inner) => 2 + toks_size(inner),
            _ => 1nat,
        }) + toks_size(ts.drop_first())
    }
}

/// The contents of a group stand strictly below the sequence holding the
/// group.
pub proof fn lemma_toks_size_group(ts: Seq<SpecTok>, i: int, d: Delim, inner: Seq<SpecTok>)
    requires
        0 <= i < ts.len(),
        ts[i] == SpecTok::Group(d, inner),
    ensures
        toks_size(inner) < toks_size(ts),
    decreases i,
{
    if i == 0 {
        assert(toks_size(ts) == 2 + toks_size(inner) + toks_size(ts.drop_first()));
    } else {
        lemma_toks_size_group(ts.drop_first(), i - 1, d, inner);
    }
}

/// A deep copy of one token, preserving its mirror.
pub fn tok_clone(t: &Tok) -> (r: Tok)
    ensures
        r@ == t@,
    decreases *t,
{
    match t {
        Tok::Ident(s) => Tok::Ident(s.clone()),
        Tok::LitStr(s) => Tok::LitStr(s.clone()),
        Tok::LitInt(n) => Tok::LitInt(*n),
        Tok::At => Tok::At,
        Tok::Semi => Tok::Semi,
        Tok::Colon => Tok::Colon,
        Tok::Comma => Tok::Comma,
        Tok::Assign => Tok::Assign,
        Tok::Question => Tok::Question,
        Tok::FatArrow => Tok::FatArrow,
        Tok::Punct(c) => Tok::Punct(*c),
        Tok::Group(d, inner) => {
            let mut out: Vec<Tok> = Vec::new();
            let n = inner.len();
            let mut i: usize = 0;
            proof {
                lemma_view_toks_len(inner@);
                assert(view_toks(out@) =~= view_toks(inner@).subrange(0, 0));
            }
            while i < n
                invariant
                    n == inner@.len(),
                    0 <= i <= n,
                    *t == Tok::Group(*d, *inner),
                    view_toks(inner@).len() == n,
                    view_toks(out@) == view_toks(inner@).subrange(0, i as int),
                decreases n - i,
            {
                proof {
                    assert((*t)->Group_1 == *inner);
                    assert(decreases_to!(*t => (*t)->Group_1));
                    assert(decreases_to!(*inner => inner@));
                    assert(decreases_to!(inner@ => inner@[i as int]));
                }
                let c = tok_clone(&inner[i]);
                let ghost prev = out@;
                out.push(c);
                proof {
                    lemma_view_toks_push(prev, c);
                    lemma_view_toks_index(inner@, i as int);
                    lemma_view_toks_len(inner@);
                    assert(view_toks(out@) =~= view_toks(inner@).subrange(0, i + 1));
                }
                i += 1;
            }
            proof {
                lemma_view_toks_len(inner@);
                assert(view_toks(inner@).subrange(0, n as int) =~= view_toks(inner@));
            }
            Tok::Group(*d, out)
        },
    }
}

/// A deep copy of a range of a token sequence, preserving its mirror.
pub fn copy_range(toks: &Vec<Tok>, from: usize, to: usize) -> (r: Vec<Tok>)
    requires
        from <= to <= toks@.len(),
    ensures
        view_toks(r@) == view_toks(toks@).subrange(from as int, to as int),
{
    let mut out: Vec<Tok> = Vec::new();
    let mut i: usize = from;
    proof {
        lemma_view_toks_len(toks@);
        assert(view_toks(out@) =~= view_toks(toks@).subrange(from as int, from as int));
    }
    while i < to
        invariant
            from <= i <= to <= toks@.len(),
            view_toks(toks@).len() == toks@.len(),
            view_toks(out@) == view_toks(toks@).subrange(from as int, i as int),
        decreases to - i,
    {
        let c = tok_clone(&toks[i]);
        let ghost prev = out@;
        out.push(c);
        proof {
            lemma_view_toks_push(prev, c);
            lemma_view_toks_index(toks@, i as int);
            lemma_view_toks_len(toks@);
            assert(view_toks(out@) =~= view_toks(toks@).subrange(from as int, i + 1));
        }
        i += 1;
    }
    out
}

} // verus!
