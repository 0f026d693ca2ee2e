//! The entry parser: recursive descent from a token sequence to a
//! `Program`.
//!
//! The grammar, written as it is dispatched with one token of lookahead:
//!
//! ```text
//! Program    := Entry*
//! Entry      := Directive | Element
//! Directive  := '@' ( For | If | Let | Match | While
//!                   | 'unimplemented' | 'unreachable' )
//! For        := 'for' Pat 'in' Expr '{' Program '}'
//! If         := 'if' Expr '{' Program '}' ( 'else' (If | '{' Program '}') )?
//! Let        := 'let' Pat '=' Expr ';'
//! Match      := 'match' Expr '{' MatchArm* '}'
//! MatchArm   := Pat ('if' Expr)? '=>' Entry
//! While      := 'while' Expr '{' Program '}'
//! Element    := Name AttrList? Content
//! AttrList   := '(' (Attr (',' Attr)*)? ','? ')'
//! Attr       := Name ( '=' Expr | '?=' Expr )?
//! Content    := ';' | ':' Expr ';' | '{' Program '}'
//! ```
//!
//! Expressions and patterns are opaque: they are scanned, not parsed.  A
//! loop, conditional or match head stops its expression before the first
//! top-level brace block, which would otherwise be swallowed as part of the
//! expression.
//!
//! The whole grammar exists twice: once as ghost functions
//! (`spec_parse_entry` and companions), which are the reference, and once
//! as executable functions whose contracts say they return exactly what the
//! ghost parser returns.

use vstd::prelude::*;
use vstd::string::StrSliceExecFns;
use crate::ast::{SpecAttr, SpecAttrValue, SpecContent, SpecEntry, SpecMatchArm};
use crate::strutil::str_eq;
use crate::token::{lemma_toks_size_group, toks_size, view_toks, Delim, SpecTok, Tok};

verus! {

/// What the parser was looking for when it failed.
#[derive(Clone, Copy, PartialEq, Eq, Structural, Debug)]
pub enum Expected {
    /// An entry: an identifier, `@`, `;`, `:` or a brace block.
    EntryStart,
    /// A directive keyword after `@`.
    DirectiveKeyword,
    /// A known keyword after `@`: the identifier there is not one.
    UnexpectedKeyword,
    /// The keyword `if`.
    IfKeyword,
    /// The keyword `in` after a loop pattern.
    InKeyword,
    /// Content: `;`, `:` or a brace block.
    ContentStart,
    /// `if` or a brace block after `else`.
    ElseBranch,
    /// A non-empty expression.
    ExprTokens,
    /// A non-empty pattern.
    PatTokens,
    /// `=`.
    AssignTok,
    /// `;`.
    SemiTok,
    /// `=>`.
    FatArrowTok,
    /// A brace block.
    BraceBlock,
    /// An identifier naming an attribute.
    AttrName,
    /// `,` between attributes.
    CommaTok,
}

/// A syntax diagnostic: what was expected, and where.  The position is an
/// index into the token sequence being parsed when the failure was noticed
/// — for a failure inside a bracketed group, an index into that group's own
/// token sequence.
#[derive(Clone, Copy, PartialEq, Eq, Structural, Debug)]
pub struct ParseError {
    pub pos: usize,
    pub expected: Expected,
}

/// The token kinds an opaque scan stops at.
#[derive(Clone, Copy, PartialEq, Eq, Structural, Debug)]
pub enum Stop {
    /// A brace block: ends the head expression of `for`/`if`/`match`/`while`.
    BraceGroup,
    /// `;`
    Semi,
    /// `=`
    Assign,
    /// The keyword `in`: ends a loop pattern.
    InKeyword,
    /// `=>` or the keyword `if`: ends a match-arm pattern.
    ArmPatEnd,
    /// `=>`
    FatArrow,
    /// `,`: ends an attribute value.
    Comma,
}

/// Does this token end a scan of the given kind?
pub open spec fn tok_stops(t: SpecTok, stop: Stop) -> bool {
    match stop {
        Stop::BraceGroup => t matches SpecTok::Group(Delim::Brace, _),
        Stop::Semi => t is Semi,
        Stop::Assign => t is Assign,
        Stop::InKeyword => t matches SpecTok::Ident(s) && s == "in"@,
        Stop::ArmPatEnd => t is FatArrow || (t matches SpecTok::Ident(s) && s == "if"@),
        Stop::FatArrow => t is FatArrow,
        Stop::Comma => t is Comma,
    }
}

/// The position of the first token at or after `pos` that ends a scan of
/// the given kind, or the sequence length if there is none.
pub open spec fn spec_scan(ts: Seq<SpecTok>, pos: int, stop: Stop) -> int
    decreases ts.len() - pos,
{
    if !(0 <= pos < ts.len()) {
        ts.len() as int
    } else if tok_stops(ts[pos], stop) {
        pos
    } else {
        spec_scan(ts, pos + 1, stop)
    }
}

/// Where a scan ends: within bounds, at a stopping token or at the end,
/// with no stopping token before it.
pub proof fn lemma_scan_bounds(ts: Seq<SpecTok>, pos: int, stop: Stop)
    requires
        0 <= pos <= ts.len(),
    ensures
        pos <= spec_scan(ts, pos, stop) <= ts.len(),
        spec_scan(ts, pos, stop) < ts.len() ==> tok_stops(ts[spec_scan(ts, pos, stop)], stop),
        forall|j: int| pos <= j < spec_scan(ts, pos, stop) ==> !tok_stops(ts[j], stop),
    decreases ts.len() - pos,
{
    if pos < ts.len() && !tok_stops(ts[pos], stop) {
        lemma_scan_bounds(ts, pos + 1, stop);
    }
}

/// Wrap a parsed content node into an element entry.
pub open spec fn spec_mk_element(
    tag: Option<Seq<char>>,
    attrs: Seq<SpecAttr>,
    content_res: Result<(SpecContent, int), ParseError>,
) -> Result<(SpecEntry, int), ParseError> {
    match content_res {
        Err(e) => Err(e),
        Ok((content, end)) => Ok((SpecEntry::Element { tag, attrs, content }, end)),
    }
}

/// The ghost parser for one entry.  Also the reference for where parsing
/// fails: the executable parser returns exactly what these functions
/// return.
pub open spec fn spec_parse_entry(ts: Seq<SpecTok>, pos: int) -> Result<(SpecEntry, int), ParseError>
    decreases toks_size(ts), ts.len() - pos, 1int,
{
    if !(0 <= pos < ts.len()) {
        Err(ParseError { pos: pos as usize, expected: Expected::EntryStart })
    } else {
        match ts[pos] {
            SpecTok::At => spec_parse_directive(ts, pos + 1),
            SpecTok::Ident(tag) => if pos + 1 < ts.len() && (ts[pos + 1] matches SpecTok::Group(
                Delim::Paren,
                _,
            )) {
                match ts[pos + 1] {
                    SpecTok::Group(d, inner) => {
                        proof {
                            lemma_toks_size_group(ts, pos + 1, d, inner);
                        }
                        match spec_parse_attrs(inner, 0) {
                            Err(e) => Err(e),
                            Ok(attrs) => spec_mk_element(
                                Some(tag),
                                attrs,
                                spec_parse_content(ts, pos + 2),
                            ),
                        }
                    },
                    _ => Err(ParseError { pos: pos as usize, expected: Expected::EntryStart }),
                }
            } else {
                spec_mk_element(Some(tag), Seq::empty(), spec_parse_content(ts, pos + 1))
            },
            SpecTok::Semi | SpecTok::Colon | SpecTok::Group(Delim::Brace, _) => spec_mk_element(
                None,
                Seq::empty(),
                spec_parse_content(ts, pos),
            ),
            _ => Err(ParseError { pos: pos as usize, expected: Expected::EntryStart }),
        }
    }
}

/// The ghost parser for a directive, positioned just after the `@` marker.
pub open spec fn spec_parse_directive(ts: Seq<SpecTok>, pos: int) -> Result<
    (SpecEntry, int),
    ParseError,
>
    decreases toks_size(ts), ts.len() - pos, 1int,
{
    if !(0 <= pos < ts.len()) {
        Err(ParseError { pos: pos as usize, expected: Expected::DirectiveKeyword })
    } else {
        match ts[pos] {
            SpecTok::Ident(kw) => {
                if kw == "for"@ {
                    spec_parse_for(ts, pos)
                } else if kw == "if"@ {
                    spec_parse_if(ts, pos)
                } else if kw == "let"@ {
                    spec_parse_let(ts, pos)
                } else if kw == "match"@ {
                    spec_parse_match(ts, pos)
                } else if kw == "while"@ {
                    spec_parse_while(ts, pos)
                } else if kw == "unimplemented"@ {
                    Ok((SpecEntry::Unimplemented, pos + 1))
                } else if kw == "unreachable"@ {
                    Ok((SpecEntry::Unreachable, pos + 1))
                } else {
                    Err(ParseError { pos: pos as usize, expected: Expected::UnexpectedKeyword })
                }
            },
            _ => Err(ParseError { pos: pos as usize, expected: Expected::DirectiveKeyword }),
        }
    }
}

/// The ghost parser for `for pat in expr { body }`, positioned at `for`.
pub open spec fn spec_parse_for(ts: Seq<SpecTok>, pos: int) -> Result<(SpecEntry, int), ParseError>
    decreases toks_size(ts), ts.len() - pos, 0int,
{
    let pend = spec_scan(ts, pos + 1, Stop::InKeyword);
    if pend == pos + 1 {
        Err(ParseError { pos: (pos + 1) as usize, expected: Expected::PatTokens })
    } else if pend >= ts.len() {
        Err(ParseError { pos: pend as usize, expected: Expected::InKeyword })
    } else {
        let epos = pend + 1;
        let eend = spec_scan(ts, epos, Stop::BraceGroup);
        if eend == epos {
            Err(ParseError { pos: epos as usize, expected: Expected::ExprTokens })
        } else if eend >= ts.len() {
            Err(ParseError { pos: eend as usize, expected: Expected::BraceBlock })
        } else {
            match ts[eend] {
                SpecTok::Group(d, inner) => {
                    proof {
                        lemma_scan_bounds(ts, epos, Stop::BraceGroup);
                        lemma_toks_size_group(ts, eend, d, inner);
                    }
                    match spec_parse_entries(inner, 0) {
                        Err(e) => Err(e),
                        Ok(body) => Ok(
                            (
                                SpecEntry::Iterate {
                                    pat: ts.subrange(pos + 1, pend),
                                    source: ts.subrange(epos, eend),
                                    body,
                                },
                                eend + 1,
                            ),
                        ),
                    }
                },
                _ => Err(ParseError { pos: eend as usize, expected: Expected::BraceBlock }),
            }
        }
    }
}

/// The ghost parser for `if expr { body } (else ...)?`, positioned at `if`.
pub open spec fn spec_parse_if(ts: Seq<SpecTok>, pos: int) -> Result<(SpecEntry, int), ParseError>
    decreases toks_size(ts), ts.len() - pos, 0int,
{
    if !(0 <= pos < ts.len() && (ts[pos] matches SpecTok::Ident(kw) && kw == "if"@)) {
        Err(ParseError { pos: pos as usize, expected: Expected::IfKeyword })
    } else {
        let cend = spec_scan(ts, pos + 1, Stop::BraceGroup);
        if cend == pos + 1 {
            Err(ParseError { pos: (pos + 1) as usize, expected: Expected::ExprTokens })
        } else if cend >= ts.len() {
            Err(ParseError { pos: cend as usize, expected: Expected::BraceBlock })
        } else {
            match ts[cend] {
                SpecTok::Group(d, inner) => {
                    proof {
                        lemma_scan_bounds(ts, pos + 1, Stop::BraceGroup);
                        lemma_toks_size_group(ts, cend, d, inner);
                    }
                    match spec_parse_entries(inner, 0) {
                        Err(e) => Err(e),
                        Ok(then_branch) => {
                            let cond = ts.subrange(pos + 1, cend);
                            let after = cend + 1;
                            if after < ts.len() && (ts[after] matches SpecTok::Ident(kw2) && kw2
                                == "else"@) {
                                let epos = after + 1;
                                if epos < ts.len() && (ts[epos] matches SpecTok::Ident(kw3) && kw3
                                    == "if"@) {
                                    match spec_parse_if(ts, epos) {
                                        Err(e) => Err(e),
                                        Ok((alt, end)) => Ok(
                                            (
                                                SpecEntry::Conditional {
                                                    cond,
                                                    then_branch,
                                                    else_branch: Some(Box::new(alt)),
                                                },
                                                end,
                                            ),
                                        ),
                                    }
                                } else if epos < ts.len() && (ts[epos] matches SpecTok::Group(
                                    Delim::Brace,
                                    _,
                                )) {
                                    match spec_parse_entry(ts, epos) {
                                        Err(e) => Err(e),
                                        Ok((alt, end)) => Ok(
                                            (
                                                SpecEntry::Conditional {
                                                    cond,
                                                    then_branch,
                                                    else_branch: Some(Box::new(alt)),
                                                },
                                                end,
                                            ),
                                        ),
                                    }
                                } else {
                                    Err(
                                        ParseError {
                                            pos: epos as usize,
                                            expected: Expected::ElseBranch,
                                        },
                                    )
                                }
                            } else {
                                Ok(
                                    (
                                        SpecEntry::Conditional {
                                            cond,
                                            then_branch,
                                            else_branch: None,
                                        },
                                        after,
                                    ),
                                )
                            }
                        },
                    }
                },
                _ => Err(ParseError { pos: cend as usize, expected: Expected::BraceBlock }),
            }
        }
    }
}

/// The ghost parser for `let pat = expr ;`, positioned at `let`.
pub open spec fn spec_parse_let(ts: Seq<SpecTok>, pos: int) -> Result<(SpecEntry, int), ParseError> {
    let aend = spec_scan(ts, pos + 1, Stop::Assign);
    if aend == pos + 1 {
        Err(ParseError { pos: (pos + 1) as usize, expected: Expected::PatTokens })
    } else if aend >= ts.len() {
        Err(ParseError { pos: aend as usize, expected: Expected::AssignTok })
    } else {
        let ipos = aend + 1;
        let iend = spec_scan(ts, ipos, Stop::Semi);
        if iend == ipos {
            Err(ParseError { pos: ipos as usize, expected: Expected::ExprTokens })
        } else if iend >= ts.len() {
            Err(ParseError { pos: iend as usize, expected: Expected::SemiTok })
        } else {
            Ok(
                (
                    SpecEntry::Binding {
                        pat: ts.subrange(pos + 1, aend),
                        init: ts.subrange(ipos, iend),
                    },
                    iend + 1,
                ),
            )
        }
    }
}

/// The ghost parser for `match expr { arm* }`, positioned at `match`.
pub open spec fn spec_parse_match(ts: Seq<SpecTok>, pos: int) -> Result<(SpecEntry, int), ParseError>
    decreases toks_size(ts), ts.len() - pos, 0int,
{
    let eend = spec_scan(ts, pos + 1, Stop::BraceGroup);
    if eend == pos + 1 {
        Err(ParseError { pos: (pos + 1) as usize, expected: Expected::ExprTokens })
    } else if eend >= ts.len() {
        Err(ParseError { pos: eend as usize, expected: Expected::BraceBlock })
    } else {
        match ts[eend] {
            SpecTok::Group(d, inner) => {
                proof {
                    lemma_scan_bounds(ts, pos + 1, Stop::BraceGroup);
                    lemma_toks_size_group(ts, eend, d, inner);
                }
                match spec_parse_arms(inner, 0) {
                    Err(e) => Err(e),
                    Ok(arms) => Ok(
                        (
                            SpecEntry::Match { scrutinee: ts.subrange(pos + 1, eend), arms },
                            eend + 1,
                        ),
                    ),
                }
            },
            _ => Err(ParseError { pos: eend as usize, expected: Expected::BraceBlock }),
        }
    }
}

/// The ghost parser for `while expr { body }`, positioned at `while`.
pub open spec fn spec_parse_while(ts: Seq<SpecTok>, pos: int) -> Result<(SpecEntry, int), ParseError>
    decreases toks_size(ts), ts.len() - pos, 0int,
{
    let cend = spec_scan(ts, pos + 1, Stop::BraceGroup);
    if cend == pos + 1 {
        Err(ParseError { pos: (pos + 1) as usize, expected: Expected::ExprTokens })
    } else if cend >= ts.len() {
        Err(ParseError { pos: cend as usize, expected: Expected::BraceBlock })
    } else {
        match ts[cend] {
            SpecTok::Group(d, inner) => {
                proof {
                    lemma_scan_bounds(ts, pos + 1, Stop::BraceGroup);
                    lemma_toks_size_group(ts, cend, d, inner);
                }
                match spec_parse_entries(inner, 0) {
                    Err(e) => Err(e),
                    Ok(body) => Ok(
                        (
                            SpecEntry::WhileLoop { cond: ts.subrange(pos + 1, cend), body },
                            cend + 1,
                        ),
                    ),
                }
            },
            _ => Err(ParseError { pos: cend as usize, expected: Expected::BraceBlock }),
        }
    }
}

/// The ghost parser for element content.
pub open spec fn spec_parse_content(ts: Seq<SpecTok>, pos: int) -> Result<
    (SpecContent, int),
    ParseError,
>
    decreases toks_size(ts), ts.len() - pos, 0int,
{
    if !(0 <= pos < ts.len()) {
        Err(ParseError { pos: pos as usize, expected: Expected::ContentStart })
    } else {
        match ts[pos] {
            SpecTok::Semi => Ok((SpecContent::Empty, pos + 1)),
            SpecTok::Colon => {
                let eend = spec_scan(ts, pos + 1, Stop::Semi);
                if eend == pos + 1 {
                    Err(ParseError { pos: (pos + 1) as usize, expected: Expected::ExprTokens })
                } else if eend >= ts.len() {
                    Err(ParseError { pos: eend as usize, expected: Expected::SemiTok })
                } else {
                    Ok((SpecContent::Flat(ts.subrange(pos + 1, eend)), eend + 1))
                }
            },
            SpecTok::Group(Delim::Brace, inner) => {
                proof {
                    lemma_toks_size_group(ts, pos, Delim::Brace, inner);
                }
                match spec_parse_entries(inner, 0) {
                    Err(e) => Err(e),
                    Ok(body) => Ok((SpecContent::Nested(body), pos + 1)),
                }
            },
            _ => Err(ParseError { pos: pos as usize, expected: Expected::ContentStart }),
        }
    }
}

/// The ghost parser for one match arm.
pub open spec fn spec_parse_arm(ts: Seq<SpecTok>, pos: int) -> Result<(SpecMatchArm, int), ParseError>
    decreases toks_size(ts), ts.len() - pos, 2int,
{
    let pend = spec_scan(ts, pos, Stop::ArmPatEnd);
    if pend == pos {
        Err(ParseError { pos: pos as usize, expected: Expected::PatTokens })
    } else if pend >= ts.len() {
        Err(ParseError { pos: pend as usize, expected: Expected::FatArrowTok })
    } else {
        let pat = ts.subrange(pos, pend);
        if ts[pend] is Ident {
            // the pattern stopped at a guard's `if`
            let gend = spec_scan(ts, pend + 1, Stop::FatArrow);
            if gend == pend + 1 {
                Err(ParseError { pos: (pend + 1) as usize, expected: Expected::ExprTokens })
            } else if gend >= ts.len() {
                Err(ParseError { pos: gend as usize, expected: Expected::FatArrowTok })
            } else {
                proof {
                    lemma_scan_bounds(ts, pos, Stop::ArmPatEnd);
                    lemma_scan_bounds(ts, pend + 1, Stop::FatArrow);
                }
                match spec_parse_entry(ts, gend + 1) {
                    Err(e) => Err(e),
                    Ok((body, end)) => Ok(
                        (
                            SpecMatchArm {
                                pat,
                                guard: Some(ts.subrange(pend + 1, gend)),
                                body: Box::new(body),
                            },
                            end,
                        ),
                    ),
                }
            }
        } else {
            proof {
                lemma_scan_bounds(ts, pos, Stop::ArmPatEnd);
            }
            match spec_parse_entry(ts, pend + 1) {
                Err(e) => Err(e),
                Ok((body, end)) => Ok(
                    (SpecMatchArm { pat, guard: None, body: Box::new(body) }, end),
                ),
            }
        }
    }
}

/// The ghost parser for a whole sequence of entries, to the end of the
/// token sequence.
pub open spec fn spec_parse_entries(ts: Seq<SpecTok>, pos: int) -> Result<Seq<SpecEntry>, ParseError>
    decreases toks_size(ts), ts.len() - pos, 2int,
{
    if !(0 <= pos) {
        Err(ParseError { pos: pos as usize, expected: Expected::EntryStart })
    } else if pos >= ts.len() {
        Ok(Seq::empty())
    } else {
        match spec_parse_entry(ts, pos) {
            Err(e) => Err(e),
            Ok((entry, end)) => if pos < end <= ts.len() {
                match spec_parse_entries(ts, end) {
                    Err(e) => Err(e),
                    Ok(rest) => Ok(seq![entry] + rest),
                }
            } else {
                // never reached: a parsed entry always makes progress
                Err(ParseError { pos: pos as usize, expected: Expected::EntryStart })
            },
        }
    }
}

/// The ghost parser for a whole sequence of match arms, to the end of the
/// token sequence.
pub open spec fn spec_parse_arms(ts: Seq<SpecTok>, pos: int) -> Result<Seq<SpecMatchArm>, ParseError>
    decreases toks_size(ts), ts.len() - pos, 3int,
{
    if !(0 <= pos) {
        Err(ParseError { pos: pos as usize, expected: Expected::PatTokens })
    } else if pos >= ts.len() {
        Ok(Seq::empty())
    } else {
        match spec_parse_arm(ts, pos) {
            Err(e) => Err(e),
            Ok((arm, end)) => if pos < end <= ts.len() {
                match spec_parse_arms(ts, end) {
                    Err(e) => Err(e),
                    Ok(rest) => Ok(seq![arm] + rest),
                }
            } else {
                // never reached: a parsed arm always makes progress
                Err(ParseError { pos: pos as usize, expected: Expected::PatTokens })
            },
        }
    }
}

/// The ghost parser for one attribute's value position: `= expr`,
/// `?= expr`, or nothing (a bare flag).
pub open spec fn spec_parse_attr_value(ts: Seq<SpecTok>, pos: int) -> Result<
    (SpecAttrValue, int),
    ParseError,
> {
    if 0 <= pos < ts.len() && ts[pos] is Assign {
        let vend = spec_scan(ts, pos + 1, Stop::Comma);
        if vend == pos + 1 {
            Err(ParseError { pos: (pos + 1) as usize, expected: Expected::ExprTokens })
        } else {
            Ok((SpecAttrValue::Always(ts.subrange(pos + 1, vend)), vend))
        }
    } else if 0 <= pos < ts.len() && ts[pos] is Question {
        if !(pos + 1 < ts.len() && ts[pos + 1] is Assign) {
            Err(ParseError { pos: (pos + 1) as usize, expected: Expected::AssignTok })
        } else {
            let vend = spec_scan(ts, pos + 2, Stop::Comma);
            if vend == pos + 2 {
                Err(ParseError { pos: (pos + 2) as usize, expected: Expected::ExprTokens })
            } else {
                Ok((SpecAttrValue::Optional(ts.subrange(pos + 2, vend)), vend))
            }
        }
    } else {
        Ok((SpecAttrValue::Flag, pos))
    }
}

/// The ghost parser for one attribute: a name, then a value position.
pub open spec fn spec_parse_attr(ts: Seq<SpecTok>, pos: int) -> Result<(SpecAttr, int), ParseError> {
    if !(0 <= pos < ts.len() && ts[pos] is Ident) {
        Err(ParseError { pos: pos as usize, expected: Expected::AttrName })
    } else {
        match ts[pos] {
            SpecTok::Ident(name) => match spec_parse_attr_value(ts, pos + 1) {
                Err(e) => Err(e),
                Ok((value, end)) => Ok((SpecAttr { name, value }, end)),
            },
            _ => Err(ParseError { pos: pos as usize, expected: Expected::AttrName }),
        }
    }
}

/// The ghost parser for a comma-separated attribute list, to the end of the
/// token sequence.  A trailing comma and an empty list are both legal.
pub open spec fn spec_parse_attrs(ts: Seq<SpecTok>, pos: int) -> Result<Seq<SpecAttr>, ParseError>
    decreases toks_size(ts), ts.len() - pos, 2int,
{
    if !(0 <= pos) {
        Err(ParseError { pos: pos as usize, expected: Expected::AttrName })
    } else if pos >= ts.len() {
        Ok(Seq::empty())
    } else {
        match spec_parse_attr(ts, pos) {
            Err(e) => Err(e),
            Ok((attr, end)) => if pos < end <= ts.len() {
                if end == ts.len() {
                    Ok(seq![attr])
                } else if ts[end] is Comma {
                    match spec_parse_attrs(ts, end + 1) {
                        Err(e) => Err(e),
                        Ok(rest) => Ok(seq![attr] + rest),
                    }
                } else {
                    Err(ParseError { pos: end as usize, expected: Expected::CommaTok })
                }
            } else {
                // never reached: a parsed attribute always makes progress
                Err(ParseError { pos: pos as usize, expected: Expected::AttrName })
            },
        }
    }
}

/// The ghost parser for a whole template body.
pub open spec fn spec_parse_program(ts: Seq<SpecTok>) -> Result<Seq<SpecEntry>, ParseError> {
    spec_parse_entries(ts, 0)
}

} // verus!
// === Executable parser ===

verus! {

use crate::ast::{Attr, AttrValue, Content, Entry, Expr, MatchArm, Pat, Program};
use crate::ast::{view_attr, view_attr_value, view_attrs, view_content, view_entries, view_entry, view_arm, view_arms};
use crate::token::{copy_range, lemma_view_toks_index, lemma_view_toks_len};

/// Does this token end a scan of the given kind?
pub fn tok_stops_exec(t: &Tok, stop: Stop) -> (r: bool)
    ensures
        r == tok_stops(t@, stop),
{
    match stop {
        Stop::BraceGroup => matches!(t, Tok::Group(Delim::Brace, _)),
        Stop::Semi => matches!(t, Tok::Semi),
        Stop::Assign => matches!(t, Tok::Assign),
        Stop::InKeyword => match t {
            Tok::Ident(s) => str_eq(s.as_str(), "in"),
            _ => false,
        },
        Stop::ArmPatEnd => match t {
            Tok::FatArrow => true,
            Tok::Ident(s) => str_eq(s.as_str(), "if"),
            _ => false,
        },
        Stop::FatArrow => matches!(t, Tok::FatArrow),
        Stop::Comma => matches!(t, Tok::Comma),
    }
}

/// Find the first token at or after `pos` that ends a scan of the given
/// kind.
pub fn scan_tokens(toks: &Vec<Tok>, pos: usize, stop: Stop) -> (r: usize)
    requires
        pos <= toks@.len(),
    ensures
        r == spec_scan(view_toks(toks@), pos as int, stop),
        pos <= r <= toks@.len(),
{
    let ghost ts = view_toks(toks@);
    proof {
        lemma_view_toks_len(toks@);
    }
    let n = toks.len();
    let mut i: usize = pos;
    while i < n
        invariant
            pos <= i <= n,
            n == toks@.len(),
            ts == view_toks(toks@),
            ts.len() == n,
            spec_scan(ts, pos as int, stop) == spec_scan(ts, i as int, stop),
        decreases n - i,
    {
        proof {
            lemma_view_toks_index(toks@, i as int);
        }
        if tok_stops_exec(&toks[i], stop) {
            return i;
        }
        i += 1;
    }
    i
}

impl AttrValue {
    /// Parse one attribute's value position: `= expr`, `?= expr`, or
    /// nothing.
    pub fn parse(toks: &Vec<Tok>, pos: usize) -> (r: Result<(AttrValue, usize), ParseError>)
        requires
            pos <= toks@.len(),
        ensures
            match r {
                Ok((v, end)) => spec_parse_attr_value(view_toks(toks@), pos as int)
                    == Ok::<(SpecAttrValue, int), ParseError>((view_attr_value(v), end as int))
                    && pos <= end <= toks@.len(),
                Err(e) => spec_parse_attr_value(view_toks(toks@), pos as int) == Err::<
                    (SpecAttrValue, int),
                    ParseError,
                >(e),
            },
    {
        let ghost ts = view_toks(toks@);
        proof {
            lemma_view_toks_len(toks@);
        }
        let n = toks.len();
        if pos < n {
            proof {
                lemma_view_toks_index(toks@, pos as int);
            }
            match &toks[pos] {
                Tok::Assign => {
                    let vend = scan_tokens(toks, pos + 1, Stop::Comma);
                    if vend == pos + 1 {
                        return Err(ParseError { pos: pos + 1, expected: Expected::ExprTokens });
                    }
                    let v = copy_range(toks, pos + 1, vend);
                    return Ok((AttrValue::Always(Expr(v)), vend));
                },
                Tok::Question => {
                    if pos + 1 < n {
                        proof {
                            lemma_view_toks_index(toks@, pos + 1);
                        }
                        if matches!(&toks[pos + 1], Tok::Assign) {
                            let vend = scan_tokens(toks, pos + 2, Stop::Comma);
                            if vend == pos + 2 {
                                return Err(
                                    ParseError { pos: pos + 2, expected: Expected::ExprTokens },
                                );
                            }
                            let v = copy_range(toks, pos + 2, vend);
                            return Ok((AttrValue::Optional(Expr(v)), vend));
                        }
                    }
                    return Err(ParseError { pos: pos + 1, expected: Expected::AssignTok });
                },
                _ => {},
            }
        }
        Ok((AttrValue::Flag, pos))
    }
}

impl Attr {
    /// Parse one attribute: a name, then a value position.
    pub fn parse(toks: &Vec<Tok>, pos: usize) -> (r: Result<(Attr, usize), ParseError>)
        requires
            pos <= toks@.len(),
        ensures
            match r {
                Ok((a, end)) => spec_parse_attr(view_toks(toks@), pos as int) == Ok::<
                    (SpecAttr, int),
                    ParseError,
                >((view_attr(a), end as int)) && pos < end <= toks@.len(),
                Err(e) => spec_parse_attr(view_toks(toks@), pos as int) == Err::<
                    (SpecAttr, int),
                    ParseError,
                >(e),
            },
    {
        let ghost ts = view_toks(toks@);
        proof {
            lemma_view_toks_len(toks@);
        }
        let n = toks.len();
        if pos >= n {
            return Err(ParseError { pos, expected: Expected::AttrName });
        }
        proof {
            lemma_view_toks_index(toks@, pos as int);
        }
        match &toks[pos] {
            Tok::Ident(name) => match AttrValue::parse(toks, pos + 1) {
                Err(e) => Err(e),
                Ok((value, end)) => Ok((Attr { name: name.clone(), value }, end)),
            },
            _ => Err(ParseError { pos, expected: Expected::AttrName }),
        }
    }

    /// Parse a whole comma-separated attribute list.
    pub fn parse_list(toks: &Vec<Tok>) -> (r: Result<Vec<Attr>, ParseError>)
        ensures
            match r {
                Ok(attrs) => spec_parse_attrs(view_toks(toks@), 0) == Ok::<
                    Seq<SpecAttr>,
                    ParseError,
                >(view_attrs(attrs@)),
                Err(e) => spec_parse_attrs(view_toks(toks@), 0) == Err::<
                    Seq<SpecAttr>,
                    ParseError,
                >(e),
            },
    {
        let ghost ts = view_toks(toks@);
        let n = toks.len();
        let mut acc: Vec<Attr> = Vec::new();
        let mut pos: usize = 0;
        proof {
            lemma_view_toks_len(toks@);
            if let Ok(rest) = spec_parse_attrs(ts, 0) {
                assert(view_attrs(acc@) + rest =~= rest);
            }
        }
        while pos < n
            invariant
                n == toks@.len(),
                ts == view_toks(toks@),
                ts.len() == n,
                pos <= n,
                (match spec_parse_attrs(ts, pos as int) {
                    Ok(rest) => spec_parse_attrs(ts, 0) == Ok::<Seq<SpecAttr>, ParseError>(
                        view_attrs(acc@) + rest,
                    ),
                    Err(e) => spec_parse_attrs(ts, 0) == Err::<Seq<SpecAttr>, ParseError>(e),
                }),
            decreases n - pos,
        {
            match Attr::parse(toks, pos) {
                Err(e) => {
                    return Err(e);
                },
                Ok((a, end)) => {
                    let ghost prev = acc@;
                    acc.push(a);
                    proof {
                        assert(view_attrs(acc@) =~= view_attrs(prev).push(view_attr(a)));
                    }
                    if end == n {
                        pos = end;
                        proof {
                            assert(view_attrs(prev) + seq![view_attr(a)] =~= view_attrs(acc@));
                            assert(view_attrs(acc@) + Seq::<SpecAttr>::empty() =~= view_attrs(
                                acc@,
                            ));
                        }
                    } else {
                        proof {
                            lemma_view_toks_index(toks@, end as int);
                        }
                        if matches!(&toks[end], Tok::Comma) {
                            pos = end + 1;
                            proof {
                                if let Ok(rest) = spec_parse_attrs(ts, pos as int) {
                                    assert(view_attrs(prev) + (seq![view_attr(a)] + rest)
                                        =~= view_attrs(acc@) + rest);
                                }
                            }
                        } else {
                            return Err(ParseError { pos: end, expected: Expected::CommaTok });
                        }
                    }
                },
            }
        }
        Ok(acc)
    }
}

} // verus!

verus! {

impl Content {
    /// Parse element content: `;`, `: expr ;`, or a nested brace block.
    pub fn parse(toks: &Vec<Tok>, pos: usize) -> (r: Result<(Content, usize), ParseError>)
        ensures
            match r {
                Ok((c, end)) => spec_parse_content(view_toks(toks@), pos as int) == Ok::<
                    (SpecContent, int),
                    ParseError,
                >((view_content(c), end as int)) && pos < end <= toks@.len(),
                Err(e) => spec_parse_content(view_toks(toks@), pos as int) == Err::<
                    (SpecContent, int),
                    ParseError,
                >(e),
            },
        decreases toks_size(view_toks(toks@)), toks@.len() - pos, 0int,
    {
        let ghost ts = view_toks(toks@);
        proof {
            lemma_view_toks_len(toks@);
        }
        let n = toks.len();
        if pos >= n {
            return Err(ParseError { pos, expected: Expected::ContentStart });
        }
        proof {
            lemma_view_toks_index(toks@, pos as int);
        }
        match &toks[pos] {
            Tok::Semi => Ok((Content::Empty, pos + 1)),
            Tok::Colon => {
                let eend = scan_tokens(toks, pos + 1, Stop::Semi);
                if eend == pos + 1 {
                    Err(ParseError { pos: pos + 1, expected: Expected::ExprTokens })
                } else if eend >= n {
                    Err(ParseError { pos: eend, expected: Expected::SemiTok })
                } else {
                    let expr = Expr(copy_range(toks, pos + 1, eend));
                    Ok((Content::Flat(expr), eend + 1))
                }
            },
            Tok::Group(Delim::Brace, inner) => {
                proof {
                    lemma_toks_size_group(ts, pos as int, Delim::Brace, view_toks(inner@));
                }
                match Program::parse(inner) {
                    Err(e) => Err(e),
                    Ok(body) => Ok((Content::Nested(body), pos + 1)),
                }
            },
            _ => Err(ParseError { pos, expected: Expected::ContentStart }),
        }
    }
}

impl MatchArm {
    /// Parse one match arm: a pattern, an optional guard, `=>`, and an
    /// entry.
    pub fn parse(toks: &Vec<Tok>, pos: usize) -> (r: Result<(MatchArm, usize), ParseError>)
        requires
            pos <= toks@.len(),
        ensures
            match r {
                Ok((m, end)) => spec_parse_arm(view_toks(toks@), pos as int) == Ok::<
                    (SpecMatchArm, int),
                    ParseError,
                >((view_arm(m), end as int)) && pos < end <= toks@.len(),
                Err(e) => spec_parse_arm(view_toks(toks@), pos as int) == Err::<
                    (SpecMatchArm, int),
                    ParseError,
                >(e),
            },
        decreases toks_size(view_toks(toks@)), toks@.len() - pos, 0int,
    {
        let ghost ts = view_toks(toks@);
        proof {
            lemma_view_toks_len(toks@);
        }
        let n = toks.len();
        let pend = scan_tokens(toks, pos, Stop::ArmPatEnd);
        if pend == pos {
            return Err(ParseError { pos, expected: Expected::PatTokens });
        }
        if pend >= n {
            return Err(ParseError { pos: pend, expected: Expected::FatArrowTok });
        }
        let pat = Pat(copy_range(toks, pos, pend));
        proof {
            lemma_view_toks_index(toks@, pend as int);
        }
        if matches!(&toks[pend], Tok::Ident(_)) {
            // the pattern stopped at a guard's `if`
            let gend = scan_tokens(toks, pend + 1, Stop::FatArrow);
            if gend == pend + 1 {
                return Err(ParseError { pos: pend + 1, expected: Expected::ExprTokens });
            }
            if gend >= n {
                return Err(ParseError { pos: gend, expected: Expected::FatArrowTok });
            }
            let guard = Expr(copy_range(toks, pend + 1, gend));
            match Entry::parse(toks, gend + 1) {
                Err(e) => Err(e),
                Ok((body, end)) => Ok(
                    (MatchArm { pat, guard: Some(guard), body: Box::new(body) }, end),
                ),
            }
        } else {
            match Entry::parse(toks, pend + 1) {
                Err(e) => Err(e),
                Ok((body, end)) => Ok((MatchArm { pat, guard: None, body: Box::new(body) }, end)),
            }
        }
    }

    /// Parse a whole sequence of match arms, to the end of the token
    /// sequence.
    pub fn parse_list(toks: &Vec<Tok>) -> (r: Result<Vec<MatchArm>, ParseError>)
        ensures
            match r {
                Ok(arms) => spec_parse_arms(view_toks(toks@), 0) == Ok::<
                    Seq<SpecMatchArm>,
                    ParseError,
                >(view_arms(arms@)),
                Err(e) => spec_parse_arms(view_toks(toks@), 0) == Err::<
                    Seq<SpecMatchArm>,
                    ParseError,
                >(e),
            },
        decreases toks_size(view_toks(toks@)), toks@.len() + 1, 0int,
    {
        let ghost ts = view_toks(toks@);
        let n = toks.len();
        let mut acc: Vec<MatchArm> = Vec::new();
        let mut pos: usize = 0;
        proof {
            lemma_view_toks_len(toks@);
            if let Ok(rest) = spec_parse_arms(ts, 0) {
                assert(view_arms(acc@) + rest =~= rest);
            }
        }
        while pos < n
            invariant
                n == toks@.len(),
                ts == view_toks(toks@),
                ts.len() == n,
                pos <= n,
                (match spec_parse_arms(ts, pos as int) {
                    Ok(rest) => spec_parse_arms(ts, 0) == Ok::<Seq<SpecMatchArm>, ParseError>(
                        view_arms(acc@) + rest,
                    ),
                    Err(e) => spec_parse_arms(ts, 0) == Err::<Seq<SpecMatchArm>, ParseError>(e),
                }),
            decreases n - pos,
        {
            match MatchArm::parse(toks, pos) {
                Err(e) => {
                    return Err(e);
                },
                Ok((m, end)) => {
                    let ghost prev = acc@;
                    let ghost vm = view_arm(m);
                    acc.push(m);
                    proof {
                        crate::ast::lemma_view_arms_push(prev, acc@[prev.len() as int]);
                        assert(view_arms(acc@) =~= view_arms(prev).push(vm));
                        if let Ok(rest) = spec_parse_arms(ts, end as int) {
                            assert(view_arms(prev) + (seq![vm] + rest) =~= view_arms(acc@) + rest);
                        }
                    }
                    pos = end;
                },
            }
        }
        proof {
            assert(view_arms(acc@) + Seq::<SpecMatchArm>::empty() =~= view_arms(acc@));
        }
        Ok(acc)
    }
}

/// Parse `for pat in expr { body }`, positioned at the `for` keyword.
pub fn parse_for(toks: &Vec<Tok>, pos: usize) -> (r: Result<(Entry, usize), ParseError>)
    requires
        pos < toks@.len(),
    ensures
        match r {
            Ok((e, end)) => spec_parse_for(view_toks(toks@), pos as int) == Ok::<
                (SpecEntry, int),
                ParseError,
            >((view_entry(e), end as int)) && pos < end <= toks@.len(),
            Err(e) => spec_parse_for(view_toks(toks@), pos as int) == Err::<
                (SpecEntry, int),
                ParseError,
            >(e),
        },
    decreases toks_size(view_toks(toks@)), toks@.len() - pos, 0int,
{
    let ghost ts = view_toks(toks@);
    proof {
        lemma_view_toks_len(toks@);
    }
    let n = toks.len();
    let pend = scan_tokens(toks, pos + 1, Stop::InKeyword);
    if pend == pos + 1 {
        return Err(ParseError { pos: pos + 1, expected: Expected::PatTokens });
    }
    if pend >= n {
        return Err(ParseError { pos: pend, expected: Expected::InKeyword });
    }
    let epos = pend + 1;
    let eend = scan_tokens(toks, epos, Stop::BraceGroup);
    if eend == epos {
        return Err(ParseError { pos: epos, expected: Expected::ExprTokens });
    }
    if eend >= n {
        return Err(ParseError { pos: eend, expected: Expected::BraceBlock });
    }
    proof {
        lemma_view_toks_index(toks@, eend as int);
    }
    match &toks[eend] {
        Tok::Group(d, inner) => {
            proof {
                lemma_toks_size_group(ts, eend as int, *d, view_toks(inner@));
            }
            match Program::parse(inner) {
                Err(e) => Err(e),
                Ok(body) => {
                    let pat = Pat(copy_range(toks, pos + 1, pend));
                    let source = Expr(copy_range(toks, epos, eend));
                    Ok((Entry::Iterate { pat, source, body }, eend + 1))
                },
            }
        },
        _ => Err(ParseError { pos: eend, expected: Expected::BraceBlock }),
    }
}

/// Parse `let pat = expr ;`, positioned at the `let` keyword.
pub fn parse_let(toks: &Vec<Tok>, pos: usize) -> (r: Result<(Entry, usize), ParseError>)
    requires
        pos < toks@.len(),
    ensures
        match r {
            Ok((e, end)) => spec_parse_let(view_toks(toks@), pos as int) == Ok::<
                (SpecEntry, int),
                ParseError,
            >((view_entry(e), end as int)) && pos < end <= toks@.len(),
            Err(e) => spec_parse_let(view_toks(toks@), pos as int) == Err::<
                (SpecEntry, int),
                ParseError,
            >(e),
        },
{
    let ghost ts = view_toks(toks@);
    proof {
        lemma_view_toks_len(toks@);
    }
    let n = toks.len();
    let aend = scan_tokens(toks, pos + 1, Stop::Assign);
    if aend == pos + 1 {
        return Err(ParseError { pos: pos + 1, expected: Expected::PatTokens });
    }
    if aend >= n {
        return Err(ParseError { pos: aend, expected: Expected::AssignTok });
    }
    let ipos = aend + 1;
    let iend = scan_tokens(toks, ipos, Stop::Semi);
    if iend == ipos {
        return Err(ParseError { pos: ipos, expected: Expected::ExprTokens });
    }
    if iend >= n {
        return Err(ParseError { pos: iend, expected: Expected::SemiTok });
    }
    let pat = Pat(copy_range(toks, pos + 1, aend));
    let init = Expr(copy_range(toks, ipos, iend));
    Ok((Entry::Binding { pat, init }, iend + 1))
}

/// Parse `match expr { arm* }`, positioned at the `match` keyword.
pub fn parse_match(toks: &Vec<Tok>, pos: usize) -> (r: Result<(Entry, usize), ParseError>)
    requires
        pos < toks@.len(),
    ensures
        match r {
            Ok((e, end)) => spec_parse_match(view_toks(toks@), pos as int) == Ok::<
                (SpecEntry, int),
                ParseError,
            >((view_entry(e), end as int)) && pos < end <= toks@.len(),
            Err(e) => spec_parse_match(view_toks(toks@), pos as int) == Err::<
                (SpecEntry, int),
                ParseError,
            >(e),
        },
    decreases toks_size(view_toks(toks@)), toks@.len() - pos, 0int,
{
    let ghost ts = view_toks(toks@);
    proof {
        lemma_view_toks_len(toks@);
    }
    let n = toks.len();
    let eend = scan_tokens(toks, pos + 1, Stop::BraceGroup);
    if eend == pos + 1 {
        return Err(ParseError { pos: pos + 1, expected: Expected::ExprTokens });
    }
    if eend >= n {
        return Err(ParseError { pos: eend, expected: Expected::BraceBlock });
    }
    proof {
        lemma_view_toks_index(toks@, eend as int);
    }
    match &toks[eend] {
        Tok::Group(d, inner) => {
            proof {
                lemma_toks_size_group(ts, eend as int, *d, view_toks(inner@));
            }
            match MatchArm::parse_list(inner) {
                Err(e) => Err(e),
                Ok(arms) => {
                    let scrutinee = Expr(copy_range(toks, pos + 1, eend));
                    Ok((Entry::Match { scrutinee, arms }, eend + 1))
                },
            }
        },
        _ => Err(ParseError { pos: eend, expected: Expected::BraceBlock }),
    }
}

/// Parse `while expr { body }`, positioned at the `while` keyword.
pub fn parse_while(toks: &Vec<Tok>, pos: usize) -> (r: Result<(Entry, usize), ParseError>)
    requires
        pos < toks@.len(),
    ensures
        match r {
            Ok((e, end)) => spec_parse_while(view_toks(toks@), pos as int) == Ok::<
                (SpecEntry, int),
                ParseError,
            >((view_entry(e), end as int)) && pos < end <= toks@.len(),
            Err(e) => spec_parse_while(view_toks(toks@), pos as int) == Err::<
                (SpecEntry, int),
                ParseError,
            >(e),
        },
    decreases toks_size(view_toks(toks@)), toks@.len() - pos, 0int,
{
    let ghost ts = view_toks(toks@);
    proof {
        lemma_view_toks_len(toks@);
    }
    let n = toks.len();
    let cend = scan_tokens(toks, pos + 1, Stop::BraceGroup);
    if cend == pos + 1 {
        return Err(ParseError { pos: pos + 1, expected: Expected::ExprTokens });
    }
    if cend >= n {
        return Err(ParseError { pos: cend, expected: Expected::BraceBlock });
    }
    proof {
        lemma_view_toks_index(toks@, cend as int);
    }
    match &toks[cend] {
        Tok::Group(d, inner) => {
            proof {
                lemma_toks_size_group(ts, cend as int, *d, view_toks(inner@));
            }
            match Program::parse(inner) {
                Err(e) => Err(e),
                Ok(body) => {
                    let cond = Expr(copy_range(toks, pos + 1, cend));
                    Ok((Entry::WhileLoop { cond, body }, cend + 1))
                },
            }
        },
        _ => Err(ParseError { pos: cend, expected: Expected::BraceBlock }),
    }
}

impl Entry {
    /// Parse `if expr { body } (else ...)?`, positioned at the `if`
    /// keyword.
    pub fn parse_if(toks: &Vec<Tok>, pos: usize) -> (r: Result<(Entry, usize), ParseError>)
        ensures
            match r {
                Ok((e, end)) => spec_parse_if(view_toks(toks@), pos as int) == Ok::<
                    (SpecEntry, int),
                    ParseError,
                >((view_entry(e), end as int)) && pos < end <= toks@.len(),
                Err(e) => spec_parse_if(view_toks(toks@), pos as int) == Err::<
                    (SpecEntry, int),
                    ParseError,
                >(e),
            },
        decreases toks_size(view_toks(toks@)), toks@.len() - pos, 0int,
    {
        let ghost ts = view_toks(toks@);
        proof {
            lemma_view_toks_len(toks@);
        }
        let n = toks.len();
        let mut is_if = false;
        if pos < n {
            proof {
                lemma_view_toks_index(toks@, pos as int);
            }
            if let Tok::Ident(kw) = &toks[pos] {
                if str_eq(kw.as_str(), "if") {
                    is_if = true;
                }
            }
        }
        if !is_if {
            return Err(ParseError { pos, expected: Expected::IfKeyword });
        }
        let cend = scan_tokens(toks, pos + 1, Stop::BraceGroup);
        if cend == pos + 1 {
            return Err(ParseError { pos: pos + 1, expected: Expected::ExprTokens });
        }
        if cend >= n {
            return Err(ParseError { pos: cend, expected: Expected::BraceBlock });
        }
        proof {
            lemma_view_toks_index(toks@, cend as int);
        }
        match &toks[cend] {
            Tok::Group(d, inner) => {
                proof {
                    lemma_toks_size_group(ts, cend as int, *d, view_toks(inner@));
                }
                match Program::parse(inner) {
                    Err(e) => Err(e),
                    Ok(then_branch) => {
                        let cond = Expr(copy_range(toks, pos + 1, cend));
                        let after = cend + 1;
                        let mut has_else = false;
                        if after < n {
                            proof {
                                lemma_view_toks_index(toks@, after as int);
                            }
                            if let Tok::Ident(kw2) = &toks[after] {
                                if str_eq(kw2.as_str(), "else") {
                                    has_else = true;
                                }
                            }
                        }
                        if !has_else {
                            return Ok(
                                (
                                    Entry::Conditional { cond, then_branch, else_branch: None },
                                    after,
                                ),
                            );
                        }
                        let epos = after + 1;
                        if epos < n {
                            proof {
                                lemma_view_toks_index(toks@, epos as int);
                            }
                            let mut else_is_if = false;
                            if let Tok::Ident(kw3) = &toks[epos] {
                                if str_eq(kw3.as_str(), "if") {
                                    else_is_if = true;
                                }
                            }
                            if else_is_if {
                                return match Entry::parse_if(toks, epos) {
                                    Err(e) => Err(e),
                                    Ok((alt, end)) => Ok(
                                        (
                                            Entry::Conditional {
                                                cond,
                                                then_branch,
                                                else_branch: Some(Box::new(alt)),
                                            },
                                            end,
                                        ),
                                    ),
                                };
                            }
                            if matches!(&toks[epos], Tok::Group(Delim::Brace, _)) {
                                return match Entry::parse(toks, epos) {
                                    Err(e) => Err(e),
                                    Ok((alt, end)) => Ok(
                                        (
                                            Entry::Conditional {
                                                cond,
                                                then_branch,
                                                else_branch: Some(Box::new(alt)),
                                            },
                                            end,
                                        ),
                                    ),
                                };
                            }
                        }
                        Err(ParseError { pos: epos, expected: Expected::ElseBranch })
                    },
                }
            },
            _ => Err(ParseError { pos: cend, expected: Expected::BraceBlock }),
        }
    }

    /// Parse a directive, positioned just after the `@` marker.
    pub fn parse_directive(toks: &Vec<Tok>, pos: usize) -> (r: Result<(Entry, usize), ParseError>)
        requires
            pos <= toks@.len(),
        ensures
            match r {
                Ok((e, end)) => spec_parse_directive(view_toks(toks@), pos as int) == Ok::<
                    (SpecEntry, int),
                    ParseError,
                >((view_entry(e), end as int)) && pos < end <= toks@.len(),
                Err(e) => spec_parse_directive(view_toks(toks@), pos as int) == Err::<
                    (SpecEntry, int),
                    ParseError,
                >(e),
            },
        decreases toks_size(view_toks(toks@)), toks@.len() - pos, 1int,
    {
        let ghost ts = view_toks(toks@);
        proof {
            lemma_view_toks_len(toks@);
        }
        let n = toks.len();
        if pos >= n {
            return Err(ParseError { pos, expected: Expected::DirectiveKeyword });
        }
        proof {
            lemma_view_toks_index(toks@, pos as int);
        }
        match &toks[pos] {
            Tok::Ident(kw) => {
                if str_eq(kw.as_str(), "for") {
                    parse_for(toks, pos)
                } else if str_eq(kw.as_str(), "if") {
                    Entry::parse_if(toks, pos)
                } else if str_eq(kw.as_str(), "let") {
                    parse_let(toks, pos)
                } else if str_eq(kw.as_str(), "match") {
                    parse_match(toks, pos)
                } else if str_eq(kw.as_str(), "while") {
                    parse_while(toks, pos)
                } else if str_eq(kw.as_str(), "unimplemented") {
                    Ok((Entry::Unimplemented, pos + 1))
                } else if str_eq(kw.as_str(), "unreachable") {
                    Ok((Entry::Unreachable, pos + 1))
                } else {
                    Err(ParseError { pos, expected: Expected::UnexpectedKeyword })
                }
            },
            _ => Err(ParseError { pos, expected: Expected::DirectiveKeyword }),
        }
    }

    /// Parse one entry: a directive or an element.
    pub fn parse(toks: &Vec<Tok>, pos: usize) -> (r: Result<(Entry, usize), ParseError>)
        ensures
            match r {
                Ok((e, end)) => spec_parse_entry(view_toks(toks@), pos as int) == Ok::<
                    (SpecEntry, int),
                    ParseError,
                >((view_entry(e), end as int)) && pos < end <= toks@.len(),
                Err(e) => spec_parse_entry(view_toks(toks@), pos as int) == Err::<
                    (SpecEntry, int),
                    ParseError,
                >(e),
            },
        decreases toks_size(view_toks(toks@)), toks@.len() - pos, 2int,
    {
        let ghost ts = view_toks(toks@);
        proof {
            lemma_view_toks_len(toks@);
        }
        let n = toks.len();
        if pos >= n {
            return Err(ParseError { pos, expected: Expected::EntryStart });
        }
        proof {
            lemma_view_toks_index(toks@, pos as int);
        }
        match &toks[pos] {
            Tok::At => Entry::parse_directive(toks, pos + 1),
            Tok::Ident(tag) => {
                if pos + 1 < n {
                    proof {
                        lemma_view_toks_index(toks@, pos + 1);
                    }
                    if let Tok::Group(d, inner) = &toks[pos + 1] {
                        if matches!(d, Delim::Paren) {
                            proof {
                                lemma_toks_size_group(ts, pos + 1, *d, view_toks(inner@));
                            }
                            return match Attr::parse_list(inner) {
                                Err(e) => Err(e),
                                Ok(attrs) => match Content::parse(toks, pos + 2) {
                                    Err(e) => Err(e),
                                    Ok((content, end)) => Ok(
                                        (
                                            Entry::Element {
                                                tag: Some(tag.clone()),
                                                attrs,
                                                content,
                                            },
                                            end,
                                        ),
                                    ),
                                },
                            };
                        }
                    }
                }
                proof {
                    assert(view_attrs(Seq::<Attr>::empty()) =~= Seq::<SpecAttr>::empty());
                }
                match Content::parse(toks, pos + 1) {
                    Err(e) => Err(e),
                    Ok((content, end)) => Ok(
                        (
                            Entry::Element { tag: Some(tag.clone()), attrs: Vec::new(), content },
                            end,
                        ),
                    ),
                }
            },
            Tok::Semi | Tok::Colon | Tok::Group(Delim::Brace, _) => {
                proof {
                    assert(view_attrs(Seq::<Attr>::empty()) =~= Seq::<SpecAttr>::empty());
                }
                match Content::parse(toks, pos) {
                    Err(e) => Err(e),
                    Ok((content, end)) => Ok(
                        (Entry::Element { tag: None, attrs: Vec::new(), content }, end),
                    ),
                }
            },
            _ => Err(ParseError { pos, expected: Expected::EntryStart }),
        }
    }
}

impl Program {
    /// Parse a whole template body: entries until the token sequence ends.
    pub fn parse(toks: &Vec<Tok>) -> (r: Result<Program, ParseError>)
        ensures
            match r {
                Ok(p) => spec_parse_program(view_toks(toks@)) == Ok::<Seq<SpecEntry>, ParseError>(
                    p@,
                ),
                Err(e) => spec_parse_program(view_toks(toks@)) == Err::<
                    Seq<SpecEntry>,
                    ParseError,
                >(e),
            },
        decreases toks_size(view_toks(toks@)), toks@.len() + 1, 0int,
    {
        let ghost ts = view_toks(toks@);
        let n = toks.len();
        let mut acc: Vec<Entry> = Vec::new();
        let mut pos: usize = 0;
        proof {
            lemma_view_toks_len(toks@);
            if let Ok(rest) = spec_parse_entries(ts, 0) {
                assert(view_entries(acc@) + rest =~= rest);
            }
        }
        while pos < n
            invariant
                n == toks@.len(),
                ts == view_toks(toks@),
                ts.len() == n,
                pos <= n,
                (match spec_parse_entries(ts, pos as int) {
                    Ok(rest) => spec_parse_entries(ts, 0) == Ok::<Seq<SpecEntry>, ParseError>(
                        view_entries(acc@) + rest,
                    ),
                    Err(e) => spec_parse_entries(ts, 0) == Err::<Seq<SpecEntry>, ParseError>(e),
                }),
            decreases n - pos,
        {
            match Entry::parse(toks, pos) {
                Err(e) => {
                    return Err(e);
                },
                Ok((entry, end)) => {
                    let ghost prev = acc@;
                    let ghost ve = view_entry(entry);
                    acc.push(entry);
                    proof {
                        crate::ast::lemma_view_entries_push(prev, acc@[prev.len() as int]);
                        assert(view_entries(acc@) =~= view_entries(prev).push(ve));
                        if let Ok(rest) = spec_parse_entries(ts, end as int) {
                            assert(view_entries(prev) + (seq![ve] + rest) =~= view_entries(acc@)
                                + rest);
                        }
                    }
                    pos = end;
                },
            }
        }
        proof {
            assert(view_entries(acc@) + Seq::<SpecEntry>::empty() =~= view_entries(acc@));
        }
        Ok(Program(acc))
    }
}

} // verus!
