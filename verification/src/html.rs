//! The capability contracts the compiled program calls into at runtime.
//!
//! `ToHtml` renders a value to pre-escaped markup; raw text types escape
//! themselves, already-safe markup passes through.  `OptionalAttr` resolves
//! an optional attribute value three ways: omitted, bare, or present with
//! a value.  Both are implemented here for the ordinary types and are open
//! for the surrounding program to implement on its own types.

use vstd::prelude::*;
use vstd::string::StringExecFns;
use crate::escape::{escape, escape_into, escape_text};
use crate::strutil::{dec_digits, u64_to_string};

verus! {

/// Pre-escaped markup: text statically known to be safe to emit verbatim,
/// distinguished from raw unescaped text so that nothing escapes it a
/// second time.
#[derive(Debug)]
pub struct SafeText(pub String);

impl View for SafeText {
    type V = Seq<char>;

    open spec fn view(&self) -> Seq<char> {
        self.0@
    }
}

/// A value that can render itself as markup.  Rendering is total: it
/// escapes whatever needs escaping and never fails.
pub trait ToHtml {
    /// The exact text this value renders to.
    spec fn html_spec(&self) -> Seq<char>;

    /// Render to a fresh pre-escaped buffer.
    fn to_html(&self) -> (r: SafeText)
        ensures
            r@ == self.html_spec(),
    ;

    /// Append the rendering to a shared pre-escaped buffer.
    fn push_html(&self, buf: &mut SafeText)
        ensures
            final(buf)@ == old(buf)@ + self.html_spec(),
    ;
}

impl ToHtml for SafeText {
    /// Pre-escaped markup renders as itself.
    open spec fn html_spec(&self) -> Seq<char> {
        self@
    }

    fn to_html(&self) -> (r: SafeText) {
        SafeText(self.0.clone())
    }

    fn push_html(&self, buf: &mut SafeText) {
        buf.0.append(self.0.as_str());
    }
}

impl ToHtml for String {
    /// Raw text renders escaped.
    open spec fn html_spec(&self) -> Seq<char> {
        escape_text(self@)
    }

    fn to_html(&self) -> (r: SafeText) {
        SafeText(escape(self.as_str()))
    }

    fn push_html(&self, buf: &mut SafeText) {
        escape_into(&mut buf.0, self.as_str());
    }
}

impl ToHtml for u64 {
    /// A number renders as its decimal digits, which need no escaping.
    open spec fn html_spec(&self) -> Seq<char> {
        dec_digits(*self)
    }

    fn to_html(&self) -> (r: SafeText) {
        SafeText(u64_to_string(*self))
    }

    fn push_html(&self, buf: &mut SafeText) {
        let d = u64_to_string(*self);
        buf.0.append(d.as_str());
    }
}

impl<T: ToHtml> ToHtml for Option<T> {
    /// An absent value renders as nothing.
    open spec fn html_spec(&self) -> Seq<char> {
        match self {
            Some(v) => v.html_spec(),
            None => Seq::empty(),
        }
    }

    fn to_html(&self) -> (r: SafeText) {
        match self {
            Some(v) => v.to_html(),
            None => SafeText(String::new()),
        }
    }

    fn push_html(&self, buf: &mut SafeText) {
        match self {
            Some(v) => v.push_html(buf),
            None => {
                proof {
                    assert(old(buf)@ + Seq::<char>::empty() =~= old(buf)@);
                }
            },
        }
    }
}

/// The document type declaration.
#[derive(Debug)]
pub struct Doctype;

impl ToHtml for Doctype {
    open spec fn html_spec(&self) -> Seq<char> {
        "<!DOCTYPE html>"@
    }

    fn to_html(&self) -> (r: SafeText) {
        SafeText(String::from_str("<!DOCTYPE html>"))
    }

    fn push_html(&self, buf: &mut SafeText) {
        buf.0.append("<!DOCTYPE html>");
    }
}

/// A value usable as `name ?= value` inside a template: it resolves to one
/// of three outcomes when the compiled program runs.
pub trait OptionalAttr: Sized {
    /// The rendered value type, when there is one.
    type Value: ToHtml;

    /// The resolution this value gives.
    spec fn attr_spec(&self) -> Option<Option<Self::Value>>;

    /// Resolve: `None` omits the attribute entirely, `Some(None)` keeps it
    /// bare, `Some(Some(v))` renders `v` as its value.
    fn attr_value(self) -> (r: Option<Option<Self::Value>>)
        ensures
            r == self.attr_spec(),
    ;
}

impl<T: ToHtml> OptionalAttr for Option<T> {
    type Value = T;

    /// An absent option omits the attribute; a present one gives its
    /// value.
    open spec fn attr_spec(&self) -> Option<Option<T>> {
        match self {
            None => None,
            Some(v) => Some(Some(*v)),
        }
    }

    fn attr_value(self) -> (r: Option<Option<T>>) {
        match self {
            None => None,
            Some(v) => Some(Some(v)),
        }
    }
}

impl OptionalAttr for bool {
    type Value = SafeText;

    /// `false` omits the attribute; `true` keeps it bare, with no value.
    open spec fn attr_spec(&self) -> Option<Option<SafeText>> {
        if *self {
            Some(None)
        } else {
            None
        }
    }

    fn attr_value(self) -> (r: Option<Option<SafeText>>) {
        if self {
            Some(None)
        } else {
            None
        }
    }
}

} // verus!
