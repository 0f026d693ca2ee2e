//! The escaping engine.
//!
//! `escape_text` is the single definition of HTML escaping used everywhere
//! in this crate: at compile time on literal text, and at the compiled
//! program's runtime on dynamic text.  Exactly four characters are
//! replaced — `"`, `&`, `<`, `>` — by their named entities; every other
//! character, the apostrophe included, passes through untouched.

use vstd::prelude::*;
use vstd::string::{StrSliceExecFns, StringExecFns};
use crate::strutil;

verus! {

/// Does HTML escaping replace this character?
pub open spec fn needs_escape(c: char) -> bool {
    c == '"' || c == '&' || c == '<' || c == '>'
}

/// What one character becomes under escaping.
pub open spec fn escape_char(c: char) -> Seq<char> {
    if c == '"' {
        "&quot;"@
    } else if c == '&' {
        "&amp;"@
    } else if c == '<' {
        "&lt;"@
    } else if c == '>' {
        "&gt;"@
    } else {
        seq![c]
    }
}

/// HTML escaping of a whole text, character by character.
pub open spec fn escape_text(s: Seq<char>) -> Seq<char>
    decreases s.len(),
{
    if s.len() == 0 {
        Seq::empty()
    } else {
        escape_char(s[0]) + escape_text(s.drop_first())
    }
}

/// Escaping distributes over concatenation: no replacement ever looks past
/// the character at hand, so a text can be escaped in any pieces.
pub proof fn lemma_escape_text_concat(a: Seq<char>, b: Seq<char>)
    ensures
        escape_text(a + b) == escape_text(a) + escape_text(b),
    decreases a.len(),
{
    if a.len() == 0 {
        assert(a + b =~= b);
        assert(escape_text(a) + escape_text(b) =~= escape_text(b));
    } else {
        assert((a + b).drop_first() =~= a.drop_first() + b);
        lemma_escape_text_concat(a.drop_first(), b);
        assert(escape_char(a[0]) + (escape_text(a.drop_first()) + escape_text(b))
            =~= (escape_char(a[0]) + escape_text(a.drop_first())) + escape_text(b));
    }
}

/// Escaping a text extended by one character appends that character's
/// replacement.
pub proof fn lemma_escape_text_snoc(s: Seq<char>, c: char)
    ensures
        escape_text(s.push(c)) == escape_text(s) + escape_char(c),
{
    assert(s.push(c) =~= s + seq![c]);
    lemma_escape_text_concat(s, seq![c]);
    assert(seq![c].drop_first() =~= Seq::<char>::empty());
    assert(escape_text(Seq::<char>::empty()) =~= Seq::<char>::empty());
    assert(escape_text(seq![c]) =~= escape_char(c) + escape_text(seq![c].drop_first()));
    assert(escape_text(seq![c]) =~= escape_char(c));
}

/// Escaping correctness, the untouched half: a text in which no character
/// is one of `"`, `&`, `<`, `>` is left exactly as it was.  In particular
/// the apostrophe is never escaped.
pub proof fn lemma_escape_leaves_plain_text(s: Seq<char>)
    requires
        forall|i: int| 0 <= i < s.len() ==> !needs_escape(s[i]),
    ensures
        escape_text(s) == s,
    decreases s.len(),
{
    if s.len() == 0 {
        assert(escape_text(s) =~= s);
    } else {
        lemma_escape_leaves_plain_text(s.drop_first());
        assert(escape_char(s[0]) =~= seq![s[0]]);
        assert(seq![s[0]] + s.drop_first() =~= s);
    }
}

/// Text preservation under any self-synchronizing encoding: the four
/// replaced characters are all ASCII, so every character beyond the ASCII
/// range — in particular every multi-byte character — passes through
/// escaping unchanged.
pub proof fn lemma_escape_preserves_beyond_ascii(s: Seq<char>)
    requires
        forall|i: int| 0 <= i < s.len() ==> (s[i] as u32) >= 128,
    ensures
        escape_text(s) == s,
{
    assert forall|i: int| 0 <= i < s.len() implies !needs_escape(s[i]) by {
        assert(('"' as u32) < 128 && ('&' as u32) < 128 && ('<' as u32) < 128 && ('>' as u32)
            < 128);
    }
    lemma_escape_leaves_plain_text(s);
}

/// Append the escaped form of `text` to `buf`.
pub fn escape_into(buf: &mut String, text: &str)
    ensures
        final(buf)@ == old(buf)@ + escape_text(text@),
{
    let n = text.unicode_len();
    let mut i: usize = 0;
    while i < n
        invariant
            n == text@.len(),
            0 <= i <= n,
            buf@ == old(buf)@ + escape_text(text@.take(i as int)),
        decreases n - i,
    {
        let c = text.get_char(i);
        if c == '"' {
            buf.append("&quot;");
        } else if c == '&' {
            buf.append("&amp;");
        } else if c == '<' {
            buf.append("&lt;");
        } else if c == '>' {
            buf.append("&gt;");
        } else {
            buf.push(c);
        }
        proof {
            assert(text@.take(i + 1) =~= text@.take(i as int).push(text@[i as int]));
            lemma_escape_text_snoc(text@.take(i as int), text@[i as int]);
        }
        i += 1;
    }
    proof {
        assert(text@.take(n as int) =~= text@);
    }
}

/// The escaped form of `text` as a fresh string.
pub fn escape(text: &str) -> (r: String)
    ensures
        r@ == escape_text(text@),
{
    let mut buf = String::new();
    escape_into(&mut buf, text);
    buf
}

} // verus!
