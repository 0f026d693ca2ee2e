//! Small utilities around the template engine: route-parameter suffix
//! splitting, the error wrapper, and the CSRF form contract.
//!
//! A route parameter like `report.pdf` splits at its last dot into a
//! prefix, which the host parses further, and a plain suffix.  The split
//! itself is the logic here; what the host makes of the prefix is its own
//! business.

use vstd::prelude::*;
use vstd::string::StrSliceExecFns;

verus! {

/// Implemented by a form type that carries a CSRF token field.
pub trait CsrfForm {
    /// The submitted token.
    fn csrf(&self) -> &String;
}

/// Marks an error value for conversion into a host error response.
#[derive(Debug)]
pub struct Error<E>(pub E);

/// A route parameter with a required suffix: the value parsed from
/// everything before the last dot, and the text after it.
#[derive(Debug)]
pub struct Suffix<T>(pub T, pub String);

/// Why a suffix parameter failed.
#[derive(Debug)]
pub enum SuffixFromParamError<E> {
    /// The prefix did not parse; the host's own error.
    Prefix(E),
    /// The parameter has no dot to split at.
    Split,
}

/// A route parameter with an optional suffix: a parameter without a dot is
/// all prefix.
#[derive(Debug)]
pub struct OptSuffix<T>(pub T, pub Option<String>);

/// The position of the last dot of a text, if there is one.
pub open spec fn last_dot(s: Seq<char>) -> Option<int>
    decreases s.len(),
{
    if s.len() == 0 {
        None
    } else if s.last() == '.' {
        Some(s.len() - 1)
    } else {
        last_dot(s.drop_last())
    }
}

/// Where the last dot is: at a dot, with none after it; and there is none
/// at all exactly when the answer is `None`.
pub proof fn lemma_last_dot(s: Seq<char>)
    ensures
        match last_dot(s) {
            Some(i) => 0 <= i < s.len() && s[i] == '.' && forall|j: int|
                i < j < s.len() ==> s[j] != '.',
            None => forall|j: int| 0 <= j < s.len() ==> s[j] != '.',
        },
    decreases s.len(),
{
    if s.len() > 0 && s.last() != '.' {
        lemma_last_dot(s.drop_last());
        assert(forall|j: int| 0 <= j < s.len() - 1 ==> s.drop_last()[j] == s[j]);
        assert(s[s.len() - 1] != '.');
    }
}

/// Split a text at its last dot: the part before it and the part after it.
pub fn split_last_dot(param: &str) -> (r: Option<(String, String)>)
    ensures
        match last_dot(param@) {
            Some(i) => r matches Some((p, s)) && p@ == param@.take(i) && s@ == param@.skip(i + 1),
            None => r is None,
        },
{
    let n = param.unicode_len();
    let mut i: usize = n;
    proof {
        assert(param@.take(n as int) =~= param@);
        assert(last_dot(param@.take(n as int)) == last_dot(param@));
    }
    while i > 0
        invariant
            0 <= i <= n,
            n == param@.len(),
            last_dot(param@) == last_dot(param@.take(i as int)),
        decreases i,
    {
        i = i - 1;
        if param.get_char(i) == '.' {
            proof {
                let t = param@.take(i + 1);
                assert(t.last() == param@[i as int]);
                assert(last_dot(t) == Some(i as int));
            }
            let prefix = param.substring_char(0, i).to_owned();
            let suffix = param.substring_char(i + 1, n).to_owned();
            proof {
                assert(param@.subrange(0, i as int) =~= param@.take(i as int));
                assert(param@.subrange(i + 1, n as int) =~= param@.skip(i + 1));
            }
            return Some((prefix, suffix));
        }
        proof {
            let t = param@.take(i + 1);
            assert(t.last() == param@[i as int]);
            assert(t.drop_last() =~= param@.take(i as int));
        }
    }
    proof {
        assert(param@.take(0) =~= Seq::<char>::empty());
    }
    None
}

/// Split a suffix parameter at its last dot, as `Suffix` route parameters
/// are read: `Err(Split)` exactly when the parameter has no dot.  The
/// prefix is handed back as text for the host to parse; a host whose
/// prefix parsing fails wraps its error in `Prefix`.
pub fn suffix_split<E>(param: &str) -> (r: Result<(String, String), SuffixFromParamError<E>>)
    ensures
        match last_dot(param@) {
            Some(i) => r matches Ok((p, s)) && p@ == param@.take(i) && s@ == param@.skip(i + 1),
            None => r matches Err(e) && e is Split,
        },
{
    match split_last_dot(param) {
        Some(ps) => Ok(ps),
        None => Err(SuffixFromParamError::Split),
    }
}

/// Split an optional-suffix parameter, as `OptSuffix` route parameters are
/// read: a parameter without a dot is all prefix, with no suffix.
pub fn opt_suffix_split(param: &str) -> (r: (String, Option<String>))
    ensures
        match last_dot(param@) {
            Some(i) => r.0@ == param@.take(i) && (r.1 matches Some(s) && s@ == param@.skip(i + 1)),
            None => r.0@ == param@ && r.1 is None,
        },
{
    match split_last_dot(param) {
        Some((p, s)) => (p, Some(s)),
        None => (param.to_owned(), None),
    }
}

impl Suffix<String> {
    /// The parameter text this value displays as: prefix, dot, suffix.
    pub fn param_text(&self) -> (r: String)
        ensures
            r@ == self.0@ + seq!['.'] + self.1@,
    {
        let mut s = self.0.clone();
        s.append(".");
        s.append(self.1.as_str());
        proof {
            reveal_strlit(".");
            assert(s@ =~= self.0@ + seq!['.'] + self.1@);
        }
        s
    }
}

impl OptSuffix<String> {
    /// The parameter text this value displays as: the prefix, and the
    /// suffix after a dot when there is one.
    pub fn param_text(&self) -> (r: String)
        ensures
            match self.1 {
                Some(_) => r@ == self.0@ + seq!['.'] + self.1->0@,
                None => r@ == self.0@,
            },
    {
        let mut s = self.0.clone();
        if let Some(sfx) = &self.1 {
            s.append(".");
            s.append(sfx.as_str());
            proof {
                reveal_strlit(".");
                assert(s@ =~= self.0@ + seq!['.'] + sfx@);
            }
        }
        s
    }
}

} // verus!
