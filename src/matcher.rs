//! Compiled match expressions, backed by the `regex` crate.
//!
//! What the engine makes of an expression is not restated here: the results
//! of compiling and of capturing carry names, and the routing code is
//! verified for whatever those names stand for.
use vstd::prelude::*;

verus! {

#[verifier::external_type_specification]
#[verifier::external_body]
pub struct ExRegex(regex::Regex);

/// Whether the regex engine accepts `expr` (its syntax and its size limit).
pub uninterp spec fn regex_compiles(expr: Seq<char>) -> bool;

/// The capture groups of the leftmost-first match of `expr` in `hay`, as UTF-8
/// byte spans: entry 0 is the whole match, entry `i` the `i`-th group by its
/// opening parenthesis, none for a group that took no part in the match.
/// Absent when `expr` does not match.
pub uninterp spec fn regex_captures(expr: Seq<char>, hay: Seq<char>) -> Option<
    Seq<Option<(usize, usize)>>,
>;

/// A regular expression together with the text it was compiled from.
pub struct Matcher {
    regex: regex::Regex,
    source: String,
}

impl Matcher {
    /// The expression this matcher was compiled from.
    pub closed spec fn expr(&self) -> Seq<char> {
        self.source@
    }

    /// Relies on `regex::Regex::new`, which returns an error exactly when the
    /// expression is invalid or too big; the source text is kept alongside.
    #[verifier::external_body]
    pub(crate) fn compile(expr: &str) -> (r: Option<Matcher>)
        ensures
            r is Some <==> regex_compiles(expr@),
            r matches Some(m) ==> m.expr() == expr@,
    {
        regex::Regex::new(expr).ok().map(|regex| Matcher { regex, source: expr.to_string() })
    }

    /// Relies on `regex::Regex::captures`: the group spans of the first match,
    /// read out through `Captures::iter`, `Match::start` and `Match::end`.
    #[verifier::external_body]
    pub(crate) fn captures(&self, hay: &str) -> (r: Option<Vec<Option<(usize, usize)>>>)
        ensures
            match r {
                Some(g) => regex_captures(self.expr(), hay@) == Some(g@),
                None => regex_captures(self.expr(), hay@) is None,
            },
    {
        self.regex.captures(hay).map(
            |caps| caps.iter().map(|m| m.map(|m| (m.start(), m.end()))).collect(),
        )
    }
}

} // verus!
