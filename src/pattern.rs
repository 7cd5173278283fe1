//! Route patterns: literal text with `/{name}` or `/{name:regex}` segments.
//!
//! A variable starts at a `/` followed by `{`, carries a name of one or more
//! characters that the regex engine's `\w` accepts, optionally a `:`, then a regex running up to the
//! next `}`. Scanning goes left to right and resumes after each variable, so
//! variables never overlap. The variables are numbered from 1 in order of
//! occurrence, which is also the order of their capture groups in the match
//! expression.
use vstd::prelude::*;
use crate::matcher::{Matcher, regex_compiles, regex_captures};
use crate::text::{chars_of, slice_chars, append_chars, string_from_chars};

verus! {

/// Where one variable sits in a pattern, as character positions: `open` is
/// the `{`, the name runs from `open + 1` to `name_end`, the regex from
/// `pat_start` to `close`, and `close` is the `}`.
pub struct VarSpan {
    pub open: int,
    pub name_end: int,
    pub pat_start: int,
    pub close: int,
}

/// The expression that tests one character for `\w`.
pub open spec fn word_char_expr() -> Seq<char> {
    seq!['^', '\\', 'w', '$']
}

/// `c` may stand in a variable name: the regex engine's `\w` accepts it.
pub open spec fn is_name_char(c: char) -> bool {
    regex_compiles(word_char_expr()) && regex_captures(word_char_expr(), seq![c]) is Some
}

/// The first position at or after `i` that does not hold a name character.
pub open spec fn word_end(p: Seq<char>, i: int) -> int
    decreases p.len() - i,
{
    if 0 <= i < p.len() && is_name_char(p[i]) {
        word_end(p, i + 1)
    } else {
        i
    }
}

/// The first `}` at or after `i`.
pub open spec fn close_brace_from(p: Seq<char>, i: int) -> Option<int>
    decreases p.len() - i,
{
    if i < 0 || i >= p.len() {
        None
    } else if p[i] == '}' {
        Some(i)
    } else {
        close_brace_from(p, i + 1)
    }
}

/// The variable whose `/` stands at position `i`, if one does.
pub open spec fn var_at(p: Seq<char>, i: int) -> Option<VarSpan> {
    if 0 <= i && i + 1 < p.len() && p[i] == '/' && p[i + 1] == '{' && word_end(p, i + 2) > i
        + 2 {
        let ne = word_end(p, i + 2);
        let ps = if ne < p.len() && p[ne] == ':' {
            ne + 1
        } else {
            ne
        };
        match close_brace_from(p, ps) {
            Some(c) => Some(VarSpan { open: i + 1, name_end: ne, pat_start: ps, close: c }),
            None => None,
        }
    } else {
        None
    }
}

pub proof fn lemma_word_end(p: Seq<char>, i: int)
    requires
        0 <= i <= p.len(),
    ensures
        i <= word_end(p, i) <= p.len(),
        forall|j: int| i <= j < word_end(p, i) ==> is_name_char(#[trigger] p[j]),
        word_end(p, i) < p.len() ==> !is_name_char(p[word_end(p, i)]),
    decreases p.len() - i,
{
    if i < p.len() && is_name_char(p[i]) {
        lemma_word_end(p, i + 1);
    }
}

pub proof fn lemma_close_brace(p: Seq<char>, i: int)
    requires
        0 <= i,
    ensures
        match close_brace_from(p, i) {
            Some(c) => i <= c < p.len() && p[c] == '}' && forall|j: int|
                i <= j < c ==> #[trigger] p[j] != '}',
            None => forall|j: int| i <= j < p.len() ==> #[trigger] p[j] != '}',
        },
    decreases p.len() - i,
{
    if i < p.len() && p[i] != '}' {
        lemma_close_brace(p, i + 1);
    }
}

/// The shape every scanned variable has.
pub open spec fn span_wf(p: Seq<char>, v: VarSpan) -> bool {
    &&& 1 <= v.open
    &&& p[v.open - 1] == '/'
    &&& p[v.open] == '{'
    &&& v.open + 1 < v.name_end <= v.pat_start <= v.close < p.len()
    &&& v.pat_start <= v.name_end + 1
    &&& p[v.close] == '}'
}

pub proof fn lemma_var_at(p: Seq<char>, i: int)
    requires
        0 <= i,
    ensures
        var_at(p, i) matches Some(v) ==> v.open == i + 1 && span_wf(p, v),
{
    if 0 <= i && i + 1 < p.len() && p[i] == '/' && p[i + 1] == '{' && word_end(p, i + 2) > i
        + 2 {
        lemma_word_end(p, i + 2);
        let ne = word_end(p, i + 2);
        let ps = if ne < p.len() && p[ne] == ':' {
            ne + 1
        } else {
            ne
        };
        lemma_close_brace(p, ps);
    }
}

/// The variables of `p` found by scanning from position `i`.
pub open spec fn vars_from(p: Seq<char>, i: int) -> Seq<VarSpan>
    decreases p.len() - i,
{
    if i < 0 || i >= p.len() {
        seq![]
    } else {
        match var_at(p, i) {
            Some(v) => {
                proof {
                    lemma_var_at(p, i);
                }
                seq![v] + vars_from(p, v.close + 1)
            },
            None => vars_from(p, i + 1),
        }
    }
}

/// The variables of a pattern, in order of occurrence.
pub open spec fn pattern_vars(p: Seq<char>) -> Seq<VarSpan> {
    vars_from(p, 0)
}

/// The variables `vs` are well shaped, in order, and none starts before `from`.
pub open spec fn spans_wf(p: Seq<char>, vs: Seq<VarSpan>, from: int) -> bool {
    &&& forall|k: int| 0 <= k < vs.len() ==> span_wf(p, #[trigger] vs[k])
    &&& vs.len() > 0 ==> from < vs[0].open
    &&& forall|k: int| 0 < k < vs.len() ==> vs[k - 1].close + 1 < #[trigger] vs[k].open
}

pub proof fn lemma_vars_from_wf(p: Seq<char>, i: int)
    requires
        0 <= i,
    ensures
        spans_wf(p, vars_from(p, i), i),
    decreases p.len() - i,
{
    if i < p.len() {
        lemma_var_at(p, i);
        match var_at(p, i) {
            Some(v) => {
                lemma_vars_from_wf(p, v.close + 1);
                let rest = vars_from(p, v.close + 1);
                let vs = seq![v] + rest;
                assert forall|k: int| 0 < k < vs.len() implies vs[k - 1].close + 1
                    < #[trigger] vs[k].open by {
                    assert(vs[k] == rest[k - 1]);
                    if k > 1 {
                        assert(vs[k - 1] == rest[k - 2]);
                    }
                }
                assert forall|k: int| 0 <= k < vs.len() implies span_wf(p, #[trigger] vs[k]) by {
                    if k > 0 {
                        assert(vs[k] == rest[k - 1]);
                    }
                }
            },
            None => {
                lemma_vars_from_wf(p, i + 1);
            },
        }
    }
}

/// The regex a variable's group uses when it names none: word characters and `-`.
pub open spec fn default_var_regex() -> Seq<char> {
    seq!['[', '\\', 'w', '-', ']', '+']
}

/// The regex written after the variable's name, if any.
pub open spec fn var_regex(p: Seq<char>, v: VarSpan) -> Option<Seq<char>> {
    if v.pat_start < v.close {
        Some(p.subrange(v.pat_start, v.close))
    } else {
        None
    }
}

/// The regex of the capture group that stands for the variable.
pub open spec fn group_regex(p: Seq<char>, v: VarSpan) -> Seq<char> {
    match var_regex(p, v) {
        Some(r) => r,
        None => default_var_regex(),
    }
}

/// `p` from `from` on, with each variable's `{...}` replaced by a capture group.
pub open spec fn expr_body(p: Seq<char>, vs: Seq<VarSpan>, from: int) -> Seq<char>
    decreases vs.len(),
{
    if vs.len() == 0 {
        p.subrange(from, p.len() as int)
    } else {
        p.subrange(from, vs[0].open) + seq!['('] + group_regex(p, vs[0]) + seq![')'] + expr_body(
            p,
            vs.drop_first(),
            vs[0].close + 1,
        )
    }
}

/// What the match expression has after the pattern: an optional `/` and the
/// rest of the path (up to a line break, which `.` does not match).
pub open spec fn expr_tail() -> Seq<char> {
    seq!['\\', '/', '?', '.', '*', '$']
}

/// The regular expression a path is matched against: anchored at the start,
/// one capture group per variable, then `expr_tail`.
pub open spec fn match_expr(p: Seq<char>) -> Seq<char> {
    seq!['^'] + expr_body(p, pattern_vars(p), 0) + expr_tail()
}

/// One variable segment of a route pattern.
pub struct UriVariable {
    pub name: String,
    /// The regex written after the name; none when the variable names none.
    pub pattern: Option<String>,
    /// Position among the pattern's variables, counted from 1.
    pub index: usize,
    /// Character position of the `{`.
    pub start: usize,
    /// Character position just past the `}`.
    pub end: usize,
}

impl UriVariable {
    /// `self` is the `k`-th variable (from 0) of `p`, which sits at `s`.
    pub open spec fn describes(&self, p: Seq<char>, s: VarSpan, k: int) -> bool {
        &&& self.name@ == p.subrange(s.open + 1, s.name_end)
        &&& match self.pattern {
            Some(x) => var_regex(p, s) == Some(x@),
            None => var_regex(p, s) is None,
        }
        &&& self.index == k + 1
        &&& self.start == s.open
        &&& self.end == s.close + 1
    }

    pub open spec fn spec_group_regex(&self) -> Seq<char> {
        match self.pattern {
            Some(x) => x@,
            None => default_var_regex(),
        }
    }

    /// The regex of this variable's capture group.
    pub fn to_pattern(&self) -> (r: String)
        ensures
            r@ == self.spec_group_regex(),
    {
        match &self.pattern {
            Some(x) => x.clone(),
            None => {
                let d = vec!['[', '\\', 'w', '-', ']', '+'];
                string_from_chars(d.as_slice())
            },
        }
    }

    pub open spec fn spec_origin(&self) -> Seq<char> {
        match self.pattern {
            Some(x) => seq!['{'] + self.name@ + seq![':'] + x@ + seq!['}'],
            None => seq!['{'] + self.name@ + seq!['}'],
        }
    }

    /// The variable written out: `{name}` or `{name:regex}`.
    pub fn origin(&self) -> (r: String)
        ensures
            r@ == self.spec_origin(),
    {
        let mut out: Vec<char> = vec!['{'];
        append_chars(&mut out, &chars_of(self.name.as_str()));
        if let Some(x) = &self.pattern {
            out.push(':');
            append_chars(&mut out, &chars_of(x.as_str()));
        }
        out.push('}');
        string_from_chars(out.as_slice())
    }
}

/// The variables of `vars` describe, one for one, the variables of `p`.
pub open spec fn vars_describe(vars: Seq<UriVariable>, p: Seq<char>) -> bool {
    &&& vars.len() == pattern_vars(p).len()
    &&& forall|k: int| 0 <= k < vars.len() ==> #[trigger] vars[k].describes(p, pattern_vars(p)[k], k)
}

/// The matcher for `word_char_expr`, when the engine accepts it.
pub open spec fn name_matcher(m: Option<Matcher>) -> bool {
    &&& (m is Some <==> regex_compiles(word_char_expr()))
    &&& (m matches Some(x) ==> x.expr() == word_char_expr())
}

fn compile_name_matcher() -> (r: Option<Matcher>)
    ensures
        name_matcher(r),
{
    let e = vec!['^', '\\', 'w', '$'];
    let text = string_from_chars(e.as_slice());
    assert(text@ =~= word_char_expr());
    Matcher::compile(text.as_str())
}

fn name_char(m: &Option<Matcher>, c: char) -> (r: bool)
    requires
        name_matcher(*m),
    ensures
        r == is_name_char(c),
{
    match m {
        None => false,
        Some(x) => {
            let one = vec![c];
            let text = string_from_chars(one.as_slice());
            assert(text@ =~= seq![c]);
            x.captures(text.as_str()).is_some()
        },
    }
}

fn word_end_exec(p: &Vec<char>, i: usize, m: &Option<Matcher>) -> (r: usize)
    requires
        i <= p.len(),
        name_matcher(*m),
    ensures
        r == word_end(p@, i as int),
{
    let mut j = i;
    while j < p.len() && name_char(m, p[j])
        invariant
            name_matcher(*m),
            i <= j <= p.len(),
            word_end(p@, i as int) == word_end(p@, j as int),
        decreases p.len() - j,
    {
        j = j + 1;
    }
    j
}

fn close_brace_exec(p: &Vec<char>, i: usize) -> (r: Option<usize>)
    requires
        i <= p.len(),
    ensures
        match r {
            Some(c) => close_brace_from(p@, i as int) == Some(c as int),
            None => close_brace_from(p@, i as int) is None,
        },
{
    let mut j = i;
    while j < p.len()
        invariant
            i <= j <= p.len(),
            close_brace_from(p@, i as int) == close_brace_from(p@, j as int),
        decreases p.len() - j,
    {
        if p[j] == '}' {
            return Some(j);
        }
        j = j + 1;
    }
    None
}

/// Reads the variable whose `/` stands at `i`, if one does.
fn var_at_exec(p: &Vec<char>, i: usize, index: usize, m: &Option<Matcher>) -> (r: Option<UriVariable>)
    requires
        i < p.len(),
        name_matcher(*m),
    ensures
        match r {
            Some(u) => var_at(p@, i as int) matches Some(s) && u.describes(p@, s, index - 1),
            None => var_at(p@, i as int) is None,
        },
{
    if !(i + 1 < p.len() && p[i] == '/' && p[i + 1] == '{') {
        return None;
    }
    let ne = word_end_exec(p, i + 2, m);
    if ne <= i + 2 {
        return None;
    }
    proof {
        lemma_word_end(p@, i + 2);
    }
    let ps = if ne < p.len() && p[ne] == ':' {
        ne + 1
    } else {
        ne
    };
    match close_brace_exec(p, ps) {
        Some(c) => {
            proof {
                lemma_close_brace(p@, ps as int);
            }
            let name = string_from_chars(slice_chars(p, i + 2, ne).as_slice());
            let pattern = if ps < c {
                Some(string_from_chars(slice_chars(p, ps, c).as_slice()))
            } else {
                None
            };
            Some(UriVariable { name, pattern, index, start: i + 1, end: c + 1 })
        },
        None => None,
    }
}

/// Scans a route pattern for its variables, in order of occurrence.
pub fn scan_variables(pattern: &str) -> (r: Vec<UriVariable>)
    ensures
        vars_describe(r@, pattern@),
{
    let p = chars_of(pattern);
    let m = compile_name_matcher();
    let mut out: Vec<UriVariable> = Vec::new();
    let ghost mut spans: Seq<VarSpan> = seq![];
    let mut i: usize = 0;
    while i < p.len()
        invariant
            p@ == pattern@,
            name_matcher(m),
            i <= p.len(),
            out.len() <= i,
            out.len() == spans.len(),
            pattern_vars(p@) == spans + vars_from(p@, i as int),
            forall|k: int| 0 <= k < out.len() ==> #[trigger] out@[k].describes(p@, spans[k], k),
        decreases p.len() - i,
    {
        match var_at_exec(&p, i, out.len() + 1, &m) {
            Some(u) => {
                proof {
                    lemma_var_at(p@, i as int);
                    let s = var_at(p@, i as int)->Some_0;
                    assert(spans + vars_from(p@, i as int) =~= spans.push(s) + vars_from(
                        p@,
                        s.close + 1,
                    ));
                    spans = spans.push(s);
                }
                i = u.end;
                out.push(u);
            },
            None => {
                i = i + 1;
            },
        }
    }
    proof {
        assert(spans + vars_from(p@, i as int) =~= spans);
    }
    out
}

/// Builds the expression that `match_expr` describes, from the pattern's
/// characters and its scanned variables.
pub fn build_match_expr(p: &Vec<char>, vars: &Vec<UriVariable>) -> (r: Vec<char>)
    requires
        vars_describe(vars@, p@),
    ensures
        r@ == match_expr(p@),
{
    let ghost vs = pattern_vars(p@);
    proof {
        lemma_vars_from_wf(p@, 0);
        assert(vs.skip(0) =~= vs);
    }
    let mut out: Vec<char> = vec!['^'];
    let mut pos: usize = 0;
    let mut k: usize = 0;
    while k < vars.len()
        invariant
            vars_describe(vars@, p@),
            vs == pattern_vars(p@),
            spans_wf(p@, vs, 0),
            k <= vars.len(),
            pos <= p.len(),
            k == 0 ==> pos == 0,
            k > 0 ==> pos == vs[k - 1].close + 1,
            seq!['^'] + expr_body(p@, vs, 0) == out@ + expr_body(p@, vs.skip(k as int), pos as int),
        decreases vars.len() - k,
    {
        let v = &vars[k];
        assert(vars@[k as int].describes(p@, vs[k as int], k as int));
        assert(span_wf(p@, vs[k as int]));
        let ghost rest = vs.skip(k as int);
        assert(rest[0] == vs[k as int]);
        assert(rest.drop_first() =~= vs.skip(k + 1));
        let lit = slice_chars(p, pos, v.start);
        append_chars(&mut out, &lit);
        out.push('(');
        let g = chars_of(v.to_pattern().as_str());
        append_chars(&mut out, &g);
        out.push(')');
        pos = v.end;
        k = k + 1;
        assert(seq!['^'] + expr_body(p@, vs, 0) == out@ + expr_body(p@, vs.skip(k as int), pos as int));
    }
    assert(vs.skip(k as int).len() == 0);
    let lit = slice_chars(p, pos, p.len());
    append_chars(&mut out, &lit);
    let tail = vec!['\\', '/', '?', '.', '*', '$'];
    append_chars(&mut out, &tail);
    out
}

} // verus!
