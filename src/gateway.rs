//! URI mappings: matching an inbound path against a route pattern, and
//! rewriting it into the mapping's target pattern.
use vstd::prelude::*;
use crate::matcher::{Matcher, regex_compiles, regex_captures};
use crate::pattern::{
    UriVariable, VarSpan, pattern_vars, match_expr, vars_describe, scan_variables, build_match_expr,
    lemma_vars_from_wf, spans_wf,
};
use crate::text::{
    chars_of, string_from_chars, has_prefix, starts_with, char_index_at, char_index_of_byte,
    slice_chars, append_chars, replace_first, replace_first_chars, eq_ignore_ascii_case,
    equals_ignore_ascii_case, folded_code, trim_trailing_slashes, trim_trailing_slashes_chars,
    lemma_trim_trailing_slashes, lemma_trim_leading_slashes, trim_leading_slashes,
    trim_leading_slashes_chars,
};

verus! {

/// How an inbound path relates to a route pattern.
#[derive(PartialEq, Eq, Structural, Debug, Clone, Copy)]
pub enum UriMatch {
    /// The path is the pattern itself.
    Exact,
    /// The pattern has no variables and the path lies below it.
    Prefix,
    /// The variables' match covers the whole path, save one trailing `/`.
    Variable,
    /// The variables matched and more of the path follows them.
    VariablePrefix,
}

/// The pattern, normalised to end in exactly one `/`.
pub open spec fn slash_terminated(p: Seq<char>) -> Seq<char> {
    trim_trailing_slashes(p).push('/')
}

/// The end of the last group, among groups 1 to `n - 1`, that took part in the
/// match; 0 when none did.
pub open spec fn last_group_end(g: Seq<Option<(usize, usize)>>, n: int) -> int
    decreases n,
{
    if n <= 1 || n > g.len() {
        0
    } else {
        match g[n - 1] {
            Some(span) => span.1 as int,
            None => last_group_end(g, n - 1),
        }
    }
}

/// Classifies a path from the groups that its match expression captured: the
/// match consumed the path up to the end of the last captured group.
pub open spec fn classify(path: Seq<char>, g: Seq<Option<(usize, usize)>>) -> Option<UriMatch> {
    match char_index_at(path, last_group_end(g, g.len() as int)) {
        None => None,
        Some(k) => if k == path.len() || (k + 1 == path.len() && path.last() == '/') {
            Some(UriMatch::Variable)
        } else {
            Some(UriMatch::VariablePrefix)
        },
    }
}

/// How `path` relates to pattern `p`, if at all. Checked in order: the same
/// text; the root pattern under a longer path; for a pattern without
/// variables, a path below it; for one with variables, a match of its
/// match expression.
pub open spec fn match_spec(p: Seq<char>, path: Seq<char>) -> Option<UriMatch> {
    if path == p {
        Some(UriMatch::Exact)
    } else if p == seq!['/'] && path.len() > 1 {
        Some(UriMatch::Prefix)
    } else if pattern_vars(p).len() == 0 {
        if starts_with(path, slash_terminated(p)) {
            Some(UriMatch::Prefix)
        } else {
            None
        }
    } else if !regex_compiles(match_expr(p)) {
        None
    } else {
        match regex_captures(match_expr(p), path) {
            None => None,
            Some(g) => classify(path, g),
        }
    }
}

/// The view of an optional string.
pub open spec fn opt_view(o: Option<String>) -> Option<Seq<char>> {
    match o {
        Some(s) => Some(s@),
        None => None,
    }
}

/// How `path` relates to a mapping's source pattern; never a match for a
/// mapping without one.
pub open spec fn uri_match(uri: Option<Seq<char>>, path: Seq<char>) -> Option<UriMatch> {
    match uri {
        Some(p) => match_spec(p, path),
        None => None,
    }
}

fn same_chars(a: &Vec<char>, b: &Vec<char>) -> (r: bool)
    ensures
        r == (a@ == b@),
{
    if a.len() != b.len() {
        return false;
    }
    let r = has_prefix(a, b);
    proof {
        if r {
            assert(a@ =~= a@.subrange(0, b@.len() as int));
        }
        if a@ == b@ {
            assert(a@.subrange(0, b@.len() as int) =~= b@);
        }
    }
    r
}

fn last_group_end_exec(g: &Vec<Option<(usize, usize)>>) -> (r: usize)
    ensures
        r == last_group_end(g@, g@.len() as int),
{
    let mut n: usize = g.len();
    while n > 1
        invariant
            n <= g.len(),
            last_group_end(g@, g@.len() as int) == last_group_end(g@, n as int),
        decreases n,
    {
        match g[n - 1] {
            Some(span) => {
                return span.1;
            },
            None => {},
        }
        n = n - 1;
    }
    0
}

/// Classifies a path from the groups that its match expression captured.
pub fn classify_groups(path: &Vec<char>, g: &Vec<Option<(usize, usize)>>) -> (r: Option<UriMatch>)
    ensures
        r == classify(path@, g@),
{
    let end = last_group_end_exec(g);
    match char_index_of_byte(path, end) {
        None => None,
        Some(k) => {
            if k == path.len() || (k < path.len() && k + 1 == path.len() && path[k] == '/') {
                Some(UriMatch::Variable)
            } else {
                Some(UriMatch::VariablePrefix)
            }
        },
    }
}

/// Classifies `path` from the capture groups of its match: the byte spans that
/// the regex engine reported, the whole match first.
pub fn classify_captures(path: &str, groups: &Vec<Option<(usize, usize)>>) -> (r: Option<UriMatch>)
    ensures
        r == classify(path@, groups@),
{
    classify_groups(&chars_of(path), groups)
}

/// A route pattern read into characters and variables.
pub struct ParsedPattern {
    pub chars: Vec<char>,
    pub vars: Vec<UriVariable>,
}

impl ParsedPattern {
    pub open spec fn wf(&self) -> bool {
        vars_describe(self.vars@, self.chars@)
    }

    pub fn parse(p: &str) -> (r: ParsedPattern)
        ensures
            r.wf(),
            r.chars@ == p@,
    {
        ParsedPattern { chars: chars_of(p), vars: scan_variables(p) }
    }
}

/// The matcher compiled for pattern `p`: none when `p` has no variables, else
/// the match expression, when the engine accepts it.
pub open spec fn matcher_for(p: Seq<char>, m: Option<Matcher>) -> bool {
    if pattern_vars(p).len() == 0 {
        m is None
    } else {
        &&& (m is Some <==> regex_compiles(match_expr(p)))
        &&& (m matches Some(x) ==> x.expr() == match_expr(p))
    }
}

fn compile_matcher(p: &ParsedPattern) -> (r: Option<Matcher>)
    requires
        p.wf(),
    ensures
        matcher_for(p.chars@, r),
{
    if p.vars.len() == 0 {
        return None;
    }
    let expr = build_match_expr(&p.chars, &p.vars);
    let text = string_from_chars(expr.as_slice());
    Matcher::compile(text.as_str())
}

/// Matches `path` against the parsed pattern `p`; returns the captured groups
/// too when the match went through the match expression.
fn match_parsed(p: &ParsedPattern, m: &Option<Matcher>, path: &str, hc: &Vec<char>) -> (r: (
    Option<UriMatch>,
    Option<Vec<Option<(usize, usize)>>>,
))
    requires
        p.wf(),
        matcher_for(p.chars@, *m),
        hc@ == path@,
    ensures
        r.0 == match_spec(p.chars@, path@),
        r.1 matches Some(g) ==> pattern_vars(p.chars@).len() > 0 && regex_compiles(
            match_expr(p.chars@),
        ) && regex_captures(match_expr(p.chars@), path@) == Some(g@),
        (r.0 == Some(UriMatch::Variable) || r.0 == Some(UriMatch::VariablePrefix)) ==> r.1 is Some,
{
    if same_chars(hc, &p.chars) {
        return (Some(UriMatch::Exact), None);
    }
    if p.chars.len() == 1 && p.chars[0] == '/' && hc.len() > 1 {
        assert(p.chars@ =~= seq!['/']);
        return (Some(UriMatch::Prefix), None);
    }
    proof {
        if p.chars@ == seq!['/'] {
            assert(p.chars@.len() == 1 && p.chars@[0] == '/');
        }
    }
    if p.vars.len() == 0 {
        let mut prefix = trim_trailing_slashes_chars(&p.chars);
        prefix.push('/');
        assert(prefix@ =~= slash_terminated(p.chars@));
        assert(pattern_vars(p.chars@).len() == 0);
        if has_prefix(hc, &prefix) {
            return (Some(UriMatch::Prefix), None);
        } else {
            return (None, None);
        }
    }
    match m {
        None => (None, None),
        Some(x) => match x.captures(path) {
            None => (None, None),
            Some(g) => (classify_groups(hc, &g), Some(g)),
        },
    }
}

/// Every group after the whole match took part in it.
pub open spec fn all_groups_took_part(g: Seq<Option<(usize, usize)>>) -> bool {
    forall|i: int| 1 <= i < g.len() ==> (#[trigger] g[i]) is Some
}

/// The name of a variable.
pub open spec fn var_name(p: Seq<char>, v: VarSpan) -> Seq<char> {
    p.subrange(v.open + 1, v.name_end)
}

/// The position in `vs` of the first variable called `name`.
pub open spec fn first_named(p: Seq<char>, vs: Seq<VarSpan>, name: Seq<char>) -> Option<int>
    decreases vs.len(),
{
    if vs.len() == 0 {
        None
    } else if var_name(p, vs[0]) == name {
        Some(0)
    } else {
        match first_named(p, vs.drop_first(), name) {
            Some(k) => Some(k + 1),
            None => None,
        }
    }
}

/// The characters of `path` that group `i` captured.
pub open spec fn group_text(path: Seq<char>, g: Seq<Option<(usize, usize)>>, i: int) -> Option<
    Seq<char>,
> {
    if 0 <= i < g.len() {
        match g[i] {
            Some(span) => match (
                char_index_at(path, span.0 as int),
                char_index_at(path, span.1 as int),
            ) {
                (Some(a), Some(b)) => if a <= b {
                    Some(path.subrange(a as int, b as int))
                } else {
                    None
                },
                _ => None,
            },
            None => None,
        }
    } else {
        None
    }
}

/// What the source variable called `name` captured; the `k`-th variable owns
/// group `k + 1`.
pub open spec fn value_of(
    src: Seq<char>,
    path: Seq<char>,
    g: Seq<Option<(usize, usize)>>,
    name: Seq<char>,
) -> Option<Seq<char>> {
    match first_named(src, pattern_vars(src), name) {
        Some(k) => group_text(path, g, k + 1),
        None => None,
    }
}

/// The target pattern from `from` on, with each variable of `tvs` replaced by
/// the value of the source variable of the same name; none when one has none.
pub open spec fn fill(
    tgt: Seq<char>,
    tvs: Seq<VarSpan>,
    from: int,
    src: Seq<char>,
    path: Seq<char>,
    g: Seq<Option<(usize, usize)>>,
) -> Option<Seq<char>>
    decreases tvs.len(),
{
    if tvs.len() == 0 {
        Some(tgt.subrange(from, tgt.len() as int))
    } else {
        match value_of(src, path, g, var_name(tgt, tvs[0])) {
            None => None,
            Some(v) => match fill(tgt, tvs.drop_first(), tvs[0].close + 1, src, path, g) {
                None => None,
                Some(rest) => Some(tgt.subrange(from, tvs[0].open) + v + rest),
            },
        }
    }
}

/// The part of `path` the match did not consume: what follows the last
/// captured group, the same end that `classify` uses.
pub open spec fn remainder(path: Seq<char>, g: Seq<Option<(usize, usize)>>) -> Option<Seq<char>> {
    match char_index_at(path, last_group_end(g, g.len() as int)) {
        Some(a) => Some(path.subrange(a as int, path.len() as int)),
        None => None,
    }
}

/// `base` and `rest` joined by exactly one `/`: trailing `/` of `base` and
/// leading `/` of `rest` are dropped first.
pub open spec fn join_remainder(base: Seq<char>, rest: Seq<char>) -> Seq<char> {
    trim_trailing_slashes(base) + seq!['/'] + trim_leading_slashes(rest)
}

/// The target path for a variable match, from the groups that the source
/// pattern's match expression captured in `path`.
pub open spec fn substitute(
    src: Seq<char>,
    tgt: Seq<char>,
    path: Seq<char>,
    g: Seq<Option<(usize, usize)>>,
) -> Option<Seq<char>> {
    if !all_groups_took_part(g) {
        None
    } else {
        match fill(tgt, pattern_vars(tgt), 0, src, path, g) {
            None => None,
            Some(base) => match classify(path, g) {
                None => None,
                Some(UriMatch::VariablePrefix) => match remainder(path, g) {
                    None => None,
                    Some(rest) => Some(join_remainder(base, rest)),
                },
                Some(_) => Some(base),
            },
        }
    }
}

/// The rewritten path for `path` under a mapping from `src` to `tgt`.
pub open spec fn rewrite_spec(src: Seq<char>, tgt: Seq<char>, path: Seq<char>) -> Option<
    Seq<char>,
> {
    match match_spec(src, path) {
        None => None,
        Some(UriMatch::Exact) => Some(tgt),
        Some(UriMatch::Prefix) => Some(replace_first(path, src, tgt)),
        Some(_) => match regex_captures(match_expr(src), path) {
            Some(g) => substitute(src, tgt, path, g),
            None => None,
        },
    }
}

/// The rewritten path under a mapping; none unless it has both patterns.
pub open spec fn uri_rewrite(
    uri: Option<Seq<char>>,
    target: Option<Seq<char>>,
    path: Seq<char>,
) -> Option<Seq<char>> {
    match (uri, target) {
        (Some(src), Some(tgt)) => rewrite_spec(src, tgt, path),
        _ => None,
    }
}

fn all_groups_took_part_exec(g: &Vec<Option<(usize, usize)>>) -> (r: bool)
    ensures
        r == all_groups_took_part(g@),
{
    let mut i: usize = 1;
    while i < g.len()
        invariant
            1 <= i,
            forall|j: int| 1 <= j < i && j < g.len() ==> (#[trigger] g@[j]) is Some,
        decreases g.len() - i,
    {
        if g[i].is_none() {
            assert(!(g@[i as int] is Some));
            return false;
        }
        i = i + 1;
    }
    true
}

fn group_text_exec(path: &Vec<char>, g: &Vec<Option<(usize, usize)>>, i: usize) -> (r: Option<
    Vec<char>,
>)
    ensures
        match r {
            Some(t) => group_text(path@, g@, i as int) == Some(t@),
            None => group_text(path@, g@, i as int) is None,
        },
{
    if i >= g.len() {
        return None;
    }
    match g[i] {
        Some(span) => {
            let a = char_index_of_byte(path, span.0);
            let b = char_index_of_byte(path, span.1);
            match (a, b) {
                (Some(a), Some(b)) => {
                    if a <= b {
                        proof {
                            lemma_char_index_bound(path@, span.1 as int);
                        }
                        Some(slice_chars(path, a, b))
                    } else {
                        None
                    }
                },
                _ => None,
            }
        },
        None => None,
    }
}

proof fn lemma_char_index_bound(s: Seq<char>, off: int)
    ensures
        char_index_at(s, off) matches Some(k) ==> k <= s.len(),
    decreases s.len(),
{
    if off != 0 && s.len() > 0 && off >= crate::text::utf8_width(s[0]) {
        lemma_char_index_bound(s.drop_first(), off - crate::text::utf8_width(s[0]));
    }
}

fn value_of_exec(
    src: &ParsedPattern,
    path: &Vec<char>,
    g: &Vec<Option<(usize, usize)>>,
    name: &String,
) -> (r: Option<Vec<char>>)
    requires
        src.wf(),
    ensures
        match r {
            Some(t) => value_of(src.chars@, path@, g@, name@) == Some(t@),
            None => value_of(src.chars@, path@, g@, name@) is None,
        },
{
    let ghost vs = pattern_vars(src.chars@);
    assert(vs.skip(0) =~= vs);
    let mut k: usize = 0;
    while k < src.vars.len()
        invariant
            src.wf(),
            vs == pattern_vars(src.chars@),
            k <= src.vars.len(),
            first_named(src.chars@, vs, name@) == match first_named(
                src.chars@,
                vs.skip(k as int),
                name@,
            ) {
                Some(j) => Some(j + k),
                None => None,
            },
        decreases src.vars.len() - k,
    {
        assert(src.vars@[k as int].describes(src.chars@, vs[k as int], k as int));
        assert(vs.skip(k as int)[0] == vs[k as int]);
        assert(vs.skip(k as int).drop_first() =~= vs.skip(k + 1));
        if src.vars[k].name == *name {
            return group_text_exec(path, g, k + 1);
        }
        k = k + 1;
    }
    None
}

fn fill_exec(
    tgt: &ParsedPattern,
    src: &ParsedPattern,
    path: &Vec<char>,
    g: &Vec<Option<(usize, usize)>>,
) -> (r: Option<Vec<char>>)
    requires
        tgt.wf(),
        src.wf(),
    ensures
        match r {
            Some(t) => fill(tgt.chars@, pattern_vars(tgt.chars@), 0, src.chars@, path@, g@)
                == Some(t@),
            None => fill(tgt.chars@, pattern_vars(tgt.chars@), 0, src.chars@, path@, g@) is None,
        },
{
    let ghost tp = tgt.chars@;
    let ghost vs = pattern_vars(tp);
    let ghost whole = fill(tp, vs, 0, src.chars@, path@, g@);
    proof {
        lemma_vars_from_wf(tp, 0);
        assert(vs.skip(0) =~= vs);
    }
    let mut out: Vec<char> = Vec::new();
    let mut pos: usize = 0;
    let mut k: usize = 0;
    while k < tgt.vars.len()
        invariant
            tgt.wf(),
            src.wf(),
            tp == tgt.chars@,
            vs == pattern_vars(tp),
            whole == fill(tp, vs, 0, src.chars@, path@, g@),
            spans_wf(tp, vs, 0),
            k <= tgt.vars.len(),
            pos <= tgt.chars.len(),
            k == 0 ==> pos == 0,
            k > 0 ==> pos == vs[k - 1].close + 1,
            whole == match fill(tp, vs.skip(k as int), pos as int, src.chars@, path@, g@) {
                Some(rest) => Some(out@ + rest),
                None => None,
            },
        decreases tgt.vars.len() - k,
    {
        let v = &tgt.vars[k];
        assert(tgt.vars@[k as int].describes(tp, vs[k as int], k as int));
        let ghost rest = vs.skip(k as int);
        assert(rest[0] == vs[k as int]);
        assert(rest.drop_first() =~= vs.skip(k + 1));
        match value_of_exec(src, path, g, &v.name) {
            None => {
                return None;
            },
            Some(val) => {
                let lit = slice_chars(&tgt.chars, pos, v.start);
                append_chars(&mut out, &lit);
                append_chars(&mut out, &val);
                pos = v.end;
                k = k + 1;
            },
        }
    }
    assert(vs.skip(k as int).len() == 0);
    let lit = slice_chars(&tgt.chars, pos, tgt.chars.len());
    append_chars(&mut out, &lit);
    Some(out)
}

fn remainder_exec(path: &Vec<char>, g: &Vec<Option<(usize, usize)>>) -> (r: Option<Vec<char>>)
    ensures
        match r {
            Some(t) => remainder(path@, g@) == Some(t@),
            None => remainder(path@, g@) is None,
        },
{
    let end = last_group_end_exec(g);
    match char_index_of_byte(path, end) {
        Some(a) => {
            proof {
                lemma_char_index_bound(path@, end as int);
            }
            Some(slice_chars(path, a, path.len()))
        },
        None => None,
    }
}

fn join_remainder_exec(base: &Vec<char>, rest: &Vec<char>) -> (r: Vec<char>)
    ensures
        r@ == join_remainder(base@, rest@),
{
    let mut out = trim_trailing_slashes_chars(base);
    out.push('/');
    append_chars(&mut out, &trim_leading_slashes_chars(rest));
    out
}

fn substitute_parsed(
    src: &ParsedPattern,
    tgt: &ParsedPattern,
    path: &Vec<char>,
    g: &Vec<Option<(usize, usize)>>,
) -> (r: Option<Vec<char>>)
    requires
        src.wf(),
        tgt.wf(),
    ensures
        match r {
            Some(t) => substitute(src.chars@, tgt.chars@, path@, g@) == Some(t@),
            None => substitute(src.chars@, tgt.chars@, path@, g@) is None,
        },
{
    if !all_groups_took_part_exec(g) {
        return None;
    }
    match fill_exec(tgt, src, path, g) {
        None => None,
        Some(base) => match classify_groups(path, g) {
            None => None,
            Some(UriMatch::VariablePrefix) => match remainder_exec(path, g) {
                None => None,
                Some(rest) => Some(join_remainder_exec(&base, &rest)),
            },
            Some(_) => Some(base),
        },
    }
}

/// The target path for a variable match of `source` in `path`, built from the
/// capture groups that the match reported: the whole match, then the byte spans
/// of the variables in order.
pub fn substitute_captures(
    source: &str,
    target: &str,
    path: &str,
    groups: &Vec<Option<(usize, usize)>>,
) -> (r: Option<String>)
    ensures
        opt_view(r) == substitute(source@, target@, path@, groups@),
{
    let src = ParsedPattern::parse(source);
    let tgt = ParsedPattern::parse(target);
    let hc = chars_of(path);
    match substitute_parsed(&src, &tgt, &hc, groups) {
        Some(t) => Some(string_from_chars(t.as_slice())),
        None => None,
    }
}

/// A mapping's source and target patterns, parsed, with the source's match
/// expression compiled, ready to serve many paths.
pub struct CompiledMapping {
    source: Option<ParsedPattern>,
    target: Option<ParsedPattern>,
    matcher: Option<Matcher>,
}

impl CompiledMapping {
    pub closed spec fn source_view(&self) -> Option<Seq<char>> {
        match self.source {
            Some(p) => Some(p.chars@),
            None => None,
        }
    }

    pub closed spec fn target_view(&self) -> Option<Seq<char>> {
        match self.target {
            Some(p) => Some(p.chars@),
            None => None,
        }
    }

    pub closed spec fn wf(&self) -> bool {
        &&& (self.source matches Some(p) ==> p.wf() && matcher_for(p.chars@, self.matcher))
        &&& (self.target matches Some(p) ==> p.wf())
    }

    pub fn compile(uri: &Option<String>, target_uri: &Option<String>) -> (r: CompiledMapping)
        ensures
            r.wf(),
            r.source_view() == opt_view(*uri),
            r.target_view() == opt_view(*target_uri),
    {
        let (source, matcher) = match uri {
            Some(u) => {
                let p = ParsedPattern::parse(u.as_str());
                let m = compile_matcher(&p);
                (Some(p), m)
            },
            None => (None, None),
        };
        let target = match target_uri {
            Some(t) => Some(ParsedPattern::parse(t.as_str())),
            None => None,
        };
        CompiledMapping { source, target, matcher }
    }

    /// How `path` relates to the source pattern.
    pub fn match_uri(&self, path: &str) -> (r: Option<UriMatch>)
        requires
            self.wf(),
        ensures
            r == uri_match(self.source_view(), path@),
    {
        match &self.source {
            Some(p) => {
                let hc = chars_of(path);
                match_parsed(p, &self.matcher, path, &hc).0
            },
            None => None,
        }
    }

    /// `path` rewritten into the target pattern; none when the source pattern
    /// does not match it or the target names a variable the source lacks.
    pub fn build_target_uri(&self, path: &str) -> (r: Option<String>)
        requires
            self.wf(),
        ensures
            opt_view(r) == uri_rewrite(self.source_view(), self.target_view(), path@),
    {
        match (&self.source, &self.target) {
            (Some(s), Some(t)) => {
                let hc = chars_of(path);
                let (kind, groups) = match_parsed(s, &self.matcher, path, &hc);
                match kind {
                    None => None,
                    Some(UriMatch::Exact) => Some(string_from_chars(t.chars.as_slice())),
                    Some(UriMatch::Prefix) => {
                        let out = replace_first_chars(&hc, &s.chars, &t.chars);
                        Some(string_from_chars(out.as_slice()))
                    },
                    Some(_) => match groups {
                        Some(g) => match substitute_parsed(s, t, &hc, &g) {
                            Some(out) => Some(string_from_chars(out.as_slice())),
                            None => None,
                        },
                        None => None,
                    },
                }
            },
            _ => None,
        }
    }
}

/// A route rule: the methods it accepts, a source pattern, a target pattern,
/// and metadata that is passed through unchanged.
#[derive(Debug)]
pub struct UriMapping {
    /// Accepted methods; `*` accepts any, and an empty list restricts nothing.
    pub methods: Vec<String>,
    pub mode: Option<String>,
    pub service: Option<String>,
    pub target_protocol: Option<String>,
    pub target_service: Option<String>,
    pub target_uri: Option<String>,
    pub uri: Option<String>,
    pub var_pattern: Option<String>,
}

impl Default for UriMapping {
    fn default() -> (r: UriMapping)
        ensures
            r.methods@.len() == 0,
            r.mode is None,
            r.service is None,
            r.target_protocol is None,
            r.target_service is None,
            r.target_uri is None,
            r.uri is None,
            r.var_pattern is None,
    {
        UriMapping {
            methods: Vec::new(),
            mode: None,
            service: None,
            target_protocol: None,
            target_service: None,
            target_uri: None,
            uri: None,
            var_pattern: None,
        }
    }
}

/// The views of a list of strings.
pub open spec fn views(v: Seq<String>) -> Seq<Seq<char>> {
    v.map_values(|s: String| s@)
}

/// A method list accepts `m`: it is empty, or one entry is `*` or equals `m`
/// up to ASCII case.
pub open spec fn method_accepted(methods: Seq<Seq<char>>, m: Seq<char>) -> bool {
    ||| methods.len() == 0
    ||| exists|i: int|
        0 <= i < methods.len() && (#[trigger] methods[i] == seq!['*'] || eq_ignore_ascii_case(
            methods[i],
            m,
        ))
}

/// Method matching ignores ASCII case: two method names that differ only in
/// ASCII case are accepted by exactly the same method lists.
pub proof fn lemma_method_match_ignores_case(methods: Seq<Seq<char>>, a: Seq<char>, b: Seq<char>)
    requires
        eq_ignore_ascii_case(a, b),
    ensures
        method_accepted(methods, a) == method_accepted(methods, b),
{
    assert forall|x: Seq<char>| eq_ignore_ascii_case(x, a) <==> eq_ignore_ascii_case(x, b) by {
        if eq_ignore_ascii_case(x, a) {
            assert forall|i: int| 0 <= i < x.len() implies #[trigger] folded_code(x[i])
                == folded_code(b[i]) by {
                assert(folded_code(x[i]) == folded_code(a[i]));
                assert(folded_code(a[i]) == folded_code(b[i]));
            }
        }
        if eq_ignore_ascii_case(x, b) {
            assert forall|i: int| 0 <= i < x.len() implies #[trigger] folded_code(x[i])
                == folded_code(a[i]) by {
                assert(folded_code(x[i]) == folded_code(b[i]));
                assert(folded_code(a[i]) == folded_code(b[i]));
            }
        }
    }
}

/// A method list that holds `*`, or holds nothing, accepts every method.
pub proof fn lemma_wildcard_accepts_every_method(methods: Seq<Seq<char>>, m: Seq<char>)
    requires
        methods.len() == 0 || methods.contains(seq!['*']),
    ensures
        method_accepted(methods, m),
{
    if methods.len() > 0 {
        let i = choose|i: int| 0 <= i < methods.len() && methods[i] == seq!['*'];
        assert(methods[i] == seq!['*']);
    }
}

impl UriMapping {
    /// Whether this mapping accepts requests with `method`.
    pub fn supports_method(&self, method: &str) -> (r: bool)
        ensures
            r == method_accepted(views(self.methods@), method@),
    {
        methods_accept(&self.methods, method)
    }

    /// The variables of a route pattern, in order of occurrence.
    pub fn uri_variable(uri: &str) -> (r: Vec<UriVariable>)
        ensures
            vars_describe(r@, uri@),
    {
        scan_variables(uri)
    }

    /// Reads the text form of a method list: names separated by `,` or `|`,
    /// each in upper case, sorted.
    pub fn deserialize_method(text: &str) -> (r: Vec<String>)
        ensures
            views(r@) == crate::methods::parse_methods_spec(text@),
    {
        crate::methods::parse_methods(text)
    }

    /// Writes the text form of a method list: the names joined by `,`.
    pub fn serialize_method(methods: &Vec<String>) -> (r: String)
        ensures
            r@ == crate::methods::join_methods_spec(views(methods@)),
    {
        crate::methods::join_methods(methods)
    }

    /// How `in_uri` relates to this mapping's source pattern.
    pub fn match_uri(&self, in_uri: &str) -> (r: Option<UriMatch>)
        ensures
            r == uri_match(opt_view(self.uri), in_uri@),
    {
        CompiledMapping::compile(&self.uri, &None).match_uri(in_uri)
    }

    /// `in_uri` rewritten from this mapping's source pattern into its target
    /// pattern.
    pub fn build_target_uri(&self, in_uri: &str) -> (r: Option<String>)
        ensures
            opt_view(r) == uri_rewrite(opt_view(self.uri), opt_view(self.target_uri), in_uri@),
    {
        CompiledMapping::compile(&self.uri, &self.target_uri).build_target_uri(in_uri)
    }
}

/// What routing reads of a mapping: its methods and its two patterns.
pub struct RouteView {
    pub methods: Seq<Seq<char>>,
    pub uri: Option<Seq<char>>,
    pub target: Option<Seq<char>>,
}

impl UriMapping {
    pub open spec fn route(&self) -> RouteView {
        RouteView {
            methods: views(self.methods@),
            uri: opt_view(self.uri),
            target: opt_view(self.target_uri),
        }
    }
}

/// The routes of a list of mappings.
pub open spec fn routes_of(ms: Seq<UriMapping>) -> Seq<RouteView> {
    ms.map_values(|m: UriMapping| m.route())
}

/// The route applies to a request: it accepts the method and rewrites the path.
pub open spec fn route_applies(r: RouteView, method: Seq<char>, path: Seq<char>) -> bool {
    &&& method_accepted(r.methods, method)
    &&& uri_rewrite(r.uri, r.target, path) is Some
}

/// The first route from position `i` on that applies, with the rewritten path.
pub open spec fn resolve_from(rs: Seq<RouteView>, i: int, method: Seq<char>, path: Seq<char>) -> Option<
    (int, Seq<char>),
>
    decreases rs.len() - i,
{
    if i < 0 || i >= rs.len() {
        None
    } else if route_applies(rs[i], method, path) {
        Some((i, uri_rewrite(rs[i].uri, rs[i].target, path)->Some_0))
    } else {
        resolve_from(rs, i + 1, method, path)
    }
}

/// `resolve_from` picks the first route that applies.
pub proof fn lemma_resolve_picks_first(
    rs: Seq<RouteView>,
    i: int,
    method: Seq<char>,
    path: Seq<char>,
)
    requires
        0 <= i,
    ensures
        match resolve_from(rs, i, method, path) {
            Some((k, p)) => i <= k < rs.len() && route_applies(rs[k], method, path) && uri_rewrite(
                rs[k].uri,
                rs[k].target,
                path,
            ) == Some(p) && forall|j: int|
                i <= j < k ==> !route_applies(#[trigger] rs[j], method, path),
            None => forall|j: int| i <= j < rs.len() ==> !route_applies(#[trigger] rs[j], method, path),
        },
    decreases rs.len() - i,
{
    if i < rs.len() && !route_applies(rs[i], method, path) {
        lemma_resolve_picks_first(rs, i + 1, method, path);
    }
}

/// Whether `methods` accepts `method`.
pub fn methods_accept(methods: &Vec<String>, method: &str) -> (r: bool)
    ensures
        r == method_accepted(views(methods@), method@),
{
    let ghost ms = views(methods@);
    if methods.len() == 0 {
        return true;
    }
    let mut i: usize = 0;
    while i < methods.len()
        invariant
            ms == views(methods@),
            i <= methods.len(),
            forall|j: int|
                0 <= j < i ==> !(#[trigger] ms[j] == seq!['*'] || eq_ignore_ascii_case(
                    ms[j],
                    method@,
                )),
        decreases methods.len() - i,
    {
        let mtd = methods[i].as_str();
        let c = chars_of(mtd);
        let star = c.len() == 1 && c[0] == '*';
        assert(ms[i as int] == mtd@);
        if star {
            assert(c@ =~= seq!['*']);
            return true;
        }
        proof {
            if c@ == seq!['*'] {
                assert(c@.len() == 1 && c@[0] == '*');
            }
        }
        if equals_ignore_ascii_case(mtd, method) {
            return true;
        }
        i = i + 1;
    }
    false
}

fn copy_strings(v: &Vec<String>) -> (r: Vec<String>)
    ensures
        r@ == v@,
{
    let mut out: Vec<String> = Vec::new();
    let mut i: usize = 0;
    while i < v.len()
        invariant
            i <= v.len(),
            out@ == v@.subrange(0, i as int),
        decreases v.len() - i,
    {
        out.push(v[i].clone());
        i = i + 1;
    }
    out
}

/// One mapping ready to route: its methods and its compiled patterns.
struct CompiledRoute {
    methods: Vec<String>,
    patterns: CompiledMapping,
}

/// The ordered URI mappings of one service, compiled once.
pub struct RouteTable {
    routes: Vec<CompiledRoute>,
}

impl RouteTable {
    pub closed spec fn routes(&self) -> Seq<RouteView> {
        self.routes@.map_values(
            |c: CompiledRoute|
                RouteView {
                    methods: views(c.methods@),
                    uri: c.patterns.source_view(),
                    target: c.patterns.target_view(),
                },
        )
    }

    pub closed spec fn wf(&self) -> bool {
        forall|i: int| 0 <= i < self.routes.len() ==> (#[trigger] self.routes@[i]).patterns.wf()
    }

    pub fn new(mappings: &Vec<UriMapping>) -> (r: RouteTable)
        ensures
            r.wf(),
            r.routes() == routes_of(mappings@),
    {
        let mut routes: Vec<CompiledRoute> = Vec::new();
        let mut i: usize = 0;
        while i < mappings.len()
            invariant
                i <= mappings.len(),
                routes.len() == i,
                forall|j: int|
                    0 <= j < i ==> {
                        &&& (#[trigger] routes@[j]).patterns.wf()
                        &&& views(routes@[j].methods@) == views(mappings@[j].methods@)
                        &&& routes@[j].patterns.source_view() == opt_view(mappings@[j].uri)
                        &&& routes@[j].patterns.target_view() == opt_view(mappings@[j].target_uri)
                    },
            decreases mappings.len() - i,
        {
            let m = &mappings[i];
            let patterns = CompiledMapping::compile(&m.uri, &m.target_uri);
            routes.push(CompiledRoute { methods: copy_strings(&m.methods), patterns });
            i = i + 1;
        }
        let r = RouteTable { routes };
        assert(r.routes() =~= routes_of(mappings@));
        r
    }

    /// The first mapping, in configured order, that accepts `method` and
    /// rewrites `path`, with the rewritten path. None means the request goes
    /// unchanged to the service's own target.
    pub fn resolve(&self, method: &str, path: &str) -> (r: Option<(usize, String)>)
        requires
            self.wf(),
        ensures
            match r {
                Some((i, p)) => resolve_from(self.routes(), 0, method@, path@) == Some(
                    (i as int, p@),
                ),
                None => resolve_from(self.routes(), 0, method@, path@) is None,
            },
    {
        let ghost rs = self.routes();
        let mut i: usize = 0;
        while i < self.routes.len()
            invariant
                self.wf(),
                rs == self.routes(),
                i <= self.routes.len(),
                resolve_from(rs, 0, method@, path@) == resolve_from(rs, i as int, method@, path@),
            decreases self.routes.len() - i,
        {
            let c = &self.routes[i];
            assert(self.routes@[i as int].patterns.wf());
            if methods_accept(&c.methods, method) {
                match c.patterns.build_target_uri(path) {
                    Some(p) => {
                        return Some((i, p));
                    },
                    None => {},
                }
            }
            i = i + 1;
        }
        None
    }
}

/// A path equal to the pattern is an exact match, whatever the pattern holds.
pub proof fn lemma_pattern_matches_itself_exactly(p: Seq<char>)
    ensures
        match_spec(p, p) == Some(UriMatch::Exact),
{
}

/// Below a pattern without variables, any path that continues it with `/` and
/// more is a prefix match.
pub proof fn lemma_path_below_pattern_is_prefix(p: Seq<char>, suffix: Seq<char>)
    requires
        pattern_vars(p).len() == 0,
        suffix.len() > 0,
    ensures
        match_spec(p, p + seq!['/'] + suffix) == Some(UriMatch::Prefix),
{
    let path = p + seq!['/'] + suffix;
    assert(path.len() > p.len());
    assert(path != p);
    lemma_trim_trailing_slashes(p);
    let base = trim_trailing_slashes(p);
    let t = slash_terminated(p);
    assert forall|i: int| 0 <= i < t.len() implies path.subrange(0, t.len() as int)[i] == t[i] by {
        if i < base.len() {
            assert(base[i] == p[i]);
        } else if base.len() < p.len() {
            assert(p[i] == '/');
        }
    }
    assert(path.subrange(0, t.len() as int) =~= t);
}

/// Under the root pattern every longer path is a prefix match, and the root
/// path itself an exact one.
pub proof fn lemma_root_pattern(x: Seq<char>)
    requires
        x.len() > 0,
    ensures
        match_spec(seq!['/'], seq!['/'] + x) == Some(UriMatch::Prefix),
        match_spec(seq!['/'], seq!['/']) == Some(UriMatch::Exact),
{
    assert((seq!['/'] + x).len() > 1);
    assert(seq!['/'] + x != seq!['/']);
}

/// Joining the remainder does not depend on whether the target ends in `/` or
/// the remainder starts with one: the two are joined by exactly one `/`.
pub proof fn lemma_join_ignores_boundary_slashes(base: Seq<char>, rest: Seq<char>)
    ensures
        join_remainder(base.push('/'), rest) == join_remainder(base, rest),
        join_remainder(base, seq!['/'] + rest) == join_remainder(base, rest),
        trim_trailing_slashes(base).len() == 0 || trim_trailing_slashes(base).last() != '/',
        trim_leading_slashes(rest).len() == 0 || trim_leading_slashes(rest)[0] != '/',
{
    assert(base.push('/').drop_last() =~= base);
    assert((seq!['/'] + rest).drop_first() =~= rest);
    lemma_trim_trailing_slashes(base);
    lemma_trim_leading_slashes(rest);
}

} // verus!
