//! The text form of a mapping's method list: names separated by `,` or `|`,
//! read in upper case and kept sorted.
use vstd::prelude::*;
use vstd::relations::{sorted_by, total_ordering};
use crate::gateway::views;
use crate::text::{chars_of, string_from_chars, slice_chars, append_chars};

verus! {

/// What `str::to_uppercase` makes of a string (full Unicode case mapping).
pub uninterp spec fn upper_of(s: Seq<char>) -> Seq<char>;

/// Relies on `str::to_uppercase`: the result depends on the characters alone.
#[verifier::external_body]
fn to_upper(s: &str) -> (r: String)
    ensures
        r@ == upper_of(s@),
{
    s.to_uppercase()
}

pub open spec fn is_method_separator(c: char) -> bool {
    c == ',' || c == '|'
}

/// The first separator at or after `i`, or the end of `s`.
pub open spec fn next_separator(s: Seq<char>, i: int) -> int
    decreases s.len() - i,
{
    if 0 <= i < s.len() && !is_method_separator(s[i]) {
        next_separator(s, i + 1)
    } else {
        i
    }
}

pub proof fn lemma_next_separator(s: Seq<char>, i: int)
    requires
        0 <= i <= s.len(),
    ensures
        i <= next_separator(s, i) <= s.len(),
    decreases s.len() - i,
{
    if i < s.len() && !is_method_separator(s[i]) {
        lemma_next_separator(s, i + 1);
    }
}

/// The fields of `s` from position `i` on, as `str::split` gives them.
pub open spec fn fields_from(s: Seq<char>, i: int) -> Seq<Seq<char>>
    decreases s.len() - i,
{
    if i < 0 || i > s.len() {
        seq![]
    } else {
        let j = next_separator(s, i);
        if j >= s.len() {
            seq![s.subrange(i, s.len() as int)]
        } else {
            proof {
                lemma_next_separator(s, i);
            }
            seq![s.subrange(i, j)] + fields_from(s, j + 1)
        }
    }
}

/// Lexicographic order of character codes, the order of `String`'s `Ord`.
pub open spec fn lex_le(a: Seq<char>, b: Seq<char>) -> bool
    decreases a.len(),
{
    if a.len() == 0 {
        true
    } else if b.len() == 0 {
        false
    } else if (a[0] as u32) != (b[0] as u32) {
        (a[0] as u32) < (b[0] as u32)
    } else {
        lex_le(a.drop_first(), b.drop_first())
    }
}

pub open spec fn lex_order() -> spec_fn(Seq<char>, Seq<char>) -> bool {
    |a: Seq<char>, b: Seq<char>| lex_le(a, b)
}

/// The method list that a text form stands for.
pub open spec fn parse_methods_spec(s: Seq<char>) -> Seq<Seq<char>> {
    fields_from(s, 0).map_values(|f: Seq<char>| upper_of(f)).sort_by(lex_order())
}

/// The names joined by `,`.
pub open spec fn join_methods_spec(v: Seq<Seq<char>>) -> Seq<char>
    decreases v.len(),
{
    if v.len() == 0 {
        seq![]
    } else if v.len() == 1 {
        v[0]
    } else {
        join_methods_spec(v.drop_last()) + seq![','] + v.last()
    }
}

proof fn lemma_lex_reflexive(a: Seq<char>)
    ensures
        lex_le(a, a),
    decreases a.len(),
{
    if a.len() > 0 {
        lemma_lex_reflexive(a.drop_first());
    }
}

proof fn lemma_lex_antisymmetric(a: Seq<char>, b: Seq<char>)
    requires
        lex_le(a, b),
        lex_le(b, a),
    ensures
        a == b,
    decreases a.len(),
{
    if a.len() > 0 && b.len() > 0 {
        lemma_lex_antisymmetric(a.drop_first(), b.drop_first());
        vstd::utf8::char_u32_cast(a[0], a[0] as u32);
        vstd::utf8::char_u32_cast(b[0], b[0] as u32);
        assert(a =~= seq![a[0]] + a.drop_first());
        assert(b =~= seq![b[0]] + b.drop_first());
    }
}

proof fn lemma_lex_transitive(a: Seq<char>, b: Seq<char>, c: Seq<char>)
    requires
        lex_le(a, b),
        lex_le(b, c),
    ensures
        lex_le(a, c),
    decreases a.len(),
{
    if a.len() > 0 && b.len() > 0 && c.len() > 0 {
        if (a[0] as u32) == (b[0] as u32) && (b[0] as u32) == (c[0] as u32) {
            lemma_lex_transitive(a.drop_first(), b.drop_first(), c.drop_first());
        }
    }
}

proof fn lemma_lex_total(a: Seq<char>, b: Seq<char>)
    ensures
        lex_le(a, b) || lex_le(b, a),
    decreases a.len(),
{
    if a.len() > 0 && b.len() > 0 {
        lemma_lex_total(a.drop_first(), b.drop_first());
    }
}

pub proof fn lemma_lex_total_ordering()
    ensures
        total_ordering(lex_order()),
{
    let r = lex_order();
    assert forall|x: Seq<char>| #[trigger] r(x, x) by {
        lemma_lex_reflexive(x);
    }
    assert forall|x: Seq<char>, y: Seq<char>| #[trigger] r(x, y) && #[trigger] r(y, x) implies x
        == y by {
        lemma_lex_antisymmetric(x, y);
    }
    assert forall|x: Seq<char>, y: Seq<char>, z: Seq<char>| #[trigger] r(x, y) && #[trigger] r(
        y,
        z,
    ) implies r(x, z) by {
        lemma_lex_transitive(x, y, z);
    }
    assert forall|x: Seq<char>, y: Seq<char>| #[trigger] r(x, y) || #[trigger] r(y, x) by {
        lemma_lex_total(x, y);
    }
}

fn lex_le_exec(a: &Vec<char>, b: &Vec<char>) -> (r: bool)
    ensures
        r == lex_le(a@, b@),
{
    let mut i: usize = 0;
    assert(a@.skip(0) =~= a@ && b@.skip(0) =~= b@);
    while i < a.len() && i < b.len()
        invariant
            i <= a.len(),
            i <= b.len(),
            lex_le(a@, b@) == lex_le(a@.skip(i as int), b@.skip(i as int)),
        decreases a.len() - i,
    {
        let x = a[i] as u32;
        let y = b[i] as u32;
        assert(a@.skip(i as int)[0] == a@[i as int]);
        assert(b@.skip(i as int)[0] == b@[i as int]);
        if x != y {
            return x < y;
        }
        assert(a@.skip(i as int).drop_first() =~= a@.skip(i + 1));
        assert(b@.skip(i as int).drop_first() =~= b@.skip(i + 1));
        i = i + 1;
    }
    i == a.len()
}

proof fn lemma_insert_sorted(s: Seq<Seq<char>>, j: int, x: Seq<char>)
    requires
        total_ordering(lex_order()),
        sorted_by(s, lex_order()),
        0 <= j <= s.len(),
        forall|i: int| 0 <= i < j ==> lex_le(#[trigger] s[i], x),
        j < s.len() ==> lex_le(x, s[j]),
    ensures
        sorted_by(s.insert(j, x), lex_order()),
{
    let t = s.insert(j, x);
    s.insert_ensures(j, x);
    let r = lex_order();
    assert forall|a: int, b: int| 0 <= a < b < t.len() implies #[trigger] r(t[a], t[b]) by {
        if b < j {
            assert(r(s[a], s[b]));
        } else if b == j {
            assert(lex_le(s[a], x));
        } else if a < j {
            assert(lex_le(s[a], x));
            assert(lex_le(x, s[j]));
            assert(r(s[j], s[b - 1]) || j == b - 1);
            if j < b - 1 {
                assert(r(s[j], s[b - 1]));
            }
            lemma_lex_transitive(s[a], x, s[j]);
            if j < b - 1 {
                lemma_lex_transitive(s[a], s[j], s[b - 1]);
            }
        } else if a == j {
            if j < b - 1 {
                assert(r(s[j], s[b - 1]));
                lemma_lex_transitive(x, s[j], s[b - 1]);
            }
        } else {
            assert(r(s[a - 1], s[b - 1]));
        }
    }
}

proof fn lemma_insert_multiset(s: Seq<Seq<char>>, j: int, x: Seq<char>)
    requires
        0 <= j <= s.len(),
    ensures
        s.insert(j, x).to_multiset() == s.to_multiset().insert(x),
{
    broadcast use vstd::seq_lib::group_to_multiset_ensures, vstd::multiset::group_multiset_axioms;

    let a = s.subrange(0, j);
    let b = s.subrange(j, s.len() as int);
    vstd::seq_lib::lemma_multiset_commutative(a.push(x), b);
    vstd::seq_lib::lemma_multiset_commutative(a, b);
    assert(s =~= a + b);
    assert(s.insert(j, x) =~= a.push(x) + b);
    assert(s.insert(j, x).to_multiset() =~= s.to_multiset().insert(x));
}

/// Sorts method names by `lex_le`, the order of `String`'s `Ord`.
pub fn sort_methods(v: &Vec<String>) -> (r: Vec<String>)
    ensures
        views(r@) == views(v@).sort_by(lex_order()),
{
    broadcast use vstd::seq_lib::group_to_multiset_ensures;

    proof {
        lemma_lex_total_ordering();
    }
    let ghost input = views(v@);
    let mut out: Vec<String> = Vec::new();
    let mut k: usize = 0;
    while k < v.len()
        invariant
            total_ordering(lex_order()),
            input == views(v@),
            k <= v.len(),
            sorted_by(views(out@), lex_order()),
            views(out@).to_multiset() == input.subrange(0, k as int).to_multiset(),
        decreases v.len() - k,
    {
        let x = v[k].clone();
        assert(x@ == input[k as int]);
        let xc = chars_of(x.as_str());
        let ghost before = views(out@);
        let mut j: usize = 0;
        let mut stop = false;
        while !stop && j < out.len()
            invariant
                j <= out.len(),
                xc@ == x@,
                before == views(out@),
                forall|i: int| 0 <= i < j ==> lex_le(#[trigger] before[i], x@),
                stop ==> j < out.len() && !lex_le(before[j as int], x@),
            decreases out.len() - j, if stop {
                0int
            } else {
                1int
            },
        {
            let oc = chars_of(out[j].as_str());
            if !lex_le_exec(&oc, &xc) {
                stop = true;
            } else {
                j = j + 1;
            }
        }
        proof {
            if j < out.len() {
                lemma_lex_total(before[j as int], x@);
            }
            lemma_insert_sorted(before, j as int, x@);
            lemma_insert_multiset(before, j as int, x@);
            assert(input.subrange(0, k + 1) =~= input.subrange(0, k as int).push(input[k as int]));
        }
        out.insert(j, x);
        assert(views(out@) =~= before.insert(j as int, x@));
        proof {
            input.subrange(0, k as int).to_multiset_ensures();
        }
        k = k + 1;
    }
    proof {
        let s = views(out@);
        assert(input.subrange(0, v.len() as int) =~= input);
        input.lemma_sort_by_ensures(lex_order());
        vstd::seq_lib::lemma_sorted_unique(s, input.sort_by(lex_order()), lex_order());
    }
    out
}

fn next_separator_exec(s: &Vec<char>, i: usize) -> (r: usize)
    requires
        i <= s.len(),
    ensures
        r == next_separator(s@, i as int),
{
    let mut j = i;
    while j < s.len() && !(s[j] == ',' || s[j] == '|')
        invariant
            i <= j <= s.len(),
            next_separator(s@, i as int) == next_separator(s@, j as int),
        decreases s.len() - j,
    {
        j = j + 1;
    }
    j
}

/// Splits `s` at every `,` and `|`.
fn split_fields(s: &Vec<char>) -> (r: Vec<String>)
    ensures
        views(r@) == fields_from(s@, 0),
{
    let mut out: Vec<String> = Vec::new();
    let mut i: usize = 0;
    loop
        invariant_except_break
            i <= s.len(),
            fields_from(s@, 0) == views(out@) + fields_from(s@, i as int),
        ensures
            views(out@) == fields_from(s@, 0),
        decreases s.len() - i,
    {
        let j = next_separator_exec(s, i);
        proof {
            lemma_next_separator(s@, i as int);
        }
        if j >= s.len() {
            let f = string_from_chars(slice_chars(s, i, s.len()).as_slice());
            out.push(f);
            assert(views(out@) =~= fields_from(s@, 0));
            break;
        }
        let f = string_from_chars(slice_chars(s, i, j).as_slice());
        let ghost prev = views(out@);
        out.push(f);
        assert(views(out@) =~= prev.push(f@));
        assert(prev + fields_from(s@, i as int) =~= views(out@) + fields_from(s@, j + 1));
        i = j + 1;
    }
    out
}

/// Reads a method list: split at every `,` and `|`, each name in upper case,
/// sorted.
pub fn parse_methods(s: &str) -> (r: Vec<String>)
    ensures
        views(r@) == parse_methods_spec(s@),
{
    let c = chars_of(s);
    let fields = split_fields(&c);
    let mut upper: Vec<String> = Vec::new();
    let mut k: usize = 0;
    while k < fields.len()
        invariant
            k <= fields.len(),
            views(upper@) == views(fields@).subrange(0, k as int).map_values(
                |f: Seq<char>| upper_of(f),
            ),
        decreases fields.len() - k,
    {
        let u = to_upper(fields[k].as_str());
        let ghost prev = views(upper@);
        assert(views(fields@)[k as int] == fields@[k as int]@);
        upper.push(u);
        assert(views(upper@) =~= prev.push(u@));
        k = k + 1;
        assert(views(upper@) =~= views(fields@).subrange(0, k as int).map_values(
            |f: Seq<char>| upper_of(f),
        ));
    }
    assert(views(fields@).subrange(0, k as int) =~= views(fields@));
    sort_methods(&upper)
}

/// Writes a method list: the names joined by `,`.
pub fn join_methods(methods: &Vec<String>) -> (r: String)
    ensures
        r@ == join_methods_spec(views(methods@)),
{
    let ghost ms = views(methods@);
    let mut out: Vec<char> = Vec::new();
    let mut k: usize = 0;
    while k < methods.len()
        invariant
            ms == views(methods@),
            k <= methods.len(),
            out@ == join_methods_spec(ms.subrange(0, k as int)),
        decreases methods.len() - k,
    {
        let ghost prev = ms.subrange(0, k as int);
        if k > 0 {
            out.push(',');
        }
        append_chars(&mut out, &chars_of(methods[k].as_str()));
        k = k + 1;
        assert(ms.subrange(0, k as int).drop_last() =~= prev);
        if k == 1 {
            assert(out@ =~= ms.subrange(0, 1)[0]);
        }
    }
    assert(ms.subrange(0, k as int) =~= ms);
    string_from_chars(out.as_slice())
}

} // verus!
