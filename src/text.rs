//! Character-level helpers shared by the routing and addressing code.
//!
//! Strings are reasoned about through their view, a `Seq<char>`. Offsets
//! reported by the regex engine are UTF-8 byte offsets; `char_index_at`
//! turns them into character positions.
use vstd::prelude::*;

verus! {

pub open spec fn is_ascii_upper(c: char) -> bool {
    'A' <= c && c <= 'Z'
}

/// The code of `c` once ASCII upper case is folded to lower case.
pub open spec fn folded_code(c: char) -> u32 {
    if is_ascii_upper(c) {
        ((c as u32) + 32) as u32
    } else {
        c as u32
    }
}

/// Two strings are equal once ASCII upper case is folded to lower case.
pub open spec fn eq_ignore_ascii_case(a: Seq<char>, b: Seq<char>) -> bool {
    &&& a.len() == b.len()
    &&& forall|i: int| 0 <= i < a.len() ==> #[trigger] folded_code(a[i]) == folded_code(b[i])
}

fn fold_code(c: char) -> (r: u32)
    ensures
        r == folded_code(c),
{
    if 'A' <= c && c <= 'Z' {
        (c as u32) + 32
    } else {
        c as u32
    }
}

/// ASCII case-insensitive comparison, as `str::eq_ignore_ascii_case` does it.
pub fn equals_ignore_ascii_case(a: &str, b: &str) -> (r: bool)
    ensures
        r == eq_ignore_ascii_case(a@, b@),
{
    let x = chars_of(a);
    let y = chars_of(b);
    if x.len() != y.len() {
        return false;
    }
    let mut i: usize = 0;
    while i < x.len()
        invariant
            x@ == a@,
            y@ == b@,
            x.len() == y.len(),
            i <= x.len(),
            forall|j: int| 0 <= j < i ==> #[trigger] folded_code(x@[j]) == folded_code(y@[j]),
        decreases x.len() - i,
    {
        if fold_code(x[i]) != fold_code(y[i]) {
            assert(folded_code(a@[i as int]) != folded_code(b@[i as int]));
            return false;
        }
        i = i + 1;
    }
    true
}

/// The characters of `s`, in order.
pub fn chars_of(s: &str) -> (r: Vec<char>)
    ensures
        r@ == s@,
{
    let mut out: Vec<char> = Vec::new();
    for c in it: s.chars()
        invariant
            out@ == it.seq().take(it.index() as int),
    {
        out.push(c);
    }
    out
}

/// Relies on `FromIterator<char>` for `String`: the string holds the given
/// characters in order.
#[verifier::external_body]
pub(crate) fn string_from_chars(v: &[char]) -> (r: String)
    ensures
        r@ == v@,
{
    v.iter().collect()
}

/// The characters of `v` from `start` up to, not including, `end`.
pub fn slice_chars(v: &Vec<char>, start: usize, end: usize) -> (r: Vec<char>)
    requires
        start <= end <= v.len(),
    ensures
        r@ == v@.subrange(start as int, end as int),
{
    let mut out: Vec<char> = Vec::new();
    let mut i: usize = start;
    while i < end
        invariant
            start <= i <= end <= v.len(),
            out@ == v@.subrange(start as int, i as int),
        decreases end - i,
    {
        out.push(v[i]);
        i = i + 1;
    }
    out
}

/// Appends the characters of `src` to `dst`.
pub fn append_chars(dst: &mut Vec<char>, src: &Vec<char>)
    ensures
        final(dst)@ == old(dst)@ + src@,
{
    let mut i: usize = 0;
    while i < src.len()
        invariant
            i <= src.len(),
            dst@ == old(dst)@ + src@.subrange(0, i as int),
        decreases src.len() - i,
    {
        dst.push(src[i]);
        i = i + 1;
    }
    assert(src@.subrange(0, src@.len() as int) =~= src@);
}

/// `s` begins with `prefix`.
pub open spec fn starts_with(s: Seq<char>, prefix: Seq<char>) -> bool {
    prefix.len() <= s.len() && s.subrange(0, prefix.len() as int) == prefix
}

pub fn has_prefix(s: &Vec<char>, prefix: &Vec<char>) -> (r: bool)
    ensures
        r == starts_with(s@, prefix@),
{
    if prefix.len() > s.len() {
        return false;
    }
    let mut i: usize = 0;
    while i < prefix.len()
        invariant
            prefix.len() <= s.len(),
            i <= prefix.len(),
            forall|j: int| 0 <= j < i ==> s@[j] == prefix@[j],
        decreases prefix.len() - i,
    {
        if s[i] != prefix[i] {
            assert(s@.subrange(0, prefix.len() as int)[i as int] != prefix@[i as int]);
            return false;
        }
        i = i + 1;
    }
    assert(s@.subrange(0, prefix.len() as int) =~= prefix@);
    true
}

/// `s` without the `/` characters it ends with.
pub open spec fn trim_trailing_slashes(s: Seq<char>) -> Seq<char>
    decreases s.len(),
{
    if s.len() > 0 && s.last() == '/' {
        trim_trailing_slashes(s.drop_last())
    } else {
        s
    }
}

/// `s` without the `/` characters it starts with.
pub open spec fn trim_leading_slashes(s: Seq<char>) -> Seq<char>
    decreases s.len(),
{
    if s.len() > 0 && s[0] == '/' {
        trim_leading_slashes(s.drop_first())
    } else {
        s
    }
}

/// What `trim_trailing_slashes` removes is a run of `/`.
pub proof fn lemma_trim_trailing_slashes(s: Seq<char>)
    ensures
        trim_trailing_slashes(s).len() <= s.len(),
        trim_trailing_slashes(s) == s.subrange(0, trim_trailing_slashes(s).len() as int),
        forall|i: int| trim_trailing_slashes(s).len() <= i < s.len() ==> #[trigger] s[i] == '/',
        trim_trailing_slashes(s).len() == 0 || trim_trailing_slashes(s).last() != '/',
    decreases s.len(),
{
    if s.len() > 0 && s.last() == '/' {
        lemma_trim_trailing_slashes(s.drop_last());
        let t = trim_trailing_slashes(s.drop_last());
        assert(s.drop_last().subrange(0, t.len() as int) =~= s.subrange(0, t.len() as int));
        assert forall|i: int| t.len() <= i < s.len() implies #[trigger] s[i] == '/' by {
            if i < s.len() - 1 {
                assert(s.drop_last()[i] == s[i]);
            }
        }
    } else {
        assert(s.subrange(0, s.len() as int) =~= s);
    }
}

/// What `trim_leading_slashes` leaves does not start with `/`.
pub proof fn lemma_trim_leading_slashes(s: Seq<char>)
    ensures
        trim_leading_slashes(s).len() == 0 || trim_leading_slashes(s)[0] != '/',
    decreases s.len(),
{
    if s.len() > 0 && s[0] == '/' {
        lemma_trim_leading_slashes(s.drop_first());
    }
}

/// `v` without the `/` characters it ends with.
pub fn trim_trailing_slashes_chars(v: &Vec<char>) -> (r: Vec<char>)
    ensures
        r@ == trim_trailing_slashes(v@),
{
    let mut n = v.len();
    assert(v@.subrange(0, n as int) =~= v@);
    while n > 0 && v[n - 1] == '/'
        invariant
            n <= v.len(),
            trim_trailing_slashes(v@) == trim_trailing_slashes(v@.subrange(0, n as int)),
        decreases n,
    {
        assert(v@.subrange(0, n as int).drop_last() =~= v@.subrange(0, n - 1));
        n = n - 1;
    }
    slice_chars(v, 0, n)
}

/// `v` without the `/` characters it starts with.
pub fn trim_leading_slashes_chars(v: &Vec<char>) -> (r: Vec<char>)
    ensures
        r@ == trim_leading_slashes(v@),
{
    let mut i: usize = 0;
    assert(v@.subrange(0, v@.len() as int) =~= v@);
    while i < v.len() && v[i] == '/'
        invariant
            i <= v.len(),
            trim_leading_slashes(v@) == trim_leading_slashes(v@.subrange(i as int, v@.len() as int)),
        decreases v.len() - i,
    {
        assert(v@.subrange(i as int, v@.len() as int).drop_first() =~= v@.subrange(
            i + 1,
            v@.len() as int,
        ));
        i = i + 1;
    }
    slice_chars(v, i, v.len())
}

/// `needle` occurs in `s` starting at position `i`.
pub open spec fn occurs_at(s: Seq<char>, needle: Seq<char>, i: int) -> bool {
    0 <= i && i + needle.len() <= s.len() && s.subrange(i, i + needle.len()) == needle
}

/// `i` is the leftmost position at which `needle` occurs in `s`.
pub open spec fn first_occurrence(s: Seq<char>, needle: Seq<char>, i: int) -> bool {
    occurs_at(s, needle, i) && forall|j: int| 0 <= j < i ==> !#[trigger] occurs_at(s, needle, j)
}

/// `s` with its leftmost occurrence of `from` replaced by `to`; `s` itself when
/// `from` does not occur.
pub open spec fn replace_first(s: Seq<char>, from: Seq<char>, to: Seq<char>) -> Seq<char> {
    if exists|i: int| occurs_at(s, from, i) {
        let i = choose|i: int| first_occurrence(s, from, i);
        s.subrange(0, i) + to + s.subrange(i + from.len(), s.len() as int)
    } else {
        s
    }
}

fn occurs_here(s: &Vec<char>, needle: &Vec<char>, i: usize) -> (r: bool)
    requires
        i + needle.len() <= s.len(),
    ensures
        r == occurs_at(s@, needle@, i as int),
{
    let mut j: usize = 0;
    while j < needle.len()
        invariant
            i + needle.len() <= s.len(),
            j <= needle.len(),
            forall|k: int| 0 <= k < j ==> s@[i + k] == needle@[k],
        decreases needle.len() - j,
    {
        if s[i + j] != needle[j] {
            assert(s@.subrange(i as int, i + needle.len())[j as int] != needle@[j as int]);
            return false;
        }
        j = j + 1;
    }
    assert(s@.subrange(i as int, i + needle.len()) =~= needle@);
    true
}

/// The leftmost position at which `needle` occurs in `s`.
pub fn find_first(s: &Vec<char>, needle: &Vec<char>) -> (r: Option<usize>)
    ensures
        match r {
            Some(i) => first_occurrence(s@, needle@, i as int),
            None => forall|j: int| !#[trigger] occurs_at(s@, needle@, j),
        },
{
    if needle.len() > s.len() {
        return None;
    }
    let last = s.len() - needle.len();
    let mut i: usize = 0;
    while i <= last
        invariant_except_break
            i <= last,
        invariant
            last + needle.len() == s.len(),
            forall|j: int| 0 <= j < i ==> !#[trigger] occurs_at(s@, needle@, j),
        ensures
            forall|j: int| 0 <= j <= last ==> !#[trigger] occurs_at(s@, needle@, j),
        decreases last + 1 - i,
    {
        if occurs_here(s, needle, i) {
            return Some(i);
        }
        if i == last {
            break;
        }
        i = i + 1;
    }
    None
}

/// Replaces the leftmost occurrence of `from` in `s` by `to`.
pub fn replace_first_chars(s: &Vec<char>, from: &Vec<char>, to: &Vec<char>) -> (r: Vec<char>)
    ensures
        r@ == replace_first(s@, from@, to@),
{
    match find_first(s, from) {
        Some(i) => {
            assert(occurs_at(s@, from@, i as int));
            proof {
                let w = choose|w: int| first_occurrence(s@, from@, w);
                if w < i {
                    assert(!occurs_at(s@, from@, w));
                } else if w > i {
                    assert(!occurs_at(s@, from@, i as int));
                }
            }
            let mut out = slice_chars(s, 0, i);
            append_chars(&mut out, to);
            let n = s.len();
            let rest = slice_chars(s, i + from.len(), n);
            append_chars(&mut out, &rest);
            out
        },
        None => {
            let mut out: Vec<char> = Vec::new();
            append_chars(&mut out, s);
            out
        },
    }
}

/// Number of bytes in the UTF-8 encoding of `c`.
pub open spec fn utf8_width(c: char) -> int {
    if (c as u32) < 0x80 {
        1
    } else if (c as u32) < 0x800 {
        2
    } else if (c as u32) < 0x10000 {
        3
    } else {
        4
    }
}

fn utf8_width_of(c: char) -> (r: usize)
    ensures
        r == utf8_width(c),
{
    let u = c as u32;
    if u < 0x80 {
        1
    } else if u < 0x800 {
        2
    } else if u < 0x10000 {
        3
    } else {
        4
    }
}

/// The number of characters of `s` whose UTF-8 encoding takes exactly `off`
/// bytes; none when `off` falls inside a character or past the end.
pub open spec fn char_index_at(s: Seq<char>, off: int) -> Option<nat>
    decreases s.len(),
{
    if off == 0 {
        Some(0)
    } else if s.len() == 0 || off < utf8_width(s[0]) {
        None
    } else {
        match char_index_at(s.drop_first(), off - utf8_width(s[0])) {
            Some(k) => Some(k + 1),
            None => None,
        }
    }
}

proof fn lemma_utf8_width(c: char)
    ensures
        vstd::utf8::encode_scalar(c as u32).len() == utf8_width(c),
{
    vstd::utf8::char_is_scalar(c);
}

/// `char_index_at` agrees with the UTF-8 encoding of `s`: it gives `k` exactly
/// when the first `k` characters take `off` bytes.
pub proof fn lemma_char_index_at_encoding(s: Seq<char>, off: int, k: nat)
    ensures
        char_index_at(s, off) == Some(k) <==> (k <= s.len() && vstd::utf8::encode_utf8(
            s.subrange(0, k as int),
        ).len() == off),
    decreases s.len(),
{
    if s.len() > 0 {
        lemma_utf8_width(s[0]);
    }
    if k > 0 && k <= s.len() {
        assert(s.subrange(0, k as int).drop_first() =~= s.drop_first().subrange(0, k - 1));
        assert(s.subrange(0, k as int)[0] == s[0]);
    }
    if off == 0 {
        if k > 0 && k <= s.len() {
            assert(vstd::utf8::encode_utf8(s.subrange(0, k as int)).len() >= utf8_width(s[0]));
        }
    } else if s.len() > 0 && off >= utf8_width(s[0]) {
        if k > 0 {
            lemma_char_index_at_encoding(s.drop_first(), off - utf8_width(s[0]), (k - 1) as nat);
        } else {
            lemma_char_index_at_encoding(s.drop_first(), off - utf8_width(s[0]), 0);
        }
    } else if k > 0 && k <= s.len() {
        assert(vstd::utf8::encode_utf8(s.subrange(0, k as int)).len() >= utf8_width(s[0]));
    }
}

/// The character position of `s` at byte offset `off`.
pub fn char_index_of_byte(s: &Vec<char>, off: usize) -> (r: Option<usize>)
    ensures
        match r {
            Some(k) => char_index_at(s@, off as int) == Some(k as nat),
            None => char_index_at(s@, off as int) is None,
        },
{
    let mut k: usize = 0;
    let mut acc: usize = 0;
    assert(s@.skip(0) =~= s@);
    while acc < off && k < s.len()
        invariant
            k <= s.len(),
            acc <= off,
            char_index_at(s@, off as int) == match char_index_at(
                s@.skip(k as int),
                off - acc,
            ) {
                Some(j) => Some((j + k) as nat),
                None => None,
            },
        decreases s.len() - k,
    {
        let w = utf8_width_of(s[k]);
        assert(s@.skip(k as int)[0] == s@[k as int]);
        if w > off - acc {
            return None;
        }
        assert(s@.skip(k as int).drop_first() =~= s@.skip(k as int + 1));
        acc = acc + w;
        k = k + 1;
    }
    if acc == off {
        Some(k)
    } else {
        assert(s@.skip(k as int).len() == 0);
        None
    }
}

} // verus!
