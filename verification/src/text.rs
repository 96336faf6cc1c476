//! Character-level text helpers shared by the rest of the library: the
//! operations the widget host performs on strings (trimming, prefix tests,
//! separator replacement, splitting), each stated over `Seq<char>`.

use vstd::prelude::*;

verus! {

/// Whether `c` has the Unicode `White_Space` property, the set that
/// `char::is_whitespace` tests.
pub open spec fn is_ws(c: char) -> bool {
    ||| ('\u{9}' <= c && c <= '\u{d}')
    ||| c == ' '
    ||| c == '\u{85}'
    ||| c == '\u{a0}'
    ||| c == '\u{1680}'
    ||| ('\u{2000}' <= c && c <= '\u{200a}')
    ||| c == '\u{2028}'
    ||| c == '\u{2029}'
    ||| c == '\u{202f}'
    ||| c == '\u{205f}'
    ||| c == '\u{3000}'
}

/// `s` without its trailing whitespace.
pub open spec fn trim_end_ws(s: Seq<char>) -> Seq<char>
    decreases s.len(),
{
    if s.len() > 0 && is_ws(s.last()) {
        trim_end_ws(s.drop_last())
    } else {
        s
    }
}

/// `s` without its leading whitespace.
pub open spec fn trim_start_ws(s: Seq<char>) -> Seq<char>
    decreases s.len(),
{
    if s.len() > 0 && is_ws(s[0]) {
        trim_start_ws(s.drop_first())
    } else {
        s
    }
}

/// `s` without leading and trailing whitespace (`str::trim`).
pub open spec fn trim_ws(s: Seq<char>) -> Seq<char> {
    trim_start_ws(trim_end_ws(s))
}

/// `s` without every trailing occurrence of `c` (`str::trim_end_matches` with a char).
pub open spec fn trim_end_char(s: Seq<char>, c: char) -> Seq<char>
    decreases s.len(),
{
    if s.len() > 0 && s.last() == c {
        trim_end_char(s.drop_last(), c)
    } else {
        s
    }
}

/// `s` without every leading occurrence of `c` (`str::trim_start_matches` with a char).
pub open spec fn trim_start_char(s: Seq<char>, c: char) -> Seq<char>
    decreases s.len(),
{
    if s.len() > 0 && s[0] == c {
        trim_start_char(s.drop_first(), c)
    } else {
        s
    }
}

/// Whether `s` begins with `p`.
pub open spec fn has_prefix(s: Seq<char>, p: Seq<char>) -> bool {
    p.len() <= s.len() && s.take(p.len() as int) == p
}

/// Whether `s` ends with `p`.
pub open spec fn has_suffix(s: Seq<char>, p: Seq<char>) -> bool {
    p.len() <= s.len() && s.skip(s.len() - p.len()) == p
}

/// `s` without every trailing occurrence of the non-empty pattern `p`
/// (`str::trim_end_matches` with a string pattern).
pub open spec fn trim_end_pattern(s: Seq<char>, p: Seq<char>) -> Seq<char>
    decreases s.len(),
{
    if p.len() > 0 && has_suffix(s, p) {
        trim_end_pattern(s.take(s.len() - p.len()), p)
    } else {
        s
    }
}

/// Whether `p` occurs somewhere in `s` as a contiguous piece.
pub open spec fn has_infix(s: Seq<char>, p: Seq<char>) -> bool {
    exists|i: int| 0 <= i && i + p.len() <= s.len() && #[trigger] s.subrange(i, i + p.len()) == p
}

/// `s` with every `from` replaced by `to` (`str::replace` with two chars).
pub open spec fn replace_char(s: Seq<char>, from: char, to: char) -> Seq<char> {
    s.map_values(|x: char| if x == from { to } else { x })
}

/// The index of the first `c` in `s`, or the length of `s` when there is none.
pub open spec fn first_index(s: Seq<char>, c: char) -> int
    decreases s.len(),
{
    if s.len() == 0 {
        0
    } else if s[0] == c {
        0
    } else {
        1 + first_index(s.drop_first(), c)
    }
}

/// The text before the first `c` (the first item of `str::split`).
pub open spec fn before_first(s: Seq<char>, c: char) -> Seq<char> {
    s.take(first_index(s, c))
}

/// The text after the first `c`, when `s` holds one.
pub open spec fn after_first(s: Seq<char>, c: char) -> Option<Seq<char>> {
    if first_index(s, c) < s.len() {
        Some(s.skip(first_index(s, c) + 1))
    } else {
        None
    }
}

/// `first_index` lies within `s`, no earlier character is `c`, and it
/// points at a `c` unless it is the length.
pub proof fn lemma_first_index(s: Seq<char>, c: char)
    ensures
        0 <= first_index(s, c) <= s.len(),
        forall|j: int| 0 <= j < first_index(s, c) ==> s[j] != c,
        first_index(s, c) < s.len() ==> s[first_index(s, c)] == c,
    decreases s.len(),
{
    if s.len() > 0 && s[0] != c {
        lemma_first_index(s.drop_first(), c);
        assert forall|j: int| 0 <= j < first_index(s, c) implies s[j] != c by {
            if j > 0 {
                assert(s[j] == s.drop_first()[j - 1]);
            }
        }
    }
}

/// `first_index` is the unique position described by `lemma_first_index`.
pub proof fn lemma_first_index_unique(s: Seq<char>, c: char, i: int)
    requires
        0 <= i <= s.len(),
        forall|j: int| 0 <= j < i ==> s[j] != c,
        i == s.len() || s[i] == c,
    ensures
        first_index(s, c) == i,
    decreases s.len(),
{
    if s.len() > 0 && s[0] != c {
        assert forall|j: int| 0 <= j < i - 1 implies s.drop_first()[j] != c by {
            assert(s[j + 1] != c);
        }
        lemma_first_index_unique(s.drop_first(), c, i - 1);
    }
}

/// Appends one character (`String::push`).
#[verifier::external_body]
fn push_char(s: &mut String, c: char)
    ensures
        final(s)@ == old(s)@.push(c),
{
    s.push(c);
}

/// Collects the characters of a string slice.
pub fn chars_of(s: &str) -> (v: Vec<char>)
    ensures
        v@ == s@,
{
    let mut v: Vec<char> = Vec::new();
    for c in it: s.chars()
        invariant
            v@ == it.seq().take(it.index() as int),
            it.seq() == s@,
    {
        v.push(c);
    }
    v
}

/// The string made of `v[start..end]`.
pub fn string_of(v: &Vec<char>, start: usize, end: usize) -> (s: String)
    requires
        start <= end <= v.len(),
    ensures
        s@ == v@.subrange(start as int, end as int),
{
    let mut s = String::new();
    let mut i = start;
    while i < end
        invariant
            start <= i <= end <= v.len(),
            s@ == v@.subrange(start as int, i as int),
        decreases end - i,
    {
        push_char(&mut s, v[i]);
        assert(v@.subrange(start as int, i + 1) == v@.subrange(start as int, i as int).push(v@[i as int]));
        i = i + 1;
    }
    s
}

/// Joins two pieces of text.
pub fn concat2(a: &str, b: &str) -> (s: String)
    ensures
        s@ == a@ + b@,
{
    let mut s = String::new();
    s.append(a);
    s.append(b);
    s
}

/// Joins three pieces of text.
pub fn concat3(a: &str, b: &str, c: &str) -> (s: String)
    ensures
        s@ == a@ + b@ + c@,
{
    let mut s = String::new();
    s.append(a);
    s.append(b);
    s.append(c);
    s
}

/// Whether `c` is whitespace (`char::is_whitespace`).
pub fn is_whitespace(c: char) -> (b: bool)
    ensures
        b == is_ws(c),
{
    ('\u{9}' <= c && c <= '\u{d}') || c == ' ' || c == '\u{85}' || c == '\u{a0}' || c == '\u{1680}'
        || ('\u{2000}' <= c && c <= '\u{200a}') || c == '\u{2028}' || c == '\u{2029}' || c
        == '\u{202f}' || c == '\u{205f}' || c == '\u{3000}'
}

/// The bounds of `v` once leading and trailing whitespace are removed.
pub fn trim_bounds(v: &Vec<char>) -> (r: (usize, usize))
    ensures
        r.0 <= r.1 <= v.len(),
        v@.subrange(r.0 as int, r.1 as int) == trim_ws(v@),
{
    let mut e = v.len();
    assert(v@.take(e as int) == v@);
    while e > 0 && is_whitespace(v[e - 1])
        invariant
            e <= v.len(),
            trim_end_ws(v@) == trim_end_ws(v@.take(e as int)),
        decreases e,
    {
        assert(v@.take(e as int).drop_last() == v@.take(e - 1));
        e = e - 1;
    }
    assert(trim_end_ws(v@.take(e as int)) == v@.take(e as int));
    let mut b: usize = 0;
    while b < e && is_whitespace(v[b])
        invariant
            b <= e <= v.len(),
            trim_end_ws(v@) == v@.take(e as int),
            trim_ws(v@) == trim_start_ws(v@.subrange(b as int, e as int)),
        decreases e - b,
    {
        assert(v@.subrange(b as int, e as int).drop_first() == v@.subrange(b + 1, e as int));
        b = b + 1;
    }
    (b, e)
}

/// Whether `v[start..end]` begins with `p`.
pub fn starts_with_at(v: &Vec<char>, start: usize, end: usize, p: &Vec<char>) -> (b: bool)
    requires
        start <= end <= v.len(),
    ensures
        b == has_prefix(v@.subrange(start as int, end as int), p@),
{
    let ghost t = v@.subrange(start as int, end as int);
    if p.len() > end - start {
        return false;
    }
    let mut i: usize = 0;
    while i < p.len()
        invariant
            start <= end <= v.len(),
            p.len() <= end - start,
            t == v@.subrange(start as int, end as int),
            i <= p.len(),
            forall|j: int| 0 <= j < i ==> t[j] == p@[j],
        decreases p.len() - i,
    {
        if v[start + i] != p[i] {
            assert(t.take(p.len() as int)[i as int] != p@[i as int]);
            return false;
        }
        i = i + 1;
    }
    assert(t.take(p.len() as int) == p@);
    true
}

/// Whether `v[start..end]` ends with `p`.
pub fn ends_with_at(v: &Vec<char>, start: usize, end: usize, p: &Vec<char>) -> (b: bool)
    requires
        start <= end <= v.len(),
    ensures
        b == has_suffix(v@.subrange(start as int, end as int), p@),
{
    let ghost t = v@.subrange(start as int, end as int);
    if p.len() > end - start {
        return false;
    }
    let base = end - p.len();
    let mut i: usize = 0;
    while i < p.len()
        invariant
            start <= base <= end <= v.len(),
            base + p.len() == end,
            t == v@.subrange(start as int, end as int),
            i <= p.len(),
            forall|j: int| 0 <= j < i ==> v@[base + j] == p@[j],
        decreases p.len() - i,
    {
        if v[base + i] != p[i] {
            assert(t.skip(t.len() - p.len())[i as int] != p@[i as int]);
            return false;
        }
        i = i + 1;
    }
    assert(t.skip(t.len() - p.len()) == p@);
    true
}

/// The position of the first `c` in `v[start..end]`, or `end` when there is none.
pub fn find_char(v: &Vec<char>, start: usize, end: usize, c: char) -> (r: usize)
    requires
        start <= end <= v.len(),
    ensures
        start <= r <= end,
        r == start + first_index(v@.subrange(start as int, end as int), c),
{
    let ghost t = v@.subrange(start as int, end as int);
    let mut i = start;
    while i < end && v[i] != c
        invariant
            start <= i <= end <= v.len(),
            t == v@.subrange(start as int, end as int),
            forall|j: int| 0 <= j < i - start ==> t[j] != c,
        decreases end - i,
    {
        i = i + 1;
    }
    proof {
        lemma_first_index_unique(t, c, i - start);
    }
    i
}

/// The end of `v[start..end]` once every trailing `c` is removed.
pub fn trim_end_char_bound(v: &Vec<char>, start: usize, end: usize, c: char) -> (r: usize)
    requires
        start <= end <= v.len(),
    ensures
        start <= r <= end,
        v@.subrange(start as int, r as int) == trim_end_char(v@.subrange(start as int, end as int), c),
{
    let mut e = end;
    while e > start && v[e - 1] == c
        invariant
            start <= e <= end <= v.len(),
            trim_end_char(v@.subrange(start as int, end as int), c) == trim_end_char(
                v@.subrange(start as int, e as int),
                c,
            ),
        decreases e,
    {
        assert(v@.subrange(start as int, e as int).drop_last() == v@.subrange(start as int, e - 1));
        e = e - 1;
    }
    e
}

/// The start of `v[start..end]` once every leading `c` is removed.
pub fn trim_start_char_bound(v: &Vec<char>, start: usize, end: usize, c: char) -> (r: usize)
    requires
        start <= end <= v.len(),
    ensures
        start <= r <= end,
        v@.subrange(r as int, end as int) == trim_start_char(v@.subrange(start as int, end as int), c),
{
    let mut b = start;
    while b < end && v[b] == c
        invariant
            start <= b <= end <= v.len(),
            trim_start_char(v@.subrange(start as int, end as int), c) == trim_start_char(
                v@.subrange(b as int, end as int),
                c,
            ),
        decreases end - b,
    {
        assert(v@.subrange(b as int, end as int).drop_first() == v@.subrange(b + 1, end as int));
        b = b + 1;
    }
    b
}

/// The end of `v[start..end]` once every trailing occurrence of the
/// non-empty pattern `p` is removed.
pub fn trim_end_pattern_bound(v: &Vec<char>, start: usize, end: usize, p: &Vec<char>) -> (r: usize)
    requires
        start <= end <= v.len(),
        p.len() > 0,
    ensures
        start <= r <= end,
        v@.subrange(start as int, r as int) == trim_end_pattern(
            v@.subrange(start as int, end as int),
            p@,
        ),
{
    let mut e = end;
    while ends_with_at(v, start, e, p)
        invariant
            start <= e <= end <= v.len(),
            p.len() > 0,
            trim_end_pattern(v@.subrange(start as int, end as int), p@) == trim_end_pattern(
                v@.subrange(start as int, e as int),
                p@,
            ),
        decreases e,
    {
        assert(v@.subrange(start as int, e as int).take(e - start - p.len()) == v@.subrange(
            start as int,
            e - p.len(),
        ));
        e = e - p.len();
    }
    e
}

/// `s` with every `from` replaced by `to`.
pub fn replace_char_in(s: &str, from: char, to: char) -> (r: String)
    ensures
        r@ == replace_char(s@, from, to),
{
    let v = chars_of(s);
    let mut r = String::new();
    let mut i: usize = 0;
    while i < v.len()
        invariant
            i <= v.len(),
            v@ == s@,
            r@ == replace_char(v@.take(i as int), from, to),
        decreases v.len() - i,
    {
        let c = v[i];
        if c == from {
            push_char(&mut r, to);
        } else {
            push_char(&mut r, c);
        }
        assert(replace_char(v@.take(i + 1), from, to) == replace_char(v@.take(i as int), from, to).push(
            if c == from { to } else { c },
        ));
        i = i + 1;
    }
    assert(v@.take(v.len() as int) == v@);
    r
}

} // verus!
