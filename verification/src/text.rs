//! Character-level string helpers shared by the scanners: conversion between
//! `&str` and character vectors, Unicode white space, trimming and searching.

use vstd::prelude::*;

verus! {

/// `String::push` appends one character at the end of the string.
pub assume_specification[ String::push ](s: &mut String, ch: char)
    ensures
        final(s)@ == old(s)@.push(ch),
;

/// The Unicode `White_Space` property, as `char::is_whitespace` documents it.
pub open spec fn is_ws(c: char) -> bool {
    ||| ('\u{9}' <= c && c <= '\u{d}')
    ||| c == ' '
    ||| c == '\u{85}'
    ||| c == '\u{a0}'
    ||| c == '\u{1680}'
    ||| ('\u{2000}' <= c && c <= '\u{200a}')
    ||| c == '\u{2028}'
    ||| c == '\u{2029}'
    ||| c == '\u{202f}'
    ||| c == '\u{205f}'
    ||| c == '\u{3000}'
}

/// Whether `c` is Unicode white space.
pub fn is_whitespace(c: char) -> (b: bool)
    ensures
        b == is_ws(c),
{
    ('\u{9}' <= c && c <= '\u{d}') || c == ' ' || c == '\u{85}' || c == '\u{a0}' || c
        == '\u{1680}' || ('\u{2000}' <= c && c <= '\u{200a}') || c == '\u{2028}' || c
        == '\u{2029}' || c == '\u{202f}' || c == '\u{205f}' || c == '\u{3000}'
}

/// Whether `c` is an ASCII decimal digit.
pub open spec fn is_digit(c: char) -> bool {
    '0' <= c && c <= '9'
}

/// `s` without its leading white space.
pub open spec fn trim_start(s: Seq<char>) -> Seq<char>
    decreases s.len(),
{
    if s.len() > 0 && is_ws(s[0]) {
        trim_start(s.drop_first())
    } else {
        s
    }
}

/// `s` without its trailing white space.
pub open spec fn trim_end(s: Seq<char>) -> Seq<char>
    decreases s.len(),
{
    if s.len() > 0 && is_ws(s.last()) {
        trim_end(s.drop_last())
    } else {
        s
    }
}

/// `s` without leading and trailing white space (`str::trim`).
pub open spec fn trim(s: Seq<char>) -> Seq<char> {
    trim_end(trim_start(s))
}

/// First index `k >= i` with `s[k] == c`.
pub open spec fn find_char(s: Seq<char>, c: char, i: int) -> Option<int>
    decreases s.len() - i,
{
    if i < 0 || i >= s.len() {
        None
    } else if s[i] == c {
        Some(i)
    } else {
        find_char(s, c, i + 1)
    }
}

/// Whether `pat` occurs in `s` at index `k`.
pub open spec fn occurs_at(s: Seq<char>, pat: Seq<char>, k: int) -> bool {
    0 <= k && k + pat.len() <= s.len() && s.subrange(k, k + pat.len()) == pat
}

/// First index `k >= i` at which `pat` occurs in `s`.
pub open spec fn find_seq(s: Seq<char>, pat: Seq<char>, i: int) -> Option<int>
    decreases s.len() + 1 - i,
{
    if i < 0 || i + pat.len() > s.len() {
        None
    } else if occurs_at(s, pat, i) {
        Some(i)
    } else {
        find_seq(s, pat, i + 1)
    }
}

/// Whether `pat` occurs anywhere in `s`.
pub open spec fn contains_seq(s: Seq<char>, pat: Seq<char>) -> bool {
    find_seq(s, pat, 0) is Some
}

/// `r` is the position `s`, in machine form.
pub open spec fn same_idx(r: Option<usize>, s: Option<int>) -> bool {
    match (r, s) {
        (Some(a), Some(b)) => a as int == b,
        (None, None) => true,
        _ => false,
    }
}

/// `r` is the pair of positions `s`, in machine form.
pub open spec fn same_pair(r: Option<(usize, usize)>, s: Option<(int, int)>) -> bool {
    match (r, s) {
        (Some((a, b)), Some((c, d))) => a as int == c && b as int == d,
        (None, None) => true,
        _ => false,
    }
}

pub proof fn lemma_find_seq(s: Seq<char>, pat: Seq<char>, i: int)
    requires
        0 <= i,
    ensures
        find_seq(s, pat, i) matches Some(k) ==> {
            &&& i <= k
            &&& k + pat.len() <= s.len()
            &&& occurs_at(s, pat, k)
            &&& forall|t: int| i <= t < k ==> !#[trigger] occurs_at(s, pat, t)
        },
        find_seq(s, pat, i) is None ==> forall|t: int| i <= t ==> !#[trigger] occurs_at(s, pat, t),
    decreases s.len() + 1 - i,
{
    if i + pat.len() <= s.len() && !occurs_at(s, pat, i) {
        lemma_find_seq(s, pat, i + 1);
    }
}

pub proof fn lemma_find_char_is(s: Seq<char>, c: char, i: int, k: int)
    requires
        0 <= i <= k < s.len(),
        s[k] == c,
        forall|t: int| i <= t < k ==> s[t] != c,
    ensures
        find_char(s, c, i) == Some(k),
    decreases k - i,
{
    if i < k {
        lemma_find_char_is(s, c, i + 1, k);
    }
}

pub proof fn lemma_find_char_none(s: Seq<char>, c: char, i: int)
    requires
        0 <= i,
        forall|t: int| i <= t < s.len() ==> s[t] != c,
    ensures
        find_char(s, c, i) is None,
    decreases s.len() - i,
{
    if i < s.len() {
        lemma_find_char_none(s, c, i + 1);
    }
}

/// A sequence that starts and ends with non-white-space characters is its own trim.
pub proof fn lemma_trim_noop(s: Seq<char>)
    requires
        s.len() > 0,
        !is_ws(s[0]),
        !is_ws(s.last()),
    ensures
        trim(s) == s,
{
}

/// The characters of `s`, in order.
pub fn chars_of(s: &str) -> (v: Vec<char>)
    ensures
        v@ == s@,
{
    let mut v: Vec<char> = Vec::new();
    for c in it: s.chars()
        invariant
            v@ == it.seq().take(it.index()),
    {
        v.push(c);
    }
    v
}

/// The string made of `v[lo..hi]`.
pub fn string_of(v: &[char], lo: usize, hi: usize) -> (s: String)
    requires
        lo <= hi <= v@.len(),
    ensures
        s@ == v@.subrange(lo as int, hi as int),
{
    let mut s = String::new();
    let mut k = lo;
    while k < hi
        invariant
            lo <= k <= hi <= v@.len(),
            s@ == v@.subrange(lo as int, k as int),
        decreases hi - k,
    {
        s.push(v[k]);
        k = k + 1;
        assert(s@ =~= v@.subrange(lo as int, k as int));
    }
    s
}

/// Appends `v[lo..hi]` to `s`.
pub fn push_range(s: &mut String, v: &[char], lo: usize, hi: usize)
    requires
        lo <= hi <= v@.len(),
    ensures
        final(s)@ == old(s)@ + v@.subrange(lo as int, hi as int),
{
    let mut k = lo;
    while k < hi
        invariant
            lo <= k <= hi <= v@.len(),
            s@ == old(s)@ + v@.subrange(lo as int, k as int),
        decreases hi - k,
    {
        s.push(v[k]);
        k = k + 1;
        assert(s@ =~= old(s)@ + v@.subrange(lo as int, k as int));
    }
}

/// First index `k >= i` with `v[k] == c`.
pub fn find_char_from(v: &[char], c: char, i: usize) -> (r: Option<usize>)
    ensures
        same_idx(r, find_char(v@, c, i as int)),
        r matches Some(k) ==> i <= k < v.len(),
{
    let mut k = i;
    while k < v.len()
        invariant
            i <= k,
            find_char(v@, c, i as int) == find_char(v@, c, k as int),
        decreases v.len() - k,
    {
        if v[k] == c {
            return Some(k);
        }
        k = k + 1;
    }
    None
}

/// Whether `v[k..]` starts with `pat`.
pub fn occurs_at_exec(v: &[char], pat: &[char], k: usize) -> (b: bool)
    ensures
        b == occurs_at(v@, pat@, k as int),
{
    if k > v.len() || pat.len() > v.len() - k {
        return false;
    }
    let mut j: usize = 0;
    while j < pat.len()
        invariant
            k <= v@.len(),
            k + pat@.len() <= v@.len(),
            j <= pat@.len(),
            forall|t: int| 0 <= t < j ==> v@[k + t] == pat@[t],
        decreases pat.len() - j,
    {
        assert(k + j < v.len());
        if v[k + j] != pat[j] {
            assert(v@.subrange(k as int, k + pat@.len())[j as int] != pat@[j as int]);
            return false;
        }
        j = j + 1;
    }
    assert(v@.subrange(k as int, k + pat@.len()) =~= pat@);
    true
}

/// First index `k >= i` at which `pat` occurs in `v`.
pub fn find_seq_from(v: &[char], pat: &[char], i: usize) -> (r: Option<usize>)
    ensures
        same_idx(r, find_seq(v@, pat@, i as int)),
        r matches Some(k) ==> i <= k && k + pat.len() <= v.len(),
{
    let mut k = i;
    while k <= v.len() && pat.len() <= v.len() - k
        invariant
            i <= k,
            find_seq(v@, pat@, i as int) == find_seq(v@, pat@, k as int),
        decreases v.len() + 1 - k,
    {
        if occurs_at_exec(v, pat, k) {
            return Some(k);
        }
        if k == v.len() {
            assert(find_seq(v@, pat@, k as int + 1) is None);
            return None;
        }
        k = k + 1;
    }
    None
}

/// Whether two character slices are equal.
pub fn chars_eq(a: &[char], b: &[char]) -> (r: bool)
    ensures
        r == (a@ == b@),
{
    if a.len() != b.len() {
        return false;
    }
    let mut k: usize = 0;
    while k < a.len()
        invariant
            a@.len() == b@.len(),
            k <= a@.len(),
            forall|t: int| 0 <= t < k ==> a@[t] == b@[t],
        decreases a.len() - k,
    {
        if a[k] != b[k] {
            return false;
        }
        k = k + 1;
    }
    assert(a@ =~= b@);
    true
}

/// Bounds `(lo, hi)` such that `v[lo..hi]` is `v` without surrounding white space.
pub fn trim_bounds(v: &[char]) -> (r: (usize, usize))
    ensures
        r.0 <= r.1 <= v@.len(),
        v@.subrange(r.0 as int, r.1 as int) == trim(v@),
{
    let mut lo: usize = 0;
    assert(v@.subrange(0, v@.len() as int) =~= v@);
    while lo < v.len() && is_whitespace(v[lo])
        invariant
            lo <= v@.len(),
            trim_start(v@) == trim_start(v@.subrange(lo as int, v@.len() as int)),
        decreases v.len() - lo,
    {
        assert(v@.subrange(lo as int + 1, v@.len() as int) =~= v@.subrange(
            lo as int,
            v@.len() as int,
        ).drop_first());
        lo = lo + 1;
    }
    assert(trim_start(v@) == v@.subrange(lo as int, v@.len() as int));
    let mut hi: usize = v.len();
    while hi > lo && is_whitespace(v[hi - 1])
        invariant
            lo <= hi <= v@.len(),
            trim(v@) == trim_end(v@.subrange(lo as int, hi as int)),
        decreases hi,
    {
        assert(v@.subrange(lo as int, hi - 1) =~= v@.subrange(lo as int, hi as int).drop_last());
        hi = hi - 1;
    }
    (lo, hi)
}

/// `v` without surrounding white space, as a string.
pub fn trimmed_string(v: &[char]) -> (s: String)
    ensures
        s@ == trim(v@),
{
    let (lo, hi) = trim_bounds(v);
    string_of(v, lo, hi)
}

/// A string holding a copy of `s`.
pub fn owned(s: &str) -> (r: String)
    ensures
        r@ == s@,
{
    s.to_owned()
}

} // verus!
