//! A small XML element/attribute scanner. It reads well-known elements by
//! local name without a full parse, so it works on any message version.
//!
//! Positions are character positions (indices into the text's characters,
//! not its UTF-8 bytes); the readers hand back text, which is the same either
//! way.

use vstd::prelude::*;
use crate::text::{
    chars_eq, chars_of, find_char, find_char_from, find_seq, find_seq_from, is_whitespace, is_ws, same_idx, same_pair,
    string_of, trim, trim_bounds,
};

verus! {

// ------------------------------------------------------------------ specs ---

/// A character that ends a tag name: `>`, `/` or white space.
pub open spec fn is_name_end(c: char) -> bool {
    c == '>' || c == '/' || is_ws(c)
}

/// First index `k >= i` with `is_name_end(s[k])`.
pub open spec fn find_name_end(s: Seq<char>, i: int) -> Option<int>
    decreases s.len() - i,
{
    if i < 0 || i >= s.len() {
        None
    } else if is_name_end(s[i]) {
        Some(i)
    } else {
        find_name_end(s, i + 1)
    }
}

/// Last index `k < n` with `s[k] == c`.
pub open spec fn rfind_char(s: Seq<char>, c: char, n: int) -> Option<int>
    decreases n,
{
    if n <= 0 || n > s.len() {
        None
    } else if s[n - 1] == c {
        Some(n - 1)
    } else {
        rfind_char(s, c, n - 1)
    }
}

/// The local name of a tag, without its namespace prefix (`h:Fr` is `Fr`):
/// what follows the last `:`.
pub open spec fn local_name(tag: Seq<char>) -> Seq<char> {
    match rfind_char(tag, ':', tag.len() as int) {
        Some(k) => tag.subrange(k + 1, tag.len() as int),
        None => tag,
    }
}

/// Length of the name at the start of the inside of a tag.
pub open spec fn tag_name_len(ot: Seq<char>) -> int {
    match find_name_end(ot, 0) {
        Some(k) => k,
        None => ot.len() as int,
    }
}

pub proof fn lemma_find_char(s: Seq<char>, c: char, i: int)
    requires
        0 <= i,
    ensures
        find_char(s, c, i) matches Some(k) ==> {
            &&& i <= k < s.len()
            &&& s[k] == c
            &&& forall|t: int| i <= t < k ==> s[t] != c
        },
        find_char(s, c, i) is None ==> forall|t: int| i <= t < s.len() ==> s[t] != c,
    decreases s.len() - i,
{
    if i < s.len() && s[i] != c {
        lemma_find_char(s, c, i + 1);
    }
}

pub proof fn lemma_find_name_end(s: Seq<char>, i: int)
    requires
        0 <= i,
    ensures
        find_name_end(s, i) matches Some(k) ==> {
            &&& i <= k < s.len()
            &&& is_name_end(s[k])
            &&& forall|t: int| i <= t < k ==> !is_name_end(s[t])
        },
        find_name_end(s, i) is None ==> forall|t: int| i <= t < s.len() ==> !is_name_end(s[t]),
    decreases s.len() - i,
{
    if i < s.len() && !is_name_end(s[i]) {
        lemma_find_name_end(s, i + 1);
    }
}

pub proof fn lemma_rfind_char(s: Seq<char>, c: char, n: int)
    requires
        0 <= n <= s.len(),
    ensures
        rfind_char(s, c, n) matches Some(k) ==> {
            &&& 0 <= k < n
            &&& s[k] == c
            &&& forall|t: int| k < t < n ==> s[t] != c
        },
        rfind_char(s, c, n) is None ==> forall|t: int| 0 <= t < n ==> s[t] != c,
    decreases n,
{
    if n > 0 && s[n - 1] != c {
        lemma_rfind_char(s, c, n - 1);
    }
}

pub proof fn lemma_rfind_char_none(s: Seq<char>, c: char, n: int)
    requires
        0 <= n <= s.len(),
        forall|t: int| 0 <= t < n ==> s[t] != c,
    ensures
        rfind_char(s, c, n) is None,
    decreases n,
{
    if n > 0 {
        lemma_rfind_char_none(s, c, n - 1);
    }
}

pub proof fn lemma_rfind_char_is(s: Seq<char>, c: char, k: int, n: int)
    requires
        0 <= k < n <= s.len(),
        s[k] == c,
        forall|t: int| k < t < n ==> s[t] != c,
    ensures
        rfind_char(s, c, n) == Some(k),
    decreases n - k,
{
    if k < n - 1 {
        lemma_rfind_char_is(s, c, k, n - 1);
    }
}

/// The first opening tag at or after `i` whose local name is `local`, as
/// `(position of '<', position of the next '>')`.
pub open spec fn open_tag_from(s: Seq<char>, local: Seq<char>, i: int) -> Option<(int, int)>
    decreases s.len() - i,
{
    if i < 0 {
        None
    } else {
        match find_char(s, '<', i) {
            None => None,
            Some(start) => {
                proof {
                    lemma_find_char(s, '<', i);
                }
                if start + 1 < s.len() && (s[start + 1] == '/' || s[start + 1] == '!' || s[start
                    + 1] == '?') {
                    open_tag_from(s, local, start + 1)
                } else {
                    match find_name_end(s, start + 1) {
                        None => None,
                        Some(ne) => {
                            proof {
                                lemma_find_name_end(s, start + 1);
                            }
                            if local_name(s.subrange(start + 1, ne)) == local {
                                match find_char(s, '>', start) {
                                    None => None,
                                    Some(gt) => Some((start, gt)),
                                }
                            } else {
                                open_tag_from(s, local, ne)
                            }
                        }
                    }
                }
            },
        }
    }
}

/// The first opening tag of `s` whose local name is `local`.
pub open spec fn open_tag(s: Seq<char>, local: Seq<char>) -> Option<(int, int)> {
    open_tag_from(s, local, 0)
}

/// Scans from `j` for the closing tag that brings the nesting `depth` of
/// elements named `local` to zero; its `<` position.
pub open spec fn close_scan(s: Seq<char>, local: Seq<char>, depth: int, j: int) -> Option<int>
    decreases s.len() - j,
{
    if j < 0 || depth < 1 {
        None
    } else {
        match find_char(s, '<', j) {
            None => None,
            Some(p) => {
                proof {
                    lemma_find_char(s, '<', j);
                }
                if p + 1 < s.len() && s[p + 1] == '/' {
                    match find_char(s, '>', p) {
                        None => None,
                        Some(ce) => {
                            proof {
                                lemma_find_char(s, '>', p);
                            }
                            if local_name(s.subrange(p + 2, ce)) == local {
                                if depth == 1 {
                                    Some(p)
                                } else {
                                    close_scan(s, local, depth - 1, ce + 1)
                                }
                            } else {
                                close_scan(s, local, depth, ce + 1)
                            }
                        },
                    }
                } else if p + 1 < s.len() && (s[p + 1] == '!' || s[p + 1] == '?') {
                    close_scan(s, local, depth, p + 1)
                } else {
                    match find_char(s, '>', p) {
                        None => None,
                        Some(oe) => {
                            proof {
                                lemma_find_char(s, '>', p);
                            }
                            let ot = s.subrange(p + 1, oe);
                            if local_name(ot.subrange(0, tag_name_len(ot))) == local && !(ot.len()
                                > 0 && ot.last() == '/') {
                                close_scan(s, local, depth + 1, oe + 1)
                            } else {
                                close_scan(s, local, depth, oe + 1)
                            }
                        },
                    }
                }
            },
        }
    }
}

/// Bounds of the inner XML of the first element of `s` named `local`; a
/// self-closing element has an empty inside.
pub open spec fn inner_range(s: Seq<char>, local: Seq<char>) -> Option<(int, int)> {
    match open_tag(s, local) {
        None => None,
        Some((start, gt)) => if s[gt - 1] == '/' {
            Some((gt, gt))
        } else {
            match close_scan(s, local, 1, gt + 1) {
                Some(p) => Some((gt + 1, p)),
                None => None,
            }
        },
    }
}

/// Inner XML (raw) of the first element of `s` whose local name is `local`.
pub open spec fn element_inner(s: Seq<char>, local: Seq<char>) -> Option<Seq<char>> {
    match inner_range(s, local) {
        Some((a, b)) => Some(s.subrange(a, b)),
        None => None,
    }
}

/// Trimmed inner text of the first element of `s` whose local name is `local`.
pub open spec fn element_text(s: Seq<char>, local: Seq<char>) -> Option<Seq<char>> {
    match element_inner(s, local) {
        Some(t) => Some(trim(t)),
        None => None,
    }
}

/// The value of attribute `attr` on the first element of `s` named `local`:
/// the text between `attr="` and the next `"` inside its opening tag.
pub open spec fn element_attr(s: Seq<char>, local: Seq<char>, attr: Seq<char>) -> Option<Seq<char>> {
    match open_tag(s, local) {
        None => None,
        Some((start, gt)) => {
            let open = s.subrange(start, gt);
            let key = attr + seq!['=', '"'];
            match find_seq(open, key, 0) {
                None => None,
                Some(k) => match find_char(open, '"', k + key.len()) {
                    None => None,
                    Some(e) => Some(open.subrange(k + key.len(), e)),
                },
            }
        },
    }
}

/// The first name of `names` whose element has text, with that text.
pub open spec fn first_of(s: Seq<char>, names: Seq<Seq<char>>) -> Option<(Seq<char>, Seq<char>)>
    decreases names.len(),
{
    if names.len() == 0 {
        None
    } else {
        match element_text(s, names[0]) {
            Some(t) => Some((names[0], t)),
            None => first_of(s, names.drop_first()),
        }
    }
}

// ------------------------------------------------------------------- exec ---

fn find_name_end_from(v: &[char], i: usize) -> (r: Option<usize>)
    ensures
        same_idx(r, find_name_end(v@, i as int)),
        r matches Some(k) ==> i <= k < v.len(),
{
    let mut k = i;
    while k < v.len()
        invariant
            i <= k,
            find_name_end(v@, i as int) == find_name_end(v@, k as int),
        decreases v.len() - k,
    {
        let c = v[k];
        if c == '>' || c == '/' || is_whitespace(c) {
            return Some(k);
        }
        k = k + 1;
    }
    None
}

/// Where the local name of `tag` starts: just after its last `:`.
pub fn local_name_start(tag: &[char]) -> (k: usize)
    ensures
        k <= tag@.len(),
        tag@.subrange(k as int, tag@.len() as int) == local_name(tag@),
{
    let mut n = tag.len();
    proof {
        lemma_rfind_char(tag@, ':', tag@.len() as int);
    }
    while n > 0
        invariant
            n <= tag@.len(),
            rfind_char(tag@, ':', tag@.len() as int) == rfind_char(tag@, ':', n as int),
        decreases n,
    {
        if tag[n - 1] == ':' {
            return n;
        }
        n = n - 1;
    }
    assert(tag@.subrange(0, tag@.len() as int) =~= tag@);
    0
}

/// Whether the local name of `tag` is `local`.
pub fn local_name_is(tag: &[char], local: &[char]) -> (b: bool)
    ensures
        b == (local_name(tag@) == local@),
{
    let k = local_name_start(tag);
    chars_eq(&tag[k..tag.len()], local)
}

/// The first opening tag of `v` whose local name is `local`.
pub fn find_open_tag(v: &[char], local: &[char]) -> (r: Option<(usize, usize)>)
    ensures
        same_pair(r, open_tag(v@, local@)),
        r matches Some((a, b)) ==> a < b < v.len() && v@[a as int] == '<' && v@[b as int] == '>',
{
    let mut i: usize = 0;
    loop
        invariant
            i <= v@.len(),
            open_tag(v@, local@) == open_tag_from(v@, local@, i as int),
        decreases v@.len() - i,
    {
        proof {
            lemma_find_char(v@, '<', i as int);
        }
        let start = match find_char_from(v, '<', i) {
            None => {
                return None;
            },
            Some(start) => start,
        };
        if start + 1 < v.len() && (v[start + 1] == '/' || v[start + 1] == '!' || v[start + 1]
            == '?') {
            i = start + 1;
        } else {
            proof {
                lemma_find_name_end(v@, start + 1);
            }
            let ne = match find_name_end_from(v, start + 1) {
                None => {
                    return None;
                },
                Some(ne) => ne,
            };
            if local_name_is(&v[start + 1..ne], local) {
                proof {
                    lemma_find_char(v@, '>', start as int);
                }
                match find_char_from(v, '>', start) {
                    None => {
                        return None;
                    },
                    Some(gt) => {
                        return Some((start, gt));
                    },
                }
            } else {
                i = ne;
            }
        }
    }
}

/// Bounds of the inner XML of the first element of `v` named `local`.
pub fn element_inner_range(v: &[char], local: &[char]) -> (r: Option<(usize, usize)>)
    ensures
        same_pair(r, inner_range(v@, local@)),
        r matches Some((a, b)) ==> a <= b <= v.len(),
{
    let (start, gt) = match find_open_tag(v, local) {
        None => {
            return None;
        },
        Some(t) => t,
    };
    if v[gt - 1] == '/' {
        return Some((gt, gt));
    }
    let cs = gt + 1;
    let mut depth: usize = 1;
    let mut j = cs;
    loop
        invariant
            cs <= j <= v@.len(),
            1 <= depth <= j - cs + 1,
            inner_range(v@, local@) == (match close_scan(v@, local@, depth as int, j as int) {
                Some(p) => Some((cs as int, p)),
                None => None::<(int, int)>,
            }),
        decreases v@.len() - j,
    {
        proof {
            lemma_find_char(v@, '<', j as int);
        }
        let p = match find_char_from(v, '<', j) {
            None => {
                return None;
            },
            Some(p) => p,
        };
        proof {
            lemma_find_char(v@, '>', p as int);
        }
        if p + 1 < v.len() && v[p + 1] == '/' {
            let ce = match find_char_from(v, '>', p) {
                None => {
                    return None;
                },
                Some(ce) => ce,
            };
            if local_name_is(&v[p + 2..ce], local) {
                if depth == 1 {
                    return Some((cs, p));
                }
                depth = depth - 1;
            }
            j = ce + 1;
        } else if p + 1 < v.len() && (v[p + 1] == '!' || v[p + 1] == '?') {
            j = p + 1;
        } else {
            let oe = match find_char_from(v, '>', p) {
                None => {
                    return None;
                },
                Some(oe) => oe,
            };
            let ot = &v[p + 1..oe];
            proof {
                lemma_find_name_end(ot@, 0);
            }
            let nl = match find_name_end_from(ot, 0) {
                Some(k) => k,
                None => ot.len(),
            };
            assert(nl as int == tag_name_len(ot@));
            if local_name_is(&ot[0..nl], local) && !(ot.len() > 0 && ot[ot.len() - 1] == '/') {
                depth = depth + 1;
            }
            j = oe + 1;
        }
    }
}

/// Inner XML of the first element of `v` named `local`, trimmed, as bounds.
pub fn element_text_range(v: &[char], local: &[char]) -> (r: Option<(usize, usize)>)
    ensures
        match element_text(v@, local@) {
            Some(t) => r matches Some((a, b)) && a <= b <= v@.len() && v@.subrange(
                a as int,
                b as int,
            ) == t,
            None => r is None,
        },
{
    let (a, b) = match element_inner_range(v, local) {
        None => {
            return None;
        },
        Some(t) => t,
    };
    let (lo, hi) = trim_bounds(&v[a..b]);
    assert(v@.subrange(a + lo, a + hi) =~= v@.subrange(a as int, b as int).subrange(
        lo as int,
        hi as int,
    ));
    Some((a + lo, a + hi))
}

/// Trimmed inner text of the first element of `v` named `local`.
pub fn element_text_of(v: &[char], local: &[char]) -> (r: Option<String>)
    ensures
        match element_text(v@, local@) {
            Some(t) => r matches Some(x) && x@ == t,
            None => r is None,
        },
{
    match element_text_range(v, local) {
        Some((a, b)) => Some(string_of(v, a, b)),
        None => None,
    }
}

/// Inner XML of the first element of `v` named `local`.
pub fn element_inner_of(v: &[char], local: &[char]) -> (r: Option<Vec<char>>)
    ensures
        match element_inner(v@, local@) {
            Some(t) => r matches Some(x) && x@ == t,
            None => r is None,
        },
{
    match element_inner_range(v, local) {
        Some((a, b)) => Some(vstd::slice::slice_to_vec(&v[a..b])),
        None => None,
    }
}

/// The value of attribute `attr` on the first element of `v` named `local`.
pub fn element_attr_of(v: &[char], local: &[char], attr: &[char]) -> (r: Option<String>)
    ensures
        match element_attr(v@, local@, attr@) {
            Some(t) => r matches Some(x) && x@ == t,
            None => r is None,
        },
{
    let (start, gt) = match find_open_tag(v, local) {
        None => {
            return None;
        },
        Some(t) => t,
    };
    let open = &v[start..gt];
    let mut key: Vec<char> = vstd::slice::slice_to_vec(attr);
    key.push('=');
    key.push('"');
    assert(key@ =~= attr@ + seq!['=', '"']);
    let k = match find_seq_from(open, key.as_slice(), 0) {
        None => {
            return None;
        },
        Some(k) => k,
    };
    let a = k + key.len();
    proof {
        lemma_find_char(open@, '"', a as int);
    }
    let e = match find_char_from(open, '"', a) {
        None => {
            return None;
        },
        Some(e) => e,
    };
    Some(string_of(open, a, e))
}

// ----------------------------------------------------------------- on str ---

/// Local name of a tag, without its namespace prefix (`h:Fr` is `Fr`).
pub fn tag_local_name(tag: &str) -> (r: String)
    ensures
        r@ == local_name(tag@),
{
    let v = chars_of(tag);
    let k = local_name_start(v.as_slice());
    string_of(v.as_slice(), k, v.len())
}

/// Trimmed inner text of the first element of `xml` whose local name is `local`.
pub fn element_text_str(xml: &str, local: &str) -> (r: Option<String>)
    ensures
        match element_text(xml@, local@) {
            Some(t) => r matches Some(x) && x@ == t,
            None => r is None,
        },
{
    let v = chars_of(xml);
    let l = chars_of(local);
    element_text_of(v.as_slice(), l.as_slice())
}

/// Inner XML (raw) of the first element of `xml` whose local name is `local`.
pub fn element_inner_str(xml: &str, local: &str) -> (r: Option<String>)
    ensures
        match element_inner(xml@, local@) {
            Some(t) => r matches Some(x) && x@ == t,
            None => r is None,
        },
{
    let v = chars_of(xml);
    let l = chars_of(local);
    match element_inner_range(v.as_slice(), l.as_slice()) {
        Some((a, b)) => Some(string_of(v.as_slice(), a, b)),
        None => None,
    }
}

/// The value of attribute `attr` on the first element of `xml` named `local`,
/// e.g. the `Ccy` of `<IntrBkSttlmAmt Ccy="EUR">`.
pub fn element_attr_str(xml: &str, local: &str, attr: &str) -> (r: Option<String>)
    ensures
        match element_attr(xml@, local@, attr@) {
            Some(t) => r matches Some(x) && x@ == t,
            None => r is None,
        },
{
    let v = chars_of(xml);
    let l = chars_of(local);
    let a = chars_of(attr);
    element_attr_of(v.as_slice(), l.as_slice(), a.as_slice())
}

} // verus!
