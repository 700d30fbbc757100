//! How the scanner of [`crate::xml_scan`] behaves on documents made of simple
//! tags and text: elements that a search does not ask for are stepped over,
//! and the inside of the element it asks for is found exactly.

use vstd::prelude::*;
use crate::text::{
    contains_seq, find_char, find_seq, is_ws, lemma_find_char_is, lemma_find_char_none, lemma_find_seq,
    occurs_at,
};
use crate::xml_scan::{
    close_scan, element_inner, find_name_end, inner_range, is_name_end, local_name, open_tag,
    open_tag_from, lemma_rfind_char_is, lemma_rfind_char_none, tag_name_len,
};

verus! {

/// A piece of a document: an opening tag `<n>`, a closing tag `</n>`, or text.
pub enum Piece {
    Open(Seq<char>),
    Close(Seq<char>),
    Text(Seq<char>),
}

/// `<n>`.
pub open spec fn open_str(n: Seq<char>) -> Seq<char> {
    seq!['<'] + n + seq!['>']
}

/// `</n>`.
pub open spec fn close_str(n: Seq<char>) -> Seq<char> {
    seq!['<', '/'] + n + seq!['>']
}

/// The text of a piece.
pub open spec fn piece_str(p: Piece) -> Seq<char> {
    match p {
        Piece::Open(n) => open_str(n),
        Piece::Close(n) => close_str(n),
        Piece::Text(t) => t,
    }
}

/// The text of a sequence of pieces.
pub open spec fn render(ps: Seq<Piece>) -> Seq<char>
    decreases ps.len(),
{
    if ps.len() == 0 {
        Seq::empty()
    } else {
        piece_str(ps[0]) + render(ps.drop_first())
    }
}

/// A character that may stand in a simple tag name.
pub open spec fn plain_name_char(c: char) -> bool {
    !is_name_end(c) && c != '<' && c != ':'
}

/// A tag name without prefix, white space or markup characters.
pub open spec fn simple_name(n: Seq<char>) -> bool {
    &&& n.len() > 0
    &&& forall|i: int| 0 <= i < n.len() ==> #[trigger] plain_name_char(n[i])
    &&& n[0] != '!'
    &&& n[0] != '?'
}

/// Text without `<`.
pub open spec fn no_lt(t: Seq<char>) -> bool {
    forall|i: int| 0 <= i < t.len() ==> t[i] != '<'
}

/// A piece that a search for elements named `l` steps over.
pub open spec fn piece_ok(p: Piece, l: Seq<char>) -> bool {
    match p {
        Piece::Open(n) => simple_name(n) && n != l,
        Piece::Close(n) => simple_name(n) && n != l,
        Piece::Text(t) => no_lt(t),
    }
}

/// Pieces that a search for elements named `l` steps over.
pub open spec fn pieces_ok(ps: Seq<Piece>, l: Seq<char>) -> bool {
    forall|i: int| 0 <= i < ps.len() ==> #[trigger] piece_ok(ps[i], l)
}

pub proof fn lemma_render_concat(a: Seq<Piece>, b: Seq<Piece>)
    ensures
        render(a + b) == render(a) + render(b),
    decreases a.len(),
{
    if a.len() == 0 {
        assert(a + b =~= b);
        assert(render(a) + render(b) =~= render(b));
    } else {
        assert((a + b).drop_first() =~= a.drop_first() + b);
        lemma_render_concat(a.drop_first(), b);
        assert(render(a + b) =~= render(a) + render(b));
    }
}

pub proof fn lemma_render_one(p: Piece)
    ensures
        render(seq![p]) == piece_str(p),
{
    assert(render(Seq::<Piece>::empty()) =~= Seq::<char>::empty());
    assert(seq![p].drop_first() =~= Seq::<Piece>::empty());
    assert(render(seq![p]) =~= piece_str(p));
}

pub proof fn lemma_pieces_ok_concat(a: Seq<Piece>, b: Seq<Piece>, l: Seq<char>)
    requires
        pieces_ok(a, l),
        pieces_ok(b, l),
    ensures
        pieces_ok(a + b, l),
{
    assert forall|i: int| 0 <= i < (a + b).len() implies #[trigger] piece_ok((a + b)[i], l) by {
        if i < a.len() {
            assert((a + b)[i] == a[i]);
        } else {
            assert((a + b)[i] == b[i - a.len()]);
        }
    }
}

pub proof fn lemma_local_name_simple(n: Seq<char>)
    requires
        forall|i: int| 0 <= i < n.len() ==> n[i] != ':',
    ensures
        local_name(n) == n,
{
    lemma_rfind_char_none(n, ':', n.len() as int);
}

pub proof fn lemma_find_char_skip(s: Seq<char>, c: char, i: int, k: int)
    requires
        0 <= i <= k <= s.len(),
        forall|t: int| i <= t < k ==> s[t] != c,
    ensures
        find_char(s, c, i) == find_char(s, c, k),
    decreases k - i,
{
    if i < k {
        lemma_find_char_skip(s, c, i + 1, k);
    }
}

pub proof fn lemma_find_name_end_is(s: Seq<char>, i: int, k: int)
    requires
        0 <= i <= k < s.len(),
        is_name_end(s[k]),
        forall|t: int| i <= t < k ==> !is_name_end(s[t]),
    ensures
        find_name_end(s, i) == Some(k),
    decreases k - i,
{
    if i < k {
        lemma_find_name_end_is(s, i + 1, k);
    }
}

pub proof fn lemma_find_name_end_none(s: Seq<char>, i: int)
    requires
        0 <= i,
        forall|t: int| i <= t < s.len() ==> !is_name_end(s[t]),
    ensures
        find_name_end(s, i) is None,
    decreases s.len() - i,
{
    if i < s.len() {
        lemma_find_name_end_none(s, i + 1);
    }
}

/// Text without `<` does not change where `close_scan` goes on.
pub proof fn lemma_close_scan_text(s: Seq<char>, l: Seq<char>, d: int, j: int, k: int)
    requires
        1 <= d,
        0 <= j <= k <= s.len(),
        forall|t: int| j <= t < k ==> s[t] != '<',
    ensures
        close_scan(s, l, d, j) == close_scan(s, l, d, k),
{
    lemma_find_char_skip(s, '<', j, k);
}

/// Text without `<` does not change where `open_tag_from` goes on.
pub proof fn lemma_open_tag_text(s: Seq<char>, l: Seq<char>, j: int, k: int)
    requires
        0 <= j <= k <= s.len(),
        forall|t: int| j <= t < k ==> s[t] != '<',
    ensures
        open_tag_from(s, l, j) == open_tag_from(s, l, k),
{
    lemma_find_char_skip(s, '<', j, k);
}

/// Where `p` stands in `s` at position `j`.
pub open spec fn piece_at(s: Seq<char>, j: int, p: Piece) -> bool {
    0 <= j && j + piece_str(p).len() <= s.len() && s.subrange(j, j + piece_str(p).len())
        == piece_str(p)
}

/// Where pieces `ps` stand in `s` at position `j`.
pub open spec fn pieces_at(s: Seq<char>, j: int, ps: Seq<Piece>) -> bool {
    0 <= j && j + render(ps).len() <= s.len() && s.subrange(j, j + render(ps).len()) == render(
        ps,
    )
}

proof fn lemma_sub_index(s: Seq<char>, a: int, b: int, u: int)
    requires
        0 <= a <= u < b <= s.len(),
    ensures
        s[u] == s.subrange(a, b)[u - a],
{
}

/// `close_scan` steps over a piece that is not a tag named `l`.
pub proof fn lemma_close_scan_piece(s: Seq<char>, l: Seq<char>, d: int, j: int, p: Piece)
    requires
        1 <= d,
        piece_at(s, j, p),
        piece_ok(p, l),
    ensures
        close_scan(s, l, d, j) == close_scan(s, l, d, j + piece_str(p).len()),
{
    let ps = piece_str(p);
    assert forall|u: int| j <= u < j + ps.len() implies #[trigger] s[u] == ps[u - j] by {
        lemma_sub_index(s, j, j + ps.len(), u);
    }
    match p {
        Piece::Text(t) => {
            assert forall|u: int| j <= u < j + t.len() implies s[u] != '<' by {
                assert(s[j + (u - j)] == t[u - j]);
            }
            lemma_close_scan_text(s, l, d, j, j + t.len());
        },
        Piece::Close(n) => {
            let m = j + 2 + n.len();
            assert(s[j] == '<');
            assert(s[j + 1] == '/');
            assert(s[m] == '>');
            assert forall|u: int| j + 2 <= u < m implies plain_name_char(#[trigger] s[u]) by {
                assert(s[u] == ps[u - j]);
                assert(ps[u - j] == n[u - j - 2]);
            }
            lemma_find_char_is(s, '<', j, j);
            lemma_find_char_is(s, '>', j, m);
            assert(s.subrange(j + 2, m) =~= n) by {
                assert forall|u: int| 0 <= u < n.len() implies s.subrange(j + 2, m)[u] == n[u] by {
                    assert(s[j + 2 + u] == ps[u + 2]);
                }
            }
            lemma_local_name_simple(n);
        },
        Piece::Open(n) => {
            let m = j + 1 + n.len();
            assert(s[j] == '<');
            assert(s[j + 1] == n[0]);
            assert(plain_name_char(n[0]));
            assert(s[m] == '>');
            assert forall|u: int| j + 1 <= u < m implies plain_name_char(#[trigger] s[u]) by {
                assert(s[u] == ps[u - j]);
                assert(ps[u - j] == n[u - j - 1]);
            }
            lemma_find_char_is(s, '<', j, j);
            lemma_find_char_is(s, '>', j, m);
            let ot = s.subrange(j + 1, m);
            assert(ot =~= n) by {
                assert forall|u: int| 0 <= u < n.len() implies ot[u] == n[u] by {
                    assert(s[j + 1 + u] == ps[u + 1]);
                }
            }
            lemma_find_name_end_none(ot, 0);
            assert(tag_name_len(ot) == n.len());
            assert(ot.subrange(0, tag_name_len(ot)) =~= n);
            lemma_local_name_simple(n);
        },
    }
}

/// `open_tag_from` steps over a piece that is not an opening tag named `l`.
pub proof fn lemma_open_tag_piece(s: Seq<char>, l: Seq<char>, j: int, p: Piece)
    requires
        piece_at(s, j, p),
        piece_ok(p, l),
    ensures
        open_tag_from(s, l, j) == open_tag_from(s, l, j + piece_str(p).len()),
{
    let ps = piece_str(p);
    assert forall|u: int| j <= u < j + ps.len() implies #[trigger] s[u] == ps[u - j] by {
        lemma_sub_index(s, j, j + ps.len(), u);
    }
    match p {
        Piece::Text(t) => {
            assert forall|u: int| j <= u < j + t.len() implies s[u] != '<' by {
                assert(s[j + (u - j)] == t[u - j]);
            }
            lemma_open_tag_text(s, l, j, j + t.len());
        },
        Piece::Close(n) => {
            let m = j + 2 + n.len();
            assert(s[j] == '<');
            assert(s[j + 1] == '/');
            assert(s[m] == '>');
            lemma_find_char_is(s, '<', j, j);
            assert forall|u: int| j + 1 <= u < m + 1 implies s[u] != '<' by {
                assert(s[u] == ps[u - j]);
                if j + 2 <= u < m {
                    assert(ps[u - j] == n[u - j - 2]);
                    assert(plain_name_char(n[u - j - 2]));
                }
            }
            lemma_open_tag_text(s, l, j + 1, m + 1);
        },
        Piece::Open(n) => {
            let m = j + 1 + n.len();
            assert(s[j] == '<');
            assert(s[j + 1] == n[0]);
            assert(plain_name_char(n[0]));
            assert(s[m] == '>');
            lemma_find_char_is(s, '<', j, j);
            assert forall|u: int| j + 1 <= u < m implies plain_name_char(#[trigger] s[u]) by {
                assert(s[u] == ps[u - j]);
                assert(ps[u - j] == n[u - j - 1]);
            }
            lemma_find_name_end_is(s, j + 1, m);
            assert(s.subrange(j + 1, m) =~= n) by {
                assert forall|u: int| 0 <= u < n.len() implies s.subrange(j + 1, m)[u] == n[u] by {
                    assert(s[j + 1 + u] == ps[u + 1]);
                }
            }
            lemma_local_name_simple(n);
            lemma_open_tag_text(s, l, m, m + 1);
        },
    }
}

proof fn lemma_pieces_at_split(s: Seq<char>, j: int, ps: Seq<Piece>)
    requires
        pieces_at(s, j, ps),
        ps.len() > 0,
    ensures
        piece_at(s, j, ps[0]),
        pieces_at(s, j + piece_str(ps[0]).len(), ps.drop_first()),
        render(ps).len() == piece_str(ps[0]).len() + render(ps.drop_first()).len(),
{
    let a = piece_str(ps[0]);
    let b = render(ps.drop_first());
    assert(render(ps) == a + b);
    assert(s.subrange(j, j + a.len()) =~= a) by {
        assert forall|u: int| 0 <= u < a.len() implies s.subrange(j, j + a.len())[u] == a[u] by {
            lemma_sub_index(s, j, j + (a + b).len(), j + u);
            assert((a + b)[u] == a[u]);
        }
    }
    assert(s.subrange(j + a.len(), j + a.len() + b.len()) =~= b) by {
        assert forall|u: int| 0 <= u < b.len() implies s.subrange(j + a.len(), j + a.len() + b.len())[u] == b[u] by {
            lemma_sub_index(s, j, j + (a + b).len(), j + a.len() + u);
            assert((a + b)[a.len() + u] == b[u]);
        }
    }
}

/// `close_scan` steps over pieces none of which is a tag named `l`.
pub proof fn lemma_close_scan_pieces(s: Seq<char>, l: Seq<char>, d: int, j: int, ps: Seq<Piece>)
    requires
        1 <= d,
        pieces_at(s, j, ps),
        pieces_ok(ps, l),
    ensures
        close_scan(s, l, d, j) == close_scan(s, l, d, j + render(ps).len()),
    decreases ps.len(),
{
    if ps.len() > 0 {
        lemma_pieces_at_split(s, j, ps);
        assert(piece_ok(ps[0], l));
        lemma_close_scan_piece(s, l, d, j, ps[0]);
        assert(pieces_ok(ps.drop_first(), l)) by {
            assert forall|i: int| 0 <= i < ps.drop_first().len() implies #[trigger] piece_ok(
                ps.drop_first()[i],
                l,
            ) by {
                assert(ps.drop_first()[i] == ps[i + 1]);
            }
        }
        lemma_close_scan_pieces(s, l, d, j + piece_str(ps[0]).len(), ps.drop_first());
    }
}

/// `open_tag_from` steps over pieces none of which is an opening tag named `l`.
pub proof fn lemma_open_tag_pieces(s: Seq<char>, l: Seq<char>, j: int, ps: Seq<Piece>)
    requires
        pieces_at(s, j, ps),
        pieces_ok(ps, l),
    ensures
        open_tag_from(s, l, j) == open_tag_from(s, l, j + render(ps).len()),
    decreases ps.len(),
{
    if ps.len() > 0 {
        lemma_pieces_at_split(s, j, ps);
        assert(piece_ok(ps[0], l));
        lemma_open_tag_piece(s, l, j, ps[0]);
        assert(pieces_ok(ps.drop_first(), l)) by {
            assert forall|i: int| 0 <= i < ps.drop_first().len() implies #[trigger] piece_ok(
                ps.drop_first()[i],
                l,
            ) by {
                assert(ps.drop_first()[i] == ps[i + 1]);
            }
        }
        lemma_open_tag_pieces(s, l, j + piece_str(ps[0]).len(), ps.drop_first());
    }
}

/// The search for `l` stops at an opening tag `<l>`.
pub proof fn lemma_open_tag_match(s: Seq<char>, l: Seq<char>, j: int)
    requires
        simple_name(l),
        piece_at(s, j, Piece::Open(l)),
    ensures
        open_tag_from(s, l, j) == Some((j, j + 1 + l.len())),
{
    let ps = open_str(l);
    let m = j + 1 + l.len();
    assert forall|u: int| j <= u < j + ps.len() implies #[trigger] s[u] == ps[u - j] by {
        lemma_sub_index(s, j, j + ps.len(), u);
    }
    assert(s[j] == '<');
    assert(s[j + 1] == l[0]);
    assert(plain_name_char(l[0]));
    assert(s[m] == '>');
    lemma_find_char_is(s, '<', j, j);
    assert forall|u: int| j + 1 <= u < m implies plain_name_char(#[trigger] s[u]) by {
        assert(s[u] == ps[u - j]);
        assert(ps[u - j] == l[u - j - 1]);
    }
    lemma_find_name_end_is(s, j + 1, m);
    assert(s.subrange(j + 1, m) =~= l) by {
        assert forall|u: int| 0 <= u < l.len() implies s.subrange(j + 1, m)[u] == l[u] by {
            assert(s[j + 1 + u] == ps[u + 1]);
        }
    }
    lemma_local_name_simple(l);
    lemma_find_char_is(s, '>', j, m);
}

/// `close_scan` at depth one stops at a closing tag `</l>`.
pub proof fn lemma_close_scan_final(s: Seq<char>, l: Seq<char>, j: int)
    requires
        simple_name(l),
        piece_at(s, j, Piece::Close(l)),
    ensures
        close_scan(s, l, 1, j) == Some(j),
{
    let ps = close_str(l);
    let m = j + 2 + l.len();
    assert forall|u: int| j <= u < j + ps.len() implies #[trigger] s[u] == ps[u - j] by {
        lemma_sub_index(s, j, j + ps.len(), u);
    }
    assert(s[j] == '<');
    assert(s[j + 1] == '/');
    assert(s[m] == '>');
    assert forall|u: int| j + 2 <= u < m implies plain_name_char(#[trigger] s[u]) by {
        assert(s[u] == ps[u - j]);
        assert(ps[u - j] == l[u - j - 2]);
    }
    lemma_find_char_is(s, '<', j, j);
    lemma_find_char_is(s, '>', j, m);
    assert(s.subrange(j + 2, m) =~= l) by {
        assert forall|u: int| 0 <= u < l.len() implies s.subrange(j + 2, m)[u] == l[u] by {
            assert(s[j + 2 + u] == ps[u + 2]);
        }
    }
    lemma_local_name_simple(l);
}

/// The inside of the first element `l` of a document made of pieces:
/// `pre <l> mid </l> post` with no `l` tag in `pre` or `mid`.
pub proof fn lemma_element_found(
    pre: Seq<Piece>,
    l: Seq<char>,
    mid: Seq<Piece>,
    post: Seq<Piece>,
)
    requires
        simple_name(l),
        pieces_ok(pre, l),
        pieces_ok(mid, l),
    ensures
        element_inner(
            render(pre + seq![Piece::Open(l)] + mid + seq![Piece::Close(l)] + post),
            l,
        ) == Some(render(mid)),
{
    let all = pre + seq![Piece::Open(l)] + mid + seq![Piece::Close(l)] + post;
    let s = render(all);
    lemma_render_concat(pre + seq![Piece::Open(l)] + mid + seq![Piece::Close(l)], post);
    lemma_render_concat(pre + seq![Piece::Open(l)] + mid, seq![Piece::Close(l)]);
    lemma_render_concat(pre + seq![Piece::Open(l)], mid);
    lemma_render_concat(pre, seq![Piece::Open(l)]);
    lemma_render_one(Piece::Open(l));
    lemma_render_one(Piece::Close(l));
    let a: int = render(pre).len() as int;
    let o: int = open_str(l).len() as int;
    let mm: int = render(mid).len() as int;
    assert(s == render(pre) + open_str(l) + render(mid) + close_str(l) + render(post));
    assert(pieces_at(s, 0, pre)) by {
        assert(s.subrange(0, a as int) =~= render(pre));
    }
    assert(piece_at(s, a as int, Piece::Open(l))) by {
        assert(s.subrange(a as int, a + o) =~= open_str(l));
    }
    assert(pieces_at(s, a + o, mid)) by {
        assert(s.subrange(a + o, a + o + mm) =~= render(mid));
    }
    assert(piece_at(s, a + o + mm, Piece::Close(l))) by {
        assert(s.subrange(a + o + mm, a + o + mm + close_str(l).len()) =~= close_str(l));
    }
    lemma_open_tag_pieces(s, l, 0, pre);
    lemma_open_tag_match(s, l, a as int);
    let gt: int = a + 1 + l.len();
    assert(s[gt - 1] == l[l.len() - 1]) by {
        assert(s[gt - 1] == s.subrange(a as int, a + o)[l.len() as int]);
    }
    assert(plain_name_char(l[l.len() - 1]));
    lemma_close_scan_pieces(s, l, 1, gt + 1, mid);
    lemma_close_scan_final(s, l, gt + 1 + mm);
    assert(s.subrange(gt + 1, gt + 1 + mm) =~= render(mid));
}

/// No element `l` is found in a document made of pieces without an `l` tag.
pub proof fn lemma_element_absent(ps: Seq<Piece>, l: Seq<char>)
    requires
        pieces_ok(ps, l),
    ensures
        element_inner(render(ps), l) is None,
{
    let s = render(ps);
    assert(pieces_at(s, 0, ps)) by {
        assert(s.subrange(0, s.len() as int) =~= s);
    }
    lemma_open_tag_pieces(s, l, 0, ps);
    lemma_find_char_none(s, '<', s.len() as int);
}

/// The inside of a lone element is found exactly:
/// `element_inner("<t>s</t>", t) == Some(s)` for every simple tag name `t`
/// and every text `s` without `<`.
pub proof fn lemma_element_inner_lone(t: Seq<char>, s: Seq<char>)
    requires
        simple_name(t),
        no_lt(s),
    ensures
        element_inner(open_str(t) + s + close_str(t), t) == Some(s),
{
    let e = Seq::<Piece>::empty();
    let mid = seq![Piece::Text(s)];
    assert(pieces_ok(e, t));
    assert(piece_ok(mid[0], t));
    assert(pieces_ok(mid, t));
    lemma_element_found(e, t, mid, e);
    let all = e + seq![Piece::Open(t)] + mid + seq![Piece::Close(t)] + e;
    assert(all =~= seq![Piece::Open(t), Piece::Text(s), Piece::Close(t)]);
    lemma_render_one(Piece::Text(s));
    lemma_render_one(Piece::Close(t));
    lemma_render_concat(seq![Piece::Text(s)], seq![Piece::Close(t)]);
    assert(seq![Piece::Text(s)] + seq![Piece::Close(t)] =~= seq![Piece::Text(s), Piece::Close(t)]);
    lemma_render_concat(seq![Piece::Open(t)], seq![Piece::Text(s), Piece::Close(t)]);
    lemma_render_one(Piece::Open(t));
    assert(seq![Piece::Open(t)] + seq![Piece::Text(s), Piece::Close(t)] =~= seq![
        Piece::Open(t),
        Piece::Text(s),
        Piece::Close(t),
    ]);
    assert(render(all) =~= open_str(t) + s + close_str(t));
}

proof fn lemma_occurs_shift(a: Seq<char>, b: Seq<char>, pat: Seq<char>, p: int)
    requires
        a.len() <= p,
        occurs_at(a + b, pat, p),
    ensures
        occurs_at(b, pat, p - a.len()),
{
    assert((a + b).subrange(p, p + pat.len()) =~= b.subrange(p - a.len(), p - a.len() + pat.len()));
}

/// No opening tag `<t>` starts inside the text of pieces that a search for
/// `t` steps over, whatever follows them.
pub proof fn lemma_no_open_tag(ps: Seq<Piece>, t: Seq<char>, tail: Seq<char>, p: int)
    requires
        simple_name(t),
        pieces_ok(ps, t),
        0 <= p < render(ps).len(),
    ensures
        !occurs_at(render(ps) + tail, open_str(t), p),
    decreases ps.len(),
{
    let pat = open_str(t);
    let a = piece_str(ps[0]);
    let r = render(ps.drop_first());
    let x = render(ps) + tail;
    assert(render(ps) == a + r);
    assert(x =~= a + (r + tail));
    assert(piece_ok(ps[0], t));
    if p < a.len() {
        if occurs_at(x, pat, p) {
            assert(x[p] == x.subrange(p, p + pat.len())[0]);
            assert(x[p] == a[p]);
            match ps[0] {
                Piece::Text(u) => {
                    assert(a[p] == u[p]);
                },
                Piece::Open(n) => {
                    assert(plain_name_char(t[0]));
                    if p > 0 {
                        if p <= n.len() {
                            assert(a[p] == n[p - 1]);
                            assert(plain_name_char(n[p - 1]));
                        }
                    } else if n.len() == t.len() {
                        if forall|i: int| 0 <= i < n.len() ==> n[i] == t[i] {
                            assert(n =~= t);
                        }
                        let i = choose|i: int| 0 <= i < n.len() && n[i] != t[i];
                        assert(x[1 + i] == x.subrange(0, pat.len() as int)[1 + i]);
                        assert(x[1 + i] == a[1 + i]);
                    } else if n.len() > t.len() {
                        let i = t.len() as int;
                        assert(x[1 + i] == x.subrange(0, pat.len() as int)[1 + i]);
                        assert(x[1 + i] == a[1 + i]);
                        assert(plain_name_char(n[i]));
                    } else {
                        let i = n.len() as int;
                        assert(x[1 + i] == x.subrange(0, pat.len() as int)[1 + i]);
                        assert(x[1 + i] == a[1 + i]);
                        assert(plain_name_char(t[i]));
                    }
                },
                Piece::Close(n) => {
                    assert(plain_name_char(t[0]));
                    if p > 1 {
                        if p <= n.len() + 1 {
                            assert(a[p] == n[p - 2]);
                            assert(plain_name_char(n[p - 2]));
                        }
                    } else if p == 0 {
                        assert(x[1] == x.subrange(0, pat.len() as int)[1]);
                        assert(x[1] == a[1]);
                    }
                },
            }
        }
    } else {
        if occurs_at(x, pat, p) {
            lemma_occurs_shift(a, r + tail, pat, p);
            assert(pieces_ok(ps.drop_first(), t)) by {
                assert forall|i: int| 0 <= i < ps.drop_first().len() implies #[trigger] piece_ok(
                    ps.drop_first()[i],
                    t,
                ) by {
                    assert(ps.drop_first()[i] == ps[i + 1]);
                }
            }
            lemma_no_open_tag(ps.drop_first(), t, tail, p - a.len());
        }
    }
}

/// `<t>` occurs nowhere in `o + render(ps) + c` when the pieces are stepped
/// over by a search for `t`, and every `<` of `o` and `c` is followed by a
/// character other than the first of `t`.
pub proof fn lemma_open_tag_absent(o: Seq<char>, ps: Seq<Piece>, t: Seq<char>, c: Seq<char>)
    requires
        simple_name(t),
        pieces_ok(ps, t),
        forall|i: int| 0 <= i < o.len() && #[trigger] o[i] == '<' ==> i + 1 < o.len() && o[i + 1] != t[0],
        forall|i: int| 0 <= i < c.len() && #[trigger] c[i] == '<' ==> i + 1 < c.len() && c[i + 1] != t[0],
    ensures
        !contains_seq(o + render(ps) + c, open_str(t)),
{
    let x = o + render(ps) + c;
    let pat = open_str(t);
    lemma_find_seq(x, pat, 0);
    if let Some(p) = find_seq(x, pat, 0) {
        assert(x[p] == x.subrange(p, p + pat.len())[0]);
        assert(x[p + 1] == x.subrange(p, p + pat.len())[1]);
        let rl = render(ps).len();
        if p < o.len() {
            assert(x[p] == o[p]);
            assert(x[p + 1] == o[p + 1]);
        } else if p < o.len() + rl {
            assert(x =~= o + (render(ps) + c));
            lemma_occurs_shift(o, render(ps) + c, pat, p);
            lemma_no_open_tag(ps, t, c, p - o.len());
        } else {
            assert(x[p] == c[p - o.len() - rl]);
            assert(x[p + 1] == c[p + 1 - o.len() - rl]);
        }
    }
}

/// `<t>` occurs in a document that holds the opening tag `<t>`.
pub proof fn lemma_open_tag_present(o: Seq<char>, pre: Seq<Piece>, t: Seq<char>, rest: Seq<Piece>, c: Seq<char>)
    ensures
        contains_seq(o + render(pre + seq![Piece::Open(t)] + rest) + c, open_str(t)),
{
    let x = o + render(pre + seq![Piece::Open(t)] + rest) + c;
    let pat = open_str(t);
    lemma_render_concat(pre + seq![Piece::Open(t)], rest);
    lemma_render_concat(pre, seq![Piece::Open(t)]);
    lemma_render_one(Piece::Open(t));
    let p = (o.len() + render(pre).len()) as int;
    assert(x.subrange(p, p + pat.len()) =~= pat);
    assert(occurs_at(x, pat, p));
    lemma_find_seq(x, pat, 0);
}

proof fn lemma_local_name_prefixed(q: Seq<char>, t: Seq<char>)
    requires
        simple_name(t),
    ensures
        local_name(q + seq![':'] + t) == t,
{
    let n = q + seq![':'] + t;
    assert(n[q.len() as int] == ':');
    assert forall|i: int| q.len() < i < n.len() implies n[i] != ':' by {
        assert(n[i] == t[i - q.len() - 1]);
        assert(plain_name_char(t[i - q.len() - 1]));
    }
    lemma_rfind_char_is(n, ':', q.len() as int, n.len() as int);
    assert(n.subrange(q.len() + 1int, n.len() as int) =~= t);
}

/// The inside of a lone element with a namespace prefix is found exactly:
/// `element_inner("<q:t>s</q:t>", t) == Some(s)` for all simple names `q`
/// and `t` and every text `s` without `<`.
pub proof fn lemma_element_inner_lone_prefixed(q: Seq<char>, t: Seq<char>, s: Seq<char>)
    requires
        simple_name(q),
        simple_name(t),
        no_lt(s),
    ensures
        element_inner(open_str(q + seq![':'] + t) + s + close_str(q + seq![':'] + t), t) == Some(s),
{
    let n = q + seq![':'] + t;
    let x = open_str(n) + s + close_str(n);
    let gt: int = n.len() + 1int;
    let p: int = gt + 1 + s.len();
    let ce: int = p + 2 + n.len();
    assert(x.len() == ce + 1);
    assert forall|i: int| 0 <= i < n.len() implies n[i] != '<' && n[i] != '>' && !is_name_end(
        #[trigger] n[i],
    ) by {
        if i < q.len() {
            assert(n[i] == q[i]);
            assert(plain_name_char(q[i]));
        } else if i > q.len() {
            assert(n[i] == t[i - q.len() - 1]);
            assert(plain_name_char(t[i - q.len() - 1]));
        } else {
            assert(n[i] == ':');
        }
    }
    assert(x[0] == '<');
    assert(x[1] == n[0]);
    assert(n[0] == q[0]);
    lemma_find_char_is(x, '<', 0, 0);
    assert forall|i: int| 1 <= i < gt implies !is_name_end(#[trigger] x[i]) by {
        assert(x[i] == n[i - 1]);
    }
    assert(x[gt] == '>');
    lemma_find_name_end_is(x, 1, gt);
    assert(x.subrange(1, gt) =~= n);
    lemma_local_name_prefixed(q, t);
    assert forall|i: int| 0 <= i < gt implies #[trigger] x[i] != '>' by {
        if i > 0 {
            assert(x[i] == n[i - 1]);
        }
    }
    lemma_find_char_is(x, '>', 0, gt);
    assert(open_tag(x, t) == Some((0int, gt)));
    assert(x[gt - 1] == t.last());
    assert(plain_name_char(t[t.len() - 1]));
    assert forall|i: int| gt + 1 <= i < p implies #[trigger] x[i] != '<' by {
        assert(x[i] == s[i - gt - 1]);
    }
    assert(x[p] == '<');
    lemma_find_char_is(x, '<', gt + 1, p);
    assert(x[p + 1] == '/');
    assert forall|i: int| p <= i < ce implies #[trigger] x[i] != '>' by {
        if i >= p + 2 {
            assert(x[i] == n[i - p - 2]);
        }
    }
    assert(x[ce] == '>');
    lemma_find_char_is(x, '>', p, ce);
    assert(x.subrange(p + 2, ce) =~= n);
    assert(close_scan(x, t, 1, gt + 1) == Some(p));
    assert(x.subrange(gt + 1, p) =~= s);
}

} // verus!
