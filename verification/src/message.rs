//! Post-processing of serialized MX messages.

use vstd::prelude::*;
use crate::error::Error;
use crate::text::{
    chars_of, contains_seq, find_char, find_char_from, find_seq, find_seq_from, lemma_find_seq, occurs_at,
    push_range,
};
use crate::xml_scan::lemma_find_char;

verus! {

/// `<__Unknown__`, the start of a placeholder element.
pub open spec fn unknown_open() -> Seq<char> {
    seq!['<', '_', '_', 'U', 'n', 'k', 'n', 'o', 'w', 'n', '_', '_']
}

/// `</__Unknown__>`, the end of a placeholder element.
pub open spec fn unknown_close() -> Seq<char> {
    seq!['<', '/', '_', '_', 'U', 'n', 'k', 'n', 'o', 'w', 'n', '_', '_', '>']
}

/// `__Unknown__`, the placeholder's name.
pub open spec fn unknown_name() -> Seq<char> {
    seq!['_', '_', 'U', 'n', 'k', 'n', 'o', 'w', 'n', '_', '_']
}

/// `s` from position `i` with every `<__Unknown__ .../>` and
/// `<__Unknown__ ...>...</__Unknown__>` element removed; an unterminated
/// placeholder and everything after it are kept as they are.
pub open spec fn strip_from(s: Seq<char>, i: int) -> Seq<char>
    decreases s.len() - i,
{
    if i < 0 || i > s.len() {
        Seq::empty()
    } else {
        match find_seq(s, unknown_open(), i) {
            None => s.subrange(i, s.len() as int),
            Some(o) => {
                proof {
                    lemma_find_seq(s, unknown_open(), i);
                }
                let kept = s.subrange(i, o);
                let self_closing = match find_seq(s, seq!['/', '>'], o) {
                    Some(e) => !(match find_char(s, '>', o) {
                        Some(g) => g < e,
                        None => false,
                    }),
                    None => false,
                };
                if self_closing {
                    proof {
                        lemma_find_seq(s, seq!['/', '>'], o);
                    }
                    kept + strip_from(s, find_seq(s, seq!['/', '>'], o).unwrap() + 2)
                } else {
                    match find_seq(s, unknown_close(), o) {
                        Some(c) => {
                            proof {
                                lemma_find_seq(s, unknown_close(), o);
                            }
                            kept + strip_from(s, c + unknown_close().len())
                        },
                        None => kept + s.subrange(o, s.len() as int),
                    }
                }
            },
        }
    }
}

/// The serialized XML `s` without the synthetic `__Unknown__` placeholder
/// elements that unset choices produce.
pub open spec fn strip_unknown_spec(s: Seq<char>) -> Seq<char> {
    if !contains_seq(s, unknown_name()) {
        s
    } else {
        strip_from(s, 0)
    }
}

/// XML without any `<__Unknown__` placeholder comes back unchanged.
pub proof fn lemma_strip_unknown_keeps_plain_xml(s: Seq<char>)
    requires
        !contains_seq(s, unknown_open()),
    ensures
        strip_unknown_spec(s) == s,
{
    assert(s.subrange(0, s.len() as int) =~= s);
}

proof fn lemma_strip_from_len(s: Seq<char>, i: int)
    requires
        0 <= i <= s.len(),
    ensures
        strip_from(s, i).len() <= s.len() - i,
    decreases s.len() - i,
{
    lemma_find_seq(s, unknown_open(), i);
    match find_seq(s, unknown_open(), i) {
        None => {},
        Some(o) => {
            lemma_find_seq(s, seq!['/', '>'], o);
            lemma_find_seq(s, unknown_close(), o);
            match find_seq(s, seq!['/', '>'], o) {
                Some(e) => {
                    lemma_strip_from_len(s, e + 2);
                },
                None => {},
            }
            match find_seq(s, unknown_close(), o) {
                Some(c) => {
                    lemma_strip_from_len(s, c + unknown_close().len());
                },
                None => {},
            }
        },
    }
}

/// Stripping only ever removes text: the result is never longer than the input.
pub proof fn lemma_strip_unknown_shrinks(s: Seq<char>)
    ensures
        strip_unknown_spec(s).len() <= s.len(),
{
    lemma_strip_from_len(s, 0);
}

/// The placeholder elements that `strip_from(s, i)` removes, as `(start, end)`
/// spans of `s`, in order.
pub open spec fn removed_spans(s: Seq<char>, i: int) -> Seq<(int, int)>
    decreases s.len() - i,
{
    if i < 0 || i > s.len() {
        Seq::empty()
    } else {
        match find_seq(s, unknown_open(), i) {
            None => Seq::empty(),
            Some(o) => {
                proof {
                    lemma_find_seq(s, unknown_open(), i);
                }
                let self_closing = match find_seq(s, seq!['/', '>'], o) {
                    Some(e) => !(match find_char(s, '>', o) {
                        Some(g) => g < e,
                        None => false,
                    }),
                    None => false,
                };
                if self_closing {
                    proof {
                        lemma_find_seq(s, seq!['/', '>'], o);
                    }
                    let e = find_seq(s, seq!['/', '>'], o).unwrap();
                    seq![(o, e + 2)] + removed_spans(s, e + 2)
                } else {
                    match find_seq(s, unknown_close(), o) {
                        Some(c) => {
                            proof {
                                lemma_find_seq(s, unknown_close(), o);
                            }
                            seq![(o, c + unknown_close().len())] + removed_spans(
                                s,
                                c + unknown_close().len(),
                            )
                        },
                        None => Seq::empty(),
                    }
                }
            },
        }
    }
}

/// `s` from position `i` on, with the spans `sp` cut out.
pub open spec fn cut_out(s: Seq<char>, i: int, sp: Seq<(int, int)>) -> Seq<char>
    decreases sp.len(),
{
    if sp.len() == 0 {
        s.subrange(i, s.len() as int)
    } else {
        s.subrange(i, sp[0].0) + cut_out(s, sp[0].1, sp.drop_first())
    }
}

/// Spans of `s` from position `i` on, in order and not overlapping, each
/// starting with `<__Unknown__`.
pub open spec fn spans_ok(s: Seq<char>, i: int, sp: Seq<(int, int)>) -> bool
    decreases sp.len(),
{
    if sp.len() == 0 {
        true
    } else {
        &&& i <= sp[0].0 < sp[0].1 <= s.len()
        &&& occurs_at(s, unknown_open(), sp[0].0)
        &&& spans_ok(s, sp[0].1, sp.drop_first())
    }
}

proof fn lemma_strip_from_cuts(s: Seq<char>, i: int)
    requires
        0 <= i <= s.len(),
    ensures
        spans_ok(s, i, removed_spans(s, i)),
        strip_from(s, i) == cut_out(s, i, removed_spans(s, i)),
    decreases s.len() - i,
{
    lemma_find_seq(s, unknown_open(), i);
    match find_seq(s, unknown_open(), i) {
        None => {},
        Some(o) => {
            lemma_find_seq(s, seq!['/', '>'], o);
            lemma_find_seq(s, unknown_close(), o);
            let self_closing = match find_seq(s, seq!['/', '>'], o) {
                Some(e) => !(match find_char(s, '>', o) {
                    Some(g) => g < e,
                    None => false,
                }),
                None => false,
            };
            if self_closing {
                let e = find_seq(s, seq!['/', '>'], o).unwrap();
                lemma_strip_from_cuts(s, e + 2);
                let sp = removed_spans(s, i);
                assert(sp.drop_first() =~= removed_spans(s, e + 2));
            } else {
                match find_seq(s, unknown_close(), o) {
                    Some(c) => {
                        lemma_strip_from_cuts(s, c + unknown_close().len());
                        let sp = removed_spans(s, i);
                        assert(sp.drop_first() =~= removed_spans(s, c + unknown_close().len()));
                    },
                    None => {
                        assert(s.subrange(i, o) + s.subrange(o, s.len() as int) =~= s.subrange(
                            i,
                            s.len() as int,
                        ));
                    },
                }
            }
        },
    }
}

/// Stripping removes whole placeholder elements only: the result is the input
/// with some spans cut out, in order and not overlapping, each of which starts
/// with `<__Unknown__`.
pub proof fn lemma_strip_unknown_cuts(s: Seq<char>)
    ensures
        exists|sp: Seq<(int, int)>| spans_ok(s, 0, sp) && strip_unknown_spec(s) == cut_out(s, 0, sp),
{
    if contains_seq(s, unknown_name()) {
        lemma_strip_from_cuts(s, 0);
        let sp = removed_spans(s, 0);
        assert(spans_ok(s, 0, sp) && strip_unknown_spec(s) == cut_out(s, 0, sp));
    } else {
        let sp = Seq::<(int, int)>::empty();
        assert(s.subrange(0, s.len() as int) =~= s);
        assert(spans_ok(s, 0, sp) && strip_unknown_spec(s) == cut_out(s, 0, sp));
    }
}

/// Removes the synthetic `<__Unknown__>` placeholder elements that unset
/// choices produce from serialized XML (self-closing and paired forms); a
/// malformed placeholder and what follows it are kept verbatim.
pub fn strip_unknown(xml: &str) -> (r: String)
    ensures
        r@ == strip_unknown_spec(xml@),
{
    let v = chars_of(xml);
    let name = chars_of("__Unknown__");
    let open = chars_of("<__Unknown__");
    let close = chars_of("</__Unknown__>");
    let sc = chars_of("/>");
    proof {
        reveal_strlit("__Unknown__");
        reveal_strlit("<__Unknown__");
        reveal_strlit("</__Unknown__>");
        reveal_strlit("/>");
        assert(name@ =~= unknown_name());
        assert(open@ =~= unknown_open());
        assert(close@ =~= unknown_close());
        assert(sc@ =~= seq!['/', '>']);
    }
    if find_seq_from(v.as_slice(), name.as_slice(), 0).is_none() {
        return xml.to_owned();
    }
    assert(contains_seq(v@, unknown_name()));
    let mut out = String::new();
    let mut i: usize = 0;
    assert(out@ + strip_from(v@, 0) =~= strip_from(v@, 0));
    loop
        invariant
            i <= v@.len(),
            v@ == xml@,
            contains_seq(v@, unknown_name()),
            open@ == unknown_open(),
            close@ == unknown_close(),
            sc@ == seq!['/', '>'],
            out@ + strip_from(v@, i as int) == strip_from(v@, 0),
        decreases v@.len() - i,
    {
        proof {
            lemma_find_seq(v@, unknown_open(), i as int);
        }
        let o = match find_seq_from(v.as_slice(), open.as_slice(), i) {
            None => {
                let ghost before = out@;
                push_range(&mut out, v.as_slice(), i, v.len());
                assert(out@ =~= before + strip_from(v@, i as int));
                return out;
            },
            Some(o) => o,
        };
        let ghost before = out@;
        push_range(&mut out, v.as_slice(), i, o);
        assert(out@ == before + v@.subrange(i as int, o as int));
        proof {
            lemma_find_seq(v@, seq!['/', '>'], o as int);
            lemma_find_char(v@, '>', o as int);
        }
        let e = find_seq_from(v.as_slice(), sc.as_slice(), o);
        let self_closing = match e {
            Some(e) => match find_char_from(v.as_slice(), '>', o) {
                Some(g) => !(g < e),
                None => true,
            },
            None => false,
        };
        if self_closing {
            let e = e.unwrap();
            assert(strip_from(v@, i as int) == v@.subrange(i as int, o as int) + strip_from(v@, e + 2));
            assert(out@ + strip_from(v@, e + 2) =~= before + strip_from(v@, i as int));
            i = e + 2;
        } else {
            proof {
                lemma_find_seq(v@, unknown_close(), o as int);
            }
            match find_seq_from(v.as_slice(), close.as_slice(), o) {
                Some(c) => {
                    assert(strip_from(v@, i as int) == v@.subrange(i as int, o as int) + strip_from(v@, c + 14));
                    assert(out@ + strip_from(v@, c + 14) =~= before + strip_from(v@, i as int));
                    i = c + close.len();
                },
                None => {
                    assert(strip_from(v@, i as int) == v@.subrange(i as int, o as int) + v@.subrange(o as int, v@.len() as int));
                    push_range(&mut out, v.as_slice(), o, v.len());
                    assert(out@ =~= before + strip_from(v@, i as int));
                    return out;
                },
            }
        }
    }
}

} // verus!
