//! Lookup over the message catalogue, as the `iso20022` command line tool does
//! it: a case-insensitive substring query matched against each entry's message
//! name, business-area code, namespace and business-area description.

use vstd::prelude::*;
use crate::business_area::{BusinessArea, spec_description, spec_from_code};
use crate::catalogue::{CatalogueEntryV, all, catalogue};
use crate::text::{chars_of, contains_seq, find_seq_from, occurs_at};

verus! {

/// What `str::to_lowercase` gives for the text `s` (Unicode lower case).
pub uninterp spec fn lowercase(s: Seq<char>) -> Seq<char>;

/// std's `str::to_lowercase`.
#[verifier::external_body]
fn to_lowercase(s: &str) -> (r: String)
    ensures
        r@ == lowercase(s@),
{
    s.to_lowercase()
}

/// One line of the lookup table.
#[derive(Debug, Clone, Copy, PartialEq, Eq)]
pub struct CatalogueRow {
    /// Canonical message name, e.g. `"pacs.008.001.08"`.
    pub message_name: &'static str,
    /// 4-letter business area code.
    pub business_area: &'static str,
    /// Description of the business area (empty for an unknown code).
    pub description: &'static str,
    /// `"yes"` when a typed model exists for the message, else `"no"`.
    pub model: &'static str,
    /// XSD target namespace.
    pub namespace: &'static str,
}

/// The value of a [`CatalogueRow`].
pub struct CatalogueRowV {
    pub message_name: Seq<char>,
    pub business_area: Seq<char>,
    pub description: Seq<char>,
    pub model: Seq<char>,
    pub namespace: Seq<char>,
}

impl View for CatalogueRow {
    type V = CatalogueRowV;

    open spec fn view(&self) -> CatalogueRowV {
        CatalogueRowV {
            message_name: self.message_name@,
            business_area: self.business_area@,
            description: self.description@,
            model: self.model@,
            namespace: self.namespace@,
        }
    }
}

/// The description of an entry's business area, or the empty text.
pub open spec fn area_description(e: CatalogueEntryV) -> Seq<char> {
    match spec_from_code(e.business_area) {
        Some(a) => spec_description(a),
        None => Seq::empty(),
    }
}

/// Whether an entry answers the (lower-case) query `q`.
pub open spec fn row_matches(q: Seq<char>, e: CatalogueEntryV) -> bool {
    ||| q.len() == 0
    ||| contains_seq(lowercase(e.message_name), q)
    ||| contains_seq(lowercase(e.business_area), q)
    ||| contains_seq(lowercase(e.namespace), q)
    ||| contains_seq(lowercase(area_description(e)), q)
}

/// The table line of an entry.
pub open spec fn row_of(e: CatalogueEntryV) -> CatalogueRowV {
    CatalogueRowV {
        message_name: e.message_name,
        business_area: e.business_area,
        description: area_description(e),
        model: if e.has_model {
            "yes"@
        } else {
            "no"@
        },
        namespace: e.namespace,
    }
}

/// The lines of the entries of `es` that answer `q`, in order.
pub open spec fn rows(q: Seq<char>, es: Seq<CatalogueEntryV>) -> Seq<CatalogueRowV>
    decreases es.len(),
{
    if es.len() == 0 {
        Seq::empty()
    } else if row_matches(q, es.last()) {
        rows(q, es.drop_last()).push(row_of(es.last()))
    } else {
        rows(q, es.drop_last())
    }
}

/// An empty query lists every entry, in order.
pub proof fn lemma_empty_query_lists_all(es: Seq<CatalogueEntryV>)
    ensures
        rows(Seq::empty(), es) == es.map_values(|e: CatalogueEntryV| row_of(e)),
    decreases es.len(),
{
    if es.len() > 0 {
        lemma_empty_query_lists_all(es.drop_last());
        assert(es.map_values(|e: CatalogueEntryV| row_of(e)) =~= es.drop_last().map_values(
            |e: CatalogueEntryV| row_of(e),
        ).push(row_of(es.last())));
    } else {
        assert(es.map_values(|e: CatalogueEntryV| row_of(e)) =~= Seq::<CatalogueRowV>::empty());
    }
}

/// The values of a list of rows.
pub open spec fn rows_view(r: Seq<CatalogueRow>) -> Seq<CatalogueRowV> {
    r.map_values(|x: CatalogueRow| x@)
}

/// Whether `pat` occurs in `text`.
fn contains_text(text: &str, pat: &[char]) -> (b: bool)
    ensures
        b == contains_seq(text@, pat@),
{
    let v = chars_of(text);
    find_seq_from(v.as_slice(), pat, 0).is_some()
}

/// Whether the entry answers the lower-case query `q`.
fn entry_matches(q: &[char], name: &str, area: &str, namespace: &str, description: &str) -> (b:
    bool)
    ensures
        b == (q@.len() == 0 || contains_seq(lowercase(name@), q@) || contains_seq(
            lowercase(area@),
            q@,
        ) || contains_seq(lowercase(namespace@), q@) || contains_seq(lowercase(description@), q@)),
{
    if q.len() == 0 {
        return true;
    }
    let n = to_lowercase(name);
    if contains_text(n.as_str(), q) {
        return true;
    }
    let a = to_lowercase(area);
    if contains_text(a.as_str(), q) {
        return true;
    }
    let s = to_lowercase(namespace);
    if contains_text(s.as_str(), q) {
        return true;
    }
    let d = to_lowercase(description);
    contains_text(d.as_str(), q)
}

/// The catalogue lines that answer `query` (matched without regard to case
/// against message name, area code, namespace and area description); every
/// line for an empty query.
pub fn lookup(query: &str) -> (r: Vec<CatalogueRow>)
    ensures
        rows_view(r@) == rows(lowercase(query@), catalogue()),
{
    let ql = to_lowercase(query);
    let q = chars_of(ql.as_str());
    let entries = all();
    let mut r: Vec<CatalogueRow> = Vec::new();
    let mut i: usize = 0;
    while i < entries.len()
        invariant
            i <= entries@.len(),
            entries@.len() == catalogue().len(),
            forall|k: int| 0 <= k < entries@.len() ==> #[trigger] entries@[k]@ == catalogue()[k],
            q@ == lowercase(query@),
            rows_view(r@) == rows(q@, catalogue().subrange(0, i as int)),
        decreases entries.len() - i,
    {
        let e = entries[i];
        assert(e@ == catalogue()[i as int]);
        assert(catalogue().subrange(0, i + 1).drop_last() =~= catalogue().subrange(0, i as int));
        let description = match BusinessArea::from_code(e.business_area) {
            Some(a) => a.description(),
            None => "",
        };
        proof {
            reveal_strlit("");
        }
        assert(description@ == area_description(e@));
        if entry_matches(q.as_slice(), e.message_name, e.business_area, e.namespace, description) {
            let model = if e.has_model {
                "yes"
            } else {
                "no"
            };
            let row = CatalogueRow {
                message_name: e.message_name,
                business_area: e.business_area,
                description,
                model,
                namespace: e.namespace,
            };
            let ghost before = r@;
            r.push(row);
            assert(rows_view(r@) =~= rows_view(before).push(row_of(e@)));
        }
        i = i + 1;
    }
    assert(catalogue().subrange(0, entries@.len() as int) =~= catalogue());
    r
}

/// Whether the (lower-case) query `q` picks entry `e`: it is empty, or part of
/// the lower-cased message name, area code, namespace or area description.
pub open spec fn query_picks(q: Seq<char>, e: CatalogueEntryV) -> bool {
    q.len() == 0 || contains_seq(lowercase(e.message_name), q) || contains_seq(
        lowercase(e.business_area),
        q,
    ) || contains_seq(lowercase(e.namespace), q) || contains_seq(lowercase(area_description(e)), q)
}

/// Whether line `x` is the line of an entry of `es` that the query `q` picks.
pub open spec fn picked_line(q: Seq<char>, es: Seq<CatalogueEntryV>, x: CatalogueRowV) -> bool {
    exists|i: int| 0 <= i < es.len() && query_picks(q, es[i]) && x == row_of(es[i])
}

/// The lookup lists exactly the entries that the query picks: every picked
/// entry's line is listed, and every listed line is the line of a picked
/// entry.
pub proof fn lemma_lookup_lists_picked(q: Seq<char>, es: Seq<CatalogueEntryV>)
    ensures
        forall|i: int| 0 <= i < es.len() && query_picks(q, es[i]) ==> rows(q, es).contains(
            #[trigger] row_of(es[i]),
        ),
        forall|j: int| 0 <= j < rows(q, es).len() ==> #[trigger] picked_line(q, es, rows(q, es)[j]),
    decreases es.len(),
{
    if es.len() > 0 {
        let init = es.drop_last();
        lemma_lookup_lists_picked(q, init);
        let r0 = rows(q, init);
        let r = rows(q, es);
        assert forall|i: int| 0 <= i < es.len() && query_picks(q, es[i]) implies r.contains(
            #[trigger] row_of(es[i]),
        ) by {
            if i < es.len() - 1 {
                assert(init[i] == es[i]);
                assert(r0.contains(row_of(init[i])));
                let k = choose|k: int| 0 <= k < r0.len() && r0[k] == row_of(init[i]);
                if row_matches(q, es.last()) {
                    assert(r[k] == r0[k]);
                }
            } else {
                assert(r[r.len() - 1] == row_of(es[i]));
            }
        }
        assert forall|j: int| 0 <= j < r.len() implies #[trigger] picked_line(q, es, r[j]) by {
            if j < r0.len() {
                if row_matches(q, es.last()) {
                    assert(r[j] == r0[j]);
                }
                assert(picked_line(q, init, r0[j]));
                let i = choose|i: int|
                    0 <= i < init.len() && query_picks(q, init[i]) && r0[j] == row_of(init[i]);
                assert(init[i] == es[i]);
            } else {
                let i = es.len() - 1;
                assert(r[j] == row_of(es[i]));
                assert(query_picks(q, es[i]));
            }
        }
    }
}

proof fn lemma_contains_self(x: Seq<char>)
    ensures
        contains_seq(x, x),
{
    assert(x.subrange(0, x.len() as int) =~= x);
    assert(occurs_at(x, x, 0));
}

/// Looking up an entry's own namespace, or its own message name, lists that
/// entry.
pub proof fn lemma_lookup_own_entry(i: int)
    requires
        0 <= i < catalogue().len(),
    ensures
        rows(lowercase(catalogue()[i].namespace), catalogue()).contains(row_of(catalogue()[i])),
        rows(lowercase(catalogue()[i].message_name), catalogue()).contains(row_of(catalogue()[i])),
{
    let e = catalogue()[i];
    lemma_contains_self(lowercase(e.namespace));
    lemma_contains_self(lowercase(e.message_name));
    lemma_lookup_lists_picked(lowercase(e.namespace), catalogue());
    lemma_lookup_lists_picked(lowercase(e.message_name), catalogue());
    assert(query_picks(lowercase(e.namespace), e));
    assert(query_picks(lowercase(e.message_name), e));
}

/// One entry gives its line when the query picks it, and nothing otherwise.
pub proof fn lemma_rows_one(q: Seq<char>, e: CatalogueEntryV)
    ensures
        rows(q, seq![e]) == (if query_picks(q, e) {
            seq![row_of(e)]
        } else {
            Seq::<CatalogueRowV>::empty()
        }),
{
    assert(seq![e].drop_last() =~= Seq::<CatalogueEntryV>::empty());
    assert(seq![e].last() == e);
    assert(rows(q, Seq::<CatalogueEntryV>::empty()) =~= Seq::<CatalogueRowV>::empty());
    if query_picks(q, e) {
        assert(rows(q, seq![e]) =~= seq![row_of(e)]);
    }
}

/// Lines come in catalogue order: looking up in `a + b` lists the lines of
/// `a`, then those of `b`.
pub proof fn lemma_rows_concat(q: Seq<char>, a: Seq<CatalogueEntryV>, b: Seq<CatalogueEntryV>)
    ensures
        rows(q, a + b) == rows(q, a) + rows(q, b),
    decreases b.len(),
{
    if b.len() == 0 {
        assert(a + b =~= a);
        assert(rows(q, b) =~= Seq::<CatalogueRowV>::empty());
        assert(rows(q, a) + rows(q, b) =~= rows(q, a));
    } else {
        assert((a + b).drop_last() =~= a + b.drop_last());
        assert((a + b).last() == b.last());
        lemma_rows_concat(q, a, b.drop_last());
        assert(rows(q, a + b) =~= rows(q, a) + rows(q, b));
    }
}

} // verus!
