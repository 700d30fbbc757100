//! The ISO 20022 message catalogue: message versions known to this crate,
//! with their XSD namespace and business area.

use vstd::prelude::*;
use crate::business_area::BusinessArea;
use crate::mx_id::{
    MxIdV, lemma_parse_message_name, lemma_parse_namespace, spec_message_name, spec_namespace,
    spec_parse, well_formed,
};
use crate::error::ErrorV;
use crate::text::{chars_eq, chars_of};
use crate::business_area::spec_code;

verus! {

/// A catalogue entry describing one ISO 20022 message version.
#[derive(Debug, Clone, Copy, PartialEq, Eq)]
pub struct CatalogueEntry {
    /// Canonical message name, e.g. `"pacs.008.001.08"`.
    pub message_name: &'static str,
    /// XSD target namespace, e.g. `"urn:iso:std:iso:20022:tech:xsd:pacs.008.001.08"`.
    pub namespace: &'static str,
    /// 4-letter business area code, e.g. `"pacs"`.
    pub business_area: &'static str,
    /// Whether a typed Rust model exists for this message.
    pub has_model: bool,
}

/// The value of a [`CatalogueEntry`].
pub struct CatalogueEntryV {
    pub message_name: Seq<char>,
    pub namespace: Seq<char>,
    pub business_area: Seq<char>,
    pub has_model: bool,
}

impl View for CatalogueEntry {
    type V = CatalogueEntryV;

    open spec fn view(&self) -> CatalogueEntryV {
        CatalogueEntryV {
            message_name: self.message_name@,
            namespace: self.namespace@,
            business_area: self.business_area@,
            has_model: self.has_model,
        }
    }
}

/// The entry that describes message `id`.
pub open spec fn entry_of(id: MxIdV) -> CatalogueEntryV {
    CatalogueEntryV {
        message_name: spec_message_name(id),
        namespace: spec_namespace(id),
        business_area: spec_code(id.business_area),
        has_model: true,
    }
}

/// The message versions of the catalogue, sorted by message name.
pub open spec fn catalogue_ids() -> Seq<MxIdV> {
    seq![
        MxIdV { business_area: BusinessArea::camt, functionality: seq!['0', '5', '3'], variant: seq!['0', '0', '1'], version: seq!['0', '8'] },
        MxIdV { business_area: BusinessArea::camt, functionality: seq!['0', '5', '6'], variant: seq!['0', '0', '1'], version: seq!['0', '9'] },
        MxIdV { business_area: BusinessArea::head, functionality: seq!['0', '0', '1'], variant: seq!['0', '0', '1'], version: seq!['0', '2'] },
        MxIdV { business_area: BusinessArea::pacs, functionality: seq!['0', '0', '2'], variant: seq!['0', '0', '1'], version: seq!['1', '0'] },
        MxIdV { business_area: BusinessArea::pacs, functionality: seq!['0', '0', '8'], variant: seq!['0', '0', '1'], version: seq!['0', '8'] },
        MxIdV { business_area: BusinessArea::pain, functionality: seq!['0', '0', '1'], variant: seq!['0', '0', '1'], version: seq!['0', '9'] },
        MxIdV { business_area: BusinessArea::seev, functionality: seq!['0', '3', '0'], variant: seq!['0', '0', '1'], version: seq!['0', '1'] },
        MxIdV { business_area: BusinessArea::semt, functionality: seq!['0', '0', '2'], variant: seq!['0', '0', '1'], version: seq!['0', '2'] },
        MxIdV { business_area: BusinessArea::sese, functionality: seq!['0', '0', '1'], variant: seq!['0', '0', '1'], version: seq!['1', '0'] },
        MxIdV { business_area: BusinessArea::tsmt, functionality: seq!['0', '0', '1'], variant: seq!['0', '0', '1'], version: seq!['0', '3'] },
    ]
}

/// The catalogue, entry by entry.
pub open spec fn catalogue() -> Seq<CatalogueEntryV> {
    catalogue_ids().map_values(|id: MxIdV| entry_of(id))
}

/// The first entry at or after `i` whose message name is `n`.
pub open spec fn find_by_name(n: Seq<char>, i: int) -> Option<CatalogueEntryV>
    decreases catalogue().len() - i,
{
    if i < 0 || i >= catalogue().len() {
        None
    } else if catalogue()[i].message_name == n {
        Some(catalogue()[i])
    } else {
        find_by_name(n, i + 1)
    }
}

/// The first entry at or after `i` whose namespace is `ns`.
pub open spec fn find_by_namespace(ns: Seq<char>, i: int) -> Option<CatalogueEntryV>
    decreases catalogue().len() - i,
{
    if i < 0 || i >= catalogue().len() {
        None
    } else if catalogue()[i].namespace == ns {
        Some(catalogue()[i])
    } else {
        find_by_namespace(ns, i + 1)
    }
}

/// The value of an optional entry.
pub open spec fn opt_entry(o: Option<CatalogueEntry>) -> Option<CatalogueEntryV> {
    match o {
        Some(e) => Some(e@),
        None => None,
    }
}

/// The entry of message `id`, from the literals that spell its name,
/// namespace and area code.
fn entry(
    Ghost(id): Ghost<MxIdV>,
    message_name: &'static str,
    namespace: &'static str,
    business_area: &'static str,
) -> (e: CatalogueEntry)
    requires
        message_name@ =~= spec_message_name(id),
        namespace@ =~= spec_namespace(id),
        business_area@ =~= spec_code(id.business_area),
    ensures
        e@ == entry_of(id),
{
    CatalogueEntry { message_name, namespace, business_area, has_model: true }
}

/// All catalogue entries, sorted by message name.
pub fn all() -> (r: Vec<CatalogueEntry>)
    ensures
        r@.len() == catalogue().len(),
        forall|i: int| 0 <= i < r@.len() ==> #[trigger] r@[i]@ == catalogue()[i],
{
    let ids = Ghost(catalogue_ids());
    proof {
        reveal_strlit("urn:iso:std:iso:20022:tech:xsd:");
    }
    let mut r: Vec<CatalogueEntry> = Vec::new();
    proof {
        reveal_strlit("camt.053.001.08");
        reveal_strlit("urn:iso:std:iso:20022:tech:xsd:camt.053.001.08");
        reveal_strlit("camt");
    }
    r.push(entry(Ghost(ids@[0]), "camt.053.001.08", "urn:iso:std:iso:20022:tech:xsd:camt.053.001.08", "camt"));
    proof {
        reveal_strlit("camt.056.001.09");
        reveal_strlit("urn:iso:std:iso:20022:tech:xsd:camt.056.001.09");
        reveal_strlit("camt");
    }
    r.push(entry(Ghost(ids@[1]), "camt.056.001.09", "urn:iso:std:iso:20022:tech:xsd:camt.056.001.09", "camt"));
    proof {
        reveal_strlit("head.001.001.02");
        reveal_strlit("urn:iso:std:iso:20022:tech:xsd:head.001.001.02");
        reveal_strlit("head");
    }
    r.push(entry(Ghost(ids@[2]), "head.001.001.02", "urn:iso:std:iso:20022:tech:xsd:head.001.001.02", "head"));
    proof {
        reveal_strlit("pacs.002.001.10");
        reveal_strlit("urn:iso:std:iso:20022:tech:xsd:pacs.002.001.10");
        reveal_strlit("pacs");
    }
    r.push(entry(Ghost(ids@[3]), "pacs.002.001.10", "urn:iso:std:iso:20022:tech:xsd:pacs.002.001.10", "pacs"));
    proof {
        reveal_strlit("pacs.008.001.08");
        reveal_strlit("urn:iso:std:iso:20022:tech:xsd:pacs.008.001.08");
        reveal_strlit("pacs");
    }
    r.push(entry(Ghost(ids@[4]), "pacs.008.001.08", "urn:iso:std:iso:20022:tech:xsd:pacs.008.001.08", "pacs"));
    proof {
        reveal_strlit("pain.001.001.09");
        reveal_strlit("urn:iso:std:iso:20022:tech:xsd:pain.001.001.09");
        reveal_strlit("pain");
    }
    r.push(entry(Ghost(ids@[5]), "pain.001.001.09", "urn:iso:std:iso:20022:tech:xsd:pain.001.001.09", "pain"));
    proof {
        reveal_strlit("seev.030.001.01");
        reveal_strlit("urn:iso:std:iso:20022:tech:xsd:seev.030.001.01");
        reveal_strlit("seev");
    }
    r.push(entry(Ghost(ids@[6]), "seev.030.001.01", "urn:iso:std:iso:20022:tech:xsd:seev.030.001.01", "seev"));
    proof {
        reveal_strlit("semt.002.001.02");
        reveal_strlit("urn:iso:std:iso:20022:tech:xsd:semt.002.001.02");
        reveal_strlit("semt");
    }
    r.push(entry(Ghost(ids@[7]), "semt.002.001.02", "urn:iso:std:iso:20022:tech:xsd:semt.002.001.02", "semt"));
    proof {
        reveal_strlit("sese.001.001.10");
        reveal_strlit("urn:iso:std:iso:20022:tech:xsd:sese.001.001.10");
        reveal_strlit("sese");
    }
    r.push(entry(Ghost(ids@[8]), "sese.001.001.10", "urn:iso:std:iso:20022:tech:xsd:sese.001.001.10", "sese"));
    proof {
        reveal_strlit("tsmt.001.001.03");
        reveal_strlit("urn:iso:std:iso:20022:tech:xsd:tsmt.001.001.03");
        reveal_strlit("tsmt");
    }
    r.push(entry(Ghost(ids@[9]), "tsmt.001.001.03", "urn:iso:std:iso:20022:tech:xsd:tsmt.001.001.03", "tsmt"));
    r
}

/// Look up an entry by exact message name, e.g. `"pacs.008.001.08"`.
pub fn from_message_name(message_name: &str) -> (r: Option<CatalogueEntry>)
    ensures
        opt_entry(r) == find_by_name(message_name@, 0),
{
    let n = chars_of(message_name);
    let entries = all();
    let mut i: usize = 0;
    while i < entries.len()
        invariant
            i <= entries@.len(),
            entries@.len() == catalogue().len(),
            forall|k: int| 0 <= k < entries@.len() ==> #[trigger] entries@[k]@ == catalogue()[k],
            n@ == message_name@,
            find_by_name(message_name@, 0) == find_by_name(message_name@, i as int),
        decreases entries.len() - i,
    {
        let e = entries[i];
        assert(e@ == catalogue()[i as int]);
        let m = chars_of(e.message_name);
        if chars_eq(m.as_slice(), n.as_slice()) {
            return Some(e);
        }
        i = i + 1;
    }
    None
}

/// Look up an entry by exact XSD namespace.
pub fn from_namespace(namespace: &str) -> (r: Option<CatalogueEntry>)
    ensures
        opt_entry(r) == find_by_namespace(namespace@, 0),
{
    let n = chars_of(namespace);
    let entries = all();
    let mut i: usize = 0;
    while i < entries.len()
        invariant
            i <= entries@.len(),
            entries@.len() == catalogue().len(),
            forall|k: int| 0 <= k < entries@.len() ==> #[trigger] entries@[k]@ == catalogue()[k],
            n@ == namespace@,
            find_by_namespace(namespace@, 0) == find_by_namespace(namespace@, i as int),
        decreases entries.len() - i,
    {
        let e = entries[i];
        assert(e@ == catalogue()[i as int]);
        let m = chars_of(e.namespace);
        if chars_eq(m.as_slice(), n.as_slice()) {
            return Some(e);
        }
        i = i + 1;
    }
    None
}

/// Whether the catalogue contains the given message name.
pub fn contains(message_name: &str) -> (b: bool)
    ensures
        b == find_by_name(message_name@, 0) is Some,
{
    from_message_name(message_name).is_some()
}

/// Every catalogue entry is well formed.
pub proof fn lemma_catalogue_well_formed()
    ensures
        forall|i: int| 0 <= i < catalogue_ids().len() ==> well_formed(#[trigger] catalogue_ids()[i]),
{
    let ids = catalogue_ids();
    assert forall|i: int| 0 <= i < ids.len() implies well_formed(#[trigger] ids[i]) by {
    }
}

/// No message version is listed twice.
pub proof fn lemma_catalogue_distinct()
    ensures
        forall|i: int, j: int|
            0 <= i < catalogue_ids().len() && 0 <= j < catalogue_ids().len() && i != j
                ==> #[trigger] catalogue_ids()[i] != #[trigger] catalogue_ids()[j],
{
    let ids = catalogue_ids();
    assert(ids[0].functionality[2] != ids[1].functionality[2]);
    assert(ids[0] != ids[1]);
    assert(ids[0] != ids[2]);
    assert(ids[0] != ids[3]);
    assert(ids[0] != ids[4]);
    assert(ids[0] != ids[5]);
    assert(ids[0] != ids[6]);
    assert(ids[0] != ids[7]);
    assert(ids[0] != ids[8]);
    assert(ids[0] != ids[9]);
    assert(ids[1] != ids[2]);
    assert(ids[1] != ids[3]);
    assert(ids[1] != ids[4]);
    assert(ids[1] != ids[5]);
    assert(ids[1] != ids[6]);
    assert(ids[1] != ids[7]);
    assert(ids[1] != ids[8]);
    assert(ids[1] != ids[9]);
    assert(ids[2] != ids[3]);
    assert(ids[2] != ids[4]);
    assert(ids[2] != ids[5]);
    assert(ids[2] != ids[6]);
    assert(ids[2] != ids[7]);
    assert(ids[2] != ids[8]);
    assert(ids[2] != ids[9]);
    assert(ids[3].functionality[2] != ids[4].functionality[2]);
    assert(ids[3] != ids[4]);
    assert(ids[3] != ids[5]);
    assert(ids[3] != ids[6]);
    assert(ids[3] != ids[7]);
    assert(ids[3] != ids[8]);
    assert(ids[3] != ids[9]);
    assert(ids[4] != ids[5]);
    assert(ids[4] != ids[6]);
    assert(ids[4] != ids[7]);
    assert(ids[4] != ids[8]);
    assert(ids[4] != ids[9]);
    assert(ids[5] != ids[6]);
    assert(ids[5] != ids[7]);
    assert(ids[5] != ids[8]);
    assert(ids[5] != ids[9]);
    assert(ids[6] != ids[7]);
    assert(ids[6] != ids[8]);
    assert(ids[6] != ids[9]);
    assert(ids[7] != ids[8]);
    assert(ids[7] != ids[9]);
    assert(ids[8] != ids[9]);
}

/// Every catalogued message name parses as the identifier of its entry, and
/// its namespace is the ISO 20022 namespace of that identifier.
pub proof fn lemma_catalogue_names_parse(i: int)
    requires
        0 <= i < catalogue().len(),
    ensures
        spec_parse(catalogue()[i].message_name) == Ok::<MxIdV, ErrorV>(catalogue_ids()[i]),
        spec_parse(catalogue()[i].namespace) == Ok::<MxIdV, ErrorV>(catalogue_ids()[i]),
        catalogue()[i].has_model,
{
    lemma_catalogue_well_formed();
    lemma_parse_message_name(catalogue_ids()[i]);
    lemma_parse_namespace(catalogue_ids()[i]);
}

proof fn lemma_find_by_namespace_at(i: int, j: int)
    requires
        0 <= j <= i < catalogue().len(),
        forall|k: int| j <= k < i ==> catalogue()[k].namespace != catalogue()[i].namespace,
    ensures
        find_by_namespace(catalogue()[i].namespace, j) == Some(catalogue()[i]),
    decreases i - j,
{
    if j < i {
        lemma_find_by_namespace_at(i, j + 1);
    }
}

proof fn lemma_find_by_name_at(i: int, j: int)
    requires
        0 <= j <= i < catalogue().len(),
        forall|k: int| j <= k < i ==> catalogue()[k].message_name != catalogue()[i].message_name,
    ensures
        find_by_name(catalogue()[i].message_name, j) == Some(catalogue()[i]),
    decreases i - j,
{
    if j < i {
        lemma_find_by_name_at(i, j + 1);
    }
}

/// Looking up an entry's own namespace, or its own message name, finds that
/// entry: `from_namespace(e.namespace) == Some(e)` and
/// `from_message_name(e.message_name) == Some(e)` for every entry `e`.
pub proof fn lemma_catalogue_lookup(i: int)
    requires
        0 <= i < catalogue().len(),
    ensures
        find_by_namespace(catalogue()[i].namespace, 0) == Some(catalogue()[i]),
        find_by_name(catalogue()[i].message_name, 0) == Some(catalogue()[i]),
{
    lemma_catalogue_distinct();
    assert forall|k: int| 0 <= k < i implies catalogue()[k].namespace != catalogue()[i].namespace by {
        lemma_catalogue_names_parse(k);
        lemma_catalogue_names_parse(i);
    }
    assert forall|k: int| 0 <= k < i implies catalogue()[k].message_name
        != catalogue()[i].message_name by {
        lemma_catalogue_names_parse(k);
        lemma_catalogue_names_parse(i);
    }
    lemma_find_by_namespace_at(i, 0);
    lemma_find_by_name_at(i, 0);
}

/// A lookup by name only returns an entry of that name.
pub proof fn lemma_find_by_name_sound(n: Seq<char>, j: int)
    requires
        0 <= j,
    ensures
        find_by_name(n, j) matches Some(e) ==> e.message_name == n,
    decreases catalogue().len() - j,
{
    if j < catalogue().len() && catalogue()[j].message_name != n {
        lemma_find_by_name_sound(n, j + 1);
    }
}

/// A lookup by namespace only returns an entry of that namespace.
pub proof fn lemma_find_by_namespace_sound(ns: Seq<char>, j: int)
    requires
        0 <= j,
    ensures
        find_by_namespace(ns, j) matches Some(e) ==> e.namespace == ns,
    decreases catalogue().len() - j,
{
    if j < catalogue().len() && catalogue()[j].namespace != ns {
        lemma_find_by_namespace_sound(ns, j + 1);
    }
}

/// Whether text `a` sorts strictly before text `b`, character by character
/// (the order of `str`).
pub open spec fn name_before(a: Seq<char>, b: Seq<char>) -> bool
    decreases a.len(),
{
    if a.len() == 0 {
        b.len() > 0
    } else if b.len() == 0 {
        false
    } else if a[0] != b[0] {
        a[0] < b[0]
    } else {
        name_before(a.drop_first(), b.drop_first())
    }
}

proof fn lemma_name_before_trans(a: Seq<char>, b: Seq<char>, c: Seq<char>)
    requires
        name_before(a, b),
        name_before(b, c),
    ensures
        name_before(a, c),
    decreases a.len(),
{
    if a.len() > 0 && b.len() > 0 && c.len() > 0 && a[0] == b[0] && b[0] == c[0] {
        lemma_name_before_trans(a.drop_first(), b.drop_first(), c.drop_first());
    }
}

proof fn lemma_name_before_at(a: Seq<char>, b: Seq<char>, k: int)
    requires
        0 <= k < a.len(),
        k < b.len(),
        a.subrange(0, k) == b.subrange(0, k),
        a[k] < b[k],
    ensures
        name_before(a, b),
    decreases k,
{
    if k > 0 {
        assert(a[0] == a.subrange(0, k)[0]);
        assert(b[0] == b.subrange(0, k)[0]);
        assert(a.drop_first().subrange(0, k - 1) =~= a.subrange(0, k).drop_first());
        assert(b.drop_first().subrange(0, k - 1) =~= b.subrange(0, k).drop_first());
        lemma_name_before_at(a.drop_first(), b.drop_first(), k - 1);
    }
}

proof fn lemma_catalogue_adjacent_sorted(i: int)
    requires
        0 <= i < catalogue().len() - 1,
    ensures
        name_before(catalogue()[i].message_name, catalogue()[i + 1].message_name),
{
    let a = catalogue()[i].message_name;
    let b = catalogue()[i + 1].message_name;
    if i == 0 {
        assert(a.subrange(0, 7) =~= b.subrange(0, 7));
        lemma_name_before_at(a, b, 7);
    } else if i == 1 {
        assert(a.subrange(0, 0) =~= b.subrange(0, 0));
        lemma_name_before_at(a, b, 0);
    } else if i == 2 {
        assert(a.subrange(0, 0) =~= b.subrange(0, 0));
        lemma_name_before_at(a, b, 0);
    } else if i == 3 {
        assert(a.subrange(0, 7) =~= b.subrange(0, 7));
        lemma_name_before_at(a, b, 7);
    } else if i == 4 {
        assert(a.subrange(0, 2) =~= b.subrange(0, 2));
        lemma_name_before_at(a, b, 2);
    } else if i == 5 {
        assert(a.subrange(0, 0) =~= b.subrange(0, 0));
        lemma_name_before_at(a, b, 0);
    } else if i == 6 {
        assert(a.subrange(0, 2) =~= b.subrange(0, 2));
        lemma_name_before_at(a, b, 2);
    } else if i == 7 {
        assert(a.subrange(0, 2) =~= b.subrange(0, 2));
        lemma_name_before_at(a, b, 2);
    } else if i == 8 {
        assert(a.subrange(0, 0) =~= b.subrange(0, 0));
        lemma_name_before_at(a, b, 0);
    }
}

proof fn lemma_catalogue_sorted_from(i: int, j: int)
    requires
        0 <= i < j < catalogue().len(),
    ensures
        name_before(catalogue()[i].message_name, catalogue()[j].message_name),
    decreases j - i,
{
    lemma_catalogue_adjacent_sorted(j - 1);
    if i < j - 1 {
        lemma_catalogue_sorted_from(i, j - 1);
        lemma_name_before_trans(
            catalogue()[i].message_name,
            catalogue()[j - 1].message_name,
            catalogue()[j].message_name,
        );
    }
}

/// The catalogue is sorted by message name, each name strictly after the one
/// before it.
pub proof fn lemma_catalogue_sorted()
    ensures
        forall|i: int, j: int|
            0 <= i < j < catalogue().len() ==> name_before(
                #[trigger] catalogue()[i].message_name,
                #[trigger] catalogue()[j].message_name,
            ),
{
    assert forall|i: int, j: int| 0 <= i < j < catalogue().len() implies name_before(
        #[trigger] catalogue()[i].message_name,
        #[trigger] catalogue()[j].message_name,
    ) by {
        lemma_catalogue_sorted_from(i, j);
    }
}

} // verus!
