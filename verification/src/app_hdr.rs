//! Business Application Header (BAH / `head.001`) support: a
//! version-independent reader for the header's key fields (sender, receiver,
//! references, creation date) and a writer for a `head.001` `<AppHdr>`.

use vstd::prelude::*;
use crate::text::{chars_of, contains_seq, lemma_find_char_is, trim};
use crate::scan_laws::{
    Piece, close_str, lemma_close_scan_final, lemma_close_scan_pieces, lemma_element_absent,
    lemma_element_found, lemma_find_name_end_is, lemma_local_name_simple, lemma_open_tag_absent,
    lemma_open_tag_present, lemma_pieces_ok_concat,
    lemma_render_concat, lemma_render_one, no_lt, open_str, piece_at, piece_ok, piece_str, pieces_at,
    pieces_ok, render, simple_name,
};
use crate::xml_scan::{
    element_inner, element_inner_range, element_text, element_text_of, is_name_end, open_tag,
};

verus! {

/// The key fields of a Business Application Header, read version-independently.
#[derive(Debug, Clone, Default, PartialEq, Eq)]
pub struct BusinessHeader {
    /// Sending party identifier (a BIC when present in `From`).
    pub from: Option<String>,
    /// Receiving party identifier (a BIC when present in `To`).
    pub to: Option<String>,
    /// Business message identifier (`BizMsgIdr`).
    pub biz_msg_idr: Option<String>,
    /// Message definition identifier (`MsgDefIdr`), e.g. `"pacs.008.001.08"`.
    pub msg_def_idr: Option<String>,
    /// Creation date/time (`CreDt`), as the raw ISO 8601 string.
    pub cre_dt: Option<String>,
}

/// The value of an optional string.
pub open spec fn opt_str(o: Option<String>) -> Option<Seq<char>> {
    match o {
        Some(s) => Some(s@),
        None => None,
    }
}

/// The mathematical value of a [`BusinessHeader`].
pub struct BusinessHeaderV {
    pub from: Option<Seq<char>>,
    pub to: Option<Seq<char>>,
    pub biz_msg_idr: Option<Seq<char>>,
    pub msg_def_idr: Option<Seq<char>>,
    pub cre_dt: Option<Seq<char>>,
}

impl View for BusinessHeader {
    type V = BusinessHeaderV;

    open spec fn view(&self) -> BusinessHeaderV {
        BusinessHeaderV {
            from: opt_str(self.from),
            to: opt_str(self.to),
            biz_msg_idr: opt_str(self.biz_msg_idr),
            msg_def_idr: opt_str(self.msg_def_idr),
            cre_dt: opt_str(self.cre_dt),
        }
    }
}

/// The value of an optional header.
pub open spec fn opt_header(o: Option<BusinessHeader>) -> Option<BusinessHeaderV> {
    match o {
        Some(h) => Some(h@),
        None => None,
    }
}

/// Whether no field of the header is set.
pub open spec fn header_is_empty(h: BusinessHeaderV) -> bool {
    h.from is None && h.to is None && h.biz_msg_idr is None && h.msg_def_idr is None
        && h.cre_dt is None
}

// ---------------------------------------------------------------- reading ---

/// `Some(t)` when `t` is not empty.
pub open spec fn non_empty(o: Option<Seq<char>>) -> Option<Seq<char>> {
    match o {
        Some(t) => if t.len() > 0 {
            Some(t)
        } else {
            None
        },
        None => None,
    }
}

/// The first non-empty BIC-like value inside a `Fr`/`To` fragment: the text
/// of `BICFI`, else `AnyBIC`, else `BIC`, else `Id`.
pub open spec fn first_bic(fragment: Seq<char>) -> Option<Seq<char>> {
    if non_empty(element_text(fragment, "BICFI"@)) is Some {
        non_empty(element_text(fragment, "BICFI"@))
    } else if non_empty(element_text(fragment, "AnyBIC"@)) is Some {
        non_empty(element_text(fragment, "AnyBIC"@))
    } else if non_empty(element_text(fragment, "BIC"@)) is Some {
        non_empty(element_text(fragment, "BIC"@))
    } else {
        non_empty(element_text(fragment, "Id"@))
    }
}

/// The party named in element `tag` (`Fr` or `To`) of `scope`.
pub open spec fn party_of(scope: Seq<char>, tag: Seq<char>) -> Option<Seq<char>> {
    match element_inner(scope, tag) {
        Some(f) => first_bic(f),
        None => None,
    }
}

/// What the reader looks at: the inside of the `AppHdr` element when there is
/// one, so that a trailing `Document` cannot leak its own fields.
pub open spec fn header_scope(s: Seq<char>) -> Seq<char> {
    match element_inner(s, "AppHdr"@) {
        Some(t) => t,
        None => s,
    }
}

/// The header fields of `s`, or `None` when none is found.
pub open spec fn spec_parse_header(s: Seq<char>) -> Option<BusinessHeaderV> {
    let scope = header_scope(s);
    let h = BusinessHeaderV {
        from: party_of(scope, "Fr"@),
        to: party_of(scope, "To"@),
        biz_msg_idr: element_text(scope, "BizMsgIdr"@),
        msg_def_idr: element_text(scope, "MsgDefIdr"@),
        cre_dt: element_text(scope, "CreDt"@),
    };
    if header_is_empty(h) {
        None
    } else {
        Some(h)
    }
}

fn non_empty_text(frag: &[char], tag: &str) -> (r: Option<String>)
    ensures
        opt_str(r) == non_empty(element_text(frag@, tag@)),
{
    let t = chars_of(tag);
    match element_text_of(frag, t.as_slice()) {
        Some(x) => if x.as_str().is_empty() {
            None
        } else {
            Some(x)
        },
        None => None,
    }
}

fn first_bic_exec(frag: &[char]) -> (r: Option<String>)
    ensures
        opt_str(r) == first_bic(frag@),
{
    let a = non_empty_text(frag, "BICFI");
    if a.is_some() {
        return a;
    }
    let b = non_empty_text(frag, "AnyBIC");
    if b.is_some() {
        return b;
    }
    let c = non_empty_text(frag, "BIC");
    if c.is_some() {
        return c;
    }
    non_empty_text(frag, "Id")
}

fn party_exec(scope: &[char], tag: &str) -> (r: Option<String>)
    ensures
        opt_str(r) == party_of(scope@, tag@),
{
    let t = chars_of(tag);
    match element_inner_range(scope, t.as_slice()) {
        Some((a, b)) => first_bic_exec(&scope[a..b]),
        None => None,
    }
}

fn text_exec(scope: &[char], tag: &str) -> (r: Option<String>)
    ensures
        opt_str(r) == element_text(scope@, tag@),
{
    let t = chars_of(tag);
    element_text_of(scope, t.as_slice())
}

/// Read a [`BusinessHeader`] from XML containing an `<AppHdr>` element. Returns
/// `None` if no header fields are found.
pub fn parse_business_header(xml: &str) -> (r: Option<BusinessHeader>)
    ensures
        opt_header(r) == spec_parse_header(xml@),
{
    let v = chars_of(xml);
    let app = chars_of("AppHdr");
    let (a, b) = match element_inner_range(v.as_slice(), app.as_slice()) {
        Some(t) => t,
        None => (0, v.len()),
    };
    let scope = &v[a..b];
    assert(scope@ == header_scope(xml@)) by {
        assert(v@.subrange(0, v@.len() as int) =~= v@);
    }
    let from = party_exec(scope, "Fr");
    let to = party_exec(scope, "To");
    let biz_msg_idr = text_exec(scope, "BizMsgIdr");
    let msg_def_idr = text_exec(scope, "MsgDefIdr");
    let cre_dt = text_exec(scope, "CreDt");
    if from.is_none() && to.is_none() && biz_msg_idr.is_none() && msg_def_idr.is_none()
        && cre_dt.is_none() {
        return None;
    }
    Some(BusinessHeader { from, to, biz_msg_idr, msg_def_idr, cre_dt })
}

// ---------------------------------------------------------------- writing ---

/// Element-content escaping of one character.
pub open spec fn escape_char(c: char) -> Seq<char> {
    if c == '&' {
        "&amp;"@
    } else if c == '<' {
        "&lt;"@
    } else if c == '>' {
        "&gt;"@
    } else {
        seq![c]
    }
}

/// Minimal XML text escaping for element content: `&`, `<` and `>`.
pub open spec fn escape(s: Seq<char>) -> Seq<char>
    decreases s.len(),
{
    if s.len() == 0 {
        Seq::empty()
    } else {
        escape(s.drop_last()) + escape_char(s.last())
    }
}

/// Minimal XML text escaping for element content: `&`, `<` and `>`.
pub fn xml_escape(s: &str) -> (r: String)
    ensures
        r@ == escape(s@),
{
    let v = chars_of(s);
    let mut r = String::new();
    let mut k: usize = 0;
    while k < v.len()
        invariant
            k <= v@.len(),
            r@ == escape(v@.subrange(0, k as int)),
        decreases v.len() - k,
    {
        let c = v[k];
        assert(v@.subrange(0, k + 1).drop_last() =~= v@.subrange(0, k as int));
        if c == '&' {
            r.append("&amp;");
        } else if c == '<' {
            r.append("&lt;");
        } else if c == '>' {
            r.append("&gt;");
        } else {
            r.push(c);
        }
        k = k + 1;
    }
    assert(v@.subrange(0, v@.len() as int) =~= v@);
    r
}

/// The pieces of a party: `<FIId><FinInstnId><BICFI>bic</BICFI></FinInstnId></FIId>`
/// inside `<tag>...</tag>`, or nothing for an absent party.
pub open spec fn party_pieces(tag: Seq<char>, bic: Option<Seq<char>>) -> Seq<Piece> {
    match bic {
        Some(b) => seq![Piece::Open(tag)] + bic_pieces(b) + seq![Piece::Close(tag)],
        None => Seq::empty(),
    }
}

/// `<FIId><FinInstnId><BICFI>bic</BICFI></FinInstnId></FIId>`, escaped.
pub open spec fn bic_pieces(b: Seq<char>) -> Seq<Piece> {
    seq![Piece::Open("FIId"@), Piece::Open("FinInstnId"@)] + (seq![Piece::Open("BICFI"@)]
        + seq![Piece::Text(escape(b))] + seq![Piece::Close("BICFI"@)]) + seq![
        Piece::Close("FinInstnId"@),
        Piece::Close("FIId"@),
    ]
}

/// The pieces `<tag>value</tag>` (escaped), or nothing for an absent value.
pub open spec fn elem_pieces(tag: Seq<char>, v: Option<Seq<char>>) -> Seq<Piece> {
    match v {
        Some(x) => seq![Piece::Open(tag)] + seq![Piece::Text(escape(x))] + seq![Piece::Close(tag)],
        None => Seq::empty(),
    }
}

/// The content of the `<AppHdr>` element for header `h`: `Fr`, `To`,
/// `BizMsgIdr`, `MsgDefIdr` and `CreDt`, each omitted when absent.
pub open spec fn header_pieces(h: BusinessHeaderV) -> Seq<Piece> {
    party_pieces("Fr"@, h.from) + party_pieces("To"@, h.to) + elem_pieces("BizMsgIdr"@, h.biz_msg_idr)
        + elem_pieces("MsgDefIdr"@, h.msg_def_idr) + elem_pieces("CreDt"@, h.cre_dt)
}

/// `<AppHdr xmlns="ns">`.
pub open spec fn app_hdr_open(ns: Seq<char>) -> Seq<char> {
    seq!['<'] + "AppHdr"@ + " xmlns=\""@ + ns + "\">"@
}

/// The `<AppHdr>` element for header `h` in namespace `ns`.
pub open spec fn spec_app_hdr_xml(h: BusinessHeaderV, ns: Seq<char>) -> Seq<char> {
    app_hdr_open(ns) + render(header_pieces(h)) + close_str("AppHdr"@)
}

/// The default Business Application Header namespace, `head.001.001.02`.
pub open spec fn default_bah_namespace() -> Seq<char> {
    "urn:iso:std:iso:20022:tech:xsd:head.001.001.02"@
}

fn append_open(out: &mut String, name: &str)
    ensures
        final(out)@ == old(out)@ + open_str(name@),
{
    out.push('<');
    out.append(name);
    out.push('>');
    assert(final(out)@ =~= old(out)@ + open_str(name@));
}

fn append_close(out: &mut String, name: &str)
    ensures
        final(out)@ == old(out)@ + close_str(name@),
{
    out.push('<');
    out.push('/');
    out.append(name);
    out.push('>');
    assert(final(out)@ =~= old(out)@ + close_str(name@));
}

fn append_escaped(out: &mut String, text: &str)
    ensures
        final(out)@ == old(out)@ + escape(text@),
{
    let e = xml_escape(text);
    out.append(e.as_str());
}

proof fn lemma_render3(a: Piece, b: Piece, c: Piece)
    ensures
        render(seq![a] + seq![b] + seq![c]) == piece_str(a) + piece_str(b) + piece_str(c),
{
    lemma_render_concat(seq![a] + seq![b], seq![c]);
    lemma_render_concat(seq![a], seq![b]);
    lemma_render_one(a);
    lemma_render_one(b);
    lemma_render_one(c);
}

proof fn lemma_render2(a: Piece, b: Piece)
    ensures
        render(seq![a, b]) == piece_str(a) + piece_str(b),
{
    assert(seq![a, b] =~= seq![a] + seq![b]);
    lemma_render_concat(seq![a], seq![b]);
    lemma_render_one(a);
    lemma_render_one(b);
}

/// The text of a party's pieces.
proof fn lemma_party_text(tag: Seq<char>, b: Seq<char>)
    ensures
        render(party_pieces(tag, Some(b))) == open_str(tag) + open_str("FIId"@) + open_str(
            "FinInstnId"@,
        ) + open_str("BICFI"@) + escape(b) + close_str("BICFI"@) + close_str("FinInstnId"@)
            + close_str("FIId"@) + close_str(tag),
{
    let inner = seq![Piece::Open("BICFI"@)] + seq![Piece::Text(escape(b))] + seq![
        Piece::Close("BICFI"@),
    ];
    let front = seq![Piece::Open("FIId"@), Piece::Open("FinInstnId"@)];
    let back = seq![Piece::Close("FinInstnId"@), Piece::Close("FIId"@)];
    lemma_render3(Piece::Open("BICFI"@), Piece::Text(escape(b)), Piece::Close("BICFI"@));
    lemma_render2(Piece::Open("FIId"@), Piece::Open("FinInstnId"@));
    lemma_render2(Piece::Close("FinInstnId"@), Piece::Close("FIId"@));
    lemma_render_concat(front + inner, back);
    lemma_render_concat(front, inner);
    lemma_render_concat(seq![Piece::Open(tag)] + bic_pieces(b), seq![Piece::Close(tag)]);
    lemma_render_concat(seq![Piece::Open(tag)], bic_pieces(b));
    lemma_render_one(Piece::Open(tag));
    lemma_render_one(Piece::Close(tag));
    assert(render(party_pieces(tag, Some(b))) =~= open_str(tag) + open_str("FIId"@) + open_str(
        "FinInstnId"@,
    ) + open_str("BICFI"@) + escape(b) + close_str("BICFI"@) + close_str("FinInstnId"@)
        + close_str("FIId"@) + close_str(tag));
}

fn append_party(out: &mut String, tag: &str, bic: &Option<String>)
    ensures
        final(out)@ == old(out)@ + render(party_pieces(tag@, opt_str(*bic))),
{
    match bic {
        Some(b) => {
            append_open(out, tag);
            append_open(out, "FIId");
            append_open(out, "FinInstnId");
            append_open(out, "BICFI");
            append_escaped(out, b.as_str());
            append_close(out, "BICFI");
            append_close(out, "FinInstnId");
            append_close(out, "FIId");
            append_close(out, tag);
            proof {
                lemma_party_text(tag@, b@);
            }
            assert(final(out)@ =~= old(out)@ + render(party_pieces(tag@, opt_str(*bic))));
        },
        None => {
            assert(render(Seq::<Piece>::empty()) =~= Seq::<char>::empty());
            assert(out@ =~= old(out)@ + render(party_pieces(tag@, opt_str(*bic))));
        },
    }
}

fn append_elem(out: &mut String, tag: &str, v: &Option<String>)
    ensures
        final(out)@ == old(out)@ + render(elem_pieces(tag@, opt_str(*v))),
{
    match v {
        Some(x) => {
            append_open(out, tag);
            append_escaped(out, x.as_str());
            append_close(out, tag);
            proof {
                lemma_render3(Piece::Open(tag@), Piece::Text(escape(x@)), Piece::Close(tag@));
            }
            assert(final(out)@ =~= old(out)@ + render(elem_pieces(tag@, opt_str(*v))));
        },
        None => {
            assert(render(Seq::<Piece>::empty()) =~= Seq::<char>::empty());
            assert(out@ =~= old(out)@ + render(elem_pieces(tag@, opt_str(*v))));
        },
    }
}

impl BusinessHeader {
    /// Render this header as a `head.001` `<AppHdr>` element (default
    /// `head.001.001.02` namespace). `From`/`To` are emitted as financial
    /// institution BICs. Fields that are `None` are omitted.
    pub fn to_app_hdr_xml(&self) -> (r: String)
        ensures
            r@ == spec_app_hdr_xml(self@, default_bah_namespace()),
    {
        self.to_app_hdr_xml_ns("urn:iso:std:iso:20022:tech:xsd:head.001.001.02")
    }

    /// As [`BusinessHeader::to_app_hdr_xml`] but with an explicit BAH namespace.
    pub fn to_app_hdr_xml_ns(&self, namespace: &str) -> (r: String)
        ensures
            r@ == spec_app_hdr_xml(self@, namespace@),
    {
        let mut out = String::new();
        out.push('<');
        out.append("AppHdr");
        out.append(" xmlns=\"");
        out.append(namespace);
        out.append("\">");
        let ghost start = out@;
        append_party(&mut out, "Fr", &self.from);
        append_party(&mut out, "To", &self.to);
        append_elem(&mut out, "BizMsgIdr", &self.biz_msg_idr);
        append_elem(&mut out, "MsgDefIdr", &self.msg_def_idr);
        append_elem(&mut out, "CreDt", &self.cre_dt);
        proof {
            let h = self@;
            let p1 = party_pieces("Fr"@, h.from);
            let p2 = party_pieces("To"@, h.to);
            let e1 = elem_pieces("BizMsgIdr"@, h.biz_msg_idr);
            let e2 = elem_pieces("MsgDefIdr"@, h.msg_def_idr);
            let e3 = elem_pieces("CreDt"@, h.cre_dt);
            lemma_render_concat(p1 + p2 + e1 + e2, e3);
            lemma_render_concat(p1 + p2 + e1, e2);
            lemma_render_concat(p1 + p2, e1);
            lemma_render_concat(p1, p2);
            assert(out@ =~= start + render(header_pieces(h)));
        }
        append_close(&mut out, "AppHdr");
        assert(out@ =~= spec_app_hdr_xml(self@, namespace@));
        out
    }
}

// ------------------------------------------------------------------- laws ---

/// The tag names of a header are simple and pairwise distinct.
pub proof fn lemma_tag_names()
    ensures
        simple_name("Fr"@),
        simple_name("To"@),
        simple_name("FIId"@),
        simple_name("FinInstnId"@),
        simple_name("BICFI"@),
        simple_name("BizMsgIdr"@),
        simple_name("MsgDefIdr"@),
        simple_name("CreDt"@),
        simple_name("AppHdr"@),
        "Fr"@ != "To"@,
        "Fr"@ != "FIId"@,
        "Fr"@ != "FinInstnId"@,
        "Fr"@ != "BICFI"@,
        "Fr"@ != "BizMsgIdr"@,
        "Fr"@ != "MsgDefIdr"@,
        "Fr"@ != "CreDt"@,
        "Fr"@ != "AppHdr"@,
        "To"@ != "FIId"@,
        "To"@ != "FinInstnId"@,
        "To"@ != "BICFI"@,
        "To"@ != "BizMsgIdr"@,
        "To"@ != "MsgDefIdr"@,
        "To"@ != "CreDt"@,
        "To"@ != "AppHdr"@,
        "FIId"@ != "FinInstnId"@,
        "FIId"@ != "BICFI"@,
        "FIId"@ != "BizMsgIdr"@,
        "FIId"@ != "MsgDefIdr"@,
        "FIId"@ != "CreDt"@,
        "FIId"@ != "AppHdr"@,
        "FinInstnId"@ != "BICFI"@,
        "FinInstnId"@ != "BizMsgIdr"@,
        "FinInstnId"@ != "MsgDefIdr"@,
        "FinInstnId"@ != "CreDt"@,
        "FinInstnId"@ != "AppHdr"@,
        "BICFI"@ != "BizMsgIdr"@,
        "BICFI"@ != "MsgDefIdr"@,
        "BICFI"@ != "CreDt"@,
        "BICFI"@ != "AppHdr"@,
        "BizMsgIdr"@ != "MsgDefIdr"@,
        "BizMsgIdr"@ != "CreDt"@,
        "BizMsgIdr"@ != "AppHdr"@,
        "MsgDefIdr"@ != "CreDt"@,
        "MsgDefIdr"@ != "AppHdr"@,
        "CreDt"@ != "AppHdr"@,
{
    reveal_strlit("Fr");
    reveal_strlit("To");
    reveal_strlit("FIId");
    reveal_strlit("FinInstnId");
    reveal_strlit("BICFI");
    reveal_strlit("BizMsgIdr");
    reveal_strlit("MsgDefIdr");
    reveal_strlit("CreDt");
    reveal_strlit("AppHdr");
    assert("Fr"@[0] != "To"@[0]);
    assert("BICFI"@[0] != "CreDt"@[0]);
    assert("BizMsgIdr"@[0] != "MsgDefIdr"@[0]);
}

pub proof fn lemma_escape_no_lt(s: Seq<char>)
    ensures
        no_lt(escape(s)),
    decreases s.len(),
{
    reveal_strlit("&amp;");
    reveal_strlit("&lt;");
    reveal_strlit("&gt;");
    if s.len() > 0 {
        lemma_escape_no_lt(s.drop_last());
        let a = escape(s.drop_last());
        let b = escape_char(s.last());
        assert forall|i: int| 0 <= i < (a + b).len() implies (a + b)[i] != '<' by {
            if i < a.len() {
                assert((a + b)[i] == a[i]);
            } else {
                assert((a + b)[i] == b[i - a.len()]);
            }
        }
    }
}

/// Text without `&`, `<` and `>` that has no surrounding white space: what a
/// header field can hold and read back unchanged.
pub open spec fn plain_value(x: Seq<char>) -> bool {
    &&& forall|i: int| 0 <= i < x.len() ==> x[i] != '&' && x[i] != '<' && x[i] != '>'
    &&& trim(x) == x
}

pub proof fn lemma_escape_plain(s: Seq<char>)
    requires
        forall|i: int| 0 <= i < s.len() ==> s[i] != '&' && s[i] != '<' && s[i] != '>',
    ensures
        escape(s) == s,
    decreases s.len(),
{
    if s.len() > 0 {
        lemma_escape_plain(s.drop_last());
        assert(escape(s) =~= s);
    }
}

/// A header whose fields all read back unchanged: parties that are non-empty
/// plain values, other fields that are plain values.
pub open spec fn round_trips(h: BusinessHeaderV) -> bool {
    &&& (h.from matches Some(b) ==> plain_value(b) && b.len() > 0)
    &&& (h.to matches Some(b) ==> plain_value(b) && b.len() > 0)
    &&& (h.biz_msg_idr matches Some(x) ==> plain_value(x))
    &&& (h.msg_def_idr matches Some(x) ==> plain_value(x))
    &&& (h.cre_dt matches Some(x) ==> plain_value(x))
}

proof fn lemma_ok3(a: Piece, b: Piece, c: Piece, l: Seq<char>)
    requires
        piece_ok(a, l),
        piece_ok(b, l),
        piece_ok(c, l),
    ensures
        pieces_ok(seq![a] + seq![b] + seq![c], l),
{
    assert(pieces_ok(seq![a], l));
    assert(pieces_ok(seq![b], l));
    assert(pieces_ok(seq![c], l));
    lemma_pieces_ok_concat(seq![a], seq![b], l);
    lemma_pieces_ok_concat(seq![a] + seq![b], seq![c], l);
}

proof fn lemma_bic_ok(b: Seq<char>, l: Seq<char>)
    requires
        l != "FIId"@,
        l != "FinInstnId"@,
        l != "BICFI"@,
    ensures
        pieces_ok(bic_pieces(b), l),
{
    lemma_tag_names();
    lemma_escape_no_lt(b);
    let front = seq![Piece::Open("FIId"@), Piece::Open("FinInstnId"@)];
    let back = seq![Piece::Close("FinInstnId"@), Piece::Close("FIId"@)];
    assert(pieces_ok(front, l));
    assert(pieces_ok(back, l));
    lemma_ok3(Piece::Open("BICFI"@), Piece::Text(escape(b)), Piece::Close("BICFI"@), l);
    lemma_pieces_ok_concat(
        front,
        seq![Piece::Open("BICFI"@)] + seq![Piece::Text(escape(b))] + seq![Piece::Close("BICFI"@)],
        l,
    );
    lemma_pieces_ok_concat(
        front + (seq![Piece::Open("BICFI"@)] + seq![Piece::Text(escape(b))] + seq![
            Piece::Close("BICFI"@),
        ]),
        back,
        l,
    );
}

proof fn lemma_party_ok(tag: Seq<char>, b: Option<Seq<char>>, l: Seq<char>)
    requires
        simple_name(tag),
        tag != l,
        l != "FIId"@,
        l != "FinInstnId"@,
        l != "BICFI"@,
    ensures
        pieces_ok(party_pieces(tag, b), l),
{
    if let Some(x) = b {
        lemma_bic_ok(x, l);
        assert(pieces_ok(seq![Piece::Open(tag)], l));
        assert(pieces_ok(seq![Piece::Close(tag)], l));
        lemma_pieces_ok_concat(seq![Piece::Open(tag)], bic_pieces(x), l);
        lemma_pieces_ok_concat(seq![Piece::Open(tag)] + bic_pieces(x), seq![Piece::Close(tag)], l);
    }
}

proof fn lemma_elem_ok(tag: Seq<char>, v: Option<Seq<char>>, l: Seq<char>)
    requires
        simple_name(tag),
        tag != l,
    ensures
        pieces_ok(elem_pieces(tag, v), l),
{
    if let Some(x) = v {
        lemma_escape_no_lt(x);
        lemma_ok3(Piece::Open(tag), Piece::Text(escape(x)), Piece::Close(tag), l);
    }
}

/// The party `tag` of a document `pre <tag>...</tag> post` reads back.
proof fn lemma_party_field(pre: Seq<Piece>, tag: Seq<char>, b: Option<Seq<char>>, post: Seq<Piece>)
    requires
        simple_name(tag),
        tag != "FIId"@,
        tag != "FinInstnId"@,
        tag != "BICFI"@,
        pieces_ok(pre, tag),
        pieces_ok(post, tag),
        b matches Some(x) ==> plain_value(x) && x.len() > 0,
    ensures
        party_of(render(pre + party_pieces(tag, b) + post), tag) == b,
{
    lemma_tag_names();
    match b {
        Some(x) => {
            let mid = bic_pieces(x);
            lemma_bic_ok(x, tag);
            assert(pre + party_pieces(tag, b) + post =~= pre + seq![Piece::Open(tag)] + mid
                + seq![Piece::Close(tag)] + post);
            lemma_element_found(pre, tag, mid, post);
            let front = seq![Piece::Open("FIId"@), Piece::Open("FinInstnId"@)];
            let back = seq![Piece::Close("FinInstnId"@), Piece::Close("FIId"@)];
            let text = seq![Piece::Text(escape(x))];
            assert(pieces_ok(front, "BICFI"@));
            lemma_escape_no_lt(x);
            assert(pieces_ok(text, "BICFI"@));
            assert(mid =~= front + seq![Piece::Open("BICFI"@)] + text + seq![Piece::Close("BICFI"@)]
                + back);
            lemma_element_found(front, "BICFI"@, text, back);
            lemma_render_one(Piece::Text(escape(x)));
            lemma_escape_plain(x);
        },
        None => {
            assert(pre + party_pieces(tag, b) + post =~= pre + post);
            lemma_pieces_ok_concat(pre, post, tag);
            lemma_element_absent(pre + post, tag);
        },
    }
}

/// The element `tag` of a document `pre <tag>...</tag> post` reads back.
proof fn lemma_elem_field(pre: Seq<Piece>, tag: Seq<char>, v: Option<Seq<char>>, post: Seq<Piece>)
    requires
        simple_name(tag),
        pieces_ok(pre, tag),
        pieces_ok(post, tag),
        v matches Some(x) ==> plain_value(x),
    ensures
        element_text(render(pre + elem_pieces(tag, v) + post), tag) == v,
{
    match v {
        Some(x) => {
            let text = seq![Piece::Text(escape(x))];
            lemma_escape_no_lt(x);
            assert(pieces_ok(text, tag));
            assert(pre + elem_pieces(tag, v) + post =~= pre + seq![Piece::Open(tag)] + text
                + seq![Piece::Close(tag)] + post);
            lemma_element_found(pre, tag, text, post);
            lemma_render_one(Piece::Text(escape(x)));
            lemma_escape_plain(x);
        },
        None => {
            assert(pre + elem_pieces(tag, v) + post =~= pre + post);
            lemma_pieces_ok_concat(pre, post, tag);
            lemma_element_absent(pre + post, tag);
        },
    }
}

/// The reader's scope in a written header is exactly its content.
proof fn lemma_app_hdr_scope(body: Seq<Piece>, ns: Seq<char>)
    requires
        pieces_ok(body, "AppHdr"@),
        forall|i: int| 0 <= i < ns.len() ==> ns[i] != '>',
    ensures
        header_scope(app_hdr_open(ns) + render(body) + close_str("AppHdr"@)) == render(body),
{
    reveal_strlit("AppHdr");
    reveal_strlit(" xmlns=\"");
    reveal_strlit("\">");
    lemma_tag_names();
    let o = app_hdr_open(ns);
    let r = render(body);
    let c = close_str("AppHdr"@);
    let s = o + r + c;
    let gt: int = o.len() - 1;
    let ol: int = o.len() as int;
    let rl: int = r.len() as int;
    let cl: int = c.len() as int;
    assert(o.len() == 17 + ns.len());
    assert(s[0] == '<');
    assert(s[1] == 'A');
    assert(s[7] == ' ');
    lemma_find_char_is(s, '<', 0, 0);
    assert forall|t: int| 1 <= t < 7 implies !is_name_end(#[trigger] s[t]) by {
        assert(s[t] == "AppHdr"@[t - 1]);
    }
    lemma_find_name_end_is(s, 1, 7);
    assert(s.subrange(1, 7) =~= "AppHdr"@);
    lemma_local_name_simple("AppHdr"@);
    assert(s[gt] == '>');
    assert forall|t: int| 0 <= t < gt implies s[t] != '>' by {
        if 15 <= t < 15 + ns.len() {
            assert(s[t] == ns[t - 15]);
        }
    }
    lemma_find_char_is(s, '>', 0, gt);
    assert(open_tag(s, "AppHdr"@) == Some((0int, gt)));
    assert(s[gt - 1] == '"');
    assert(pieces_at(s, o.len() as int, body)) by {
        assert(s.subrange(ol, ol + rl) =~= r);
    }
    lemma_close_scan_pieces(s, "AppHdr"@, 1, o.len() as int, body);
    assert(piece_at(s, ol + rl, Piece::Close("AppHdr"@))) by {
        assert(s.subrange(ol + rl, ol + rl + cl) =~= c);
    }
    lemma_close_scan_final(s, "AppHdr"@, ol + rl);
    assert(s.subrange(gt + 1, ol + rl) =~= r);
}

/// A written header reads back as the header it was written from:
/// `parse_business_header(&h.to_app_hdr_xml_ns(ns))` is `Some(h)` (or `None`
/// when `h` has no field), for every header whose fields are plain values and
/// every namespace without `>`.
pub proof fn lemma_header_round_trip(h: BusinessHeaderV, ns: Seq<char>)
    requires
        round_trips(h),
        forall|i: int| 0 <= i < ns.len() ==> ns[i] != '>',
    ensures
        spec_parse_header(spec_app_hdr_xml(h, ns)) == (if header_is_empty(h) {
            None
        } else {
            Some(h)
        }),
{
    lemma_tag_names();
    let fr = "Fr"@;
    let to = "To"@;
    let bz = "BizMsgIdr"@;
    let md = "MsgDefIdr"@;
    let cd = "CreDt"@;
    let ah = "AppHdr"@;
    let p1 = party_pieces(fr, h.from);
    let p2 = party_pieces(to, h.to);
    let e1 = elem_pieces(bz, h.biz_msg_idr);
    let e2 = elem_pieces(md, h.msg_def_idr);
    let e3 = elem_pieces(cd, h.cre_dt);
    let body = header_pieces(h);
    let empty = Seq::<Piece>::empty();
    assert(pieces_ok(empty, fr));
    assert(pieces_ok(empty, cd));
    // every block is stepped over by a search for another block's tag
    lemma_party_ok(fr, h.from, to);
    lemma_party_ok(fr, h.from, bz);
    lemma_party_ok(fr, h.from, md);
    lemma_party_ok(fr, h.from, cd);
    lemma_party_ok(fr, h.from, ah);
    lemma_party_ok(to, h.to, fr);
    lemma_party_ok(to, h.to, bz);
    lemma_party_ok(to, h.to, md);
    lemma_party_ok(to, h.to, cd);
    lemma_party_ok(to, h.to, ah);
    lemma_elem_ok(bz, h.biz_msg_idr, fr);
    lemma_elem_ok(bz, h.biz_msg_idr, to);
    lemma_elem_ok(bz, h.biz_msg_idr, md);
    lemma_elem_ok(bz, h.biz_msg_idr, cd);
    lemma_elem_ok(bz, h.biz_msg_idr, ah);
    lemma_elem_ok(md, h.msg_def_idr, fr);
    lemma_elem_ok(md, h.msg_def_idr, to);
    lemma_elem_ok(md, h.msg_def_idr, bz);
    lemma_elem_ok(md, h.msg_def_idr, cd);
    lemma_elem_ok(md, h.msg_def_idr, ah);
    lemma_elem_ok(cd, h.cre_dt, fr);
    lemma_elem_ok(cd, h.cre_dt, to);
    lemma_elem_ok(cd, h.cre_dt, bz);
    lemma_elem_ok(cd, h.cre_dt, md);
    lemma_elem_ok(cd, h.cre_dt, ah);
    // the scope
    lemma_pieces_ok_concat(p1, p2, ah);
    lemma_pieces_ok_concat(p1 + p2, e1, ah);
    lemma_pieces_ok_concat(p1 + p2 + e1, e2, ah);
    lemma_pieces_ok_concat(p1 + p2 + e1 + e2, e3, ah);
    lemma_app_hdr_scope(body, ns);
    let scope = render(body);
    assert(header_scope(spec_app_hdr_xml(h, ns)) == scope);
    // From
    lemma_pieces_ok_concat(p2, e1, fr);
    lemma_pieces_ok_concat(p2 + e1, e2, fr);
    lemma_pieces_ok_concat(p2 + e1 + e2, e3, fr);
    assert(body =~= empty + p1 + (p2 + e1 + e2 + e3));
    lemma_party_field(empty, fr, h.from, p2 + e1 + e2 + e3);
    // To
    lemma_pieces_ok_concat(e1, e2, to);
    lemma_pieces_ok_concat(e1 + e2, e3, to);
    assert(body =~= p1 + p2 + (e1 + e2 + e3));
    lemma_party_field(p1, to, h.to, e1 + e2 + e3);
    // BizMsgIdr
    lemma_pieces_ok_concat(p1, p2, bz);
    lemma_pieces_ok_concat(e2, e3, bz);
    assert(body =~= (p1 + p2) + e1 + (e2 + e3));
    lemma_elem_field(p1 + p2, bz, h.biz_msg_idr, e2 + e3);
    // MsgDefIdr
    lemma_pieces_ok_concat(p1, p2, md);
    lemma_pieces_ok_concat(p1 + p2, e1, md);
    assert(body =~= (p1 + p2 + e1) + e2 + e3);
    lemma_elem_field(p1 + p2 + e1, md, h.msg_def_idr, e3);
    // CreDt
    lemma_pieces_ok_concat(p1, p2, cd);
    lemma_pieces_ok_concat(p1 + p2, e1, cd);
    lemma_pieces_ok_concat(p1 + p2 + e1, e2, cd);
    assert(body =~= (p1 + p2 + e1 + e2) + e3 + empty);
    lemma_elem_field(p1 + p2 + e1 + e2, cd, h.cre_dt, empty);
}

/// Every `<` of the `<AppHdr xmlns="ns">` frame and of `</AppHdr>` is followed
/// by `A` or `/`.
proof fn lemma_frame_lt(ns: Seq<char>, t: Seq<char>)
    requires
        forall|i: int| 0 <= i < ns.len() ==> ns[i] != '<',
        t.len() > 0,
        t[0] != 'A',
        t[0] != '/',
    ensures
        forall|i: int|
            0 <= i < app_hdr_open(ns).len() && #[trigger] app_hdr_open(ns)[i] == '<' ==> i + 1
                < app_hdr_open(ns).len() && app_hdr_open(ns)[i + 1] != t[0],
        forall|i: int|
            0 <= i < close_str("AppHdr"@).len() && #[trigger] close_str("AppHdr"@)[i] == '<' ==> i
                + 1 < close_str("AppHdr"@).len() && close_str("AppHdr"@)[i + 1] != t[0],
{
    reveal_strlit("AppHdr");
    reveal_strlit(" xmlns=\"");
    reveal_strlit("\">");
    let o = app_hdr_open(ns);
    assert forall|i: int| 0 <= i < o.len() && #[trigger] o[i] == '<' implies i + 1 < o.len() && o[i
        + 1] != t[0] by {
        if i > 0 {
            if 15 <= i < 15 + ns.len() {
                assert(o[i] == ns[i - 15]);
            }
        } else {
            assert(o[1] == 'A');
        }
    }
    let c = close_str("AppHdr"@);
    assert forall|i: int| 0 <= i < c.len() && #[trigger] c[i] == '<' implies i + 1 < c.len() && c[i
        + 1] != t[0] by {
        assert(c[1] == '/');
    }
}

/// The tag `<t>` occurs in the written header exactly when its block is there.
proof fn lemma_tag_block(
    h: BusinessHeaderV,
    ns: Seq<char>,
    t: Seq<char>,
    pre: Seq<Piece>,
    block: Seq<Piece>,
    post: Seq<Piece>,
)
    requires
        header_pieces(h) == pre + block + post,
        forall|i: int| 0 <= i < ns.len() ==> ns[i] != '<',
        simple_name(t),
        t[0] != 'A',
        pieces_ok(pre, t),
        pieces_ok(post, t),
        block.len() == 0 || block[0] == Piece::Open(t),
    ensures
        contains_seq(spec_app_hdr_xml(h, ns), open_str(t)) == (block.len() > 0),
{
    let o = app_hdr_open(ns);
    let c = close_str("AppHdr"@);
    assert(t[0] != '/') by {
        assert(crate::scan_laws::plain_name_char(t[0]));
    }
    lemma_frame_lt(ns, t);
    if block.len() == 0 {
        assert(header_pieces(h) =~= pre + post);
        lemma_pieces_ok_concat(pre, post, t);
        lemma_open_tag_absent(o, pre + post, t, c);
    } else {
        let rest = block.drop_first() + post;
        assert(header_pieces(h) =~= pre + seq![Piece::Open(t)] + rest);
        lemma_open_tag_present(o, pre, t, rest, c);
    }
}

/// In a written header, the opening tag of each field occurs exactly when the
/// field is set (for a namespace without `<`); each set field is written as
/// its element, in the order `Fr`, `To`, `BizMsgIdr`, `MsgDefIdr`, `CreDt`,
/// between `<AppHdr xmlns="ns">` and `</AppHdr>` (see [`spec_app_hdr_xml`]).
pub proof fn lemma_header_tags(h: BusinessHeaderV, ns: Seq<char>)
    requires
        forall|i: int| 0 <= i < ns.len() ==> ns[i] != '<',
    ensures
        contains_seq(spec_app_hdr_xml(h, ns), open_str("Fr"@)) == h.from is Some,
        contains_seq(spec_app_hdr_xml(h, ns), open_str("To"@)) == h.to is Some,
        contains_seq(spec_app_hdr_xml(h, ns), open_str("BizMsgIdr"@)) == h.biz_msg_idr is Some,
        contains_seq(spec_app_hdr_xml(h, ns), open_str("MsgDefIdr"@)) == h.msg_def_idr is Some,
        contains_seq(spec_app_hdr_xml(h, ns), open_str("CreDt"@)) == h.cre_dt is Some,
{
    lemma_tag_names();
    reveal_strlit("Fr");
    reveal_strlit("To");
    reveal_strlit("BizMsgIdr");
    reveal_strlit("MsgDefIdr");
    reveal_strlit("CreDt");
    let fr = "Fr"@;
    let to = "To"@;
    let bz = "BizMsgIdr"@;
    let md = "MsgDefIdr"@;
    let cd = "CreDt"@;
    let p1 = party_pieces(fr, h.from);
    let p2 = party_pieces(to, h.to);
    let e1 = elem_pieces(bz, h.biz_msg_idr);
    let e2 = elem_pieces(md, h.msg_def_idr);
    let e3 = elem_pieces(cd, h.cre_dt);
    let empty = Seq::<Piece>::empty();
    assert(pieces_ok(empty, fr));
    assert(pieces_ok(empty, cd));
    // Fr
    lemma_party_ok(to, h.to, fr);
    lemma_elem_ok(bz, h.biz_msg_idr, fr);
    lemma_elem_ok(md, h.msg_def_idr, fr);
    lemma_elem_ok(cd, h.cre_dt, fr);
    lemma_pieces_ok_concat(p2, e1, fr);
    lemma_pieces_ok_concat(p2 + e1, e2, fr);
    lemma_pieces_ok_concat(p2 + e1 + e2, e3, fr);
    assert(header_pieces(h) =~= empty + p1 + (p2 + e1 + e2 + e3));
    lemma_tag_block(h, ns, fr, empty, p1, p2 + e1 + e2 + e3);
    // To
    lemma_party_ok(fr, h.from, to);
    lemma_elem_ok(bz, h.biz_msg_idr, to);
    lemma_elem_ok(md, h.msg_def_idr, to);
    lemma_elem_ok(cd, h.cre_dt, to);
    lemma_pieces_ok_concat(e1, e2, to);
    lemma_pieces_ok_concat(e1 + e2, e3, to);
    assert(header_pieces(h) =~= p1 + p2 + (e1 + e2 + e3));
    lemma_tag_block(h, ns, to, p1, p2, e1 + e2 + e3);
    // BizMsgIdr
    lemma_party_ok(fr, h.from, bz);
    lemma_party_ok(to, h.to, bz);
    lemma_elem_ok(md, h.msg_def_idr, bz);
    lemma_elem_ok(cd, h.cre_dt, bz);
    lemma_pieces_ok_concat(p1, p2, bz);
    lemma_pieces_ok_concat(e2, e3, bz);
    assert(header_pieces(h) =~= (p1 + p2) + e1 + (e2 + e3));
    lemma_tag_block(h, ns, bz, p1 + p2, e1, e2 + e3);
    // MsgDefIdr
    lemma_party_ok(fr, h.from, md);
    lemma_party_ok(to, h.to, md);
    lemma_elem_ok(bz, h.biz_msg_idr, md);
    lemma_elem_ok(cd, h.cre_dt, md);
    lemma_pieces_ok_concat(p1, p2, md);
    lemma_pieces_ok_concat(p1 + p2, e1, md);
    assert(header_pieces(h) =~= (p1 + p2 + e1) + e2 + e3);
    lemma_tag_block(h, ns, md, p1 + p2 + e1, e2, e3);
    // CreDt
    lemma_party_ok(fr, h.from, cd);
    lemma_party_ok(to, h.to, cd);
    lemma_elem_ok(bz, h.biz_msg_idr, cd);
    lemma_elem_ok(md, h.msg_def_idr, cd);
    lemma_pieces_ok_concat(p1, p2, cd);
    lemma_pieces_ok_concat(p1 + p2, e1, cd);
    lemma_pieces_ok_concat(p1 + p2 + e1, e2, cd);
    assert(header_pieces(h) =~= (p1 + p2 + e1 + e2) + e3 + empty);
    lemma_tag_block(h, ns, cd, p1 + p2 + e1 + e2, e3, empty);
}

/// The party of a `Fr`/`To` fragment is the text of the first of `BICFI`,
/// `AnyBIC`, `BIC` and `Id`, in that order, whose text is not empty; none
/// when all four are empty or absent.
pub proof fn lemma_first_bic_priority(f: Seq<char>)
    ensures
        non_empty(element_text(f, "BICFI"@)) is Some ==> first_bic(f) == non_empty(
            element_text(f, "BICFI"@),
        ),
        non_empty(element_text(f, "BICFI"@)) is None && non_empty(element_text(f, "AnyBIC"@)) is Some
            ==> first_bic(f) == non_empty(element_text(f, "AnyBIC"@)),
        non_empty(element_text(f, "BICFI"@)) is None && non_empty(element_text(f, "AnyBIC"@)) is None
            && non_empty(element_text(f, "BIC"@)) is Some ==> first_bic(f) == non_empty(
            element_text(f, "BIC"@),
        ),
        non_empty(element_text(f, "BICFI"@)) is None && non_empty(element_text(f, "AnyBIC"@)) is None
            && non_empty(element_text(f, "BIC"@)) is None ==> first_bic(f) == non_empty(
            element_text(f, "Id"@),
        ),
        first_bic(f) matches Some(v) ==> v.len() > 0,
{
}

/// A header whose `Fr` (or `To`) party has no `BICFI` text but a non-empty
/// `AnyBIC` is read with that `AnyBIC` text as its sender (or receiver).
pub proof fn lemma_header_party_any_bic(s: Seq<char>, tag: Seq<char>, f: Seq<char>, v: Seq<char>)
    requires
        tag == "Fr"@ || tag == "To"@,
        element_inner(header_scope(s), tag) == Some(f),
        non_empty(element_text(f, "BICFI"@)) is None,
        non_empty(element_text(f, "AnyBIC"@)) == Some(v),
    ensures
        spec_parse_header(s) matches Some(h) && (if tag == "Fr"@ {
            h.from == Some(v)
        } else {
            h.to == Some(v)
        }),
{
    lemma_first_bic_priority(f);
    assert(party_of(header_scope(s), tag) == Some(v));
}

} // verus!
