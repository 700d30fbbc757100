//! Detection of the message type of raw XML, and the type guard used before a
//! typed parse.

use vstd::prelude::*;
use crate::business_area::BusinessArea;
use crate::error::{Error, ErrorV};
use crate::mx_id::{MxId, MxIdV, result_view, spec_message_name, spec_parse};
use crate::text::{chars_eq, chars_of, string_of};

verus! {

/// The characters `detect` splits a document at.
pub open spec fn is_delim(c: char) -> bool {
    c == '"' || c == '\'' || c == '<' || c == '>' || c == ' ' || c == '\t' || c == '\n' || c
        == '\r'
}

/// First index `k >= i` of a delimiter.
pub open spec fn find_delim(s: Seq<char>, i: int) -> Option<int>
    decreases s.len() - i,
{
    if i < 0 || i >= s.len() {
        None
    } else if is_delim(s[i]) {
        Some(i)
    } else {
        find_delim(s, i + 1)
    }
}

/// `urn:`.
pub open spec fn urn_prefix() -> Seq<char> {
    seq!['u', 'r', 'n', ':']
}

/// Whether `s` starts with `p`.
pub open spec fn starts_with(s: Seq<char>, p: Seq<char>) -> bool {
    p.len() <= s.len() && s.subrange(0, p.len() as int) == p
}

/// The identifier a token names, if it is a `urn:` token that parses.
pub open spec fn token_id(tok: Seq<char>) -> Option<MxIdV> {
    if starts_with(tok, urn_prefix()) {
        match spec_parse(tok) {
            Ok(id) => Some(id),
            Err(_) => None,
        }
    } else {
        None
    }
}

pub proof fn lemma_find_delim(s: Seq<char>, i: int)
    requires
        0 <= i,
    ensures
        find_delim(s, i) matches Some(k) ==> i <= k < s.len() && is_delim(s[k]),
    decreases s.len() - i,
{
    if i < s.len() && !is_delim(s[i]) {
        lemma_find_delim(s, i + 1);
    }
}

/// Scans the tokens of `s` from `i`: the first token naming a message outside
/// the `head` area wins; otherwise the first `head` identifier seen (`first`).
pub open spec fn detect_from(s: Seq<char>, i: int, first: Option<MxIdV>) -> Option<MxIdV>
    decreases s.len() - i,
{
    if i < 0 || i > s.len() {
        first
    } else {
        let d = match find_delim(s, i) {
            Some(k) => k,
            None => s.len() as int,
        };
        proof {
            lemma_find_delim(s, i);
        }
        let found = token_id(s.subrange(i, d));
        if found is Some && found.unwrap().business_area != BusinessArea::head {
            found
        } else {
            let next_first = if first is None {
                found
            } else {
                first
            };
            if d >= s.len() {
                next_first
            } else {
                detect_from(s, d + 1, next_first)
            }
        }
    }
}

/// The message type of a document: the first `urn:` token (between quotes,
/// angle brackets or white space) that names a message, preferring any
/// message over a Business Application Header (`head.*`) namespace.
pub open spec fn spec_detect(s: Seq<char>) -> Option<MxIdV> {
    detect_from(s, 0, None)
}

/// The value of an optional identifier.
pub open spec fn opt_view(r: Option<MxId>) -> Option<MxIdV> {
    match r {
        Some(id) => Some(id@),
        None => None,
    }
}

fn find_delim_from(v: &[char], i: usize) -> (r: usize)
    ensures
        r == (match find_delim(v@, i as int) {
            Some(k) => k,
            None => v@.len() as int,
        }),
        i <= r <= v.len() || i > v.len(),
{
    let mut k = i;
    while k < v.len()
        invariant
            i <= k,
            find_delim(v@, i as int) == find_delim(v@, k as int),
        decreases v.len() - k,
    {
        let c = v[k];
        if c == '"' || c == '\'' || c == '<' || c == '>' || c == ' ' || c == '\t' || c == '\n'
            || c == '\r' {
            return k;
        }
        k = k + 1;
    }
    v.len()
}

fn token_id_exec(tok: &[char]) -> (r: Option<MxId>)
    ensures
        opt_view(r) == token_id(tok@),
{
    let urn = chars_of("urn:");
    proof {
        reveal_strlit("urn:");
        assert(urn@ =~= urn_prefix());
    }
    if tok.len() < 4 || !chars_eq(&tok[0..4], urn.as_slice()) {
        return None;
    }
    match MxId::parse_chars(tok) {
        Ok(id) => Some(id),
        Err(_) => None,
    }
}

/// Detect the ISO 20022 message type of a raw XML document from the namespace
/// declared on its `Document` (or other root) element. When a Business
/// Application Header is present, the message `Document` namespace is
/// preferred over the `head.*` header namespace.
pub fn detect(xml: &str) -> (r: Option<MxId>)
    ensures
        opt_view(r) == spec_detect(xml@),
{
    let v = chars_of(xml);
    let mut first: Option<MxId> = None;
    let mut i: usize = 0;
    loop
        invariant
            i <= v@.len(),
            v@ == xml@,
            spec_detect(xml@) == detect_from(v@, i as int, opt_view(first)),
        decreases v@.len() - i,
    {
        let d = find_delim_from(v.as_slice(), i);
        let found = token_id_exec(&v[i..d]);
        match found {
            Some(id) => {
                if id.business_area != BusinessArea::head {
                    return Some(id);
                }
                if first.is_none() {
                    first = Some(id);
                }
            },
            None => {},
        }
        if d >= v.len() {
            return first;
        }
        i = d + 1;
    }
}

/// Where the token of `s` that starts at `k` ends.
pub open spec fn token_end(s: Seq<char>, k: int) -> int {
    match find_delim(s, k) {
        Some(d) => d,
        None => s.len() as int,
    }
}

/// Whether a token of `s` starts at `k`: at the start, or right after a delimiter.
pub open spec fn token_start(s: Seq<char>, k: int) -> bool {
    0 <= k <= s.len() && (k == 0 || is_delim(s[k - 1]))
}

/// Whether the token of `s` at `k` names a message outside the `head` area.
pub open spec fn names_message(s: Seq<char>, k: int) -> bool {
    &&& token_start(s, k)
    &&& token_id(s.subrange(k, token_end(s, k))) matches Some(id)
    &&& id.business_area != BusinessArea::head
}

proof fn lemma_find_delim_at_most(s: Seq<char>, i: int, j: int)
    requires
        0 <= i <= j < s.len(),
        is_delim(s[j]),
    ensures
        find_delim(s, i) matches Some(d) && d <= j,
    decreases j - i,
{
    if !is_delim(s[i]) {
        lemma_find_delim_at_most(s, i + 1, j);
    }
}

proof fn lemma_detect_from_prefers(s: Seq<char>, i: int, first: Option<MxIdV>, k: int)
    requires
        0 <= i <= k,
        names_message(s, k),
    ensures
        detect_from(s, i, first) matches Some(id) && id.business_area != BusinessArea::head,
    decreases s.len() - i,
{
    lemma_find_delim(s, i);
    if i < k {
        lemma_find_delim_at_most(s, i, k - 1);
        let d = find_delim(s, i).unwrap();
        let found = token_id(s.subrange(i, d));
        if !(found is Some && found.unwrap().business_area != BusinessArea::head) {
            let next_first = if first is None {
                found
            } else {
                first
            };
            lemma_detect_from_prefers(s, d + 1, next_first, k);
        }
    }
}

/// A document in which some token names a message outside the `head` area is
/// identified as such a message: the message `Document` namespace wins over
/// the Business Application Header's `head.*` namespace.
pub proof fn lemma_detect_prefers_message(s: Seq<char>, k: int)
    requires
        names_message(s, k),
    ensures
        spec_detect(s) matches Some(id) && id.business_area != BusinessArea::head,
{
    lemma_detect_from_prefers(s, 0, None, k);
}

/// Why a document is not of an expected message type.
pub open spec fn spec_check_message_type(s: Seq<char>, expected: Seq<char>) -> Result<
    MxIdV,
    ErrorV,
> {
    match spec_detect(s) {
        Some(id) => if spec_message_name(id) == expected {
            Ok(id)
        } else {
            Err(
                ErrorV::InvalidMxId(
                    "expected "@ + expected + ", found "@ + spec_message_name(id),
                ),
            )
        },
        None => Err(ErrorV::InvalidMxId("no ISO 20022 namespace found in XML"@)),
    }
}

/// The type guard of a typed parse: the detected identifier when the
/// document's message type is `expected` (a message name such as
/// `"pacs.008.001.08"`), otherwise [`Error::InvalidMxId`] saying what was
/// expected and what was found.
pub fn check_message_type(xml: &str, expected: &str) -> (r: Result<MxId, Error>)
    ensures
        result_view(r) == spec_check_message_type(xml@, expected@),
{
    match detect(xml) {
        Some(id) => {
            let name = id.message_name();
            let n = chars_of(name.as_str());
            let e = chars_of(expected);
            if chars_eq(n.as_slice(), e.as_slice()) {
                Ok(id)
            } else {
                let mut m = String::from_str("expected ");
                m.append(expected);
                m.append(", found ");
                m.append(name.as_str());
                Err(Error::InvalidMxId(m))
            }
        },
        None => Err(Error::InvalidMxId(String::from_str("no ISO 20022 namespace found in XML"))),
    }
}

/// Identity and (de)serialization contract of a typed message `Document`.
/// Implementors supply the identity constants and the XML codec; the identity
/// and the guarded parse follow from them.
pub trait MxMessage: Sized {
    /// Business area, e.g. `BusinessArea::pacs`.
    const BUSINESS_AREA: BusinessArea;
    /// Message functionality (type), e.g. `"008"`.
    const FUNCTIONALITY: &'static str;
    /// Variant, e.g. `"001"`.
    const VARIANT: &'static str;
    /// Version, e.g. `"08"`.
    const VERSION: &'static str;
    /// Canonical message name, e.g. `"pacs.008.001.08"`.
    const MESSAGE_NAME: &'static str;
    /// XSD target namespace of the message.
    const NAMESPACE: &'static str;

    /// Parse the message from XML.
    fn parse(xml: &str) -> Result<Self, Error>;

    /// Serialize the message to XML.
    fn to_xml_string(&self) -> Result<String, Error>;

    /// The message identification.
    fn mx_id() -> (r: MxId)
        ensures
            r@ == (MxIdV {
                business_area: Self::BUSINESS_AREA,
                functionality: Self::FUNCTIONALITY@,
                variant: Self::VARIANT@,
                version: Self::VERSION@,
            }),
    {
        MxId::new(Self::BUSINESS_AREA, Self::FUNCTIONALITY, Self::VARIANT, Self::VERSION)
    }

    /// Parse only if the XML's detected message type is this one, otherwise
    /// return [`Error::InvalidMxId`].
    fn parse_checked(xml: &str) -> (r: Result<Self, Error>)
        ensures
            spec_check_message_type(xml@, Self::MESSAGE_NAME@) matches Err(e) ==> r matches Err(
                x,
            ) && x@ == e,
            spec_check_message_type(xml@, Self::MESSAGE_NAME@) is Ok ==> call_ensures(
                Self::parse,
                (xml,),
                r,
            ),
    {
        match check_message_type(xml, Self::MESSAGE_NAME) {
            Ok(_) => Self::parse(xml),
            Err(e) => Err(e),
        }
    }
}

/// Parse XML into the typed message `T` only if the XML's detected message
/// type is `T`'s.
pub fn parse_as<T: MxMessage>(xml: &str) -> (r: Result<T, Error>)
    ensures
        spec_check_message_type(xml@, T::MESSAGE_NAME@) matches Err(e) ==> r matches Err(x) && x@
            == e,
        spec_check_message_type(xml@, T::MESSAGE_NAME@) is Ok ==> call_ensures(T::parse, (xml,), r),
{
    T::parse_checked(xml)
}

} // verus!
