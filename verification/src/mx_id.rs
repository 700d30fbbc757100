//! Identification of an ISO 20022 MX message.

use vstd::prelude::*;
use crate::business_area::{
    BusinessArea, lemma_code_letters, lemma_code_round_trip, lemma_from_code_is_code, spec_code,
    spec_from_code,
};
use crate::error::{Error, ErrorV};
use crate::text::{
    chars_of, find_char, find_char_from, is_digit, owned, string_of, trim, trim_bounds,
};
use crate::xml_scan::{lemma_find_char, local_name, local_name_start};

verus! {

/// Identifies an ISO 20022 message by its four components: business area,
/// message functionality, variant and version. For `pacs.008.001.08`: area
/// `pacs`, functionality `008`, variant `001`, version `08`.
#[derive(Debug, Clone, PartialEq, Eq, Hash, PartialOrd, Ord)]
pub struct MxId {
    /// The business area, e.g. `pacs`.
    pub business_area: BusinessArea,
    /// The message functionality (message type), e.g. `"008"`.
    pub functionality: String,
    /// The variant, e.g. `"001"`.
    pub variant: String,
    /// The version, e.g. `"08"`.
    pub version: String,
}

/// The mathematical value of an [`MxId`].
pub struct MxIdV {
    pub business_area: BusinessArea,
    pub functionality: Seq<char>,
    pub variant: Seq<char>,
    pub version: Seq<char>,
}

impl View for MxId {
    type V = MxIdV;

    open spec fn view(&self) -> MxIdV {
        MxIdV {
            business_area: self.business_area,
            functionality: self.functionality@,
            variant: self.variant@,
            version: self.version@,
        }
    }
}

/// The value of a parse result.
pub open spec fn result_view(r: Result<MxId, Error>) -> Result<MxIdV, ErrorV> {
    match r {
        Ok(id) => Ok(id@),
        Err(e) => Err(e@),
    }
}

/// Whether every character of `s` is an ASCII digit.
pub open spec fn all_digits(s: Seq<char>) -> bool {
    forall|i: int| 0 <= i < s.len() ==> is_digit(#[trigger] s[i])
}

/// A well-formed identifier: `aaaa.999.999.99`.
pub open spec fn well_formed(id: MxIdV) -> bool {
    &&& id.functionality.len() == 3
    &&& id.variant.len() == 3
    &&& id.version.len() == 2
    &&& all_digits(id.functionality)
    &&& all_digits(id.variant)
    &&& all_digits(id.version)
}

/// The canonical message name, e.g. `pacs.008.001.08`.
pub open spec fn spec_message_name(id: MxIdV) -> Seq<char> {
    spec_code(id.business_area) + seq!['.'] + id.functionality + seq!['.'] + id.variant + seq!['.']
        + id.version
}

/// The prefix of every ISO 20022 XSD namespace.
pub open spec fn ns_prefix() -> Seq<char> {
    "urn:iso:std:iso:20022:tech:xsd:"@
}

/// The ISO 20022 XSD namespace of a message.
pub open spec fn spec_namespace(id: MxIdV) -> Seq<char> {
    ns_prefix() + spec_message_name(id)
}

/// Whether `c` is an ASCII letter.
pub open spec fn is_letter(c: char) -> bool {
    ('a' <= c && c <= 'z') || ('A' <= c && c <= 'Z')
}

/// Whether an `aaaa.999.999.99` token (four letters, then three dot-separated
/// groups of three, three and two digits) starts at position `k` of `s`.
pub open spec fn token_at(s: Seq<char>, k: int) -> bool {
    &&& 0 <= k
    &&& k + 15 <= s.len()
    &&& forall|t: int| k <= t < k + 4 ==> is_letter(#[trigger] s[t])
    &&& s[k + 4] == '.'
    &&& s[k + 8] == '.'
    &&& s[k + 12] == '.'
    &&& forall|t: int|
        (k + 5 <= t < k + 8 || k + 9 <= t < k + 12 || k + 13 <= t < k + 15) ==> is_digit(
            #[trigger] s[t],
        )
}

/// The start of the rightmost token of `s` that starts at or before `k`.
pub open spec fn last_token(s: Seq<char>, k: int) -> Option<int>
    decreases k + 1,
{
    if k < 0 {
        None
    } else if token_at(s, k) {
        Some(k)
    } else {
        last_token(s, k - 1)
    }
}

/// `s` split at its `.` characters, when there are exactly three of them.
pub open spec fn split4(s: Seq<char>) -> Option<(Seq<char>, Seq<char>, Seq<char>, Seq<char>)> {
    match find_char(s, '.', 0) {
        None => None,
        Some(d1) => match find_char(s, '.', d1 + 1) {
            None => None,
            Some(d2) => match find_char(s, '.', d2 + 1) {
                None => None,
                Some(d3) => match find_char(s, '.', d3 + 1) {
                    Some(_) => None,
                    None => Some(
                        (
                            s.subrange(0, d1),
                            s.subrange(d1 + 1, d2),
                            s.subrange(d2 + 1, d3),
                            s.subrange(d3 + 1, s.len() as int),
                        ),
                    ),
                },
            },
        },
    }
}

/// The message-name token of `s`: what follows its last `:`, trimmed.
pub open spec fn candidate(s: Seq<char>) -> Seq<char> {
    trim(local_name(s))
}

/// The error for a text without an `aaaa.999.999.99` token: when what
/// follows its last `:` (trimmed) is four dot-separated parts whose first is
/// no business-area code, that the area is unknown; otherwise that the text
/// is no message identifier.
pub open spec fn no_token_error(s: Seq<char>) -> ErrorV {
    match split4(candidate(s)) {
        Some((p0, _, _, _)) => if spec_from_code(p0) is None {
            ErrorV::UnknownBusinessArea(p0)
        } else {
            ErrorV::InvalidMxId(s)
        },
        None => ErrorV::InvalidMxId(s),
    }
}

/// The identifier named by the rightmost `aaaa.999.999.99` token of `s`; an
/// error naming the four letters when they are no business-area code, and
/// [`no_token_error`] when there is no token.
pub open spec fn spec_parse(s: Seq<char>) -> Result<MxIdV, ErrorV> {
    match last_token(s, s.len() - 15) {
        None => Err(no_token_error(s)),
        Some(k) => match spec_from_code(s.subrange(k, k + 4)) {
            None => Err(ErrorV::UnknownBusinessArea(s.subrange(k, k + 4))),
            Some(a) => Ok(
                MxIdV {
                    business_area: a,
                    functionality: s.subrange(k + 5, k + 8),
                    variant: s.subrange(k + 9, k + 12),
                    version: s.subrange(k + 13, k + 15),
                },
            ),
        },
    }
}

proof fn lemma_last_token(s: Seq<char>, k: int)
    ensures
        last_token(s, k) matches Some(j) ==> j <= k && token_at(s, j),
    decreases k + 1,
{
    if k >= 0 && !token_at(s, k) {
        lemma_last_token(s, k - 1);
    }
}

impl MxId {
    /// Build from the four components.
    pub fn new(business_area: BusinessArea, functionality: &str, variant: &str, version: &str) -> (r: MxId)
        ensures
            r@ == (MxIdV {
                business_area,
                functionality: functionality@,
                variant: variant@,
                version: version@,
            }),
    {
        MxId {
            business_area,
            functionality: owned(functionality),
            variant: owned(variant),
            version: owned(version),
        }
    }

    /// The canonical message name, e.g. `"pacs.008.001.08"`.
    pub fn message_name(&self) -> (r: String)
        ensures
            r@ == spec_message_name(self@),
    {
        let mut r = String::from_str(self.business_area.code());
        r.push('.');
        r.append(self.functionality.as_str());
        r.push('.');
        r.append(self.variant.as_str());
        r.push('.');
        r.append(self.version.as_str());
        r
    }

    /// The ISO 20022 XSD namespace, e.g.
    /// `"urn:iso:std:iso:20022:tech:xsd:pacs.008.001.08"`.
    pub fn namespace(&self) -> (r: String)
        ensures
            r@ == spec_namespace(self@),
    {
        let mut r = String::from_str("urn:iso:std:iso:20022:tech:xsd:");
        let name = self.message_name();
        r.append(name.as_str());
        r
    }

    /// Parse from a full namespace, a partial namespace, or a bare message name:
    /// anything containing an `aaaa.999.999.99` token; the rightmost one is
    /// taken, which tolerates namespace prefixes. Without a token, a dotted
    /// four-part name whose first part is no area code is reported as an
    /// unknown business area, and anything else as an invalid identifier.
    pub fn parse(s: &str) -> (r: Result<MxId, Error>)
        ensures
            result_view(r) == spec_parse(s@),
    {
        let v = chars_of(s);
        MxId::parse_chars(v.as_slice())
    }

    /// [`MxId::parse`] on the characters of a string.
    pub fn parse_chars(v: &[char]) -> (r: Result<MxId, Error>)
        ensures
            result_view(r) == spec_parse(v@),
    {
        if v.len() < 15 {
            return Err(no_token_error_exec(v));
        }
        let mut k: usize = v.len() - 15;
        loop
            invariant
                k + 15 <= v@.len(),
                last_token(v@, v@.len() - 15) == last_token(v@, k as int),
            ensures
                k + 15 <= v@.len(),
                last_token(v@, v@.len() - 15) == Some(k as int),
            decreases k,
        {
            if token_at_exec(v, k) {
                break;
            }
            if k == 0 {
                assert(last_token(v@, 0) == last_token(v@, -1));
                assert(last_token(v@, -1) is None);
                return Err(no_token_error_exec(v));
            }
            k = k - 1;
        }
        let area = match BusinessArea::from_code_chars(&v[k..k + 4]) {
            None => {
                return Err(Error::UnknownBusinessArea(string_of(v, k, k + 4)));
            },
            Some(a) => a,
        };
        Ok(
            MxId {
                business_area: area,
                functionality: string_of(v, k + 5, k + 8),
                variant: string_of(v, k + 9, k + 12),
                version: string_of(v, k + 13, k + 15),
            },
        )
    }
}

fn no_token_error_exec(v: &[char]) -> (e: Error)
    ensures
        e@ == no_token_error(v@),
{
    assert(v@.subrange(0, v@.len() as int) =~= v@);
    let k = local_name_start(v);
    let tail = &v[k..v.len()];
    let (lo, hi) = trim_bounds(tail);
    let c = &tail[lo..hi];
    assert(c@ == candidate(v@));
    proof {
        lemma_find_char(c@, '.', 0);
    }
    let d1 = match find_char_from(c, '.', 0) {
        None => {
            return Error::InvalidMxId(string_of(v, 0, v.len()));
        },
        Some(d) => d,
    };
    proof {
        lemma_find_char(c@, '.', d1 + 1);
    }
    let d2 = match find_char_from(c, '.', d1 + 1) {
        None => {
            return Error::InvalidMxId(string_of(v, 0, v.len()));
        },
        Some(d) => d,
    };
    proof {
        lemma_find_char(c@, '.', d2 + 1);
    }
    let d3 = match find_char_from(c, '.', d2 + 1) {
        None => {
            return Error::InvalidMxId(string_of(v, 0, v.len()));
        },
        Some(d) => d,
    };
    proof {
        lemma_find_char(c@, '.', d3 + 1);
    }
    if find_char_from(c, '.', d3 + 1).is_some() {
        return Error::InvalidMxId(string_of(v, 0, v.len()));
    }
    match BusinessArea::from_code_chars(&c[0..d1]) {
        None => Error::UnknownBusinessArea(string_of(c, 0, d1)),
        Some(_) => Error::InvalidMxId(string_of(v, 0, v.len())),
    }
}

fn is_letter_exec(c: char) -> (b: bool)
    ensures
        b == is_letter(c),
{
    ('a' <= c && c <= 'z') || ('A' <= c && c <= 'Z')
}

fn is_digit_exec(c: char) -> (b: bool)
    ensures
        b == is_digit(c),
{
    '0' <= c && c <= '9'
}

fn token_at_exec(v: &[char], k: usize) -> (b: bool)
    requires
        k + 15 <= v@.len(),
    ensures
        b == token_at(v@, k as int),
{
    let b = is_letter_exec(v[k]) && is_letter_exec(v[k + 1]) && is_letter_exec(v[k + 2])
        && is_letter_exec(v[k + 3]) && v[k + 4] == '.' && is_digit_exec(v[k + 5])
        && is_digit_exec(v[k + 6]) && is_digit_exec(v[k + 7]) && v[k + 8] == '.'
        && is_digit_exec(v[k + 9]) && is_digit_exec(v[k + 10]) && is_digit_exec(v[k + 11])
        && v[k + 12] == '.' && is_digit_exec(v[k + 13]) && is_digit_exec(v[k + 14]);
    proof {
        let s = v@;
        let kk = k as int;
        if b {
            assert forall|t: int| kk <= t < kk + 4 implies is_letter(#[trigger] s[t]) by {
                assert(t == kk || t == kk + 1 || t == kk + 2 || t == kk + 3);
            }
            assert forall|t: int|
                (kk + 5 <= t < kk + 8 || kk + 9 <= t < kk + 12 || kk + 13 <= t < kk + 15) implies is_digit(
                #[trigger] s[t],
            ) by {
                assert(t == kk + 5 || t == kk + 6 || t == kk + 7 || t == kk + 9 || t == kk + 10 || t
                    == kk + 11 || t == kk + 13 || t == kk + 14);
            }
        } else if token_at(s, kk) {
            assert(is_letter(s[kk]) && is_letter(s[kk + 1]) && is_letter(s[kk + 2]) && is_letter(
                s[kk + 3],
            ));
            assert(is_digit(s[kk + 5]) && is_digit(s[kk + 6]) && is_digit(s[kk + 7]));
            assert(is_digit(s[kk + 9]) && is_digit(s[kk + 10]) && is_digit(s[kk + 11]));
            assert(is_digit(s[kk + 13]) && is_digit(s[kk + 14]));
        }
    }
    b
}

/// The characters of a well-formed message name: letters, digits and the
/// three dots at positions 4, 8 and 12.
proof fn lemma_message_name_shape(id: MxIdV)
    requires
        well_formed(id),
    ensures
        spec_message_name(id).len() == 15,
        spec_message_name(id)[4] == '.',
        spec_message_name(id)[8] == '.',
        spec_message_name(id)[12] == '.',
        forall|t: int|
            0 <= t < 15 && t != 4 && t != 8 && t != 12 ==> {
                let c = #[trigger] spec_message_name(id)[t];
                ('a' <= c <= 'z') || is_digit(c)
            },
        spec_message_name(id).subrange(0, 4) == spec_code(id.business_area),
        spec_message_name(id).subrange(5, 8) == id.functionality,
        spec_message_name(id).subrange(9, 12) == id.variant,
        spec_message_name(id).subrange(13, 15) == id.version,
{
    let n = spec_message_name(id);
    lemma_code_letters(id.business_area);
    assert forall|t: int| 0 <= t < 15 && t != 4 && t != 8 && t != 12 implies {
        let c = #[trigger] n[t];
        ('a' <= c <= 'z') || is_digit(c)
    } by {
        if t < 4 {
            assert(n[t] == spec_code(id.business_area)[t]);
        } else if t < 8 {
            assert(n[t] == id.functionality[t - 5]);
        } else if t < 12 {
            assert(n[t] == id.variant[t - 9]);
        } else {
            assert(n[t] == id.version[t - 13]);
        }
    }
    assert(n.subrange(0, 4) =~= spec_code(id.business_area));
    assert(n.subrange(5, 8) =~= id.functionality);
    assert(n.subrange(9, 12) =~= id.variant);
    assert(n.subrange(13, 15) =~= id.version);
}

/// A message name written after any text parses as the identifier it names:
/// `MxId::parse(&format!("{p}{name}")) == Ok(id)` for every well-formed `id`
/// and every text `p`, e.g. a namespace prefix ending in `:`.
pub proof fn lemma_parse_after(p: Seq<char>, id: MxIdV)
    requires
        well_formed(id),
    ensures
        spec_parse(p + spec_message_name(id)) == Ok::<MxIdV, ErrorV>(id),
{
    let n = spec_message_name(id);
    let s = p + n;
    let k = p.len() as int;
    lemma_message_name_shape(id);
    lemma_code_letters(id.business_area);
    assert(s.subrange(k, k + 15) =~= n);
    assert forall|t: int| k <= t < k + 4 implies is_letter(#[trigger] s[t]) by {
        assert(s[t] == n[t - k]);
        assert(n[t - k] == spec_code(id.business_area)[t - k]);
    }
    assert forall|t: int|
        (k + 5 <= t < k + 8 || k + 9 <= t < k + 12 || k + 13 <= t < k + 15) implies is_digit(
        #[trigger] s[t],
    ) by {
        assert(s[t] == n[t - k]);
        if t < k + 8 {
            assert(n[t - k] == id.functionality[t - k - 5]);
        } else if t < k + 12 {
            assert(n[t - k] == id.variant[t - k - 9]);
        } else {
            assert(n[t - k] == id.version[t - k - 13]);
        }
    }
    assert(s[k + 4] == n[4] && s[k + 8] == n[8] && s[k + 12] == n[12]);
    assert(token_at(s, k));
    assert(last_token(s, s.len() - 15) == Some(k));
    assert(s.subrange(k, k + 4) =~= spec_code(id.business_area));
    lemma_code_round_trip(id.business_area);
    assert(s.subrange(k + 5, k + 8) =~= id.functionality);
    assert(s.subrange(k + 9, k + 12) =~= id.variant);
    assert(s.subrange(k + 13, k + 15) =~= id.version);
}

/// Parsing a message name gives back the identifier it names:
/// `MxId::parse(&id.message_name()) == Ok(id)` for every well-formed `id`.
pub proof fn lemma_parse_message_name(id: MxIdV)
    requires
        well_formed(id),
    ensures
        spec_parse(spec_message_name(id)) == Ok::<MxIdV, ErrorV>(id),
{
    lemma_parse_after(Seq::empty(), id);
    assert(Seq::<char>::empty() + spec_message_name(id) =~= spec_message_name(id));
}

/// Parsing a namespace gives back the identifier it belongs to:
/// `MxId::parse(&id.namespace()) == Ok(id)` for every well-formed `id`.
pub proof fn lemma_parse_namespace(id: MxIdV)
    requires
        well_formed(id),
    ensures
        spec_parse(spec_namespace(id)) == Ok::<MxIdV, ErrorV>(id),
{
    lemma_parse_after(ns_prefix(), id);
}

/// Every identifier that `parse` gives is well formed, and its message name
/// occurs in the parsed text.
pub proof fn lemma_parse_names_itself(s: Seq<char>)
    ensures
        spec_parse(s) matches Ok(id) ==> well_formed(id) && exists|k: int|
            0 <= k && k + 15 <= s.len() && #[trigger] s.subrange(k, k + 15) == spec_message_name(id),
{
    lemma_last_token(s, s.len() - 15);
    if let Ok(id) = spec_parse(s) {
        let k = last_token(s, s.len() - 15).unwrap();
        lemma_from_code_is_code(s.subrange(k, k + 4));
        assert forall|i: int| 0 <= i < id.functionality.len() implies is_digit(
            #[trigger] id.functionality[i],
        ) by {
            assert(id.functionality[i] == s[k + 5 + i]);
        }
        assert forall|i: int| 0 <= i < id.variant.len() implies is_digit(#[trigger] id.variant[i]) by {
            assert(id.variant[i] == s[k + 9 + i]);
        }
        assert forall|i: int| 0 <= i < id.version.len() implies is_digit(#[trigger] id.version[i]) by {
            assert(id.version[i] == s[k + 13 + i]);
        }
        assert(s.subrange(k, k + 15) =~= spec_message_name(id));
    }
}

impl core::str::FromStr for MxId {
    type Err = Error;

    fn from_str(s: &str) -> (r: Result<MxId, Error>)
        ensures
            result_view(r) == spec_parse(s@),
    {
        MxId::parse(s)
    }
}

} // verus!
