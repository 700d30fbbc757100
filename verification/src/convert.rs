//! Typed conversions for ISO 20022 scalar values, which the message model
//! keeps as lossless text: amounts and rates become [`rust_decimal::Decimal`],
//! dates [`chrono::NaiveDate`] and date-times an [`OffsetDateTime`], a UTC
//! date-time with its fixed offset.

use vstd::prelude::*;
use chrono::{DateTime, NaiveDate, NaiveDateTime};
use rust_decimal::Decimal;
use crate::text::{chars_of, string_of, trim, trim_bounds};

verus! {

#[verifier::external_type_specification]
#[verifier::external_body]
pub struct ExDecimal(rust_decimal::Decimal);

#[verifier::external_type_specification]
#[verifier::external_body]
pub struct ExNaiveDate(chrono::NaiveDate);

#[verifier::external_type_specification]
#[verifier::external_body]
pub struct ExNaiveDateTime(chrono::NaiveDateTime);

/// A timezone-aware date-time: the instant as a UTC date-time and the offset
/// of the local time from UTC, in seconds (what `DateTime<FixedOffset>` holds).
pub struct OffsetDateTime {
    pub utc: NaiveDateTime,
    pub offset_seconds: i32,
}

impl OffsetDateTime {
    /// The offset is less than a day either way, as for every `FixedOffset`.
    pub open spec fn well_formed(&self) -> bool {
        -86_400 < self.offset_seconds < 86_400
    }
}

/// What `s.parse::<Decimal>()` gives for the text `s` (`None` on an error).
pub uninterp spec fn decimal_from_str(s: Seq<char>) -> Option<Decimal>;

/// What `NaiveDate::parse_from_str(s, fmt)` gives (`None` on an error).
pub uninterp spec fn date_from_str(s: Seq<char>, fmt: Seq<char>) -> Option<NaiveDate>;

/// What `DateTime::parse_from_rfc3339(s)` gives, as its UTC date-time and
/// offset (`None` on an error).
pub uninterp spec fn rfc3339_from_str(s: Seq<char>) -> Option<OffsetDateTime>;

/// What `NaiveDateTime::parse_from_str(s, fmt)` gives (`None` on an error).
pub uninterp spec fn naive_datetime_from_str(s: Seq<char>, fmt: Seq<char>) -> Option<NaiveDateTime>;

/// rust_decimal's `FromStr` for `Decimal`, applied to `s`.
#[verifier::external_body]
fn parse_decimal(s: &str) -> (r: Option<Decimal>)
    ensures
        r == decimal_from_str(s@),
{
    s.parse::<Decimal>().ok()
}

/// chrono's `NaiveDate::parse_from_str(s, fmt)`.
#[verifier::external_body]
fn parse_date(s: &str, fmt: &str) -> (r: Option<NaiveDate>)
    ensures
        r == date_from_str(s@, fmt@),
{
    NaiveDate::parse_from_str(s, fmt).ok()
}

/// chrono's `DateTime::parse_from_rfc3339(s)`, the result taken apart into its
/// UTC date-time (`naive_utc`) and its offset (`local_minus_utc`), which chrono's
/// `FixedOffset` keeps strictly within one day.
#[verifier::external_body]
fn parse_rfc3339(s: &str) -> (r: Option<OffsetDateTime>)
    ensures
        r == rfc3339_from_str(s@),
        r matches Some(dt) ==> dt.well_formed(),
{
    match DateTime::parse_from_rfc3339(s) {
        Ok(dt) => Some(OffsetDateTime { utc: dt.naive_utc(), offset_seconds: dt.offset().local_minus_utc() }),
        Err(_) => None,
    }
}

/// chrono's `NaiveDateTime::parse_from_str(s, fmt)`.
#[verifier::external_body]
fn parse_naive_datetime(s: &str, fmt: &str) -> (r: Option<NaiveDateTime>)
    ensures
        r == naive_datetime_from_str(s@, fmt@),
{
    NaiveDateTime::parse_from_str(s, fmt).ok()
}

/// Number of UTF-8 bytes of a character.
pub open spec fn utf8_len(c: char) -> nat {
    if (c as u32) < 0x80 {
        1
    } else if (c as u32) < 0x800 {
        2
    } else if (c as u32) < 0x10000 {
        3
    } else {
        4
    }
}

/// Number of UTF-8 bytes of a text.
pub open spec fn byte_len(s: Seq<char>) -> nat
    decreases s.len(),
{
    if s.len() == 0 {
        0
    } else {
        byte_len(s.drop_last()) + utf8_len(s.last())
    }
}

/// How many characters of `t`, from `i` on, fit in ten bytes after `acc` bytes.
pub open spec fn fit(t: Seq<char>, i: int, acc: nat) -> int
    decreases t.len() - i,
{
    if 0 <= i < t.len() && acc + utf8_len(t[i]) <= 10 {
        fit(t, i + 1, acc + utf8_len(t[i]))
    } else {
        i
    }
}

/// The date part of a trimmed value: its first ten bytes (or all of it).
pub open spec fn date_part(t: Seq<char>) -> Seq<char> {
    t.subrange(0, fit(t, 0, 0))
}

/// Whether the first ten bytes of `t` end on a character boundary.
pub open spec fn date_cut_ok(t: Seq<char>) -> bool {
    byte_len(date_part(t)) == if byte_len(t) < 10 {
        byte_len(t)
    } else {
        10
    }
}

/// The first format tried for a date-time without offset.
pub open spec fn fmt_fraction() -> Seq<char> {
    "%Y-%m-%dT%H:%M:%S%.f"@
}

/// The second format tried for a date-time without offset.
pub open spec fn fmt_seconds() -> Seq<char> {
    "%Y-%m-%dT%H:%M:%S"@
}

fn char_utf8_len(c: char) -> (n: usize)
    ensures
        n == utf8_len(c),
{
    let u = c as u32;
    if u < 0x80 {
        1
    } else if u < 0x800 {
        2
    } else if u < 0x10000 {
        3
    } else {
        4
    }
}

/// The format of an `ISODate`.
pub open spec fn fmt_date() -> Seq<char> {
    "%Y-%m-%d"@
}

/// How a date-time without offset is read: with fractional seconds, else
/// without, and taken as UTC.
pub open spec fn naive_as_utc(t: Seq<char>) -> Option<OffsetDateTime> {
    match naive_datetime_from_str(t, fmt_fraction()) {
        Some(n) => Some(OffsetDateTime { utc: n, offset_seconds: 0 }),
        None => match naive_datetime_from_str(t, fmt_seconds()) {
            Some(n) => Some(OffsetDateTime { utc: n, offset_seconds: 0 }),
            None => None,
        },
    }
}

/// How an `ISODateTime` is read: RFC 3339 first, else without offset as UTC.
pub open spec fn spec_to_datetime(t: Seq<char>) -> Option<OffsetDateTime> {
    match rfc3339_from_str(t) {
        Some(dt) => Some(dt),
        None => naive_as_utc(t),
    }
}

/// Parse an ISO 20022 amount/rate (`xs:decimal`), ignoring surrounding white space.
pub fn to_decimal(s: &str) -> (r: Option<Decimal>)
    ensures
        r == decimal_from_str(trim(s@)),
{
    let v = chars_of(s);
    let (lo, hi) = trim_bounds(v.as_slice());
    let t = string_of(v.as_slice(), lo, hi);
    parse_decimal(t.as_str())
}

proof fn lemma_byte_len_prefix(t: Seq<char>, j: int)
    requires
        0 <= j <= t.len(),
    ensures
        byte_len(t.subrange(0, j)) <= byte_len(t),
    decreases t.len() - j,
{
    if j < t.len() {
        lemma_byte_len_prefix(t, j + 1);
        assert(t.subrange(0, j + 1).drop_last() =~= t.subrange(0, j));
    } else {
        assert(t.subrange(0, j) =~= t);
    }
}

/// Parse an ISO 20022 `ISODate` (`YYYY-MM-DD`, optionally with a trailing
/// timezone, which is ignored): the first ten bytes of the trimmed value,
/// read as `%Y-%m-%d`; `None` when the tenth byte falls inside a character
/// (no date starts that way).
pub fn to_date(s: &str) -> (r: Option<NaiveDate>)
    ensures
        r == (if date_cut_ok(trim(s@)) {
            date_from_str(date_part(trim(s@)), fmt_date())
        } else {
            None
        }),
{
    let v = chars_of(s);
    let (lo, hi) = trim_bounds(v.as_slice());
    let t = &v[lo..hi];
    let mut i: usize = 0;
    let mut acc: usize = 0;
    assert(t@.subrange(0, 0) =~= Seq::<char>::empty());
    while i < t.len() && acc + char_utf8_len(t[i]) <= 10
        invariant
            i <= t@.len(),
            acc <= 10,
            acc == byte_len(t@.subrange(0, i as int)),
            fit(t@, 0, 0) == fit(t@, i as int, acc as nat),
        decreases t.len() - i,
    {
        assert(t@.subrange(0, i + 1).drop_last() =~= t@.subrange(0, i as int));
        acc = acc + char_utf8_len(t[i]);
        i = i + 1;
    }
    assert(date_part(t@) == t@.subrange(0, i as int));
    if i < t.len() {
        assert(t@.subrange(0, i + 1).drop_last() =~= t@.subrange(0, i as int));
        proof {
            lemma_byte_len_prefix(t@, i + 1);
        }
        if acc != 10 {
            return None;
        }
    } else {
        assert(t@.subrange(0, i as int) =~= t@);
    }
    let d = string_of(t, 0, i);
    proof {
        reveal_strlit("%Y-%m-%d");
    }
    parse_date(d.as_str(), "%Y-%m-%d")
}

/// Parse an ISO 20022 `ISODateTime` into a timezone-aware date-time: RFC 3339
/// first; without an offset, `%Y-%m-%dT%H:%M:%S%.f` then `%Y-%m-%dT%H:%M:%S`,
/// taken as UTC.
pub fn to_datetime(s: &str) -> (r: Option<OffsetDateTime>)
    ensures
        r == spec_to_datetime(trim(s@)),
        r matches Some(dt) ==> dt.well_formed(),
{
    let v = chars_of(s);
    let (lo, hi) = trim_bounds(v.as_slice());
    let t = string_of(v.as_slice(), lo, hi);
    match parse_rfc3339(t.as_str()) {
        Some(dt) => {
            return Some(dt);
        },
        None => {},
    }
    proof {
        reveal_strlit("%Y-%m-%dT%H:%M:%S%.f");
        reveal_strlit("%Y-%m-%dT%H:%M:%S");
    }
    match parse_naive_datetime(t.as_str(), "%Y-%m-%dT%H:%M:%S%.f") {
        Some(n) => {
            return Some(OffsetDateTime { utc: n, offset_seconds: 0 });
        },
        None => {},
    }
    match parse_naive_datetime(t.as_str(), "%Y-%m-%dT%H:%M:%S") {
        Some(n) => Some(OffsetDateTime { utc: n, offset_seconds: 0 }),
        None => None,
    }
}

} // verus!
