//! The identification, catalogue, Business Application Header and metadata
//! layers as plain values for JavaScript callers: names as strings, structured
//! values as JSON text (to be `JSON.parse`d on the JS side).

use vstd::prelude::*;
use crate::app_hdr::{BusinessHeader, BusinessHeaderV, opt_header, opt_str, parse_business_header, spec_parse_header};
use crate::business_area::{BusinessArea, spec_code, spec_description, spec_from_code};
use crate::catalogue::{CatalogueEntryV, all, catalogue, find_by_name, from_message_name};
use crate::metadata::{MessageMetadata, MessageMetadataV, extract, spec_extract};
use crate::mx_id::{MxId, MxIdV, spec_message_name, spec_namespace, spec_parse};
use crate::mx_message::spec_detect;
use crate::node::{MxNode, MxNodeV, at_path, attr_from, collect_forest, find_forest, lemma_children_view, opt_tree, path_view, spec_parse_tree};
use crate::text::{chars_of, find_char, find_char_from, lemma_find_char_is, lemma_find_char_none, string_of};
use crate::xml_scan::lemma_find_char;

verus! {

// ------------------------------------------------------------------ JSON ---

/// The lower-case hexadecimal digit of `n` (below 16).
pub open spec fn hex_digit(n: int) -> char {
    if n == 0 { '0' } else if n == 1 { '1' } else if n == 2 { '2' } else if n == 3 { '3' }
    else if n == 4 { '4' } else if n == 5 { '5' } else if n == 6 { '6' } else if n == 7 { '7' }
    else if n == 8 { '8' } else if n == 9 { '9' } else if n == 10 { 'a' } else if n == 11 { 'b' }
    else if n == 12 { 'c' } else if n == 13 { 'd' } else if n == 14 { 'e' } else { 'f' }
}

/// JSON escaping of one character: quote, backslash, newline, carriage return
/// and tab by their short escapes, the other control characters U+0000 to
/// U+001F as `\u00XX`; every other character stands for itself.
pub open spec fn json_escape_char(c: char) -> Seq<char> {
    if c == '"' {
        seq!['\\', '"']
    } else if c == '\\' {
        seq!['\\', '\\']
    } else if c == '\n' {
        seq!['\\', 'n']
    } else if c == '\r' {
        seq!['\\', 'r']
    } else if c == '\t' {
        seq!['\\', 't']
    } else if (c as u32) < 0x20 {
        seq!['\\', 'u', '0', '0', hex_digit(((c as u32) / 16) as int), hex_digit(((c as u32) % 16) as int)]
    } else {
        seq![c]
    }
}

/// JSON escaping of a text, character by character.
pub open spec fn json_escape(s: Seq<char>) -> Seq<char>
    decreases s.len(),
{
    if s.len() == 0 {
        Seq::empty()
    } else {
        json_escape(s.drop_last()) + json_escape_char(s.last())
    }
}

/// The value of a hexadecimal digit.
pub open spec fn hex_value(c: char) -> Option<int> {
    if '0' <= c && c <= '9' {
        Some(c as int - '0' as int)
    } else if 'a' <= c && c <= 'f' {
        Some(c as int - 'a' as int + 10)
    } else if 'A' <= c && c <= 'F' {
        Some(c as int - 'A' as int + 10)
    } else {
        None
    }
}

/// The character a short JSON escape `\c` stands for.
pub open spec fn short_escape(c: char) -> Option<char> {
    if c == '"' {
        Some('"')
    } else if c == '\\' {
        Some('\\')
    } else if c == '/' {
        Some('/')
    } else if c == 'b' {
        Some('\u{8}')
    } else if c == 'f' {
        Some('\u{c}')
    } else if c == 'n' {
        Some('\n')
    } else if c == 'r' {
        Some('\r')
    } else if c == 't' {
        Some('\t')
    } else {
        None
    }
}

/// The code point of a character.
pub open spec fn code_point(ch: char) -> int {
    ch as int
}

/// The character whose code point is `v`.
pub open spec fn code_point_char(v: int) -> char {
    choose|ch: char| #[trigger] code_point(ch) == v
}

/// The code point of a `\uXXXX` escape starting at `t[0]`, if `t` holds one.
pub open spec fn unicode_escape(t: Seq<char>) -> Option<int> {
    if t.len() >= 6 && t[0] == '\\' && t[1] == 'u' && hex_value(t[2]) is Some && hex_value(t[3]) is Some
        && hex_value(t[4]) is Some && hex_value(t[5]) is Some {
        Some(
            hex_value(t[2]).unwrap() * 4096 + hex_value(t[3]).unwrap() * 256 + hex_value(t[4]).unwrap()
                * 16 + hex_value(t[5]).unwrap(),
        )
    } else {
        None
    }
}

/// The text that the contents `t` of a JSON string literal (between its
/// quotes) stand for, as a JSON parser reads them; `None` where JSON refuses
/// them: a raw quote or control character, or an unknown escape. A `\u`
/// escape into the UTF-16 surrogate range, which JSON pairs up to name one
/// character, is refused too.
pub open spec fn json_decode(t: Seq<char>) -> Option<Seq<char>>
    decreases t.len(),
{
    if t.len() == 0 {
        Some(Seq::empty())
    } else if t[0] == '\\' {
        if t.len() >= 2 && short_escape(t[1]) is Some {
            match json_decode(t.subrange(2, t.len() as int)) {
                Some(r) => Some(seq![short_escape(t[1]).unwrap()] + r),
                None => None,
            }
        } else if unicode_escape(t) is Some {
            let v = unicode_escape(t).unwrap();
            if 0xD800 <= v && v <= 0xDFFF {
                None
            } else {
                match json_decode(t.subrange(6, t.len() as int)) {
                    Some(r) => Some(seq![code_point_char(v)] + r),
                    None => None,
                }
            }
        } else {
            None
        }
    } else if (t[0] as u32) < 0x20 || t[0] == '"' {
        None
    } else {
        match json_decode(t.drop_first()) {
            Some(r) => Some(seq![t[0]] + r),
            None => None,
        }
    }
}

proof fn lemma_json_escape_concat(a: Seq<char>, b: Seq<char>)
    ensures
        json_escape(a + b) == json_escape(a) + json_escape(b),
    decreases b.len(),
{
    if b.len() == 0 {
        assert(a + b =~= a);
        assert(json_escape(a) + json_escape(b) =~= json_escape(a));
    } else {
        assert((a + b).drop_last() =~= a + b.drop_last());
        assert((a + b).last() == b.last());
        lemma_json_escape_concat(a, b.drop_last());
        assert(json_escape(a + b) =~= json_escape(a) + json_escape(b));
    }
}

proof fn lemma_char_code(c: char)
    ensures
        (c as u32) as int == c as int,
{
}

proof fn lemma_hex_round_trip(n: int)
    requires
        0 <= n < 16,
    ensures
        hex_value(hex_digit(n)) == Some(n),
{
}

/// What [`js`] writes between the quotes is read by a JSON parser as exactly
/// the text it was given: `json_decode(json_escape(s)) == Some(s)`.
pub proof fn lemma_json_escape_reads_back(s: Seq<char>)
    ensures
        json_decode(json_escape(s)) == Some(s),
    decreases s.len(),
{
    if s.len() > 0 {
        let c = s[0];
        let rest = s.drop_first();
        assert(seq![c] + rest =~= s);
        lemma_json_escape_concat(seq![c], rest);
        assert(seq![c].drop_last() =~= Seq::<char>::empty());
        assert(seq![c].last() == c);
        assert(json_escape(Seq::<char>::empty()) =~= Seq::<char>::empty());
        assert(json_escape(seq![c]) =~= json_escape_char(c));
        let e = json_escape_char(c);
        let r = json_escape(rest);
        let t = e + r;
        assert(json_escape(s) == t);
        lemma_json_escape_reads_back(rest);
        if e.len() == 2 {
            assert(t[0] == '\\');
            assert(t.subrange(2, t.len() as int) =~= r);
        } else if e.len() == 6 {
            let u = c as u32;
            lemma_hex_round_trip((u / 16) as int);
            lemma_hex_round_trip((u % 16) as int);
            assert(t[0] == '\\');
            assert(t[1] == 'u');
            assert(short_escape(t[1]) is None);
            assert(t[2] == '0' && t[3] == '0');
            assert(unicode_escape(t) == Some(u as int));
            lemma_char_code(c);
            assert(u as int == c as int);
            assert(code_point(c) == c as int);
            assert(code_point(c) == u as int);
            assert(code_point(code_point_char(u as int)) == u as int);
            assert(code_point_char(u as int) == c);
            assert(t.subrange(6, t.len() as int) =~= r);
        } else {
            assert(t[0] == c);
            assert(t.drop_first() =~= r);
        }
        assert(json_decode(t).unwrap() =~= s);
    }
}

/// A JSON string literal holding `s`.
pub open spec fn json_str(s: Seq<char>) -> Seq<char> {
    seq!['"'] + json_escape(s) + seq!['"']
}

/// A JSON string literal, or `null` for an absent value.
pub open spec fn json_opt(o: Option<Seq<char>>) -> Seq<char> {
    match o {
        Some(s) => json_str(s),
        None => "null"@,
    }
}

/// A JSON boolean.
pub open spec fn json_bool(b: bool) -> Seq<char> {
    if b {
        "true"@
    } else {
        "false"@
    }
}

/// `{from, to, bizMsgIdr, msgDefIdr, creDt}` of a header.
pub open spec fn header_json(h: BusinessHeaderV) -> Seq<char> {
    "{\"from\":"@ + json_opt(h.from) + ",\"to\":"@ + json_opt(h.to) + ",\"bizMsgIdr\":"@
        + json_opt(h.biz_msg_idr) + ",\"msgDefIdr\":"@ + json_opt(h.msg_def_idr) + ",\"creDt\":"@
        + json_opt(h.cre_dt) + "}"@
}

/// `{messageId, creationDateTime, numberOfTransactions, amount, currency, valueDate}`.
pub open spec fn metadata_json(m: MessageMetadataV) -> Seq<char> {
    "{\"messageId\":"@ + json_opt(m.message_id) + ",\"creationDateTime\":"@ + json_opt(
        m.creation_date_time,
    ) + ",\"numberOfTransactions\":"@ + json_opt(m.number_of_transactions) + ",\"amount\":"@
        + json_opt(m.amount) + ",\"currency\":"@ + json_opt(m.currency) + ",\"valueDate\":"@
        + json_opt(m.value_date) + "}"@
}

/// `{messageName, namespace, businessArea, functionality, variant, version}`.
pub open spec fn mx_id_json(id: MxIdV) -> Seq<char> {
    "{\"messageName\":"@ + json_str(spec_message_name(id)) + ",\"namespace\":"@ + json_str(
        spec_namespace(id),
    ) + ",\"businessArea\":"@ + json_str(spec_code(id.business_area)) + ",\"functionality\":"@
        + json_str(id.functionality) + ",\"variant\":"@ + json_str(id.variant) + ",\"version\":"@
        + json_str(id.version) + "}"@
}

/// `{messageName, namespace, businessArea, hasModel}` of a catalogue entry.
pub open spec fn entry_json(e: CatalogueEntryV) -> Seq<char> {
    "{\"messageName\":"@ + json_str(e.message_name) + ",\"namespace\":"@ + json_str(e.namespace)
        + ",\"businessArea\":"@ + json_str(e.business_area) + ",\"hasModel\":"@ + json_bool(
        e.has_model,
    ) + "}"@
}

/// The header as JSON, or `null`.
pub open spec fn opt_header_json(h: Option<BusinessHeaderV>) -> Seq<char> {
    match h {
        Some(h) => header_json(h),
        None => "null"@,
    }
}

/// The message name of a detected identifier as JSON, or `null`.
pub open spec fn opt_name_json(id: Option<MxIdV>) -> Seq<char> {
    match id {
        Some(id) => json_str(spec_message_name(id)),
        None => "null"@,
    }
}

/// `{messageName, header, metadata}` of a business message.
pub open spec fn business_message_json(s: Seq<char>) -> Seq<char> {
    "{\"messageName\":"@ + opt_name_json(spec_detect(s)) + ",\"header\":"@ + opt_header_json(
        spec_parse_header(s),
    ) + ",\"metadata\":"@ + metadata_json(spec_extract(s)) + "}"@
}

/// The JSON scalars: an absent value is `null`, a present one the string
/// literal of its text (quotes around the escaped text), and a boolean
/// `true` or `false`.
pub proof fn lemma_json_scalars(o: Option<Seq<char>>, b: bool)
    ensures
        json_opt(o) == (match o {
            Some(t) => seq!['"'] + json_escape(t) + seq!['"'],
            None => seq!['n', 'u', 'l', 'l'],
        }),
        json_bool(b) == (if b {
            seq!['t', 'r', 'u', 'e']
        } else {
            seq!['f', 'a', 'l', 's', 'e']
        }),
{
    reveal_strlit("null");
    reveal_strlit("true");
    reveal_strlit("false");
    assert("null"@ =~= seq!['n', 'u', 'l', 'l']);
    assert("true"@ =~= seq!['t', 'r', 'u', 'e']);
    assert("false"@ =~= seq!['f', 'a', 'l', 's', 'e']);
}

/// A JSON object member `"key":value` (for a key that needs no escaping).
pub open spec fn json_member(key: Seq<char>, value: Seq<char>) -> Seq<char> {
    seq!['"'] + key + seq!['"', ':'] + value
}

/// The members of a JSON object, comma-separated.
pub open spec fn json_members(ms: Seq<(Seq<char>, Seq<char>)>) -> Seq<char>
    decreases ms.len(),
{
    if ms.len() == 0 {
        Seq::empty()
    } else if ms.len() == 1 {
        json_member(ms[0].0, ms[0].1)
    } else {
        json_members(ms.drop_last()) + seq![','] + json_member(ms.last().0, ms.last().1)
    }
}

/// A JSON object with the members `ms`, in order.
pub open spec fn json_object(ms: Seq<(Seq<char>, Seq<char>)>) -> Seq<char> {
    seq!['{'] + json_members(ms) + seq!['}']
}

/// Each key of the JSON form carries the field it names: the text is the
/// JSON object whose members are the keys `from`, `to`, `bizMsgIdr`, `msgDefIdr`, `creDt`,
/// in that order, each with the JSON value of its field.
pub proof fn lemma_header_json_members(h: BusinessHeaderV)
    ensures
        header_json(h) == json_object(
            seq![
            ("from"@, json_opt(h.from)),
            ("to"@, json_opt(h.to)),
            ("bizMsgIdr"@, json_opt(h.biz_msg_idr)),
            ("msgDefIdr"@, json_opt(h.msg_def_idr)),
            ("creDt"@, json_opt(h.cre_dt)),
            ],
        ),
{
    lemma_first_member("from"@, json_opt(h.from));
    reveal_strlit("{\"from\":");
    reveal_strlit("from");
    assert("{\"from\":"@ =~= seq!['{', '"'] + "from"@ + seq!['"', ':']);
    let ms1 = seq![("from"@, json_opt(h.from))];
    let x1 = "{\"from\":"@ + json_opt(h.from);
    assert(x1 =~= seq!['{'] + json_members(ms1));
    reveal_strlit(",\"to\":");
    reveal_strlit("to");
    assert(",\"to\":"@ =~= seq![',', '"'] + "to"@ + seq!['"', ':']);
    let x2 = x1 + ",\"to\":"@ + json_opt(h.to);
    let ms2 = ms1.push(("to"@, json_opt(h.to)));
    lemma_member_step(x1, ms1, ",\"to\":"@, "to"@, json_opt(h.to));
    reveal_strlit(",\"bizMsgIdr\":");
    reveal_strlit("bizMsgIdr");
    assert(",\"bizMsgIdr\":"@ =~= seq![',', '"'] + "bizMsgIdr"@ + seq!['"', ':']);
    let x3 = x2 + ",\"bizMsgIdr\":"@ + json_opt(h.biz_msg_idr);
    let ms3 = ms2.push(("bizMsgIdr"@, json_opt(h.biz_msg_idr)));
    lemma_member_step(x2, ms2, ",\"bizMsgIdr\":"@, "bizMsgIdr"@, json_opt(h.biz_msg_idr));
    reveal_strlit(",\"msgDefIdr\":");
    reveal_strlit("msgDefIdr");
    assert(",\"msgDefIdr\":"@ =~= seq![',', '"'] + "msgDefIdr"@ + seq!['"', ':']);
    let x4 = x3 + ",\"msgDefIdr\":"@ + json_opt(h.msg_def_idr);
    let ms4 = ms3.push(("msgDefIdr"@, json_opt(h.msg_def_idr)));
    lemma_member_step(x3, ms3, ",\"msgDefIdr\":"@, "msgDefIdr"@, json_opt(h.msg_def_idr));
    reveal_strlit(",\"creDt\":");
    reveal_strlit("creDt");
    assert(",\"creDt\":"@ =~= seq![',', '"'] + "creDt"@ + seq!['"', ':']);
    let x5 = x4 + ",\"creDt\":"@ + json_opt(h.cre_dt);
    let ms5 = ms4.push(("creDt"@, json_opt(h.cre_dt)));
    lemma_member_step(x4, ms4, ",\"creDt\":"@, "creDt"@, json_opt(h.cre_dt));
    reveal_strlit("}");
    assert(header_json(h) == x5 + "}"@);
    assert(ms5 =~= seq![
            ("from"@, json_opt(h.from)),
            ("to"@, json_opt(h.to)),
            ("bizMsgIdr"@, json_opt(h.biz_msg_idr)),
            ("msgDefIdr"@, json_opt(h.msg_def_idr)),
            ("creDt"@, json_opt(h.cre_dt)),
    ]);
}

/// Each key of the JSON form carries the field it names: the text is the
/// JSON object whose members are the keys `messageId`, `creationDateTime`, `numberOfTransactions`, `amount`, `currency`, `valueDate`,
/// in that order, each with the JSON value of its field.
pub proof fn lemma_metadata_json_members(m: MessageMetadataV)
    ensures
        metadata_json(m) == json_object(
            seq![
            ("messageId"@, json_opt(m.message_id)),
            ("creationDateTime"@, json_opt(m.creation_date_time)),
            ("numberOfTransactions"@, json_opt(m.number_of_transactions)),
            ("amount"@, json_opt(m.amount)),
            ("currency"@, json_opt(m.currency)),
            ("valueDate"@, json_opt(m.value_date)),
            ],
        ),
{
    lemma_first_member("messageId"@, json_opt(m.message_id));
    reveal_strlit("{\"messageId\":");
    reveal_strlit("messageId");
    assert("{\"messageId\":"@ =~= seq!['{', '"'] + "messageId"@ + seq!['"', ':']);
    let ms1 = seq![("messageId"@, json_opt(m.message_id))];
    let x1 = "{\"messageId\":"@ + json_opt(m.message_id);
    assert(x1 =~= seq!['{'] + json_members(ms1));
    reveal_strlit(",\"creationDateTime\":");
    reveal_strlit("creationDateTime");
    assert(",\"creationDateTime\":"@ =~= seq![',', '"'] + "creationDateTime"@ + seq!['"', ':']);
    let x2 = x1 + ",\"creationDateTime\":"@ + json_opt(m.creation_date_time);
    let ms2 = ms1.push(("creationDateTime"@, json_opt(m.creation_date_time)));
    lemma_member_step(x1, ms1, ",\"creationDateTime\":"@, "creationDateTime"@, json_opt(m.creation_date_time));
    reveal_strlit(",\"numberOfTransactions\":");
    reveal_strlit("numberOfTransactions");
    assert(",\"numberOfTransactions\":"@ =~= seq![',', '"'] + "numberOfTransactions"@ + seq!['"', ':']);
    let x3 = x2 + ",\"numberOfTransactions\":"@ + json_opt(m.number_of_transactions);
    let ms3 = ms2.push(("numberOfTransactions"@, json_opt(m.number_of_transactions)));
    lemma_member_step(x2, ms2, ",\"numberOfTransactions\":"@, "numberOfTransactions"@, json_opt(m.number_of_transactions));
    reveal_strlit(",\"amount\":");
    reveal_strlit("amount");
    assert(",\"amount\":"@ =~= seq![',', '"'] + "amount"@ + seq!['"', ':']);
    let x4 = x3 + ",\"amount\":"@ + json_opt(m.amount);
    let ms4 = ms3.push(("amount"@, json_opt(m.amount)));
    lemma_member_step(x3, ms3, ",\"amount\":"@, "amount"@, json_opt(m.amount));
    reveal_strlit(",\"currency\":");
    reveal_strlit("currency");
    assert(",\"currency\":"@ =~= seq![',', '"'] + "currency"@ + seq!['"', ':']);
    let x5 = x4 + ",\"currency\":"@ + json_opt(m.currency);
    let ms5 = ms4.push(("currency"@, json_opt(m.currency)));
    lemma_member_step(x4, ms4, ",\"currency\":"@, "currency"@, json_opt(m.currency));
    reveal_strlit(",\"valueDate\":");
    reveal_strlit("valueDate");
    assert(",\"valueDate\":"@ =~= seq![',', '"'] + "valueDate"@ + seq!['"', ':']);
    let x6 = x5 + ",\"valueDate\":"@ + json_opt(m.value_date);
    let ms6 = ms5.push(("valueDate"@, json_opt(m.value_date)));
    lemma_member_step(x5, ms5, ",\"valueDate\":"@, "valueDate"@, json_opt(m.value_date));
    reveal_strlit("}");
    assert(metadata_json(m) == x6 + "}"@);
    assert(ms6 =~= seq![
            ("messageId"@, json_opt(m.message_id)),
            ("creationDateTime"@, json_opt(m.creation_date_time)),
            ("numberOfTransactions"@, json_opt(m.number_of_transactions)),
            ("amount"@, json_opt(m.amount)),
            ("currency"@, json_opt(m.currency)),
            ("valueDate"@, json_opt(m.value_date)),
    ]);
}

/// A JSON object with one member.
proof fn lemma_first_member(k: Seq<char>, v: Seq<char>)
    ensures
        seq!['{', '"'] + k + seq!['"', ':'] + v == seq!['{'] + json_members(seq![(k, v)]),
{
    assert(seq!['{', '"'] + k + seq!['"', ':'] + v =~= seq!['{'] + json_members(seq![(k, v)]));
}

/// One more member after the members `ms` of a JSON object.
proof fn lemma_member_step(
    x: Seq<char>,
    ms: Seq<(Seq<char>, Seq<char>)>,
    lit: Seq<char>,
    k: Seq<char>,
    v: Seq<char>,
)
    requires
        ms.len() > 0,
        x == seq!['{'] + json_members(ms),
        lit == seq![',', '"'] + k + seq!['"', ':'],
    ensures
        x + lit + v == seq!['{'] + json_members(ms.push((k, v))),
{
    assert(ms.push((k, v)).drop_last() =~= ms);
    assert(x + lit + v =~= seq!['{'] + json_members(ms.push((k, v))));
}

/// Each key of the JSON form carries the field it names: the text is the
/// JSON object whose members are the keys `messageName`, `namespace`, `businessArea`, `functionality`, `variant`, `version`,
/// in that order, each with the JSON value of its field.
pub proof fn lemma_mx_id_json_members(id: MxIdV)
    ensures
        mx_id_json(id) == json_object(
            seq![
            ("messageName"@, json_str(spec_message_name(id))),
            ("namespace"@, json_str(spec_namespace(id))),
            ("businessArea"@, json_str(spec_code(id.business_area))),
            ("functionality"@, json_str(id.functionality)),
            ("variant"@, json_str(id.variant)),
            ("version"@, json_str(id.version)),
            ],
        ),
{
    lemma_first_member("messageName"@, json_str(spec_message_name(id)));
    reveal_strlit("{\"messageName\":");
    reveal_strlit("messageName");
    assert("{\"messageName\":"@ =~= seq!['{', '"'] + "messageName"@ + seq!['"', ':']);
    let ms1 = seq![("messageName"@, json_str(spec_message_name(id)))];
    let x1 = "{\"messageName\":"@ + json_str(spec_message_name(id));
    assert(x1 =~= seq!['{'] + json_members(ms1));
    reveal_strlit(",\"namespace\":");
    reveal_strlit("namespace");
    assert(",\"namespace\":"@ =~= seq![',', '"'] + "namespace"@ + seq!['"', ':']);
    let x2 = x1 + ",\"namespace\":"@ + json_str(spec_namespace(id));
    let ms2 = ms1.push(("namespace"@, json_str(spec_namespace(id))));
    lemma_member_step(x1, ms1, ",\"namespace\":"@, "namespace"@, json_str(spec_namespace(id)));
    reveal_strlit(",\"businessArea\":");
    reveal_strlit("businessArea");
    assert(",\"businessArea\":"@ =~= seq![',', '"'] + "businessArea"@ + seq!['"', ':']);
    let x3 = x2 + ",\"businessArea\":"@ + json_str(spec_code(id.business_area));
    let ms3 = ms2.push(("businessArea"@, json_str(spec_code(id.business_area))));
    lemma_member_step(x2, ms2, ",\"businessArea\":"@, "businessArea"@, json_str(spec_code(id.business_area)));
    reveal_strlit(",\"functionality\":");
    reveal_strlit("functionality");
    assert(",\"functionality\":"@ =~= seq![',', '"'] + "functionality"@ + seq!['"', ':']);
    let x4 = x3 + ",\"functionality\":"@ + json_str(id.functionality);
    let ms4 = ms3.push(("functionality"@, json_str(id.functionality)));
    lemma_member_step(x3, ms3, ",\"functionality\":"@, "functionality"@, json_str(id.functionality));
    reveal_strlit(",\"variant\":");
    reveal_strlit("variant");
    assert(",\"variant\":"@ =~= seq![',', '"'] + "variant"@ + seq!['"', ':']);
    let x5 = x4 + ",\"variant\":"@ + json_str(id.variant);
    let ms5 = ms4.push(("variant"@, json_str(id.variant)));
    lemma_member_step(x4, ms4, ",\"variant\":"@, "variant"@, json_str(id.variant));
    reveal_strlit(",\"version\":");
    reveal_strlit("version");
    assert(",\"version\":"@ =~= seq![',', '"'] + "version"@ + seq!['"', ':']);
    let x6 = x5 + ",\"version\":"@ + json_str(id.version);
    let ms6 = ms5.push(("version"@, json_str(id.version)));
    lemma_member_step(x5, ms5, ",\"version\":"@, "version"@, json_str(id.version));
    reveal_strlit("}");
    assert(mx_id_json(id) == x6 + "}"@);
    assert(ms6 =~= seq![
            ("messageName"@, json_str(spec_message_name(id))),
            ("namespace"@, json_str(spec_namespace(id))),
            ("businessArea"@, json_str(spec_code(id.business_area))),
            ("functionality"@, json_str(id.functionality)),
            ("variant"@, json_str(id.variant)),
            ("version"@, json_str(id.version)),
    ]);
}

/// Each key of the JSON form carries the field it names: the text is the
/// JSON object whose members are the keys `messageName`, `namespace`, `businessArea`, `hasModel`,
/// in that order, each with the JSON value of its field.
pub proof fn lemma_entry_json_members(e: CatalogueEntryV)
    ensures
        entry_json(e) == json_object(
            seq![
            ("messageName"@, json_str(e.message_name)),
            ("namespace"@, json_str(e.namespace)),
            ("businessArea"@, json_str(e.business_area)),
            ("hasModel"@, json_bool(e.has_model)),
            ],
        ),
{
    lemma_first_member("messageName"@, json_str(e.message_name));
    reveal_strlit("{\"messageName\":");
    reveal_strlit("messageName");
    assert("{\"messageName\":"@ =~= seq!['{', '"'] + "messageName"@ + seq!['"', ':']);
    let ms1 = seq![("messageName"@, json_str(e.message_name))];
    let x1 = "{\"messageName\":"@ + json_str(e.message_name);
    assert(x1 =~= seq!['{'] + json_members(ms1));
    reveal_strlit(",\"namespace\":");
    reveal_strlit("namespace");
    assert(",\"namespace\":"@ =~= seq![',', '"'] + "namespace"@ + seq!['"', ':']);
    let x2 = x1 + ",\"namespace\":"@ + json_str(e.namespace);
    let ms2 = ms1.push(("namespace"@, json_str(e.namespace)));
    lemma_member_step(x1, ms1, ",\"namespace\":"@, "namespace"@, json_str(e.namespace));
    reveal_strlit(",\"businessArea\":");
    reveal_strlit("businessArea");
    assert(",\"businessArea\":"@ =~= seq![',', '"'] + "businessArea"@ + seq!['"', ':']);
    let x3 = x2 + ",\"businessArea\":"@ + json_str(e.business_area);
    let ms3 = ms2.push(("businessArea"@, json_str(e.business_area)));
    lemma_member_step(x2, ms2, ",\"businessArea\":"@, "businessArea"@, json_str(e.business_area));
    reveal_strlit(",\"hasModel\":");
    reveal_strlit("hasModel");
    assert(",\"hasModel\":"@ =~= seq![',', '"'] + "hasModel"@ + seq!['"', ':']);
    let x4 = x3 + ",\"hasModel\":"@ + json_bool(e.has_model);
    let ms4 = ms3.push(("hasModel"@, json_bool(e.has_model)));
    lemma_member_step(x3, ms3, ",\"hasModel\":"@, "hasModel"@, json_bool(e.has_model));
    reveal_strlit("}");
    assert(entry_json(e) == x4 + "}"@);
    assert(ms4 =~= seq![
            ("messageName"@, json_str(e.message_name)),
            ("namespace"@, json_str(e.namespace)),
            ("businessArea"@, json_str(e.business_area)),
            ("hasModel"@, json_bool(e.has_model)),
    ]);
}

/// Each key of the JSON form carries the field it names: the text is the
/// JSON object whose members are the keys `messageName`, `header`, `metadata`,
/// in that order, each with the JSON value of its field.
pub proof fn lemma_business_message_json_members(s: Seq<char>)
    ensures
        business_message_json(s) == json_object(
            seq![
            ("messageName"@, opt_name_json(spec_detect(s))),
            ("header"@, opt_header_json(spec_parse_header(s))),
            ("metadata"@, metadata_json(spec_extract(s))),
            ],
        ),
{
    lemma_first_member("messageName"@, opt_name_json(spec_detect(s)));
    reveal_strlit("{\"messageName\":");
    reveal_strlit("messageName");
    assert("{\"messageName\":"@ =~= seq!['{', '"'] + "messageName"@ + seq!['"', ':']);
    let ms1 = seq![("messageName"@, opt_name_json(spec_detect(s)))];
    let x1 = "{\"messageName\":"@ + opt_name_json(spec_detect(s));
    assert(x1 =~= seq!['{'] + json_members(ms1));
    reveal_strlit(",\"header\":");
    reveal_strlit("header");
    assert(",\"header\":"@ =~= seq![',', '"'] + "header"@ + seq!['"', ':']);
    let x2 = x1 + ",\"header\":"@ + opt_header_json(spec_parse_header(s));
    let ms2 = ms1.push(("header"@, opt_header_json(spec_parse_header(s))));
    lemma_member_step(x1, ms1, ",\"header\":"@, "header"@, opt_header_json(spec_parse_header(s)));
    reveal_strlit(",\"metadata\":");
    reveal_strlit("metadata");
    assert(",\"metadata\":"@ =~= seq![',', '"'] + "metadata"@ + seq!['"', ':']);
    let x3 = x2 + ",\"metadata\":"@ + metadata_json(spec_extract(s));
    let ms3 = ms2.push(("metadata"@, metadata_json(spec_extract(s))));
    lemma_member_step(x2, ms2, ",\"metadata\":"@, "metadata"@, metadata_json(spec_extract(s)));
    reveal_strlit("}");
    assert(business_message_json(s) == x3 + "}"@);
    assert(ms3 =~= seq![
            ("messageName"@, opt_name_json(spec_detect(s))),
            ("header"@, opt_header_json(spec_parse_header(s))),
            ("metadata"@, metadata_json(spec_extract(s))),
    ]);
}

/// The lower-case hexadecimal digit of `n`.
fn hex_char(n: u32) -> (c: char)
    requires
        n < 16,
    ensures
        c == hex_digit(n as int),
{
    if n == 0 { '0' } else if n == 1 { '1' } else if n == 2 { '2' } else if n == 3 { '3' }
    else if n == 4 { '4' } else if n == 5 { '5' } else if n == 6 { '6' } else if n == 7 { '7' }
    else if n == 8 { '8' } else if n == 9 { '9' } else if n == 10 { 'a' } else if n == 11 { 'b' }
    else if n == 12 { 'c' } else if n == 13 { 'd' } else if n == 14 { 'e' } else { 'f' }
}

/// Append `s` as a JSON string literal.
fn push_js(out: &mut String, s: &str)
    ensures
        final(out)@ == old(out)@ + json_str(s@),
{
    let v = chars_of(s);
    let ghost start = out@;
    out.push('"');
    let mut k: usize = 0;
    while k < v.len()
        invariant
            k <= v@.len(),
            out@ == start + seq!['"'] + json_escape(v@.subrange(0, k as int)),
        decreases v.len() - k,
    {
        let c = v[k];
        assert(v@.subrange(0, k + 1).drop_last() =~= v@.subrange(0, k as int));
        let ghost before = out@;
        if c == '"' {
            out.push('\\');
            out.push('"');
        } else if c == '\\' {
            out.push('\\');
            out.push('\\');
        } else if c == '\n' {
            out.push('\\');
            out.push('n');
        } else if c == '\r' {
            out.push('\\');
            out.push('r');
        } else if c == '\t' {
            out.push('\\');
            out.push('t');
        } else if (c as u32) < 0x20 {
            let u = c as u32;
            out.push('\\');
            out.push('u');
            out.push('0');
            out.push('0');
            out.push(hex_char(u / 16));
            out.push(hex_char(u % 16));
        } else {
            out.push(c);
        }
        assert(out@ =~= before + json_escape_char(c));
        k = k + 1;
    }
    assert(v@.subrange(0, v@.len() as int) =~= v@);
    out.push('"');
    assert(out@ =~= start + json_str(s@));
}

/// Append an optional string as a JSON string literal or `null`.
fn push_jso(out: &mut String, v: &Option<String>)
    ensures
        final(out)@ == old(out)@ + json_opt(opt_str(*v)),
{
    match v {
        Some(s) => push_js(out, s.as_str()),
        None => out.append("null"),
    }
}

/// JSON-encode a string value: quotes around it, and the quote, the backslash
/// and the control characters escaped.
pub fn js(s: &str) -> (r: String)
    ensures
        r@ == json_str(s@),
{
    let mut out = String::new();
    push_js(&mut out, s);
    assert(out@ =~= json_str(s@));
    out
}

/// JSON-encode an optional string field (`null` when absent).
pub fn jso(v: &Option<String>) -> (r: String)
    ensures
        r@ == json_opt(opt_str(*v)),
{
    let mut out = String::new();
    push_jso(&mut out, v);
    assert(out@ =~= json_opt(opt_str(*v)));
    out
}

/// A header as JSON: `{from, to, bizMsgIdr, msgDefIdr, creDt}`.
pub fn json_header(h: &BusinessHeader) -> (r: String)
    ensures
        r@ == header_json(h@),
{
    let mut out = String::new();
    out.append("{\"from\":");
    push_jso(&mut out, &h.from);
    out.append(",\"to\":");
    push_jso(&mut out, &h.to);
    out.append(",\"bizMsgIdr\":");
    push_jso(&mut out, &h.biz_msg_idr);
    out.append(",\"msgDefIdr\":");
    push_jso(&mut out, &h.msg_def_idr);
    out.append(",\"creDt\":");
    push_jso(&mut out, &h.cre_dt);
    out.append("}");
    assert(out@ =~= header_json(h@));
    out
}

/// Metadata as JSON:
/// `{messageId, creationDateTime, numberOfTransactions, amount, currency, valueDate}`.
pub fn json_metadata(m: &MessageMetadata) -> (r: String)
    ensures
        r@ == metadata_json(m@),
{
    let mut out = String::new();
    out.append("{\"messageId\":");
    push_jso(&mut out, &m.message_id);
    out.append(",\"creationDateTime\":");
    push_jso(&mut out, &m.creation_date_time);
    out.append(",\"numberOfTransactions\":");
    push_jso(&mut out, &m.number_of_transactions);
    out.append(",\"amount\":");
    push_jso(&mut out, &m.amount);
    out.append(",\"currency\":");
    push_jso(&mut out, &m.currency);
    out.append(",\"valueDate\":");
    push_jso(&mut out, &m.value_date);
    out.append("}");
    assert(out@ =~= metadata_json(m@));
    out
}

// ----------------------------------------------------------------- identity ---

/// Detect the message name from an XML document, e.g. `"pacs.008.001.08"`.
pub fn detect(xml: &str) -> (r: Option<String>)
    ensures
        match spec_detect(xml@) {
            Some(id) => r matches Some(s) && s@ == spec_message_name(id),
            None => r is None,
        },
{
    match crate::mx_message::detect(xml) {
        Some(id) => Some(id.message_name()),
        None => None,
    }
}

/// Parse a namespace or bare name into the canonical message name.
pub fn from_namespace(namespace: &str) -> (r: Option<String>)
    ensures
        match spec_parse(namespace@) {
            Ok(id) => r matches Some(s) && s@ == spec_message_name(id),
            Err(_) => r is None,
        },
{
    match crate::from_namespace(namespace) {
        Some(id) => Some(id.message_name()),
        None => None,
    }
}

/// Structured identification as JSON:
/// `{messageName, namespace, businessArea, functionality, variant, version}`.
pub fn mx_id(namespace_or_name: &str) -> (r: Option<String>)
    ensures
        match spec_parse(namespace_or_name@) {
            Ok(id) => r matches Some(s) && s@ == mx_id_json(id),
            Err(_) => r is None,
        },
{
    let id = match MxId::parse(namespace_or_name) {
        Ok(id) => id,
        Err(_) => {
            return None;
        },
    };
    let mut out = String::new();
    out.append("{\"messageName\":");
    let name = id.message_name();
    push_js(&mut out, name.as_str());
    out.append(",\"namespace\":");
    let ns = id.namespace();
    push_js(&mut out, ns.as_str());
    out.append(",\"businessArea\":");
    push_js(&mut out, id.business_area.code());
    out.append(",\"functionality\":");
    push_js(&mut out, id.functionality.as_str());
    out.append(",\"variant\":");
    push_js(&mut out, id.variant.as_str());
    out.append(",\"version\":");
    push_js(&mut out, id.version.as_str());
    out.append("}");
    assert(out@ =~= mx_id_json(id@));
    Some(out)
}

// ----------------------------------------------------------- business areas ---

/// Human-readable description of a business-area code, e.g. `"pacs"` →
/// `"Payments Clearing and Settlement"`.
pub fn business_area_description(code: &str) -> (r: Option<String>)
    ensures
        match spec_from_code(code@) {
            Some(a) => r matches Some(s) && s@ == spec_description(a),
            None => r is None,
        },
{
    match BusinessArea::from_code(code) {
        Some(a) => Some(String::from_str(a.description())),
        None => None,
    }
}

/// Every business-area code, in the order of [`BusinessArea::ALL`].
pub fn business_areas() -> (r: Vec<String>)
    ensures
        r@.len() == 37,
        forall|i: int| 0 <= i < 37 ==> #[trigger] r@[i]@ == spec_code(BusinessArea::ALL@[i]),
{
    let mut r: Vec<String> = Vec::new();
    let mut i: usize = 0;
    while i < 37
        invariant
            i <= 37,
            r@.len() == i,
            forall|k: int| 0 <= k < i ==> #[trigger] r@[k]@ == spec_code(BusinessArea::ALL@[k]),
        decreases 37 - i,
    {
        let a = BusinessArea::ALL[i];
        r.push(String::from_str(a.code()));
        i = i + 1;
    }
    r
}

// ---------------------------------------------------------------- catalogue ---

/// Whether the catalogue contains the given message name.
pub fn catalogue_contains(message_name: &str) -> (b: bool)
    ensures
        b == find_by_name(message_name@, 0) is Some,
{
    crate::catalogue::contains(message_name)
}

/// The XSD namespace for a message name.
pub fn namespace_of(message_name: &str) -> (r: Option<String>)
    ensures
        match find_by_name(message_name@, 0) {
            Some(e) => r matches Some(s) && s@ == e.namespace,
            None => r is None,
        },
{
    match from_message_name(message_name) {
        Some(e) => Some(String::from_str(e.namespace)),
        None => None,
    }
}

/// The business-area code of a message name, e.g. `"pacs"`.
pub fn business_area_of(message_name: &str) -> (r: Option<String>)
    ensures
        match find_by_name(message_name@, 0) {
            Some(e) => r matches Some(s) && s@ == e.business_area,
            None => r is None,
        },
{
    match from_message_name(message_name) {
        Some(e) => Some(String::from_str(e.business_area)),
        None => None,
    }
}

/// Whether a typed model exists for the message (`false` when it is unknown).
pub fn has_model(message_name: &str) -> (b: bool)
    ensures
        b == (find_by_name(message_name@, 0) matches Some(e) && e.has_model),
{
    match from_message_name(message_name) {
        Some(e) => e.has_model,
        None => false,
    }
}

/// A catalogue entry as JSON: `{messageName, namespace, businessArea, hasModel}`.
pub fn catalogue_entry(message_name: &str) -> (r: Option<String>)
    ensures
        match find_by_name(message_name@, 0) {
            Some(e) => r matches Some(s) && s@ == entry_json(e),
            None => r is None,
        },
{
    let e = match from_message_name(message_name) {
        Some(e) => e,
        None => {
            return None;
        },
    };
    let mut out = String::new();
    out.append("{\"messageName\":");
    push_js(&mut out, e.message_name);
    out.append(",\"namespace\":");
    push_js(&mut out, e.namespace);
    out.append(",\"businessArea\":");
    push_js(&mut out, e.business_area);
    out.append(",\"hasModel\":");
    if e.has_model {
        out.append("true");
    } else {
        out.append("false");
    }
    out.append("}");
    assert(out@ =~= entry_json(e@));
    Some(out)
}

/// Every message name in the catalogue, in catalogue order.
pub fn catalogue_all() -> (r: Vec<String>)
    ensures
        r@.len() == catalogue().len(),
        forall|i: int| 0 <= i < r@.len() ==> #[trigger] r@[i]@ == catalogue()[i].message_name,
{
    let entries = all();
    let mut r: Vec<String> = Vec::new();
    let mut i: usize = 0;
    while i < entries.len()
        invariant
            i <= entries@.len(),
            entries@.len() == catalogue().len(),
            forall|k: int| 0 <= k < entries@.len() ==> #[trigger] entries@[k]@ == catalogue()[k],
            r@.len() == i,
            forall|k: int| 0 <= k < i ==> #[trigger] r@[k]@ == catalogue()[k].message_name,
        decreases entries.len() - i,
    {
        let e = entries[i];
        assert(e@ == catalogue()[i as int]);
        r.push(String::from_str(e.message_name));
        i = i + 1;
    }
    r
}

// ------------------------------------------------------- headers / metadata ---

/// Business Application Header fields as JSON, or `None` without a header.
pub fn parse_app_hdr(xml: &str) -> (r: Option<String>)
    ensures
        match spec_parse_header(xml@) {
            Some(h) => r matches Some(s) && s@ == header_json(h),
            None => r is None,
        },
{
    match parse_business_header(xml) {
        Some(h) => Some(json_header(&h)),
        None => None,
    }
}

/// Build a `head.001` `<AppHdr>` XML from header fields.
pub fn build_app_hdr(
    from: Option<String>,
    to: Option<String>,
    biz_msg_idr: Option<String>,
    msg_def_idr: Option<String>,
    cre_dt: Option<String>,
) -> (r: String)
    ensures
        r@ == crate::app_hdr::spec_app_hdr_xml(
            BusinessHeaderV {
                from: opt_str(from),
                to: opt_str(to),
                biz_msg_idr: opt_str(biz_msg_idr),
                msg_def_idr: opt_str(msg_def_idr),
                cre_dt: opt_str(cre_dt),
            },
            crate::app_hdr::default_bah_namespace(),
        ),
{
    let h = BusinessHeader { from, to, biz_msg_idr, msg_def_idr, cre_dt };
    h.to_app_hdr_xml()
}

/// Extract business metadata from a message, as JSON.
pub fn extract_metadata(xml: &str) -> (r: String)
    ensures
        r@ == metadata_json(spec_extract(xml@)),
{
    let m = extract(xml);
    json_metadata(&m)
}

/// Read a full business message (header + detected type + metadata) as JSON:
/// `{messageName, header, metadata}`.
pub fn read_business_message(xml: &str) -> (r: String)
    ensures
        r@ == business_message_json(xml@),
{
    let bm = crate::envelope::read_business_message(xml);
    let mut out = String::new();
    out.append("{\"messageName\":");
    match &bm.id {
        Some(id) => {
            let name = id.message_name();
            push_js(&mut out, name.as_str());
        },
        None => out.append("null"),
    }
    out.append(",\"header\":");
    match &bm.header {
        Some(h) => {
            let j = json_header(h);
            out.append(j.as_str());
        },
        None => out.append("null"),
    }
    out.append(",\"metadata\":");
    let m = json_metadata(&bm.metadata);
    out.append(m.as_str());
    out.append("}");
    assert(out@ =~= business_message_json(xml@));
    out
}

// ------------------------------------------------------------ generic tree ---

/// A `/`-separated path split into its element names (empty names included).
pub open spec fn split_path(p: Seq<char>) -> Seq<Seq<char>>
    decreases p.len(),
{
    match find_char(p, '/', 0) {
        None => seq![p],
        Some(k) => {
            proof {
                lemma_find_char(p, '/', 0);
            }
            seq![p.subrange(0, k)] + split_path(p.subrange(k + 1, p.len() as int))
        },
    }
}

/// The values of a list of strings.
pub open spec fn strings_view(v: Seq<String>) -> Seq<Seq<char>> {
    v.map_values(|s: String| s@)
}

/// The element names of a `/`-separated path.
fn split_segments(path: &str) -> (r: Vec<String>)
    ensures
        strings_view(r@) == split_path(path@),
{
    let v = chars_of(path);
    let mut out: Vec<String> = Vec::new();
    let mut start: usize = 0;
    assert(v@.subrange(0, v@.len() as int) =~= v@);
    assert(strings_view(out@) =~= Seq::<Seq<char>>::empty());
    loop
        invariant
            start <= v@.len(),
            v@ == path@,
            strings_view(out@) + split_path(v@.subrange(start as int, v@.len() as int)) == split_path(
                path@,
            ),
        decreases v@.len() - start,
    {
        let ghost w = v@.subrange(start as int, v@.len() as int);
        proof {
            lemma_find_char(v@, '/', start as int);
        }
        let ghost before = strings_view(out@);
        match find_char_from(v.as_slice(), '/', start) {
            None => {
                proof {
                    lemma_find_char_none(w, '/', 0);
                }
                out.push(string_of(v.as_slice(), start, v.len()));
                assert(strings_view(out@) =~= before + seq![w]);
                assert(split_path(w) == seq![w]);
                return out;
            },
            Some(k) => {
                proof {
                    lemma_find_char_is(w, '/', 0, k - start);
                }
                assert(w.subrange(0, k - start) =~= v@.subrange(start as int, k as int));
                out.push(string_of(v.as_slice(), start, k));
                assert(strings_view(out@) =~= before + seq![w.subrange(0, k - start)]);
                assert(w.subrange(k - start + 1, w.len() as int) =~= v@.subrange(
                    k + 1,
                    v@.len() as int,
                ));
                start = k + 1;
            },
        }
    }
}

/// Navigate from `node` along `path`.
fn node_at<'a>(node: &'a MxNode, path: &Vec<String>) -> (r: Option<&'a MxNode>)
    ensures
        crate::node::opt_node(r) == at_path(node@, strings_view(path@)),
{
    let mut refs: Vec<&str> = Vec::new();
    let mut i: usize = 0;
    while i < path.len()
        invariant
            i <= path@.len(),
            refs@.len() == i,
            forall|k: int| 0 <= k < i ==> (#[trigger] refs@[k])@ == path@[k]@,
        decreases path.len() - i,
    {
        refs.push(path[i].as_str());
        i = i + 1;
    }
    assert(path_view(refs@) =~= strings_view(path@));
    node.at(refs.as_slice())
}

/// The tree of a document, when it has one.
pub open spec fn tree_of(xml: Seq<char>) -> Option<MxNodeV> {
    spec_parse_tree(xml)
}

/// Text at a `/`-separated path of local element names below the root, e.g.
/// `node_text(xml, "FIToFICstmrCdtTrf/GrpHdr/MsgId")`.
pub fn node_text(xml: &str, path: &str) -> (r: Option<String>)
    ensures
        opt_str(r) == (match tree_of(xml@) {
            Some(t) => match at_path(t, split_path(path@)) {
                Some(n) => n.value,
                None => None,
            },
            None => None,
        }),
{
    let doc = match MxNode::parse(xml) {
        Some(d) => d,
        None => {
            return None;
        },
    };
    let segs = split_segments(path);
    match node_at(&doc, &segs) {
        Some(n) => match n.text() {
            Some(t) => Some(String::from_str(t)),
            None => None,
        },
        None => None,
    }
}

/// Text of the first descendant element with the given local name.
pub fn node_find(xml: &str, local: &str) -> (r: Option<String>)
    ensures
        opt_str(r) == (match tree_of(xml@) {
            Some(t) => match find_forest(t.children, local@) {
                Some(n) => n.value,
                None => None,
            },
            None => None,
        }),
{
    let doc = match MxNode::parse(xml) {
        Some(d) => d,
        None => {
            return None;
        },
    };
    match doc.find(local) {
        Some(n) => match n.text() {
            Some(t) => Some(String::from_str(t)),
            None => None,
        },
        None => None,
    }
}

/// Value of an attribute on the element at a `/`-separated path.
pub fn node_attr(xml: &str, path: &str, attr: &str) -> (r: Option<String>)
    ensures
        opt_str(r) == (match tree_of(xml@) {
            Some(t) => match at_path(t, split_path(path@)) {
                Some(n) => attr_from(n.attributes, attr@, 0),
                None => None,
            },
            None => None,
        }),
{
    let doc = match MxNode::parse(xml) {
        Some(d) => d,
        None => {
            return None;
        },
    };
    let segs = split_segments(path);
    match node_at(&doc, &segs) {
        Some(n) => match n.attr(attr) {
            Some(t) => Some(String::from_str(t)),
            None => None,
        },
        None => None,
    }
}

/// Value of an attribute on the first descendant with the given local name,
/// e.g. `node_find_attr(xml, "IntrBkSttlmAmt", "Ccy")`.
pub fn node_find_attr(xml: &str, local: &str, attr: &str) -> (r: Option<String>)
    ensures
        opt_str(r) == (match tree_of(xml@) {
            Some(t) => match find_forest(t.children, local@) {
                Some(n) => attr_from(n.attributes, attr@, 0),
                None => None,
            },
            None => None,
        }),
{
    let doc = match MxNode::parse(xml) {
        Some(d) => d,
        None => {
            return None;
        },
    };
    match doc.find(local) {
        Some(n) => match n.attr(attr) {
            Some(t) => Some(String::from_str(t)),
            None => None,
        },
        None => None,
    }
}

/// The texts of the nodes of `ns` that have one, in order.
pub open spec fn texts(ns: Seq<MxNodeV>) -> Seq<Seq<char>>
    decreases ns.len(),
{
    if ns.len() == 0 {
        Seq::empty()
    } else {
        match ns.last().value {
            Some(t) => texts(ns.drop_last()).push(t),
            None => texts(ns.drop_last()),
        }
    }
}

/// The texts of every descendant element with the given local name that has
/// text (e.g. all `EndToEndId`s of a batch), in document order; empty when
/// the XML has no tree.
pub fn node_find_all(xml: &str, local: &str) -> (r: Vec<String>)
    ensures
        strings_view(r@) == (match tree_of(xml@) {
            Some(t) => texts(collect_forest(t.children, local@)),
            None => Seq::empty(),
        }),
{
    let mut out: Vec<String> = Vec::new();
    let doc = match MxNode::parse(xml) {
        Some(d) => d,
        None => {
            assert(strings_view(out@) =~= Seq::<Seq<char>>::empty());
            return out;
        },
    };
    let found = doc.find_all(local);
    let ghost ns = found@.map_values(|n: &MxNode| n@);
    let mut i: usize = 0;
    assert(strings_view(out@) =~= texts(ns.subrange(0, 0)));
    while i < found.len()
        invariant
            i <= found@.len(),
            ns == found@.map_values(|n: &MxNode| n@),
            strings_view(out@) == texts(ns.subrange(0, i as int)),
        decreases found.len() - i,
    {
        assert(ns.subrange(0, i + 1).drop_last() =~= ns.subrange(0, i as int));
        assert(ns.subrange(0, i + 1).last() == found@[i as int]@);
        let ghost before = strings_view(out@);
        match found[i].text() {
            Some(t) => {
                out.push(String::from_str(t));
                assert(strings_view(out@) =~= before.push(t@));
            },
            None => {},
        }
        i = i + 1;
    }
    assert(ns.subrange(0, found@.len() as int) =~= ns);
    out
}

/// The JSON members of the first `k` attributes: `"name":"value"`, comma-separated.
pub open spec fn attr_items(a: Seq<(Seq<char>, Seq<char>)>, k: int) -> Seq<char>
    decreases k,
{
    if k <= 0 || k > a.len() {
        Seq::empty()
    } else if k == 1 {
        json_str(a[0].0) + seq![':'] + json_str(a[0].1)
    } else {
        attr_items(a, k - 1) + seq![','] + json_str(a[k - 1].0) + seq![':'] + json_str(a[k - 1].1)
    }
}

/// A node and its subtree as JSON:
/// `{"name":…,"value":…|null,"attributes":{…},"children":[…]}`.
pub open spec fn node_json(n: MxNodeV) -> Seq<char>
    decreases n, 0int,
{
    "{\"name\":"@ + json_str(n.name) + ",\"value\":"@ + json_opt(n.value) + ",\"attributes\":{"@
        + attr_items(n.attributes, n.attributes.len() as int) + "},\"children\":["@ + node_items(
        n.children,
        n.children.len() as int,
    ) + "]}"@
}

/// The JSON of the first `k` nodes of `cs`, comma-separated.
pub open spec fn node_items(cs: Seq<MxNodeV>, k: int) -> Seq<char>
    decreases cs, k,
{
    if k <= 0 || k > cs.len() {
        Seq::empty()
    } else if k == 1 {
        proof {
            assert(decreases_to!(cs => cs[0]));
        }
        node_json(cs[0])
    } else {
        proof {
            assert(decreases_to!(cs => cs[k - 1]));
        }
        node_items(cs, k - 1) + seq![','] + node_json(cs[k - 1])
    }
}

/// Append the JSON of `n`.
fn push_node_json(out: &mut String, n: &MxNode)
    ensures
        final(out)@ == old(out)@ + node_json(n@),
    decreases n,
{
    let ghost start = out@;
    proof {
        lemma_children_view(*n);
    }
    out.append("{\"name\":");
    push_js(out, n.name.as_str());
    out.append(",\"value\":");
    push_jso(out, &n.value);
    out.append(",\"attributes\":{");
    let ghost at_attrs = out@;
    let mut i: usize = 0;
    while i < n.attributes.len()
        invariant
            i <= n.attributes@.len(),
            n@.attributes == crate::node::attrs_view(n.attributes@),
            out@ == at_attrs + attr_items(n@.attributes, i as int),
        decreases n.attributes.len() - i,
    {
        let ghost before = out@;
        if i > 0 {
            out.push(',');
        }
        push_js(out, n.attributes[i].0.as_str());
        out.push(':');
        push_js(out, n.attributes[i].1.as_str());
        assert(out@ =~= at_attrs + attr_items(n@.attributes, i + 1));
        i = i + 1;
    }
    out.append("},\"children\":[");
    let ghost at_children = out@;
    let mut j: usize = 0;
    while j < n.children.len()
        invariant
            j <= n.children@.len(),
            n@.children.len() == n.children@.len(),
            forall|k: int| 0 <= k < n.children@.len() ==> #[trigger] n@.children[k] == n.children@[k]@,
            out@ == at_children + node_items(n@.children, j as int),
        decreases n.children.len() - j,
    {
        let ghost before = out@;
        if j > 0 {
            out.push(',');
        }
        let ghost mid = out@;
        proof {
            assert(decreases_to!(*n => n.children@[j as int]));
        }
        push_node_json(out, &n.children[j]);
        assert(out@ =~= at_children + node_items(n@.children, j + 1));
        j = j + 1;
    }
    out.append("]}");
    assert(out@ =~= start + node_json(n@));
}

/// The whole parsed message tree as JSON, recursively; `None` if the XML has
/// no root element.
pub fn node_to_json(xml: &str) -> (r: Option<String>)
    ensures
        match tree_of(xml@) {
            Some(t) => r matches Some(s) && s@ == node_json(t),
            None => r is None,
        },
{
    match MxNode::parse(xml) {
        Some(doc) => {
            let mut out = String::new();
            push_node_json(&mut out, &doc);
            assert(out@ =~= node_json(doc@));
            Some(out)
        },
        None => None,
    }
}

} // verus!
