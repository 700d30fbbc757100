//! The pure part of the ISO 20022 schema fetcher: where schemas live, how
//! download links are found in a catalogue index page, and how downloaded
//! schemas are named. The HTTP transfers themselves are not part of this crate.

use vstd::prelude::*;
use crate::app_hdr::opt_str;
use crate::mx_message::starts_with;
use crate::text::{chars_eq, chars_of, find_char, find_char_from, lemma_find_char_is, owned, push_range};
use crate::mx_id::{MxIdV, spec_message_name};
use crate::business_area::{lemma_code_letters, spec_code};
use crate::xml_scan::lemma_find_char;

verus! {

/// The official ISO 20022 message-definitions index page.
pub const ISO20022_INDEX: &'static str = "https://www.iso20022.org/iso-20022-message-definitions";

/// A discovered remote message definition.
#[derive(Debug, Clone, PartialEq, Eq)]
pub struct RemoteMessage {
    /// The message name if it could be determined, e.g. `"pacs.008.001.08"`.
    pub message_name: Option<String>,
    /// Absolute URL to download the XSD schema.
    pub xsd_url: String,
}

/// The value of a [`RemoteMessage`].
pub struct RemoteMessageV {
    pub message_name: Option<Seq<char>>,
    pub xsd_url: Seq<char>,
}

impl View for RemoteMessage {
    type V = RemoteMessageV;

    open spec fn view(&self) -> RemoteMessageV {
        RemoteMessageV { message_name: opt_str(self.message_name), xsd_url: self.xsd_url@ }
    }
}

/// The values of a list of remote messages.
pub open spec fn remote_views(v: Seq<RemoteMessage>) -> Seq<RemoteMessageV> {
    v.map_values(|m: RemoteMessage| m@)
}

/// The values of a list of strings.
pub open spec fn strings_view(v: Seq<String>) -> Seq<Seq<char>> {
    v.map_values(|s: String| s@)
}

/// Where schemas are downloaded from: an origin used to resolve relative
/// links, and the index page that lists message definitions.
#[derive(Debug, Clone, PartialEq, Eq)]
pub struct Fetcher {
    /// Base origin used to resolve relative links, e.g. `https://www.iso20022.org`.
    pub origin: String,
    /// The index page listing message definitions.
    pub index_url: String,
}

// ------------------------------------------------------------------ specs ---

/// `s` without trailing `/` characters.
pub open spec fn trim_slashes(s: Seq<char>) -> Seq<char>
    decreases s.len(),
{
    if s.len() > 0 && s.last() == '/' {
        trim_slashes(s.drop_last())
    } else {
        s
    }
}

/// A link resolved against `origin`: absolute `http://` and `https://` links
/// stay as they are; others are appended to the origin (without its trailing
/// slashes) after one `/`.
pub open spec fn spec_absolutize(origin: Seq<char>, href: Seq<char>) -> Seq<char> {
    if starts_with(href, "http://"@) || starts_with(href, "https://"@) {
        href
    } else if href.len() > 0 && href[0] == '/' {
        trim_slashes(origin) + seq!['/'] + href.drop_first()
    } else {
        trim_slashes(origin) + seq!['/'] + href
    }
}

/// The `href` values of `html` that point at a `.xsd` file or at a
/// `/message/{digits}/download` endpoint: the first capture group of every
/// match of `href="([^"]*(?:\.xsd|/message/\d+/download)[^"]*)"`, in order.
pub uninterp spec fn href_captures(html: Seq<char>) -> Seq<Seq<char>>;

/// The first match of `[a-z]{4}\.\d{3}\.\d{3}\.\d{2}` in `s`.
pub uninterp spec fn message_name_match(s: Seq<char>) -> Option<Seq<char>>;

/// Whether some message of `ms` has URL `url`.
pub open spec fn has_url(ms: Seq<RemoteMessageV>, url: Seq<char>) -> bool {
    exists|k: int| 0 <= k < ms.len() && #[trigger] ms[k].xsd_url == url
}

/// The messages found in the first `n` links: each link resolved against
/// `origin`, labelled with the message name found in the raw link, and kept
/// only the first time its URL appears.
pub open spec fn index_prefix(links: Seq<Seq<char>>, origin: Seq<char>, n: int) -> Seq<
    RemoteMessageV,
>
    decreases n,
{
    if n <= 0 || n > links.len() {
        Seq::empty()
    } else {
        let prev = index_prefix(links, origin, n - 1);
        let raw = links[n - 1];
        let url = spec_absolutize(origin, raw);
        if has_url(prev, url) {
            prev
        } else {
            prev.push(RemoteMessageV { message_name: message_name_match(raw), xsd_url: url })
        }
    }
}

/// The message definitions linked from an index page.
pub open spec fn spec_parse_index(origin: Seq<char>, html: Seq<char>) -> Seq<RemoteMessageV> {
    index_prefix(href_captures(html), origin, href_captures(html).len() as int)
}

/// The business area of a message name: the text before its first `.`.
pub open spec fn family(name: Seq<char>) -> Seq<char> {
    match find_char(name, '.', 0) {
        Some(k) => name.subrange(0, k),
        None => name,
    }
}

/// Where the static schema of a message lives below `origin`.
pub open spec fn spec_schema_url(origin: Seq<char>, name: Seq<char>) -> Seq<char> {
    trim_slashes(origin) + "/sites/default/files/documents/messages/"@ + family(name)
        + "/schemas/"@ + name + ".xsd"@
}

/// The decimal digits of `n`.
pub open spec fn decimal(n: nat) -> Seq<char>
    decreases n,
{
    if n < 10 {
        seq![digit_char(n)]
    } else {
        decimal(n / 10) + seq![digit_char(n % 10)]
    }
}

/// The character of a digit.
pub open spec fn digit_char(d: nat) -> char {
    if d == 0 {
        '0'
    } else if d == 1 {
        '1'
    } else if d == 2 {
        '2'
    } else if d == 3 {
        '3'
    } else if d == 4 {
        '4'
    } else if d == 5 {
        '5'
    } else if d == 6 {
        '6'
    } else if d == 7 {
        '7'
    } else if d == 8 {
        '8'
    } else {
        '9'
    }
}

/// The file name of the `i`-th downloaded schema: its message name when
/// known, else `schema_{i}`, with extension `.xsd`.
pub open spec fn spec_schema_file_name(m: RemoteMessageV, i: nat) -> Seq<char> {
    match m.message_name {
        Some(n) => n + ".xsd"@,
        None => "schema_"@ + decimal(i) + ".xsd"@,
    }
}

// ---------------------------------------------------------------- wrappers ---

/// The `href` links of `html` to schemas, via `regex::Regex::captures_iter`
/// with the pattern of [`href_captures`]; the result is named, not restated.
#[verifier::external_body]
fn href_links(html: &str) -> (r: Vec<String>)
    ensures
        strings_view(r@) == href_captures(html@),
{
    let re = regex::Regex::new(r#"href="([^"]*(?:\.xsd|/message/\d+/download)[^"]*)""#).unwrap();
    re.captures_iter(html).map(|c| c[1].to_string()).collect()
}

/// The first message-name token of `raw`, via `regex::Regex::find` with the
/// pattern of [`message_name_match`]; the result is named, not restated.
#[verifier::external_body]
fn first_message_name(raw: &str) -> (r: Option<String>)
    ensures
        opt_str(r) == message_name_match(raw@),
{
    let re = regex::Regex::new(r"[a-z]{4}\.\d{3}\.\d{3}\.\d{2}").unwrap();
    re.find(raw).map(|m| m.as_str().to_string())
}

// ------------------------------------------------------------------- exec ---

fn starts_with_exec(v: &[char], p: &str) -> (b: bool)
    ensures
        b == starts_with(v@, p@),
{
    let pv = chars_of(p);
    if pv.len() > v.len() {
        return false;
    }
    chars_eq(&v[0..pv.len()], pv.as_slice())
}

fn trimmed_origin_len(o: &[char]) -> (k: usize)
    ensures
        k <= o@.len(),
        o@.subrange(0, k as int) == trim_slashes(o@),
{
    let mut k = o.len();
    assert(o@.subrange(0, k as int) =~= o@);
    while k > 0 && o[k - 1] == '/'
        invariant
            k <= o@.len(),
            trim_slashes(o@) == trim_slashes(o@.subrange(0, k as int)),
        decreases k,
    {
        assert(o@.subrange(0, k - 1) =~= o@.subrange(0, k as int).drop_last());
        k = k - 1;
    }
    k
}

impl Fetcher {
    /// A fetcher targeting the official iso20022.org catalogue.
    pub fn new() -> (f: Fetcher)
        ensures
            f.origin@ == "https://www.iso20022.org"@,
            f.index_url@ == ISO20022_INDEX@,
    {
        Fetcher { origin: owned("https://www.iso20022.org"), index_url: owned(ISO20022_INDEX) }
    }

    /// Point the fetcher at an alternative origin and index URL (e.g. a mirror).
    pub fn with_source(self, origin: String, index_url: String) -> (f: Fetcher)
        ensures
            f.origin == origin,
            f.index_url == index_url,
    {
        Fetcher { origin, index_url }
    }

    /// Resolve a possibly-relative href against the fetcher origin.
    pub fn absolutize(&self, href: &str) -> (r: String)
        ensures
            r@ == spec_absolutize(self.origin@, href@),
    {
        let h = chars_of(href);
        if starts_with_exec(h.as_slice(), "http://") || starts_with_exec(h.as_slice(), "https://") {
            return owned(href);
        }
        let o = chars_of(self.origin.as_str());
        let k = trimmed_origin_len(o.as_slice());
        let mut r = String::new();
        push_range(&mut r, o.as_slice(), 0, k);
        r.push('/');
        if h.len() > 0 && h[0] == '/' {
            push_range(&mut r, h.as_slice(), 1, h.len());
            assert(r@ =~= spec_absolutize(self.origin@, href@));
        } else {
            push_range(&mut r, h.as_slice(), 0, h.len());
            assert(r@ =~= spec_absolutize(self.origin@, href@));
        }
        r
    }

    /// Parse message-definition links out of an index HTML page: both the
    /// catalogue's `/message/{id}/download` endpoints and direct `.xsd` links,
    /// each URL once, in the order of the page.
    pub fn parse_index(&self, html: &str) -> (r: Vec<RemoteMessage>)
        ensures
            remote_views(r@) == spec_parse_index(self.origin@, html@),
    {
        let links = href_links(html);
        let ghost lv = strings_view(links@);
        let mut out: Vec<RemoteMessage> = Vec::new();
        let mut i: usize = 0;
        while i < links.len()
            invariant
                i <= links@.len(),
                lv == strings_view(links@),
                lv == href_captures(html@),
                remote_views(out@) == index_prefix(lv, self.origin@, i as int),
            decreases links.len() - i,
        {
            let raw = links[i].as_str();
            let url = self.absolutize(raw);
            let u = chars_of(url.as_str());
            let ghost prev = remote_views(out@);
            assert(lv[i as int] == raw@);
            let mut seen = false;
            let mut k: usize = 0;
            while k < out.len()
                invariant
                    k <= out@.len(),
                    u@ == url@,
                    prev == remote_views(out@),
                    seen == (exists|t: int| 0 <= t < k && #[trigger] prev[t].xsd_url == url@),
                decreases out.len() - k,
            {
                let w = chars_of(out[k].xsd_url.as_str());
                assert(prev[k as int].xsd_url == out@[k as int].xsd_url@);
                if chars_eq(w.as_slice(), u.as_slice()) {
                    seen = true;
                }
                k = k + 1;
            }
            assert(seen == has_url(prev, url@));
            if !seen {
                let name = first_message_name(raw);
                out.push(RemoteMessage { message_name: name, xsd_url: url });
                assert(remote_views(out@) =~= prev.push(
                    RemoteMessageV { message_name: message_name_match(raw@), xsd_url: url@ },
                ));
            }
            i = i + 1;
        }
        out
    }

    /// The static schema URL of a message, e.g. `sese.023.001.13` is
    /// `…/sites/default/files/documents/messages/sese/schemas/sese.023.001.13.xsd`.
    pub fn schema_url(&self, message_name: &str) -> (r: String)
        ensures
            r@ == spec_schema_url(self.origin@, message_name@),
    {
        let o = chars_of(self.origin.as_str());
        let k = trimmed_origin_len(o.as_slice());
        let n = chars_of(message_name);
        proof {
            lemma_find_char(n@, '.', 0);
        }
        let f = match find_char_from(n.as_slice(), '.', 0) {
            Some(d) => d,
            None => n.len(),
        };
        let mut r = String::new();
        push_range(&mut r, o.as_slice(), 0, k);
        r.append("/sites/default/files/documents/messages/");
        push_range(&mut r, n.as_slice(), 0, f);
        r.append("/schemas/");
        r.append(message_name);
        r.append(".xsd");
        assert(n@.subrange(0, n@.len() as int) =~= n@);
        assert(r@ =~= spec_schema_url(self.origin@, message_name@));
        r
    }
}

impl Default for Fetcher {
    fn default() -> (f: Fetcher)
        ensures
            f.origin@ == "https://www.iso20022.org"@,
            f.index_url@ == ISO20022_INDEX@,
    {
        Fetcher::new()
    }
}

/// The decimal representation of `n`.
pub fn decimal_string(n: usize) -> (r: String)
    ensures
        r@ == decimal(n as nat),
    decreases n,
{
    if n < 10 {
        let mut r = String::new();
        r.push(digit(n));
        r
    } else {
        let mut r = decimal_string(n / 10);
        r.push(digit(n % 10));
        r
    }
}

fn digit(d: usize) -> (c: char)
    requires
        d < 10,
    ensures
        c == digit_char(d as nat),
{
    if d == 0 {
        '0'
    } else if d == 1 {
        '1'
    } else if d == 2 {
        '2'
    } else if d == 3 {
        '3'
    } else if d == 4 {
        '4'
    } else if d == 5 {
        '5'
    } else if d == 6 {
        '6'
    } else if d == 7 {
        '7'
    } else if d == 8 {
        '8'
    } else {
        '9'
    }
}

/// The file name under which the `i`-th discovered schema is saved: its
/// message name when known, else `schema_{i}`, with extension `.xsd`.
pub fn schema_file_name(m: &RemoteMessage, i: usize) -> (r: String)
    ensures
        r@ == spec_schema_file_name(m@, i as nat),
{
    let mut r = match &m.message_name {
        Some(n) => n.clone(),
        None => {
            let mut s = String::from_str("schema_");
            let d = decimal_string(i);
            s.append(d.as_str());
            s
        },
    };
    r.append(".xsd");
    r
}

/// One step of downloading the discovered schemas: the outcome of the `i`-th
/// download (`None` when it failed, and the schema is skipped) decides the
/// file to write, with its name and contents, and the count of schemas written
/// so far.
pub fn download_step(written: usize, i: usize, m: &RemoteMessage, body: Option<String>) -> (r: (
    usize,
    Option<(String, String)>,
))
    requires
        written <= i,
        i < usize::MAX,
    ensures
        match body {
            Some(b) => r.0 == written + 1 && (r.1 matches Some((n, t)) && n@ == spec_schema_file_name(
                m@,
                i as nat,
            ) && t@ == b@),
            None => r.0 == written && r.1 is None,
        },
{
    match body {
        Some(b) => (written + 1, Some((schema_file_name(m, i), b))),
        None => (written, None),
    }
}

/// No URL is listed twice by `parse_index`.
pub proof fn lemma_index_urls_distinct(links: Seq<Seq<char>>, origin: Seq<char>, n: int)
    ensures
        forall|i: int, j: int|
            0 <= i < j < index_prefix(links, origin, n).len() ==> #[trigger] index_prefix(
                links,
                origin,
                n,
            )[i].xsd_url != #[trigger] index_prefix(links, origin, n)[j].xsd_url,
    decreases n,
{
    if 0 < n <= links.len() {
        lemma_index_urls_distinct(links, origin, n - 1);
        let prev = index_prefix(links, origin, n - 1);
        let url = spec_absolutize(origin, links[n - 1]);
        if !has_url(prev, url) {
            let cur = index_prefix(links, origin, n);
            assert forall|i: int, j: int| 0 <= i < j < cur.len() implies #[trigger] cur[i].xsd_url
                != #[trigger] cur[j].xsd_url by {
                if j == cur.len() - 1 {
                    assert(cur[i] == prev[i]);
                    if cur[i].xsd_url == url {
                        assert(has_url(prev, url));
                    }
                } else {
                    assert(cur[i] == prev[i]);
                    assert(cur[j] == prev[j]);
                }
            }
        }
    }
}

/// Every link of the page is listed by `parse_index`, resolved against the origin.
pub proof fn lemma_index_covers_links(links: Seq<Seq<char>>, origin: Seq<char>, n: int, i: int)
    requires
        0 <= i < n <= links.len(),
    ensures
        has_url(index_prefix(links, origin, n), spec_absolutize(origin, links[i])),
    decreases n,
{
    let prev = index_prefix(links, origin, n - 1);
    let url = spec_absolutize(origin, links[n - 1]);
    if i < n - 1 {
        lemma_index_covers_links(links, origin, n - 1, i);
        if !has_url(prev, url) {
            let cur = index_prefix(links, origin, n);
            let k = choose|k: int| 0 <= k < prev.len() && #[trigger] prev[k].xsd_url
                == spec_absolutize(origin, links[i]);
            assert(cur[k] == prev[k]);
        }
    } else {
        if !has_url(prev, url) {
            let cur = index_prefix(links, origin, n);
            assert(cur[cur.len() - 1].xsd_url == url);
        }
    }
}

/// A message's schema lives in the folder named by the text before the first
/// `.` of its name: for a name `a.rest` with no `.` in `a`, the URL is
/// `{origin}/sites/default/files/documents/messages/{a}/schemas/{a.rest}.xsd`.
pub proof fn lemma_schema_url_folder(origin: Seq<char>, a: Seq<char>, rest: Seq<char>)
    requires
        forall|i: int| 0 <= i < a.len() ==> a[i] != '.',
    ensures
        spec_schema_url(origin, a + seq!['.'] + rest) == trim_slashes(origin)
            + "/sites/default/files/documents/messages/"@ + a + "/schemas/"@ + (a + seq!['.'] + rest)
            + ".xsd"@,
{
    let n = a + seq!['.'] + rest;
    assert forall|t: int| 0 <= t < a.len() implies n[t] != '.' by {
        assert(n[t] == a[t]);
    }
    lemma_find_char_is(n, '.', 0, a.len() as int);
    assert(n.subrange(0, a.len() as int) =~= a);
}

/// The schema of a message lives in the folder of its business area, e.g.
/// `.../messages/sese/schemas/sese.023.001.13.xsd`.
pub proof fn lemma_schema_url_area(origin: Seq<char>, id: MxIdV)
    ensures
        spec_schema_url(origin, spec_message_name(id)) == trim_slashes(origin)
            + "/sites/default/files/documents/messages/"@ + spec_code(id.business_area)
            + "/schemas/"@ + spec_message_name(id) + ".xsd"@,
{
    let c = spec_code(id.business_area);
    let rest = id.functionality + seq!['.'] + id.variant + seq!['.'] + id.version;
    lemma_code_letters(id.business_area);
    assert forall|i: int| 0 <= i < c.len() implies c[i] != '.' by {
        assert('a' <= c[i] <= 'z');
    }
    assert(spec_message_name(id) =~= c + seq!['.'] + rest);
    lemma_schema_url_folder(origin, c, rest);
}

/// The origin without its trailing slashes: a prefix of the origin that does
/// not end with `/`, followed in the origin by slashes only.
pub proof fn lemma_trim_slashes_shape(o: Seq<char>)
    ensures
        trim_slashes(o).len() <= o.len(),
        trim_slashes(o) == o.subrange(0, trim_slashes(o).len() as int),
        trim_slashes(o).len() > 0 ==> trim_slashes(o).last() != '/',
        forall|i: int| trim_slashes(o).len() <= i < o.len() ==> o[i] == '/',
    decreases o.len(),
{
    if o.len() > 0 && o.last() == '/' {
        lemma_trim_slashes_shape(o.drop_last());
        assert(o.drop_last().subrange(0, trim_slashes(o).len() as int) =~= o.subrange(
            0,
            trim_slashes(o).len() as int,
        ));
        assert forall|i: int| trim_slashes(o).len() <= i < o.len() implies o[i] == '/' by {
            if i < o.len() - 1 {
                assert(o[i] == o.drop_last()[i]);
            }
        }
    } else {
        assert(o.subrange(0, o.len() as int) =~= o);
    }
}

} // verus!
