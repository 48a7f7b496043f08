//! What the scrapers compute from the pages and feeds they fetch: element
//! text, scores, links, Atom dates and ids. Fetching and HTML/XML parsing
//! are done by the caller.
use vstd::prelude::*;
use vstd::string::StringSliceAdditionalSpecFns;
use vstd::utf8::{
    decode_utf8, encode_utf8, encode_utf8_decode_utf8, encode_utf8_valid_utf8, is_char_boundary,
    is_char_boundary_iff_not_is_continuation_byte, is_char_boundary_start_end_of_seq,
    valid_utf8, valid_utf8_split,
};
use crate::bot::tables::{opt_view, Timestamp};
use crate::num::{
    decimal, parse_i32_range, parse_u32, parse_u32_range, push_decimal, spec_parse_i32,
    spec_parse_u32,
};
use crate::text::{
    chars_of, is_prefix, is_whitespace, push_char, push_str, spec_is_whitespace,
    split_whitespace, starts_with, str_eq, string_from_chars, string_from_range, views, words,
};

verus! {

/// The HackerNews front page.
pub const HN_BASE_URL: &'static str = "https://news.ycombinator.com/";

/// The Lobsters front page.
pub const LOBSTERS_BASE_URL: &'static str = "https://lobste.rs/";

// ---------------------------------------------------------------------------
// element text
// ---------------------------------------------------------------------------

/// All pieces joined together.
pub open spec fn concat_all(ws: Seq<Seq<char>>) -> Seq<char>
    decreases ws.len(),
{
    if ws.len() == 0 {
        seq![]
    } else {
        concat_all(ws.drop_last()) + ws.last()
    }
}

/// Every non-breaking space (U+00A0) replaced by a space.
pub open spec fn replace_nbsp(s: Seq<char>) -> Seq<char> {
    s.map_values(|c: char| if c == '\u{a0}' { ' ' } else { c })
}

/// Appends `t` to `out` with non-breaking spaces turned into spaces.
fn push_replacing_nbsp(out: &mut String, t: &str)
    ensures
        final(out)@ == old(out)@ + replace_nbsp(t@),
{
    let cs = chars_of(t);
    let ghost start = out@;
    let mut i: usize = 0;
    while i < cs.len()
        invariant
            i <= cs.len(),
            cs@ == t@,
            out@ == start + replace_nbsp(cs@.take(i as int)),
        decreases cs.len() - i,
    {
        let c = cs[i];
        if c == '\u{a0}' {
            push_char(out, ' ');
        } else {
            push_char(out, c);
        }
        assert(replace_nbsp(cs@.take(i + 1)) =~= replace_nbsp(cs@.take(i as int)).push(
            if c == '\u{a0}' {
                ' '
            } else {
                c
            },
        ));
        i = i + 1;
    }
    assert(cs@.take(cs.len() as int) =~= cs@);
}

/// The text of an HTML element from its text nodes (already entity-decoded
/// by the HTML parser), with non-breaking spaces normalized to spaces.
pub fn extract_text(text_nodes: &Vec<String>) -> (r: String)
    ensures
        r@ == replace_nbsp(concat_all(views(text_nodes@))),
{
    let mut out = String::new();
    let mut i: usize = 0;
    while i < text_nodes.len()
        invariant
            i <= text_nodes.len(),
            out@ == replace_nbsp(concat_all(views(text_nodes@).take(i as int))),
        decreases text_nodes.len() - i,
    {
        let ghost before = views(text_nodes@).take(i as int);
        assert(views(text_nodes@).take(i + 1).drop_last() =~= before);
        push_replacing_nbsp(&mut out, text_nodes[i].as_str());
        assert(replace_nbsp(concat_all(views(text_nodes@).take(i + 1))) =~= replace_nbsp(
            concat_all(before),
        ) + replace_nbsp(text_nodes@[i as int]@));
        i = i + 1;
    }
    assert(views(text_nodes@).take(text_nodes.len() as int) =~= views(text_nodes@));
    out
}

/// A feed entry title with non-breaking spaces turned into spaces.
pub fn normalize_entry_title(title: &str) -> (r: String)
    ensures
        r@ == replace_nbsp(title@),
{
    let mut out = String::new();
    push_replacing_nbsp(&mut out, title);
    out
}

// ---------------------------------------------------------------------------
// scores and links
// ---------------------------------------------------------------------------

/// The score in an HN score label such as `"123 points"`: its first word
/// read as a number, or 0.
pub open spec fn spec_hn_score(label: Seq<char>) -> u32 {
    if words(label).len() > 0 {
        match spec_parse_u32(words(label)[0]) {
            Some(n) => n,
            None => 0,
        }
    } else {
        0
    }
}

/// Reads the score from an HN score label.
pub fn hn_score(label: &str) -> (r: u32)
    ensures
        r == spec_hn_score(label@),
{
    let ws = split_whitespace(label);
    if ws.len() > 0 {
        match parse_u32(ws[0].as_str()) {
            Some(n) => n,
            None => 0,
        }
    } else {
        0
    }
}

/// `s` without leading whitespace.
pub open spec fn trim_start(s: Seq<char>) -> Seq<char>
    decreases s.len(),
{
    if s.len() > 0 && spec_is_whitespace(s[0]) {
        trim_start(s.drop_first())
    } else {
        s
    }
}

/// `s` without trailing whitespace.
pub open spec fn trim_end(s: Seq<char>) -> Seq<char>
    decreases s.len(),
{
    if s.len() > 0 && spec_is_whitespace(s.last()) {
        trim_end(s.drop_last())
    } else {
        s
    }
}

/// `s` without leading and trailing whitespace (`str::trim`).
pub open spec fn trim(s: Seq<char>) -> Seq<char> {
    trim_end(trim_start(s))
}

/// `str::trim`.
pub fn trim_str(s: &str) -> (r: String)
    ensures
        r@ == trim(s@),
{
    let cs = chars_of(s);
    let mut a: usize = 0;
    assert(cs@.skip(0) =~= cs@);
    while a < cs.len() && is_whitespace(cs[a])
        invariant
            a <= cs.len(),
            cs@ == s@,
            trim_start(s@) == trim_start(cs@.skip(a as int)),
        decreases cs.len() - a,
    {
        assert(cs@.skip(a as int).drop_first() =~= cs@.skip(a + 1));
        a = a + 1;
    }
    let mut b: usize = cs.len();
    assert(trim_start(s@) =~= cs@.subrange(a as int, b as int));
    while b > a && is_whitespace(cs[b - 1])
        invariant
            a <= b <= cs.len(),
            cs@ == s@,
            trim(s@) == trim_end(cs@.subrange(a as int, b as int)),
        decreases b,
    {
        assert(cs@.subrange(a as int, b as int).drop_last() =~= cs@.subrange(a as int, b - 1));
        b = b - 1;
    }
    string_from_range(&cs, a, b)
}

/// The score of a Lobsters story from the text of its vote link: the
/// trimmed text read as a number, or 0 (also when there is no vote link).
pub open spec fn spec_lobsters_score(vote_text: Option<Seq<char>>) -> u32 {
    match vote_text {
        Some(t) => match spec_parse_u32(trim(t)) {
            Some(n) => n,
            None => 0,
        },
        None => 0,
    }
}

/// Reads the score of a Lobsters story.
pub fn lobsters_score(vote_text: &Option<String>) -> (r: u32)
    ensures
        r == spec_lobsters_score(opt_view(*vote_text)),
{
    match vote_text {
        Some(t) => match parse_u32(trim_str(t.as_str()).as_str()) {
            Some(n) => n,
            None => 0,
        },
        None => 0,
    }
}

/// An HN story link: relative `item?id=` links are made absolute.
pub open spec fn spec_resolve_hn_link(href: Seq<char>) -> Seq<char> {
    if is_prefix("item?id="@, href) {
        HN_BASE_URL@ + href
    } else {
        href
    }
}

/// Resolves an HN story link against the HN base URL.
pub fn resolve_hn_link(href: &str) -> (r: String)
    ensures
        r@ == spec_resolve_hn_link(href@),
{
    if starts_with(href, "item?id=") {
        let mut s = String::new();
        push_str(&mut s, HN_BASE_URL);
        push_str(&mut s, href);
        s
    } else {
        href.to_owned()
    }
}

/// The discussion page of an HN story.
pub fn hn_item_url(hn_id: u32) -> (r: String)
    ensures
        r@ == HN_BASE_URL@ + "item?id="@ + decimal(hn_id as nat),
{
    let mut s = String::new();
    push_str(&mut s, HN_BASE_URL);
    push_str(&mut s, "item?id=");
    push_decimal(&mut s, hn_id as u64);
    s
}

/// The discussion page of a Lobsters story.
pub fn lobsters_story_url(story_id: &str) -> (r: String)
    ensures
        r@ == LOBSTERS_BASE_URL@ + "s/"@ + story_id@,
{
    let mut s = String::new();
    push_str(&mut s, LOBSTERS_BASE_URL);
    push_str(&mut s, "s/");
    push_str(&mut s, story_id);
    s
}

// ---------------------------------------------------------------------------
// Atom feeds
// ---------------------------------------------------------------------------

/// A link of an Atom feed or entry.
pub struct FeedLink {
    pub rel: Option<String>,
    pub href: String,
}

/// The views of a list of links.
pub open spec fn link_views(links: Seq<FeedLink>) -> Seq<(Option<Seq<char>>, Seq<char>)> {
    links.map_values(|l: FeedLink| (opt_view(l.rel), l.href@))
}

/// A link is an alternate link when it says so or names no relation.
pub open spec fn is_alternate(rel: Option<Seq<char>>) -> bool {
    match rel {
        None => true,
        Some(r) => r == "alternate"@,
    }
}

/// The href of the first alternate link.
pub open spec fn first_alternate(links: Seq<(Option<Seq<char>>, Seq<char>)>) -> Option<Seq<char>>
    decreases links.len(),
{
    if links.len() == 0 {
        None
    } else if is_alternate(links[0].0) {
        Some(links[0].1)
    } else {
        first_alternate(links.drop_first())
    }
}

/// The best URL among links: the first alternate link, else the first
/// link, else none.
pub open spec fn spec_best_link(links: Seq<(Option<Seq<char>>, Seq<char>)>) -> Option<Seq<char>> {
    match first_alternate(links) {
        Some(h) => Some(h),
        None => if links.len() > 0 {
            Some(links[0].1)
        } else {
            None
        },
    }
}

/// Extract the best URL from the links of an Atom entry or feed: the first
/// link with `rel="alternate"` or no `rel`, else the first link.
pub fn extract_url(links: &Vec<FeedLink>) -> (r: Option<String>)
    ensures
        opt_view(r) == spec_best_link(link_views(links@)),
{
    let ghost lv = link_views(links@);
    let mut i: usize = 0;
    assert(lv.skip(0) =~= lv);
    while i < links.len()
        invariant
            i <= links.len(),
            lv == link_views(links@),
            first_alternate(lv) == first_alternate(lv.skip(i as int)),
        decreases links.len() - i,
    {
        let alt = match &links[i].rel {
            None => true,
            Some(r) => str_eq(r.as_str(), "alternate"),
        };
        assert(lv.skip(i as int)[0] == lv[i as int]);
        if alt {
            return Some(links[i].href.clone());
        }
        assert(lv.skip(i as int).drop_first() =~= lv.skip(i + 1));
        i = i + 1;
    }
    if links.len() > 0 {
        Some(links[0].href.clone())
    } else {
        None
    }
}

/// Whether `year` is a leap year in the proleptic Gregorian calendar.
pub open spec fn spec_is_leap_year(year: int) -> bool {
    year % 4 == 0 && (year % 100 != 0 || year % 400 == 0)
}

/// `time::util::is_leap_year`: whether `year` is a leap year in the
/// proleptic Gregorian calendar (astronomical year numbering), which is the
/// divisibility rule stated here.
#[verifier::external_body]
fn is_leap_year(year: i32) -> (r: bool)
    ensures
        r == spec_is_leap_year(year as int),
{
    time::util::is_leap_year(year)
}

/// The six numeric fields at the start of an RFC 3339 date.
pub struct DateFields {
    pub year: i32,
    pub month: u32,
    pub day: u32,
    pub hour: u32,
    pub minute: u32,
    pub second: u32,
}

/// The characters of the bytes `[a, b)` of a string, when both ends fall on
/// character boundaries (`str::get(a..b)`).
pub open spec fn byte_range_text(bytes: Seq<u8>, a: int, b: int) -> Option<Seq<char>> {
    if is_char_boundary(bytes, a) && is_char_boundary(bytes, b) {
        Some(decode_utf8(bytes.subrange(a, b)))
    } else {
        None
    }
}

/// Reads an unsigned field from the bytes `[a, b)`.
pub open spec fn unsigned_field(bytes: Seq<u8>, a: int, b: int) -> Option<u32> {
    match byte_range_text(bytes, a, b) {
        Some(t) => spec_parse_u32(t),
        None => None,
    }
}

/// The fields `YYYY-MM-DDTHH:MM:SS` read at their fixed byte positions; the
/// separators are not checked. `None` when the text is shorter than 19 bytes
/// or a field does not parse.
pub open spec fn spec_date_fields(s: Seq<char>) -> Option<(i32, u32, u32, u32, u32, u32)> {
    let bytes = encode_utf8(s);
    if bytes.len() < 19 {
        None
    } else {
        match byte_range_text(bytes, 0, 4) {
            None => None,
            Some(yt) => match spec_parse_i32(yt) {
                None => None,
                Some(year) => match (
                    unsigned_field(bytes, 5, 7),
                    unsigned_field(bytes, 8, 10),
                    unsigned_field(bytes, 11, 13),
                    unsigned_field(bytes, 14, 16),
                    unsigned_field(bytes, 17, 19),
                ) {
                    (Some(mo), Some(d), Some(h), Some(mi), Some(se)) => Some(
                        (year, mo, d, h, mi, se),
                    ),
                    _ => None,
                },
            },
        }
    }
}

impl DateFields {
    /// The fields as a tuple.
    pub open spec fn fields_view(self) -> (i32, u32, u32, u32, u32, u32) {
        (self.year, self.month, self.day, self.hour, self.minute, self.second)
    }
}

/// The text of the bytes `[a, b)` of `s`, when both are character boundaries.
fn byte_range(s: &str, a: usize, b: usize) -> (r: Option<Vec<char>>)
    requires
        a <= b <= s.spec_bytes().len(),
    ensures
        match r {
            Some(cs) => byte_range_text(s.spec_bytes(), a as int, b as int) == Some(cs@),
            None => byte_range_text(s.spec_bytes(), a as int, b as int) is None,
        },
{
    let ghost bytes = s.spec_bytes();
    if !s.is_char_boundary(a) || !s.is_char_boundary(b) {
        return None;
    }
    proof {
        encode_utf8_valid_utf8(s@);
        valid_utf8_split(bytes, a as int);
    }
    let (_, rest) = s.split_at(a);
    let ghost rb = rest.spec_bytes();
    assert(rb =~= bytes.subrange(a as int, bytes.len() as int));
    proof {
        if b < bytes.len() {
            is_char_boundary_iff_not_is_continuation_byte(bytes, b as int);
            is_char_boundary_iff_not_is_continuation_byte(rb, b - a);
            assert(rb[b - a] == bytes[b as int]);
        } else {
            is_char_boundary_start_end_of_seq(rb);
        }
    }
    let (mid, _) = rest.split_at(b - a);
    assert(mid.spec_bytes() =~= bytes.subrange(a as int, b as int));
    let cs = chars_of(mid);
    proof {
        encode_utf8_decode_utf8(mid@);
    }
    Some(cs)
}

fn unsigned_field_exec(s: &str, a: usize, b: usize) -> (r: Option<u32>)
    requires
        a <= b <= s.spec_bytes().len(),
    ensures
        r == unsigned_field(s.spec_bytes(), a as int, b as int),
{
    match byte_range(s, a, b) {
        Some(cs) => {
            assert(cs@.subrange(0, cs@.len() as int) =~= cs@);
            parse_u32_range(&cs, 0, cs.len())
        },
        None => None,
    }
}

/// Reads the fields `YYYY-MM-DDTHH:MM:SS` at the start of an RFC 3339 /
/// ISO 8601 date such as `"2024-01-15T10:30:00Z"`.
pub fn date_fields(date_str: &str) -> (r: Option<DateFields>)
    ensures
        match r {
            Some(f) => spec_date_fields(date_str@) == Some(f.fields_view()),
            None => spec_date_fields(date_str@) is None,
        },
{
    let len = date_str.as_bytes().len();
    if len < 19 {
        return None;
    }
    let yt = match byte_range(date_str, 0, 4) {
        Some(cs) => cs,
        None => return None,
    };
    assert(yt@.subrange(0, yt@.len() as int) =~= yt@);
    let year = match parse_i32_range(&yt, 0, yt.len()) {
        Some(y) => y,
        None => return None,
    };
    let month = unsigned_field_exec(date_str, 5, 7);
    let day = unsigned_field_exec(date_str, 8, 10);
    let hour = unsigned_field_exec(date_str, 11, 13);
    let minute = unsigned_field_exec(date_str, 14, 16);
    let second = unsigned_field_exec(date_str, 17, 19);
    match (month, day, hour, minute, second) {
        (Some(month), Some(day), Some(hour), Some(minute), Some(second)) => Some(
            DateFields { year, month, day, hour, minute, second },
        ),
        _ => None,
    }
}

/// Days in a month of a common year (January is 1).
pub open spec fn common_month_days(m: int) -> int {
    if m == 2 {
        28
    } else if m == 4 || m == 6 || m == 9 || m == 11 {
        30
    } else {
        31
    }
}

/// Days in `month` of `year`.
pub open spec fn month_len(year: int, month: int) -> int {
    common_month_days(month) + if month == 2 && spec_is_leap_year(year) {
        1int
    } else {
        0int
    }
}

/// Days from 1970-01-01 to the start of `year` (0 for years before 1970).
pub open spec fn days_before_year(year: int) -> int
    decreases year - 1970,
{
    if year <= 1970 {
        0
    } else {
        days_before_year(year - 1) + if spec_is_leap_year(year - 1) {
            366int
        } else {
            365int
        }
    }
}

/// Days from the start of a year to the start of `month`, months after
/// February counting a leap day in a leap year.
pub open spec fn days_before_month(month: int, leap: bool) -> int
    decreases month,
{
    if month <= 1 {
        0
    } else {
        days_before_month(month - 1, leap) + common_month_days(month - 1) + if month - 1 == 2
            && leap {
            1int
        } else {
            0int
        }
    }
}

/// Seconds since the Unix epoch of the given fields, read as a UTC time.
pub open spec fn unix_seconds(f: (i32, u32, u32, u32, u32, u32)) -> int {
    let days = days_before_year(f.0 as int) + days_before_month(
        f.1 as int,
        spec_is_leap_year(f.0 as int),
    ) + (f.2 - 1);
    days * 86400 + f.3 * 3600 + f.4 * 60 + f.5
}

/// The fields name a calendar month (1 to 12) and a day of at least 1.
pub open spec fn fields_in_range(f: (i32, u32, u32, u32, u32, u32)) -> bool {
    1 <= f.1 <= 12 && f.2 >= 1
}

/// The parsed date: `None` when its fields do not parse, or its month is not
/// 1 to 12, or its day is 0.
pub open spec fn spec_parse_rfc3339_date(s: Seq<char>) -> Option<Timestamp> {
    match spec_date_fields(s) {
        Some(f) => if fields_in_range(f) {
            Some(unix_seconds(f) as u64)
        } else {
            None
        },
        None => None,
    }
}

proof fn lemma_days_before_year_bounds(year: int)
    ensures
        0 <= days_before_year(year),
        year > 1970 ==> days_before_year(year) <= 366 * (year - 1970),
    decreases year - 1970,
{
    if year > 1970 {
        lemma_days_before_year_bounds(year - 1);
    }
}

proof fn lemma_days_before_month_bounds(month: int, leap: bool)
    ensures
        0 <= days_before_month(month, leap),
        month >= 1 ==> days_before_month(month, leap) <= 31 * (month - 1) + 1,
    decreases month,
{
    if month > 1 {
        lemma_days_before_month_bounds(month - 1, leap);
    }
}

/// Seconds since the Unix epoch of date fields read as UTC.
pub fn unix_timestamp_from_fields(f: &DateFields) -> (r: Timestamp)
    requires
        fields_in_range(f.fields_view()),
    ensures
        r as int == unix_seconds(f.fields_view()),
{
    let year = f.year;
    let leap = is_leap_year(year);
    let mut days: i64 = 0;
    let mut y: i32 = 1970;
    proof {
        lemma_days_before_year_bounds(year as int);
    }
    while y < year
        invariant
            1970 <= y,
            y == 1970 || y <= year,
            days == days_before_year(y as int),
            0 <= days <= 366 * (y - 1970),
        decreases year - y,
    {
        proof {
            lemma_days_before_year_bounds(y + 1);
        }
        if is_leap_year(y) {
            days = days + 366;
        } else {
            days = days + 365;
        }
        y = y + 1;
    }
    assert(days == days_before_year(year as int)) by {
        if year < 1970 {
            assert(y == 1970);
        }
    }
    let mut m: u32 = 1;
    let ghost before_months = days;
    while m < f.month
        invariant
            1 <= m <= 13,
            m == 1 || m <= f.month,
            f.month <= 13,
            leap == spec_is_leap_year(year as int),
            days == before_months + days_before_month(m as int, leap),
            0 <= before_months <= 366 * 2147483647,
        decreases f.month - m,
    {
        proof {
            lemma_days_before_month_bounds(m as int, leap);
        }
        let dim: i64 = if m == 2 {
            28
        } else if m == 4 || m == 6 || m == 9 || m == 11 {
            30
        } else {
            31
        };
        days = days + dim;
        if m == 2 && leap {
            days = days + 1;
        }
        m = m + 1;
    }
    assert(days == before_months + days_before_month(f.month as int, leap)) by {
        if f.month < 1 {
            assert(m == 1);
            assert(days_before_month(f.month as int, leap) == 0);
        }
    }
    proof {
        lemma_days_before_month_bounds(f.month as int, leap);
    }
    days = days + (f.day - 1) as i64;
    let ts = days * 86400 + (f.hour as i64) * 3600 + (f.minute as i64) * 60 + f.second as i64;
    ts as u64
}

/// Parse an RFC 3339 / ISO 8601 date string to a timestamp, assuming UTC.
/// Example formats: `"2024-01-15T10:30:00Z"`, `"2024-01-15T10:30:00+00:00"`.
/// A month outside 1 to 12 or a day of 0 is no date: `None`.
pub fn parse_rfc3339_date(date_str: &str) -> (r: Option<Timestamp>)
    ensures
        r == spec_parse_rfc3339_date(date_str@),
{
    match date_fields(date_str) {
        Some(f) => if 1 <= f.month && f.month <= 12 && f.day >= 1 {
            Some(unix_timestamp_from_fields(&f))
        } else {
            None
        },
        None => None,
    }
}

// ---------------------------------------------------------------------------
// ids from hashes
// ---------------------------------------------------------------------------

/// The BLAKE3 hash of `data` (32 bytes).
pub uninterp spec fn spec_blake3(data: Seq<u8>) -> Seq<u8>;

/// `blake3::hash`: the 32-byte BLAKE3 hash of `data`. The hash function is
/// not restated: the result is named as a function of the input.
#[verifier::external_body]
fn blake3_hash(data: &[u8]) -> (r: Vec<u8>)
    ensures
        r@ == spec_blake3(data@),
        r@.len() == 32,
{
    blake3::hash(data).as_bytes().to_vec()
}

/// The lowercase hexadecimal digit for `d < 16`.
pub open spec fn hex_digit(d: int) -> char {
    if d < 10 {
        ((48 + d) as u32) as char
    } else {
        ((87 + d) as u32) as char
    }
}

/// Lowercase hexadecimal text of the bytes, two digits per byte, high nibble
/// first.
pub open spec fn spec_hex_lower(data: Seq<u8>) -> Seq<char>
    decreases data.len(),
{
    if data.len() == 0 {
        seq![]
    } else {
        spec_hex_lower(data.drop_last()) + seq![
            hex_digit(data.last() as int / 16),
            hex_digit(data.last() as int % 16),
        ]
    }
}

/// Hexadecimal text has two digits per byte.
pub proof fn lemma_hex_lower_len(data: Seq<u8>)
    ensures
        spec_hex_lower(data).len() == 2 * data.len(),
    decreases data.len(),
{
    if data.len() > 0 {
        lemma_hex_lower_len(data.drop_last());
    }
}

/// `data_encoding::HEXLOWER.encode`: lowercase hexadecimal, with the
/// symbols `0123456789abcdef`, two per byte, high nibble first.
#[verifier::external_body]
fn hex_lower(data: &[u8]) -> (r: String)
    ensures
        r@ == spec_hex_lower(data@),
{
    data_encoding::HEXLOWER.encode(data)
}

fn prefix_bytes(v: &Vec<u8>, n: usize) -> (r: Vec<u8>)
    requires
        n <= v.len(),
    ensures
        r@ == v@.take(n as int),
{
    let mut r: Vec<u8> = Vec::new();
    let mut i: usize = 0;
    while i < n
        invariant
            i <= n <= v.len(),
            r@ == v@.take(i as int),
        decreases n - i,
    {
        r.push(v[i]);
        assert(r@ =~= v@.take(i + 1));
        i = i + 1;
    }
    r
}

/// A short identifier of an Atom feed: hex of the first 8 bytes of the
/// BLAKE3 hash of its URL.
pub open spec fn spec_feed_hash(feed_url: Seq<char>) -> Seq<char> {
    spec_hex_lower(spec_blake3(encode_utf8(feed_url)).take(8))
}

/// Computes the short identifier of an Atom feed.
pub fn feed_hash(feed_url: &str) -> (r: String)
    ensures
        r@ == spec_feed_hash(feed_url@),
        r@.len() == 16,
{
    let h = blake3_hash(feed_url.as_bytes());
    let p = prefix_bytes(&h, 8);
    proof {
        lemma_hex_lower_len(p@);
    }
    hex_lower(p.as_slice())
}

/// A unique article id for an Atom entry: hex of the first 16 bytes of the
/// BLAKE3 hash of `"{feed_url}:{entry_id}"`.
pub open spec fn spec_atom_article_id(feed_url: Seq<char>, entry_id: Seq<char>) -> Seq<char> {
    spec_hex_lower(spec_blake3(encode_utf8(feed_url + seq![':'] + entry_id)).take(16))
}

/// Create a unique article ID from feed URL and entry ID.
pub fn create_article_id(feed_url: &str, entry_id: &str) -> (r: String)
    ensures
        r@ == spec_atom_article_id(feed_url@, entry_id@),
        r@.len() == 32,
{
    let mut combined = String::new();
    push_str(&mut combined, feed_url);
    push_char(&mut combined, ':');
    push_str(&mut combined, entry_id);
    assert(combined@ =~= feed_url@ + seq![':'] + entry_id@);
    let h = blake3_hash(combined.as_str().as_bytes());
    let p = prefix_bytes(&h, 16);
    proof {
        lemma_hex_lower_len(p@);
    }
    hex_lower(p.as_slice())
}

/// The source name of the articles of an Atom feed: `"atom:{feed_hash}"`.
pub fn atom_source(feed_hash: &str) -> (r: String)
    ensures
        r@ == "atom:"@ + feed_hash@,
{
    let mut s = String::new();
    push_str(&mut s, "atom:");
    push_str(&mut s, feed_hash);
    s
}

} // verus!
