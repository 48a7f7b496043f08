//! Normalization and similarity of articles, for deduplication.
//!
//! Two articles are duplicates when their ids match, when their URLs
//! normalize to the same string, or when their normalized titles share
//! enough words and they are dated close together.
use vstd::prelude::*;
use vstd::relations::*;
use crate::bot::tables::{opt_view, Article, ArticleView, Timestamp};
use crate::text::{
    chars_of, is_prefix, is_whitespace, join_sep, join_spaces, join_with, join_with_spaces,
    lemma_join_chars, lemma_lex_le_total_ordering, lemma_word_chars, lemma_words_of_join, lemma_words_props, lex_le, push_char, push_str, spec_is_whitespace,
    split_whitespace, starts_with, str_eq, str_le, string_from_chars, string_from_range, views,
    words,
};

verus! {

/// Skip title comparison for titles with fewer words than this.
pub const MIN_TITLE_TOKENS: usize = 3;

/// Two articles are only title-duplicates if their timestamps are less than
/// this many seconds apart (30 days).
pub const DEDUP_TIME_WINDOW_SECS: u64 = 2592000;

/// Titles are similar when their Jaccard similarity reaches
/// `TITLE_SIMILARITY_NUMERATOR / TITLE_SIMILARITY_DENOMINATOR` (0.8).
pub const TITLE_SIMILARITY_NUMERATOR: u64 = 4;

/// See [`TITLE_SIMILARITY_NUMERATOR`].
pub const TITLE_SIMILARITY_DENOMINATOR: u64 = 5;

// ---------------------------------------------------------------------------
// std text functions
// ---------------------------------------------------------------------------

/// Unicode lowercase mapping of a whole string, as `str::to_lowercase`
/// performs it (including the final-sigma rule).
pub uninterp spec fn spec_to_lowercase(s: Seq<char>) -> Seq<char>;

/// Unicode `Alphabetic` or `Numeric`, as `char::is_alphanumeric` decides it.
pub uninterp spec fn spec_is_alphanumeric(c: char) -> bool;

/// `str::to_lowercase`: the Unicode lowercase form of `s`. Only named: the
/// Unicode tables are not restated.
#[verifier::external_body]
fn to_lowercase(s: &str) -> (r: String)
    ensures
        r@ == spec_to_lowercase(s@),
{
    s.to_lowercase()
}

/// `char::is_alphanumeric`: whether `c` is Unicode alphabetic or numeric.
/// Only named: the Unicode tables are not restated.
#[verifier::external_body]
fn is_alphanumeric(c: char) -> (r: bool)
    ensures
        r == spec_is_alphanumeric(c),
{
    c.is_alphanumeric()
}

// ---------------------------------------------------------------------------
// titles
// ---------------------------------------------------------------------------

/// Every character that is neither alphanumeric nor whitespace becomes a
/// space.
pub open spec fn blank_punctuation(s: Seq<char>) -> Seq<char> {
    s.map_values(
        |c: char|
            if spec_is_alphanumeric(c) || spec_is_whitespace(c) {
                c
            } else {
                ' '
            },
    )
}

/// The normalized form of a title: lowercased, with punctuation turned
/// into spaces, and its words joined by single spaces.
pub open spec fn spec_normalize_title(title: Seq<char>) -> Seq<char> {
    join_spaces(words(blank_punctuation(spec_to_lowercase(title))))
}

/// A normalized title is in normal form: splitting it into words and
/// joining them with single spaces gives it back (no leading, trailing or
/// doubled spaces), its words are those of the title after lowercasing and
/// blanking punctuation, and each of its characters is alphanumeric or a
/// space.
pub proof fn lemma_normalized_title_form(title: Seq<char>)
    ensures
        words(spec_normalize_title(title)) == words(blank_punctuation(spec_to_lowercase(title))),
        join_spaces(words(spec_normalize_title(title))) == spec_normalize_title(title),
        forall|k: int|
            0 <= k < spec_normalize_title(title).len() ==> #[trigger] spec_normalize_title(title)[k] == ' '
                || spec_is_alphanumeric(spec_normalize_title(title)[k]),
{
    let bp = blank_punctuation(spec_to_lowercase(title));
    let ws = words(bp);
    lemma_words_props(bp);
    lemma_words_of_join(ws);
    let q = |c: char| spec_is_alphanumeric(c);
    assert forall|k: int| 0 <= k < bp.len() && !spec_is_whitespace(#[trigger] bp[k]) implies q(bp[k]) by {
        assert(spec_is_whitespace(' '));
    }
    lemma_word_chars(bp, q);
    lemma_join_chars(ws, q);
}

/// Normalize a title for fuzzy comparison.
///
/// Lowercases, replaces characters that are neither alphanumeric nor
/// whitespace with a space, and collapses whitespace.
pub fn normalize_title(title: &str) -> (r: String)
    ensures
        r@ == spec_normalize_title(title@),
{
    let lowered = to_lowercase(title);
    let cs = chars_of(lowered.as_str());
    let mut replaced: Vec<char> = Vec::new();
    let mut i: usize = 0;
    while i < cs.len()
        invariant
            i <= cs.len(),
            cs@ == lowered@,
            replaced@ == blank_punctuation(cs@).take(i as int),
        decreases cs.len() - i,
    {
        let c = cs[i];
        let keep = is_alphanumeric(c) || is_whitespace(c);
        if keep {
            replaced.push(c);
        } else {
            replaced.push(' ');
        }
        assert(replaced@ =~= blank_punctuation(cs@).take(i + 1));
        i = i + 1;
    }
    assert(blank_punctuation(cs@).take(cs.len() as int) =~= blank_punctuation(cs@));
    let replaced_str = string_from_chars(&replaced);
    let ws = split_whitespace(replaced_str.as_str());
    join_with_spaces(&ws)
}

/// The distinct words of `s`: a word occurs in the result exactly when it
/// occurs among the words of `s`, and no word occurs twice.
pub open spec fn is_token_set(out: Seq<Seq<char>>, s: Seq<char>) -> bool {
    &&& out.no_duplicates()
    &&& forall|w: Seq<char>| out.contains(w) <==> words(s).contains(w)
}

/// Whether `v` holds a string with the characters of `x`.
pub fn contains_str(v: &Vec<String>, x: &str) -> (r: bool)
    ensures
        r == views(v@).contains(x@),
{
    let mut i: usize = 0;
    while i < v.len()
        invariant
            i <= v.len(),
            forall|j: int| 0 <= j < i ==> views(v@)[j] != x@,
        decreases v.len() - i,
    {
        if str_eq(v[i].as_str(), x) {
            assert(views(v@)[i as int] == x@);
            return true;
        }
        i = i + 1;
    }
    false
}

/// The distinct words of a sequence, in order of first occurrence.
pub open spec fn dedup_seq(ws: Seq<Seq<char>>) -> Seq<Seq<char>>
    decreases ws.len(),
{
    if ws.len() == 0 {
        seq![]
    } else {
        let d = dedup_seq(ws.drop_last());
        if d.contains(ws.last()) {
            d
        } else {
            d.push(ws.last())
        }
    }
}

/// The tokens of a normalized title: its distinct words in order of first
/// occurrence.
pub open spec fn spec_title_tokens(normalized: Seq<char>) -> Seq<Seq<char>> {
    dedup_seq(words(normalized))
}

/// `dedup_seq` keeps each word once and loses none.
pub proof fn lemma_dedup_seq(ws: Seq<Seq<char>>)
    ensures
        dedup_seq(ws).no_duplicates(),
        forall|w: Seq<char>| dedup_seq(ws).contains(w) <==> ws.contains(w),
    decreases ws.len(),
{
    if ws.len() > 0 {
        let prev = ws.drop_last();
        lemma_dedup_seq(prev);
        let d = dedup_seq(prev);
        assert(ws =~= prev.push(ws.last()));
        assert forall|w: Seq<char>| dedup_seq(ws).contains(w) <==> ws.contains(w) by {
            if ws.contains(w) {
                let k = choose|k: int| 0 <= k < ws.len() && #[trigger] ws[k] == w;
                if k < prev.len() {
                    assert(prev[k] == w);
                    assert(prev.contains(w));
                    assert(d.contains(w));
                    let k2 = choose|k2: int| 0 <= k2 < d.len() && #[trigger] d[k2] == w;
                    if !d.contains(ws.last()) {
                        assert(d.push(ws.last())[k2] == w);
                    }
                } else {
                    assert(w == ws.last());
                    if !d.contains(ws.last()) {
                        assert(d.push(ws.last())[d.len() as int] == w);
                    }
                }
            }
            if dedup_seq(ws).contains(w) {
                if w == ws.last() {
                    assert(ws[ws.len() - 1] == w);
                } else {
                    let e = dedup_seq(ws);
                    let k = choose|k: int| 0 <= k < e.len() && #[trigger] e[k] == w;
                    assert(k < d.len());
                    assert(d[k] == w);
                    assert(d.contains(w));
                    assert(prev.contains(w));
                    let k2 = choose|k2: int| 0 <= k2 < prev.len() && #[trigger] prev[k2] == w;
                    assert(ws[k2] == w);
                }
            }
        }
    }
}

/// The tokens of a normalized title form its set of distinct words.
pub proof fn lemma_title_tokens_set(normalized: Seq<char>)
    ensures
        is_token_set(spec_title_tokens(normalized), normalized),
{
    lemma_dedup_seq(words(normalized));
}

/// Split a normalized title into its set of distinct words, in order of
/// first occurrence.
pub fn title_tokens(normalized: &str) -> (out: Vec<String>)
    ensures
        views(out@) == spec_title_tokens(normalized@),
        is_token_set(views(out@), normalized@),
{
    let ws = split_whitespace(normalized);
    let mut out: Vec<String> = Vec::new();
    let mut i: usize = 0;
    while i < ws.len()
        invariant
            i <= ws.len(),
            views(ws@) == words(normalized@),
            views(out@) == dedup_seq(views(ws@).take(i as int)),
        decreases ws.len() - i,
    {
        let ghost before = views(out@);
        let ghost word = ws@[i as int]@;
        assert(views(ws@).take(i + 1).drop_last() =~= views(ws@).take(i as int));
        let present = contains_str(&out, ws[i].as_str());
        if !present {
            out.push(ws[i].clone());
            assert(views(out@) =~= before.push(word));
        }
        i = i + 1;
    }
    assert(views(ws@).take(ws.len() as int) =~= views(ws@));
    proof {
        lemma_title_tokens_set(normalized@);
    }
    out
}

/// How many words of `a` also occur in `b`.
pub open spec fn shared_count(a: Seq<Seq<char>>, b: Seq<Seq<char>>) -> nat
    decreases a.len(),
{
    if a.len() == 0 {
        0
    } else {
        shared_count(a.drop_last(), b) + if b.contains(a.last()) {
            1nat
        } else {
            0nat
        }
    }
}

/// The shared count is at most the number of words of the first set.
pub proof fn lemma_shared_count_le(a: Seq<Seq<char>>, b: Seq<Seq<char>>)
    ensures
        shared_count(a, b) <= a.len(),
    decreases a.len(),
{
    if a.len() > 0 {
        lemma_shared_count_le(a.drop_last(), b);
    }
}

/// The sizes of the intersection and of the union of two token sets, whose
/// quotient is their Jaccard similarity.
pub fn jaccard_counts(a: &Vec<String>, b: &Vec<String>) -> (r: (u128, u128))
    ensures
        r.0 == shared_count(views(a@), views(b@)),
        r.1 == a.len() + b.len() - shared_count(views(a@), views(b@)),
        r.0 <= a.len(),
        r.1 <= a.len() + b.len(),
{
    let mut shared: u128 = 0;
    let mut i: usize = 0;
    while i < a.len()
        invariant
            i <= a.len(),
            shared == shared_count(views(a@).take(i as int), views(b@)),
        decreases a.len() - i,
    {
        assert(views(a@).take(i + 1).drop_last() =~= views(a@).take(i as int));
        proof {
            lemma_shared_count_le(views(a@).take(i as int), views(b@));
        }
        if contains_str(b, a[i].as_str()) {
            shared = shared + 1;
        }
        i = i + 1;
    }
    assert(views(a@).take(a.len() as int) =~= views(a@));
    proof {
        lemma_shared_count_le(views(a@), views(b@));
    }
    (shared, (a.len() as u128) + (b.len() as u128) - shared)
}

proof fn lemma_shared_count_set(a: Seq<Seq<char>>, b: Seq<Seq<char>>)
    requires
        a.no_duplicates(),
    ensures
        a.to_set().intersect(b.to_set()).finite(),
        shared_count(a, b) == a.to_set().intersect(b.to_set()).len(),
    decreases a.len(),
{
    if a.len() == 0 {
        assert(a.to_set().intersect(b.to_set()) =~= Set::empty());
    } else {
        let d = a.drop_last();
        let x = a.last();
        assert(a =~= d.push(x));
        assert(d.no_duplicates()) by {
            assert forall|i: int, j: int| 0 <= i < d.len() && 0 <= j < d.len() && i != j implies d[i] != d[j] by {
                assert(d[i] == a[i] && d[j] == a[j]);
            }
        }
        assert(!d.contains(x)) by {
            if d.contains(x) {
                let k = choose|k: int| 0 <= k < d.len() && d[k] == x;
                assert(a[k] == a[a.len() - 1]);
            }
        }
        lemma_shared_count_set(d, b);
        let id = d.to_set().intersect(b.to_set());
        assert(!id.contains(x));
        if b.contains(x) {
            assert(a.to_set().intersect(b.to_set()) =~= id.insert(x));
        } else {
            assert(a.to_set().intersect(b.to_set()) =~= id);
        }
    }
}

proof fn lemma_shared_count_extremes(a: Seq<Seq<char>>, b: Seq<Seq<char>>)
    ensures
        shared_count(a, b) == a.len() <==> forall|i: int| 0 <= i < a.len() ==> b.contains(#[trigger] a[i]),
        shared_count(a, b) == 0 <==> forall|i: int| 0 <= i < a.len() ==> !b.contains(#[trigger] a[i]),
    decreases a.len(),
{
    if a.len() > 0 {
        let d = a.drop_last();
        lemma_shared_count_extremes(d, b);
        lemma_shared_count_le(d, b);
        assert forall|i: int| 0 <= i < d.len() implies d[i] == a[i] by {}
        if forall|i: int| 0 <= i < a.len() ==> b.contains(#[trigger] a[i]) {
            assert forall|i: int| 0 <= i < d.len() implies b.contains(#[trigger] d[i]) by {
                assert(b.contains(a[i]));
            }
            assert(b.contains(a[a.len() - 1]));
        }
        if forall|i: int| 0 <= i < a.len() ==> !b.contains(#[trigger] a[i]) {
            assert forall|i: int| 0 <= i < d.len() implies !b.contains(#[trigger] d[i]) by {
                assert(!b.contains(a[i]));
            }
            assert(!b.contains(a[a.len() - 1]));
        }
    }
}

/// The Jaccard counts of two token sets (sequences without repeats): the
/// shared count and the union size do not depend on the order of the two
/// sets; the shared count is at most either size, so the similarity lies
/// between 0 and 1; it is 1 (shared count equals the union) exactly when
/// the sets are equal, two empty sets included; the shared count is 0
/// exactly when the sets are disjoint, and the union is 0 exactly when both
/// are empty.
pub proof fn lemma_jaccard_counts(a: Seq<Seq<char>>, b: Seq<Seq<char>>)
    requires
        a.no_duplicates(),
        b.no_duplicates(),
    ensures
        shared_count(a, b) == shared_count(b, a),
        shared_count(a, b) <= a.len(),
        shared_count(a, b) <= b.len(),
        (shared_count(a, b) == a.len() + b.len() - shared_count(a, b)) <==> a.to_set() == b.to_set(),
        shared_count(a, b) == 0 <==> a.to_set().disjoint(b.to_set()),
        a.len() + b.len() - shared_count(a, b) == 0 <==> (a.len() == 0 && b.len() == 0),
{
    lemma_shared_count_set(a, b);
    lemma_shared_count_set(b, a);
    assert(a.to_set().intersect(b.to_set()) =~= b.to_set().intersect(a.to_set()));
    lemma_shared_count_le(a, b);
    lemma_shared_count_le(b, a);
    lemma_shared_count_extremes(a, b);
    lemma_shared_count_extremes(b, a);
    if a.to_set() == b.to_set() {
        assert forall|i: int| 0 <= i < a.len() implies b.contains(#[trigger] a[i]) by {
            assert(a.to_set().contains(a[i]));
        }
        assert forall|i: int| 0 <= i < b.len() implies a.contains(#[trigger] b[i]) by {
            assert(b.to_set().contains(b[i]));
        }
    }
    if shared_count(a, b) == a.len() && shared_count(a, b) == b.len() {
        assert forall|x: Seq<char>| a.to_set().contains(x) <==> b.to_set().contains(x) by {
            if a.contains(x) {
                let k = choose|k: int| 0 <= k < a.len() && a[k] == x;
                assert(b.contains(a[k]));
            }
            if b.contains(x) {
                let k = choose|k: int| 0 <= k < b.len() && b[k] == x;
                assert(a.contains(b[k]));
            }
        }
        assert(a.to_set() =~= b.to_set());
    }
    if a.to_set().disjoint(b.to_set()) {
        assert forall|i: int| 0 <= i < a.len() implies !b.contains(#[trigger] a[i]) by {
            assert(a.to_set().contains(a[i]));
        }
    }
    if shared_count(a, b) == 0 {
        assert forall|x: Seq<char>| a.to_set().contains(x) implies !b.to_set().contains(x) by {
            let k = choose|k: int| 0 <= k < a.len() && a[k] == x;
            assert(!b.contains(a[k]));
        }
    }
}

/// Jaccard similarity `shared / union` is at least 0.8; two empty sets are
/// identical.
pub open spec fn similar_counts(shared: nat, union: nat) -> bool {
    TITLE_SIMILARITY_DENOMINATOR * shared >= TITLE_SIMILARITY_NUMERATOR * union
}

/// Whether two token sets are similar enough to be duplicates.
pub fn tokens_similar(a: &Vec<String>, b: &Vec<String>) -> (r: bool)
    ensures
        r == similar_counts(
            shared_count(views(a@), views(b@)),
            (a.len() + b.len() - shared_count(views(a@), views(b@))) as nat,
        ),
{
    let (shared, union) = jaccard_counts(a, b);
    let den: u128 = TITLE_SIMILARITY_DENOMINATOR as u128;
    let num: u128 = TITLE_SIMILARITY_NUMERATOR as u128;
    assert(den * shared <= 5 * 0x2_0000_0000_0000_0000) by (nonlinear_arith)
        requires
            den == 5,
            shared <= 0x2_0000_0000_0000_0000,
    ;
    assert(num * union <= 5 * 0x2_0000_0000_0000_0000) by (nonlinear_arith)
        requires
            num == 4,
            union <= 0x2_0000_0000_0000_0000,
    ;
    den * shared >= num * union
}


// ---------------------------------------------------------------------------
// URLs
// ---------------------------------------------------------------------------

/// The parts of a parsed URL that normalization reads: the host (absent for
/// URLs such as `mailto:`), the path, and the decoded query pairs in order.
pub struct UrlParts {
    pub host: Option<String>,
    pub path: String,
    pub query: Vec<(String, String)>,
}

/// The views of a vector of string pairs.
pub open spec fn pair_views(v: Seq<(String, String)>) -> Seq<(Seq<char>, Seq<char>)> {
    v.map_values(|p: (String, String)| (p.0@, p.1@))
}

impl UrlParts {
    /// The parts as plain values.
    pub open spec fn parts_view(self) -> (
        Option<Seq<char>>,
        Seq<char>,
        Seq<(Seq<char>, Seq<char>)>,
    ) {
        (opt_view(self.host), self.path@, pair_views(self.query@))
    }
}

/// What `url::Url::parse` makes of a string: `None` when it is not an
/// absolute URL, otherwise its host, path and decoded query pairs.
pub uninterp spec fn spec_parse_url(raw: Seq<char>) -> Option<
    (Option<Seq<char>>, Seq<char>, Seq<(Seq<char>, Seq<char>)>),
>;

/// `url::Url::parse`, then `host_str`, `path` and `query_pairs` of the
/// result. The WHATWG parsing rules are not restated: the result is named
/// as a function of the input.
#[verifier::external_body]
fn parse_url(raw: &str) -> (r: Option<UrlParts>)
    ensures
        match r {
            Some(p) => spec_parse_url(raw@) == Some(p.parts_view()),
            None => spec_parse_url(raw@) is None,
        },
{
    let parsed = url::Url::parse(raw).ok()?;
    Some(UrlParts {
        host: parsed.host_str().map(|h| h.to_string()),
        path: parsed.path().to_string(),
        query: parsed.query_pairs().map(|(k, v)| (k.into_owned(), v.into_owned())).collect(),
    })
}

/// The host without a leading `www.`.
pub open spec fn strip_www(h: Seq<char>) -> Seq<char> {
    if is_prefix("www."@, h) {
        h.skip(4)
    } else {
        h
    }
}

/// The path without its trailing slashes.
pub open spec fn trim_trailing_slashes(p: Seq<char>) -> Seq<char>
    decreases p.len(),
{
    if p.len() > 0 && p.last() == '/' {
        trim_trailing_slashes(p.drop_last())
    } else {
        p
    }
}

/// Query parameters that only track where a visitor came from.
pub open spec fn is_tracking_param(k: Seq<char>) -> bool {
    ||| k == "utm_source"@
    ||| k == "utm_medium"@
    ||| k == "utm_campaign"@
    ||| k == "utm_term"@
    ||| k == "utm_content"@
    ||| k == "ref"@
    ||| k == "fbclid"@
    ||| k == "gclid"@
    ||| is_prefix("utm_"@, k)
}

/// The query pairs that normalization keeps.
pub open spec fn keep_param() -> spec_fn((Seq<char>, Seq<char>)) -> bool {
    |p: (Seq<char>, Seq<char>)| !is_tracking_param(p.0)
}

/// std's order on `(String, String)`: by key, then by value.
pub open spec fn pair_le(a: (Seq<char>, Seq<char>), b: (Seq<char>, Seq<char>)) -> bool {
    lex_le(a.0, b.0) && (a.0 == b.0 ==> lex_le(a.1, b.1))
}

/// [`pair_le`] as a relation.
pub open spec fn pair_order() -> spec_fn((Seq<char>, Seq<char>), (Seq<char>, Seq<char>)) -> bool {
    |a: (Seq<char>, Seq<char>), b: (Seq<char>, Seq<char>)| pair_le(a, b)
}

/// A query pair as text: `k` alone when the value is empty, else `k=v`.
pub open spec fn param_text(p: (Seq<char>, Seq<char>)) -> Seq<char> {
    if p.1.len() == 0 {
        p.0
    } else {
        p.0 + seq!['='] + p.1
    }
}

/// The text of each query pair.
pub open spec fn param_texts(ps: Seq<(Seq<char>, Seq<char>)>) -> Seq<Seq<char>> {
    ps.map_values(|p: (Seq<char>, Seq<char>)| param_text(p))
}

/// The kept query pairs, sorted.
pub open spec fn kept_params(q: Seq<(Seq<char>, Seq<char>)>) -> Seq<(Seq<char>, Seq<char>)> {
    q.filter(keep_param()).sort_by(pair_order())
}

/// The normalized form of a parsed URL: `host/path[?sorted_params]`, or
/// `None` when it has no host.
pub open spec fn normalized_from_parts(
    parts: (Option<Seq<char>>, Seq<char>, Seq<(Seq<char>, Seq<char>)>),
) -> Option<Seq<char>> {
    match parts.0 {
        None => None,
        Some(h) => {
            let base = strip_www(h) + trim_trailing_slashes(parts.1);
            let ps = kept_params(parts.2);
            if ps.len() == 0 {
                Some(base)
            } else {
                Some(base + seq!['?'] + join_sep(param_texts(ps), '&'))
            }
        },
    }
}

/// The normalized form of a URL string; `None` if it does not parse or has
/// no host.
pub open spec fn spec_normalize_url(raw: Seq<char>) -> Option<Seq<char>> {
    match spec_parse_url(raw) {
        None => None,
        Some(parts) => normalized_from_parts(parts),
    }
}

/// `pair_le` is a total order.
pub proof fn lemma_pair_order_total()
    ensures
        total_ordering(pair_order()),
{
    lemma_lex_le_total_ordering();
    let lex = |a: Seq<char>, b: Seq<char>| lex_le(a, b);
    let r = pair_order();
    assert forall|a: (Seq<char>, Seq<char>)| #[trigger] r(a, a) by {
        assert(lex(a.0, a.0));
        assert(lex(a.1, a.1));
    }
    assert forall|a: (Seq<char>, Seq<char>), b: (Seq<char>, Seq<char>)|
        #[trigger] r(a, b) && #[trigger] r(b, a) implies a == b by {
        assert(lex(a.0, b.0) && lex(b.0, a.0));
        assert(a.0 == b.0);
        assert(lex(a.1, b.1) && lex(b.1, a.1));
    }
    assert forall|a: (Seq<char>, Seq<char>), b: (Seq<char>, Seq<char>), c: (
        Seq<char>,
        Seq<char>,
    )| #[trigger] r(a, b) && #[trigger] r(b, c) implies r(a, c) by {
        assert(lex(a.0, b.0) && lex(b.0, c.0));
        assert(lex(a.0, c.0));
        if a.0 == c.0 {
            assert(lex(c.0, b.0));
            assert(a.0 == b.0);
            assert(lex(a.1, b.1) && lex(b.1, c.1));
            assert(lex(a.1, c.1));
        }
    }
    assert forall|a: (Seq<char>, Seq<char>), b: (Seq<char>, Seq<char>)|
        #[trigger] r(a, b) || #[trigger] r(b, a) by {
        assert(lex(a.0, b.0) || lex(b.0, a.0));
        assert(lex(a.1, b.1) || lex(b.1, a.1));
        if lex(a.0, b.0) && lex(b.0, a.0) {
            assert(a.0 == b.0);
        }
    }
}

fn pair_le_exec(a: &(String, String), b: &(String, String)) -> (r: bool)
    ensures
        r == pair_le((a.0@, a.1@), (b.0@, b.1@)),
{
    if !str_le(a.0.as_str(), b.0.as_str()) {
        return false;
    }
    if str_eq(a.0.as_str(), b.0.as_str()) {
        str_le(a.1.as_str(), b.1.as_str())
    } else {
        true
    }
}

fn clone_pair(p: &(String, String)) -> (r: (String, String))
    ensures
        r.0@ == p.0@,
        r.1@ == p.1@,
{
    (p.0.clone(), p.1.clone())
}

/// The pairs of `q` sorted in std's order.
pub fn sort_pairs(q: &Vec<(String, String)>) -> (out: Vec<(String, String)>)
    ensures
        pair_views(out@) == pair_views(q@).sort_by(pair_order()),
{
    proof {
        lemma_pair_order_total();
    }
    let ghost le = pair_order();
    let mut out: Vec<(String, String)> = Vec::new();
    let mut i: usize = 0;
    assert(pair_views(out@) =~= pair_views(q@).take(0));
    while i < q.len()
        invariant
            i <= q.len(),
            le == pair_order(),
            total_ordering(le),
            sorted_by(pair_views(out@), le),
            pair_views(out@).to_multiset() == pair_views(q@).take(i as int).to_multiset(),
        decreases q.len() - i,
    {
        let x = clone_pair(&q[i]);
        let ghost xv = (x.0@, x.1@);
        assert(xv == pair_views(q@)[i as int]);
        let ghost s = pair_views(out@);
        let mut j: usize = 0;
        while j < out.len() && pair_le_exec(&out[j], &x)
            invariant
                j <= out.len(),
                s == pair_views(out@),
                xv == (x.0@, x.1@),
                le == pair_order(),
                forall|k: int| 0 <= k < j ==> le(s[k], xv),
            decreases out.len() - j,
        {
            j = j + 1;
        }
        proof {
            if j < out.len() {
                assert(!le(s[j as int], xv));
                assert(le(xv, s[j as int]));
            }
        }
        out.insert(j, x);
        let ghost t = pair_views(out@);
        assert(t =~= s.insert(j as int, xv));
        assert(sorted_by(t, le)) by {
            assert forall|a: int, b: int| 0 <= a < b < t.len() implies #[trigger] le(t[a], t[b]) by {
                if b < j {
                    assert(t[a] == s[a] && t[b] == s[b]);
                } else if b == j {
                    assert(t[a] == s[a]);
                } else if a == j {
                    assert(t[b] == s[b - 1]);
                    assert(le(xv, s[j as int]));
                    if b - 1 > j {
                        assert(le(s[j as int], s[b - 1]));
                    }
                } else if a < j {
                    assert(t[a] == s[a] && t[b] == s[b - 1]);
                    assert(le(s[a], xv));
                    assert(le(xv, s[j as int]));
                    assert(le(s[j as int], s[b - 1]) || j as int == b - 1);
                    assert(le(s[a], s[j as int]));
                } else {
                    assert(t[a] == s[a - 1] && t[b] == s[b - 1]);
                }
            }
        }
        assert(pair_views(q@).take(i + 1) =~= pair_views(q@).take(i as int).push(xv));
        proof {
            vstd::seq_lib::to_multiset_insert(s, j as int, xv);
            vstd::seq_lib::to_multiset_build(pair_views(q@).take(i as int), xv);
        }
        i = i + 1;
    }
    assert(pair_views(q@).take(q.len() as int) =~= pair_views(q@));
    proof {
        pair_views(q@).lemma_sort_by_ensures(le);
        vstd::seq_lib::lemma_sorted_unique(pair_views(out@), pair_views(q@).sort_by(le), le);
    }
    out
}

fn is_tracking_param_exec(k: &str) -> (r: bool)
    ensures
        r == is_tracking_param(k@),
{
    str_eq(k, "utm_source") || str_eq(k, "utm_medium") || str_eq(k, "utm_campaign") || str_eq(
        k,
        "utm_term",
    ) || str_eq(k, "utm_content") || str_eq(k, "ref") || str_eq(k, "fbclid") || str_eq(
        k,
        "gclid",
    ) || starts_with(k, "utm_")
}

/// The query pairs that are not tracking parameters, in order.
fn filter_params(q: &Vec<(String, String)>) -> (out: Vec<(String, String)>)
    ensures
        pair_views(out@) == pair_views(q@).filter(keep_param()),
{
    let mut out: Vec<(String, String)> = Vec::new();
    let mut i: usize = 0;
    while i < q.len()
        invariant
            i <= q.len(),
            pair_views(out@) == pair_views(q@).take(i as int).filter(keep_param()),
        decreases q.len() - i,
    {
        let ghost xv = pair_views(q@)[i as int];
        assert(pair_views(q@).take(i + 1) =~= pair_views(q@).take(i as int).push(xv));
        proof {
            pair_views(q@).take(i as int).lemma_filter_push(xv, keep_param());
        }
        if !is_tracking_param_exec(q[i].0.as_str()) {
            let ghost before = pair_views(out@);
            out.push(clone_pair(&q[i]));
            assert(pair_views(out@) =~= before.push(xv));
        }
        i = i + 1;
    }
    assert(pair_views(q@).take(q.len() as int) =~= pair_views(q@));
    out
}

fn strip_www_exec(host: &str) -> (r: String)
    ensures
        r@ == strip_www(host@),
{
    let hcs = chars_of(host);
    if starts_with(host, "www.") {
        proof {
            reveal_strlit("www.");
        }
        assert(hcs@.subrange(4, hcs@.len() as int) =~= host@.skip(4));
        string_from_range(&hcs, 4, hcs.len())
    } else {
        host.to_owned()
    }
}

fn trim_trailing_slashes_exec(path: &str) -> (r: String)
    ensures
        r@ == trim_trailing_slashes(path@),
{
    let pcs = chars_of(path);
    let mut end = pcs.len();
    assert(pcs@.take(end as int) =~= pcs@);
    while end > 0 && pcs[end - 1] == '/'
        invariant
            end <= pcs.len(),
            pcs@ == path@,
            trim_trailing_slashes(pcs@) == trim_trailing_slashes(pcs@.take(end as int)),
        decreases end,
    {
        assert(pcs@.take(end as int).drop_last() =~= pcs@.take(end - 1));
        end = end - 1;
    }
    assert(pcs@.subrange(0, end as int) =~= pcs@.take(end as int));
    string_from_range(&pcs, 0, end)
}

fn query_text(sorted: &Vec<(String, String)>) -> (r: String)
    ensures
        r@ == join_sep(param_texts(pair_views(sorted@)), '&'),
{
    let mut texts: Vec<String> = Vec::new();
    let mut i: usize = 0;
    while i < sorted.len()
        invariant
            i <= sorted.len(),
            views(texts@) == param_texts(pair_views(sorted@).take(i as int)),
        decreases sorted.len() - i,
    {
        let mut t = sorted[i].0.clone();
        if !sorted[i].1.as_str().is_empty() {
            push_char(&mut t, '=');
            push_str(&mut t, sorted[i].1.as_str());
        }
        let ghost before = views(texts@);
        let ghost pv = pair_views(sorted@)[i as int];
        assert(t@ == param_text(pv));
        texts.push(t);
        assert(pair_views(sorted@).take(i + 1) =~= pair_views(sorted@).take(i as int).push(pv));
        assert(views(texts@) =~= before.push(param_text(pv)));
        assert(param_texts(pair_views(sorted@).take(i + 1)) =~= param_texts(
            pair_views(sorted@).take(i as int),
        ).push(param_text(pv)));
        i = i + 1;
    }
    assert(pair_views(sorted@).take(sorted.len() as int) =~= pair_views(sorted@));
    join_with(&texts, '&')
}

/// Normalizes the parts of a parsed URL for dedup comparison.
///
/// Strips a `www.` prefix from the host and trailing `/` from the path,
/// drops tracking query parameters and sorts the rest. Returns
/// `host/path[?sorted_params]`, or `None` when the URL has no host.
pub fn normalize_url_parts(parts: &UrlParts) -> (r: Option<String>)
    ensures
        opt_view(r) == normalized_from_parts(parts.parts_view()),
{
    let host = match &parts.host {
        Some(h) => h,
        None => return None,
    };
    let mut result = strip_www_exec(host.as_str());
    push_str(&mut result, trim_trailing_slashes_exec(parts.path.as_str()).as_str());
    let kept = filter_params(&parts.query);
    let sorted = sort_pairs(&kept);
    if sorted.len() > 0 {
        push_char(&mut result, '?');
        push_str(&mut result, query_text(&sorted).as_str());
    }
    Some(result)
}

/// Normalize a URL for dedup comparison.
///
/// Strips scheme, `www.` prefix, trailing `/`, tracking query params,
/// sorts remaining params, and strips fragment.
/// Returns `host/path[?sorted_params]`.
pub fn normalize_url(raw: &str) -> (r: Option<String>)
    ensures
        opt_view(r) == spec_normalize_url(raw@),
{
    match parse_url(raw) {
        Some(parts) => normalize_url_parts(&parts),
        None => None,
    }
}

// ---------------------------------------------------------------------------
// timestamps
// ---------------------------------------------------------------------------

/// `a` and `b` lie less than the dedup window apart.
pub open spec fn close_in_time(a: Timestamp, b: Timestamp) -> bool {
    if a >= b {
        a - b < DEDUP_TIME_WINDOW_SECS
    } else {
        b - a < DEDUP_TIME_WINDOW_SECS
    }
}

/// Check whether two timestamps are within `DEDUP_TIME_WINDOW_SECS` of each
/// other.
pub fn articles_are_close_in_time(a: Timestamp, b: Timestamp) -> (r: bool)
    ensures
        r == close_in_time(a, b),
{
    let ab = a.saturating_sub(b);
    let ba = b.saturating_sub(a);
    let diff = if ab >= ba {
        ab
    } else {
        ba
    };
    diff < DEDUP_TIME_WINDOW_SECS
}

/// The time an article is dated by: its publication time when known,
/// otherwise the time it was scraped.
pub open spec fn spec_article_timestamp(article: ArticleView) -> Timestamp {
    match article.published_at {
        Some(t) => t,
        None => article.scraped_at,
    }
}

/// Return the best timestamp for an article: `published_at` if available,
/// otherwise `scraped_at`.
pub fn article_timestamp(article: &Article) -> (r: Timestamp)
    ensures
        r == spec_article_timestamp(article@),
{
    match article.published_at {
        Some(t) => t,
        None => article.scraped_at,
    }
}

} // verus!
