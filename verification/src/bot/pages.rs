//! Turning fetched pages into articles.
//!
//! The HTML and Atom documents are parsed by the `scraper` and
//! `atom_syndication` crates; what the bot reads of them comes back here as
//! plain values, and the articles are assembled from those values by
//! verified code.
use vstd::prelude::*;
use vstd::utf8::encode_utf8;
use crate::bot::scraper::{
    atom_source, create_article_id, extract_url, link_views,
    normalize_entry_title, parse_rfc3339_date, spec_atom_article_id, spec_best_link,
    spec_blake3, spec_feed_hash, spec_hex_lower, spec_parse_rfc3339_date, FeedLink,
    concat_all, extract_text, hn_item_url, hn_score, lobsters_score, lobsters_story_url,
    replace_nbsp, resolve_hn_link, spec_hn_score, spec_lobsters_score, spec_resolve_hn_link,
    HN_BASE_URL, LOBSTERS_BASE_URL,
};
use crate::bot::tables::{clone_opt, opt_view, Article, ArticleView, HnArticle, HnArticleView, Timestamp};
use crate::num::{decimal, parse_u32, spec_parse_u32};
use crate::text::{push_str, views};

verus! {

/// Why a page could not be turned into articles.
pub enum ScraperError {
    /// A CSS selector did not parse.
    HtmlParse,
    /// A HackerNews story row has an id that is not a number.
    HnIdParse { id_str: String },
    /// An id could not be read.
    IdParse { id_str: String },
    /// A score could not be read.
    ScoreParse { score_str: String },
    /// The Atom feed did not parse.
    AtomParse { details: String },
}

/// What the bot reads of one HTML element: its text nodes (entities
/// decoded), its inner HTML, and the value of one requested attribute.
pub struct ElementData {
    pub text: Vec<String>,
    pub inner_html: String,
    pub attr: Option<String>,
}

/// An element as plain values.
pub struct ElementView {
    pub text: Seq<Seq<char>>,
    pub inner_html: Seq<char>,
    pub attr: Option<Seq<char>>,
}

impl View for ElementData {
    type V = ElementView;

    open spec fn view(&self) -> ElementView {
        ElementView { text: views(self.text@), inner_html: self.inner_html@, attr: opt_view(self.attr) }
    }
}

/// The views of a list of elements.
pub open spec fn element_views(v: Seq<ElementData>) -> Seq<ElementView> {
    v.map_values(|e: ElementData| e@)
}

/// The views of a list of optional elements.
pub open spec fn opt_element_views(v: Seq<Option<ElementData>>) -> Seq<Option<ElementView>> {
    v.map_values(
        |o: Option<ElementData>|
            match o {
                Some(e) => Some(e@),
                None => None,
            },
    )
}

/// The elements of the HTML document `html` that match the CSS selector
/// `selector`, in document order, each with the value of its attribute
/// `attr`; `None` when the selector does not parse.
pub uninterp spec fn spec_select_all(html: Seq<char>, selector: Seq<char>, attr: Seq<char>) -> Option<Seq<ElementView>>;

/// For each element of the HTML document `html` that matches `outer`, in
/// document order, its first descendant that matches `inner` (with the value
/// of its attribute `attr`), if any; `None` when a selector does not parse.
pub uninterp spec fn spec_select_first_in_each(
    html: Seq<char>,
    outer: Seq<char>,
    inner: Seq<char>,
    attr: Seq<char>,
) -> Option<Seq<Option<ElementView>>>;

/// The CSS selectors the scrapers use; each is valid CSS, so
/// `scraper::Selector::parse` accepts it.
pub open spec fn known_selector(s: Seq<char>) -> bool {
    ||| s == "tr.athing"@
    ||| s == "span.titleline > a"@
    ||| s == "span.score"@
    ||| s == "a.hnuser"@
    ||| s == "li.story"@
    ||| s == "a.u-url"@
    ||| s == "div.voters > a.upvoter"@
    ||| s == "a.u-author"@
}

/// `scraper::Html::parse_document` and `Html::select`: the matching
/// elements as plain values. The HTML parser is not restated; the result is
/// named as a function of the arguments.
#[verifier::external_body]
fn select_all(html: &str, selector: &str, attr: &str) -> (r: Option<Vec<ElementData>>)
    ensures
        match r {
            Some(v) => spec_select_all(html@, selector@, attr@) == Some(element_views(v@)),
            None => spec_select_all(html@, selector@, attr@) is None,
        },
        known_selector(selector@) ==> r is Some,
{
    let sel = scraper::Selector::parse(selector).ok()?;
    let doc = scraper::Html::parse_document(html);
    Some(doc.select(&sel).map(|e| ElementData {
        text: e.text().map(String::from).collect(),
        inner_html: e.inner_html(),
        attr: e.value().attr(attr).map(String::from),
    }).collect())
}

/// `scraper::Html::select` and `ElementRef::select`: for each outer
/// element, its first matching descendant as plain values. The HTML parser
/// is not restated; the result is named as a function of the arguments.
#[verifier::external_body]
fn select_first_in_each(html: &str, outer: &str, inner: &str, attr: &str) -> (r: Option<Vec<Option<ElementData>>>)
    ensures
        match r {
            Some(v) => spec_select_first_in_each(html@, outer@, inner@, attr@) == Some(opt_element_views(v@)),
            None => spec_select_first_in_each(html@, outer@, inner@, attr@) is None,
        },
        known_selector(outer@) && known_selector(inner@) ==> r is Some,
{
    let outer_sel = scraper::Selector::parse(outer).ok()?;
    let inner_sel = scraper::Selector::parse(inner).ok()?;
    let doc = scraper::Html::parse_document(html);
    Some(doc.select(&outer_sel).map(|row| row.select(&inner_sel).next().map(|e| ElementData {
        text: e.text().map(String::from).collect(),
        inner_html: e.inner_html(),
        attr: e.value().attr(attr).map(String::from),
    })).collect())
}

/// The `i`-th entry of a list of optional elements, `None` past its end.
pub open spec fn nth_opt(v: Seq<Option<ElementView>>, i: int) -> Option<ElementView> {
    if 0 <= i < v.len() {
        v[i]
    } else {
        None
    }
}

/// The value of a present attribute, else the empty string.
pub open spec fn attr_or_empty(e: ElementView) -> Seq<char> {
    match e.attr {
        Some(s) => s,
        None => seq![],
    }
}

// ---------------------------------------------------------------------------
// HackerNews
// ---------------------------------------------------------------------------

/// The views of a list of HackerNews records.
pub open spec fn hn_views(v: Seq<HnArticle>) -> Seq<HnArticleView> {
    v.map_values(|a: HnArticle| a@)
}

/// The story of the `i`-th row of the front page: an error carrying the
/// row id when it is not a number, nothing when the row has no title link,
/// else the record. Scores and authors are matched to rows by position.
pub open spec fn hn_story(
    rows: Seq<ElementView>,
    links: Seq<Option<ElementView>>,
    scores: Seq<ElementView>,
    authors: Seq<ElementView>,
    at: Timestamp,
    i: int,
) -> Result<Option<HnArticleView>, Seq<char>> {
    let id_str = attr_or_empty(rows[i]);
    match spec_parse_u32(id_str) {
        None => Err(id_str),
        Some(hn_id) => match nth_opt(links, i) {
            None => Ok(None),
            Some(l) => Ok(
                Some(
                    HnArticleView {
                        hn_id,
                        title: replace_nbsp(concat_all(l.text)),
                        url: match l.attr {
                            Some(h) => Some(spec_resolve_hn_link(h)),
                            None => None,
                        },
                        hn_url: HN_BASE_URL@ + "item?id="@ + decimal(hn_id as nat),
                        score: if i < scores.len() {
                            spec_hn_score(scores[i].inner_html)
                        } else {
                            0
                        },
                        author: if i < authors.len() {
                            authors[i].inner_html
                        } else {
                            "unknown"@
                        },
                        scraped_at: at,
                    },
                ),
            ),
        },
    }
}

/// The stories of the first `n` rows, or the first row id that is not a
/// number.
pub open spec fn hn_stories(
    rows: Seq<ElementView>,
    links: Seq<Option<ElementView>>,
    scores: Seq<ElementView>,
    authors: Seq<ElementView>,
    at: Timestamp,
    n: nat,
) -> Result<Seq<HnArticleView>, Seq<char>>
    decreases n,
{
    if n == 0 {
        Ok(seq![])
    } else {
        match hn_stories(rows, links, scores, authors, at, (n - 1) as nat) {
            Err(e) => Err(e),
            Ok(acc) => match hn_story(rows, links, scores, authors, at, n - 1) {
                Err(e) => Err(e),
                Ok(None) => Ok(acc),
                Ok(Some(a)) => Ok(acc.push(a)),
            },
        }
    }
}

/// Once a row id fails to parse, every longer prefix fails with it.
proof fn lemma_hn_stories_err(
    rows: Seq<ElementView>,
    links: Seq<Option<ElementView>>,
    scores: Seq<ElementView>,
    authors: Seq<ElementView>,
    at: Timestamp,
    n: nat,
    m: nat,
)
    requires
        n <= m,
        hn_stories(rows, links, scores, authors, at, n) is Err,
    ensures
        hn_stories(rows, links, scores, authors, at, m) == hn_stories(rows, links, scores, authors, at, n),
    decreases m - n,
{
    if n < m {
        lemma_hn_stories_err(rows, links, scores, authors, at, n, (m - 1) as nat);
    }
}

/// The positions, in order, of those of the first `n` rows that have a
/// title link.
pub open spec fn titled_rows(links: Seq<Option<ElementView>>, n: nat) -> Seq<int>
    decreases n,
{
    if n == 0 {
        seq![]
    } else {
        let prev = titled_rows(links, (n - 1) as nat);
        if nth_opt(links, n - 1) is Some {
            prev.push(n - 1)
        } else {
            prev
        }
    }
}

proof fn lemma_titled_rows(links: Seq<Option<ElementView>>, n: nat)
    ensures
        forall|k: int| 0 <= k < titled_rows(links, n).len() ==> 0 <= #[trigger] titled_rows(links, n)[k] < n,
        forall|a: int, b: int|
            0 <= a < b < titled_rows(links, n).len() ==> titled_rows(links, n)[a] < titled_rows(links, n)[b],
    decreases n,
{
    if n > 0 {
        let m = (n - 1) as nat;
        lemma_titled_rows(links, m);
        let prev = titled_rows(links, m);
        if nth_opt(links, n - 1) is Some {
            let t = prev.push(n - 1);
            assert(titled_rows(links, n) == t);
            assert forall|k: int| 0 <= k < t.len() implies 0 <= #[trigger] t[k] < n by {
                if k < prev.len() {
                    assert(t[k] == prev[k]);
                }
            }
            assert forall|a: int, b: int| 0 <= a < b < t.len() implies t[a] < t[b] by {
                assert(t[a] == prev[a]);
                if b < prev.len() {
                    assert(t[b] == prev[b]);
                }
            }
        } else {
            assert(titled_rows(links, n) == prev);
        }
    }
}

/// The HackerNews front page law: the stories of the first `n` rows fail
/// exactly when some row id is not a number, and then with the id of the
/// first such row; otherwise there is one story per row with a title link,
/// in row order (`titled_rows` lists those rows in increasing order), and
/// the `k`-th story is the one `hn_story` builds from the `k`-th such row:
/// its id is the row id, its item URL the HackerNews item link of that id,
/// its title the link text with no-break spaces turned into spaces.
pub proof fn lemma_hn_stories_law(
    rows: Seq<ElementView>,
    links: Seq<Option<ElementView>>,
    scores: Seq<ElementView>,
    authors: Seq<ElementView>,
    at: Timestamp,
    n: nat,
)
    requires
        n <= rows.len(),
    ensures
        hn_stories(rows, links, scores, authors, at, n) is Err <==> exists|i: int|
            0 <= i < n && spec_parse_u32(attr_or_empty(#[trigger] rows[i])) is None,
        hn_stories(rows, links, scores, authors, at, n) matches Err(id) ==> exists|i: int|
            0 <= i < n && id == attr_or_empty(#[trigger] rows[i]) && spec_parse_u32(id) is None && forall|j: int|
                0 <= j < i ==> spec_parse_u32(attr_or_empty(#[trigger] rows[j])) is Some,
        forall|a: int, b: int|
            0 <= a < b < titled_rows(links, n).len() ==> titled_rows(links, n)[a] < titled_rows(links, n)[b],
        hn_stories(rows, links, scores, authors, at, n) matches Ok(v) ==> v.len() == titled_rows(links, n).len(),
        hn_stories(rows, links, scores, authors, at, n) matches Ok(v) ==> forall|k: int|
            0 <= k < v.len() ==> hn_story(rows, links, scores, authors, at, titled_rows(links, n)[k]) == Ok::<
                Option<HnArticleView>,
                Seq<char>,
            >(Some(#[trigger] v[k])),
    decreases n,
{
    lemma_titled_rows(links, n);
    if n > 0 {
        let m = (n - 1) as nat;
        lemma_hn_stories_law(rows, links, scores, authors, at, m);
        let i = n - 1;
        let t = titled_rows(links, m);
        match hn_stories(rows, links, scores, authors, at, m) {
            Err(id) => {
                let w = choose|w: int|
                    0 <= w < m && id == attr_or_empty(#[trigger] rows[w]) && spec_parse_u32(id) is None && forall|j: int|
                        0 <= j < w ==> spec_parse_u32(attr_or_empty(#[trigger] rows[j])) is Some;
                assert(0 <= w < n && spec_parse_u32(attr_or_empty(rows[w])) is None);
            },
            Ok(acc) => {
                assert(forall|j: int| 0 <= j < m ==> spec_parse_u32(attr_or_empty(#[trigger] rows[j])) is Some);
                match hn_story(rows, links, scores, authors, at, i) {
                    Err(e) => {
                        assert(spec_parse_u32(attr_or_empty(rows[i])) is None);
                    },
                    Ok(None) => {
                        assert(spec_parse_u32(attr_or_empty(rows[i])) is Some);
                        assert(nth_opt(links, i) is None);
                        assert(titled_rows(links, n) == t);
                        assert forall|j: int| 0 <= j < n implies spec_parse_u32(attr_or_empty(#[trigger] rows[j])) is Some by {
                            if j < m {
                            }
                        }
                    },
                    Ok(Some(a)) => {
                        assert(spec_parse_u32(attr_or_empty(rows[i])) is Some);
                        assert(nth_opt(links, i) is Some);
                        assert(titled_rows(links, n) == t.push(i));
                        assert forall|j: int| 0 <= j < n implies spec_parse_u32(attr_or_empty(#[trigger] rows[j])) is Some by {
                            if j < m {
                            }
                        }
                        let v = acc.push(a);
                        assert forall|k: int| 0 <= k < v.len() implies hn_story(
                            rows,
                            links,
                            scores,
                            authors,
                            at,
                            titled_rows(links, n)[k],
                        ) == Ok::<Option<HnArticleView>, Seq<char>>(Some(#[trigger] v[k])) by {
                            if k < acc.len() {
                                assert(v[k] == acc[k]);
                                assert(titled_rows(links, n)[k] == t[k]);
                            } else {
                                assert(v[k] == a);
                            }
                        }
                    },
                }
            },
        }
    }
}

/// Copies an element's inner HTML, or the given default past the end.
fn inner_html_at(v: &Vec<ElementData>, i: usize, default: &str) -> (r: String)
    ensures
        r@ == if i < v.len() {
            v@[i as int].inner_html@
        } else {
            default@
        },
{
    if i < v.len() {
        v[i].inner_html.clone()
    } else {
        default.to_owned()
    }
}

/// Assembles the HackerNews stories from the story rows, the first title
/// link of each row, and the score labels and author links of the page.
pub fn hn_articles_from_page(
    rows: &Vec<ElementData>,
    links: &Vec<Option<ElementData>>,
    scores: &Vec<ElementData>,
    authors: &Vec<ElementData>,
    scraped_at: Timestamp,
) -> (r: Result<Vec<HnArticle>, ScraperError>)
    ensures
        match r {
            Ok(v) => hn_stories(
                element_views(rows@),
                opt_element_views(links@),
                element_views(scores@),
                element_views(authors@),
                scraped_at,
                rows.len() as nat,
            ) == Ok::<Seq<HnArticleView>, Seq<char>>(hn_views(v@)),
            Err(e) => match e {
                ScraperError::HnIdParse { id_str } => hn_stories(
                    element_views(rows@),
                    opt_element_views(links@),
                    element_views(scores@),
                    element_views(authors@),
                    scraped_at,
                    rows.len() as nat,
                ) == Err::<Seq<HnArticleView>, Seq<char>>(id_str@),
                _ => false,
            },
        },
{
    let ghost rv = element_views(rows@);
    let ghost lv = opt_element_views(links@);
    let ghost sv = element_views(scores@);
    let ghost av = element_views(authors@);
    let mut out: Vec<HnArticle> = Vec::new();
    assert(hn_views(out@) =~= seq![]);
    let mut i: usize = 0;
    while i < rows.len()
        invariant
            i <= rows.len(),
            rv == element_views(rows@),
            lv == opt_element_views(links@),
            sv == element_views(scores@),
            av == element_views(authors@),
            hn_stories(rv, lv, sv, av, scraped_at, i as nat) == Ok::<
                Seq<HnArticleView>,
                Seq<char>,
            >(hn_views(out@)),
        decreases rows.len() - i,
    {
        let ghost before = hn_views(out@);
        let id_str: String = match &rows[i].attr {
            Some(s) => s.clone(),
            None => String::new(),
        };
        assert(id_str@ == attr_or_empty(rv[i as int]));
        let hn_id = match parse_u32(id_str.as_str()) {
            Some(n) => n,
            None => {
                proof {
                    lemma_hn_stories_err(rv, lv, sv, av, scraped_at, (i + 1) as nat, rows.len() as nat);
                }
                return Err(ScraperError::HnIdParse { id_str });
            },
        };
        if i < links.len() {
            match &links[i] {
                Some(l) => {
                    assert(nth_opt(lv, i as int) == Some(l@));
                    let title = extract_text(&l.text);
                    let url = match &l.attr {
                        Some(h) => Some(resolve_hn_link(h.as_str())),
                        None => None,
                    };
                    let score: u32 = if i < scores.len() {
                        hn_score(scores[i].inner_html.as_str())
                    } else {
                        0
                    };
                    let author = inner_html_at(authors, i, "unknown");
                    let hn_url = hn_item_url(hn_id);
                    let a = HnArticle { hn_id, title, url, hn_url, score, author, scraped_at };
                    assert(hn_story(rv, lv, sv, av, scraped_at, i as int) == Ok::<
                        Option<HnArticleView>,
                        Seq<char>,
                    >(Some(a@)));
                    out.push(a);
                    assert(hn_views(out@) =~= before.push(a@));
                },
                None => {
                    assert(nth_opt(lv, i as int) is None);
                },
            }
        } else {
            assert(nth_opt(lv, i as int) is None);
        }
        i = i + 1;
    }
    Ok(out)
}

/// What the front page `html` gives: the selectors, the rows and their
/// parts, then the stories.
pub open spec fn spec_hn_page(html: Seq<char>, at: Timestamp) -> Result<Seq<HnArticleView>, Option<Seq<char>>> {
    match (
        spec_select_all(html, "tr.athing"@, "id"@),
        spec_select_first_in_each(html, "tr.athing"@, "span.titleline > a"@, "href"@),
        spec_select_all(html, "span.score"@, "class"@),
        spec_select_all(html, "a.hnuser"@, "href"@),
    ) {
        (Some(rows), Some(links), Some(scores), Some(authors)) => match hn_stories(
            rows,
            links,
            scores,
            authors,
            at,
            rows.len(),
        ) {
            Ok(v) => Ok(v),
            Err(id) => Err(Some(id)),
        },
        _ => Err(None),
    }
}

/// Scrapes the HackerNews front page `html`: the story rows (`tr.athing`)
/// with their ids, the first title link (`span.titleline > a`) of each row,
/// and the score labels (`span.score`) and authors (`a.hnuser`) of the page,
/// matched to rows by position.
pub fn scrape_hn_page(html: &str, scraped_at: Timestamp) -> (r: Result<Vec<HnArticle>, ScraperError>)
    ensures
        match r {
            Ok(v) => spec_hn_page(html@, scraped_at) == Ok::<Seq<HnArticleView>, Option<Seq<char>>>(hn_views(v@)),
            Err(ScraperError::HtmlParse) => spec_hn_page(html@, scraped_at) == Err::<
                Seq<HnArticleView>,
                Option<Seq<char>>,
            >(None),
            Err(ScraperError::HnIdParse { id_str }) => spec_hn_page(html@, scraped_at) == Err::<
                Seq<HnArticleView>,
                Option<Seq<char>>,
            >(Some(id_str@)),
            Err(_) => false,
        },
        !(r matches Err(ScraperError::HtmlParse)),
{
    let rows = select_all(html, "tr.athing", "id");
    let links = select_first_in_each(html, "tr.athing", "span.titleline > a", "href");
    let scores = select_all(html, "span.score", "class");
    let authors = select_all(html, "a.hnuser", "href");
    match (rows, links, scores, authors) {
        (Some(rows), Some(links), Some(scores), Some(authors)) => {
            hn_articles_from_page(&rows, &links, &scores, &authors, scraped_at)
        },
        _ => Err(ScraperError::HtmlParse),
    }
}

// ---------------------------------------------------------------------------
// Lobsters
// ---------------------------------------------------------------------------

/// The views of a list of articles.
pub open spec fn article_views(v: Seq<Article>) -> Seq<ArticleView> {
    v.map_values(|a: Article| a@)
}

/// The view of an optional list of optional elements.
pub open spec fn opt_list_views(o: Option<Vec<Option<ElementData>>>) -> Option<Seq<Option<ElementView>>> {
    match o {
        Some(v) => Some(opt_element_views(v@)),
        None => None,
    }
}

/// The inner HTML of an element, if present.
pub open spec fn opt_inner(o: Option<ElementView>) -> Option<Seq<char>> {
    match o {
        Some(e) => Some(e.inner_html),
        None => None,
    }
}

/// The story of the `i`-th `li.story` element: nothing when it has no
/// short id or no title link, an error when a selector needed for it did
/// not parse, else the article.
pub open spec fn lobsters_story(
    rows: Seq<ElementView>,
    links: Option<Seq<Option<ElementView>>>,
    votes: Option<Seq<Option<ElementView>>>,
    authors: Option<Seq<Option<ElementView>>>,
    at: Timestamp,
    i: int,
) -> Result<Option<ArticleView>, ()> {
    let id = attr_or_empty(rows[i]);
    if id.len() == 0 {
        Ok(None)
    } else {
        match links {
            None => Err(()),
            Some(ls) => match nth_opt(ls, i) {
                None => Ok(None),
                Some(l) => match (votes, authors) {
                    (Some(vs), Some(aus)) => Ok(
                        Some(
                            ArticleView {
                                id,
                                title: replace_nbsp(concat_all(l.text)),
                                url: l.attr,
                                source_url: LOBSTERS_BASE_URL@ + "s/"@ + id,
                                score: spec_lobsters_score(opt_inner(nth_opt(vs, i))),
                                author: match nth_opt(aus, i) {
                                    Some(a) => a.inner_html,
                                    None => "unknown"@,
                                },
                                scraped_at: at,
                                source: "lobsters"@,
                                feed_title: None,
                                feed_link: None,
                                feed_subtitle: None,
                                published_at: None,
                            },
                        ),
                    ),
                    _ => Err(()),
                },
            },
        }
    }
}

/// The stories of the first `n` story elements, or an error.
pub open spec fn lobsters_stories(
    rows: Seq<ElementView>,
    links: Option<Seq<Option<ElementView>>>,
    votes: Option<Seq<Option<ElementView>>>,
    authors: Option<Seq<Option<ElementView>>>,
    at: Timestamp,
    n: nat,
) -> Result<Seq<ArticleView>, ()>
    decreases n,
{
    if n == 0 {
        Ok(seq![])
    } else {
        match lobsters_stories(rows, links, votes, authors, at, (n - 1) as nat) {
            Err(e) => Err(e),
            Ok(acc) => match lobsters_story(rows, links, votes, authors, at, n - 1) {
                Err(e) => Err(e),
                Ok(None) => Ok(acc),
                Ok(Some(a)) => Ok(acc.push(a)),
            },
        }
    }
}

proof fn lemma_lobsters_stories_err(
    rows: Seq<ElementView>,
    links: Option<Seq<Option<ElementView>>>,
    votes: Option<Seq<Option<ElementView>>>,
    authors: Option<Seq<Option<ElementView>>>,
    at: Timestamp,
    n: nat,
    m: nat,
)
    requires
        n <= m,
        lobsters_stories(rows, links, votes, authors, at, n) is Err,
    ensures
        lobsters_stories(rows, links, votes, authors, at, m) is Err,
    decreases m - n,
{
    if n < m {
        lemma_lobsters_stories_err(rows, links, votes, authors, at, n, (m - 1) as nat);
    }
}

/// The `i`-th entry of an optional list of optional elements.
fn nth_element(v: &Vec<Option<ElementData>>, i: usize) -> (r: Option<&ElementData>)
    ensures
        match r {
            Some(e) => nth_opt(opt_element_views(v@), i as int) == Some(e@),
            None => nth_opt(opt_element_views(v@), i as int) is None,
        },
{
    if i < v.len() {
        match &v[i] {
            Some(e) => Some(e),
            None => None,
        }
    } else {
        None
    }
}

/// Assembles the Lobsters stories from the story elements (with their
/// short ids) and, for each, its first title link, vote link and author
/// link; `None` for a part stands for a selector that did not parse.
pub fn lobsters_articles_from_page(
    rows: &Vec<ElementData>,
    links: &Option<Vec<Option<ElementData>>>,
    votes: &Option<Vec<Option<ElementData>>>,
    authors: &Option<Vec<Option<ElementData>>>,
    scraped_at: Timestamp,
) -> (r: Result<Vec<Article>, ScraperError>)
    ensures
        match r {
            Ok(v) => lobsters_stories(
                element_views(rows@),
                opt_list_views(*links),
                opt_list_views(*votes),
                opt_list_views(*authors),
                scraped_at,
                rows.len() as nat,
            ) == Ok::<Seq<ArticleView>, ()>(article_views(v@)),
            Err(ScraperError::HtmlParse) => lobsters_stories(
                element_views(rows@),
                opt_list_views(*links),
                opt_list_views(*votes),
                opt_list_views(*authors),
                scraped_at,
                rows.len() as nat,
            ) is Err,
            Err(_) => false,
        },
{
    let ghost rv = element_views(rows@);
    let ghost lv = opt_list_views(*links);
    let ghost vv = opt_list_views(*votes);
    let ghost av = opt_list_views(*authors);
    let mut out: Vec<Article> = Vec::new();
    assert(article_views(out@) =~= seq![]);
    let mut i: usize = 0;
    while i < rows.len()
        invariant
            i <= rows.len(),
            rv == element_views(rows@),
            lv == opt_list_views(*links),
            vv == opt_list_views(*votes),
            av == opt_list_views(*authors),
            lobsters_stories(rv, lv, vv, av, scraped_at, i as nat) == Ok::<Seq<ArticleView>, ()>(
                article_views(out@),
            ),
        decreases rows.len() - i,
    {
        let ghost before = article_views(out@);
        let id: String = match &rows[i].attr {
            Some(s) => s.clone(),
            None => String::new(),
        };
        assert(id@ == attr_or_empty(rv[i as int]));
        if !id.as_str().is_empty() {
            let ls = match links {
                Some(ls) => ls,
                None => {
                    proof {
                        lemma_lobsters_stories_err(rv, lv, vv, av, scraped_at, (i + 1) as nat, rows.len() as nat);
                    }
                    return Err(ScraperError::HtmlParse);
                },
            };
            match nth_element(ls, i) {
                Some(l) => {
                    let (vs, aus) = match (votes, authors) {
                        (Some(vs), Some(aus)) => (vs, aus),
                        _ => {
                            proof {
                                lemma_lobsters_stories_err(rv, lv, vv, av, scraped_at, (i + 1) as nat, rows.len() as nat);
                            }
                            return Err(ScraperError::HtmlParse);
                        },
                    };
                    let title = extract_text(&l.text);
                    let url = clone_opt(&l.attr);
                    let vote_text: Option<String> = match nth_element(vs, i) {
                        Some(v) => Some(v.inner_html.clone()),
                        None => None,
                    };
                    let score = lobsters_score(&vote_text);
                    let author = match nth_element(aus, i) {
                        Some(a) => a.inner_html.clone(),
                        None => "unknown".to_owned(),
                    };
                    let source_url = lobsters_story_url(id.as_str());
                    let a = Article {
                        id,
                        title,
                        url,
                        source_url,
                        score,
                        author,
                        scraped_at,
                        source: "lobsters".to_owned(),
                        feed_title: None,
                        feed_link: None,
                        feed_subtitle: None,
                        published_at: None,
                    };
                    assert(lobsters_story(rv, lv, vv, av, scraped_at, i as int) == Ok::<
                        Option<ArticleView>,
                        (),
                    >(Some(a@)));
                    out.push(a);
                    assert(article_views(out@) =~= before.push(a@));
                },
                None => {},
            }
        }
        i = i + 1;
    }
    Ok(out)
}

/// What the Lobsters front page `html` gives.
pub open spec fn spec_lobsters_page(html: Seq<char>, at: Timestamp) -> Result<Seq<ArticleView>, ()> {
    match spec_select_all(html, "li.story"@, "data-shortid"@) {
        None => Err(()),
        Some(rows) => lobsters_stories(
            rows,
            spec_select_first_in_each(html, "li.story"@, "a.u-url"@, "href"@),
            spec_select_first_in_each(html, "li.story"@, "div.voters > a.upvoter"@, "href"@),
            spec_select_first_in_each(html, "li.story"@, "a.u-author"@, "href"@),
            at,
            rows.len(),
        ),
    }
}

/// Scrapes the Lobsters front page `html`: each `li.story` element with its
/// `data-shortid`, its title link (`a.u-url`), vote link
/// (`div.voters > a.upvoter`) and author link (`a.u-author`).
pub fn scrape_lobsters_page(html: &str, scraped_at: Timestamp) -> (r: Result<Vec<Article>, ScraperError>)
    ensures
        match r {
            Ok(v) => spec_lobsters_page(html@, scraped_at) == Ok::<Seq<ArticleView>, ()>(article_views(v@)),
            Err(ScraperError::HtmlParse) => spec_lobsters_page(html@, scraped_at) is Err,
            Err(_) => false,
        },
{
    let rows = match select_all(html, "li.story", "data-shortid") {
        Some(rows) => rows,
        None => return Err(ScraperError::HtmlParse),
    };
    let links = select_first_in_each(html, "li.story", "a.u-url", "href");
    let votes = select_first_in_each(html, "li.story", "div.voters > a.upvoter", "href");
    let authors = select_first_in_each(html, "li.story", "a.u-author", "href");
    lobsters_articles_from_page(&rows, &links, &votes, &authors, scraped_at)
}

// ---------------------------------------------------------------------------
// Atom feeds
// ---------------------------------------------------------------------------

/// What the bot reads of an Atom feed itself.
pub struct FeedMeta {
    pub title: String,
    pub links: Vec<FeedLink>,
    pub subtitle: Option<String>,
}

/// What the bot reads of an Atom entry; dates are RFC 3339 text.
pub struct EntryData {
    pub id: String,
    pub title: String,
    pub links: Vec<FeedLink>,
    pub authors: Vec<String>,
    pub published: Option<String>,
    pub updated: String,
}

/// Feed metadata as plain values.
pub struct FeedMetaView {
    pub title: Seq<char>,
    pub links: Seq<(Option<Seq<char>>, Seq<char>)>,
    pub subtitle: Option<Seq<char>>,
}

/// An entry as plain values.
pub struct EntryView {
    pub id: Seq<char>,
    pub title: Seq<char>,
    pub links: Seq<(Option<Seq<char>>, Seq<char>)>,
    pub authors: Seq<Seq<char>>,
    pub published: Option<Seq<char>>,
    pub updated: Seq<char>,
}

impl View for FeedMeta {
    type V = FeedMetaView;

    open spec fn view(&self) -> FeedMetaView {
        FeedMetaView { title: self.title@, links: link_views(self.links@), subtitle: opt_view(self.subtitle) }
    }
}

impl View for EntryData {
    type V = EntryView;

    open spec fn view(&self) -> EntryView {
        EntryView {
            id: self.id@,
            title: self.title@,
            links: link_views(self.links@),
            authors: views(self.authors@),
            published: opt_view(self.published),
            updated: self.updated@,
        }
    }
}

/// The views of a list of entries.
pub open spec fn entry_views(v: Seq<EntryData>) -> Seq<EntryView> {
    v.map_values(|e: EntryData| e@)
}

/// The feed metadata of the Atom document `content`, or the parser's error
/// message.
pub uninterp spec fn spec_atom_feed_meta(content: Seq<char>) -> Result<FeedMetaView, Seq<char>>;

/// The entries of the Atom document `content`, in document order, or the
/// parser's error message.
pub uninterp spec fn spec_atom_entries(content: Seq<char>) -> Result<Seq<EntryView>, Seq<char>>;

/// `atom_syndication::Feed::from_str`: the feed's title, links and subtitle
/// as plain values. The XML parser is not restated; the result is named as
/// a function of the document.
#[verifier::external_body]
fn atom_feed_meta(content: &str) -> (r: Result<FeedMeta, String>)
    ensures
        match r {
            Ok(m) => spec_atom_feed_meta(content@) == Ok::<FeedMetaView, Seq<char>>(m@),
            Err(d) => spec_atom_feed_meta(content@) == Err::<FeedMetaView, Seq<char>>(d@),
        },
{
    let f = content.parse::<atom_syndication::Feed>().map_err(|e| e.to_string())?;
    Ok(FeedMeta {
        title: f.title.to_string(),
        links: f.links.iter().map(|l| FeedLink { rel: Some(l.rel.clone()), href: l.href.clone() }).collect(),
        subtitle: f.subtitle.map(|s| s.to_string()),
    })
}

/// `atom_syndication::Feed::from_str`: the feed's entries as plain values,
/// dates written as RFC 3339 text. The XML parser is not restated; the
/// result is named as a function of the document.
#[verifier::external_body]
fn atom_entries(content: &str) -> (r: Result<Vec<EntryData>, String>)
    ensures
        match r {
            Ok(v) => spec_atom_entries(content@) == Ok::<Seq<EntryView>, Seq<char>>(entry_views(v@)),
            Err(d) => spec_atom_entries(content@) == Err::<Seq<EntryView>, Seq<char>>(d@),
        },
{
    let f = content.parse::<atom_syndication::Feed>().map_err(|e| e.to_string())?;
    Ok(f.entries.iter().map(|e| EntryData {
        id: e.id.clone(),
        title: e.title.to_string(),
        links: e.links.iter().map(|l| FeedLink { rel: Some(l.rel.clone()), href: l.href.clone() }).collect(),
        authors: e.authors.iter().map(|p| p.name.clone()).collect(),
        published: e.published.map(|d| d.to_rfc3339()),
        updated: e.updated.to_rfc3339(),
    }).collect())
}

/// The date an entry is dated by: its publication date, else its update
/// date.
pub open spec fn entry_date(e: EntryView) -> Seq<char> {
    match e.published {
        Some(p) => p,
        None => e.updated,
    }
}

/// The article for an Atom entry of the feed at `feed_url`.
pub open spec fn atom_entry_article(
    e: EntryView,
    feed_url: Seq<char>,
    feed_hash: Seq<char>,
    meta: FeedMetaView,
    at: Timestamp,
) -> ArticleView {
    let url = spec_best_link(e.links);
    ArticleView {
        id: spec_atom_article_id(feed_url, e.id),
        title: replace_nbsp(e.title),
        url,
        source_url: match url {
            Some(u) => u,
            None => feed_url,
        },
        score: 0,
        author: if e.authors.len() > 0 {
            e.authors[0]
        } else {
            "unknown"@
        },
        scraped_at: at,
        source: "atom:"@ + feed_hash,
        feed_title: Some(meta.title),
        feed_link: spec_best_link(meta.links),
        feed_subtitle: meta.subtitle,
        published_at: spec_parse_rfc3339_date(entry_date(e)),
    }
}

/// The date text of an entry.
fn entry_date_str(e: &EntryData) -> (r: &str)
    ensures
        r@ == entry_date(e@),
{
    match &e.published {
        Some(p) => p.as_str(),
        None => e.updated.as_str(),
    }
}

/// The article for one entry.
fn atom_article(e: &EntryData, feed_url: &str, feed_hash: &str, meta: &FeedMeta, at: Timestamp) -> (r: Article)
    ensures
        r@ == atom_entry_article(e@, feed_url@, feed_hash@, meta@, at),
        r.id@.len() == 32,
{
    let url = extract_url(&e.links);
    let source_url = match &url {
        Some(u) => u.clone(),
        None => feed_url.to_owned(),
    };
    let author = if e.authors.len() > 0 {
        e.authors[0].clone()
    } else {
        "unknown".to_owned()
    };
    Article {
        id: create_article_id(feed_url, e.id.as_str()),
        title: normalize_entry_title(e.title.as_str()),
        url,
        source_url,
        score: 0,
        author,
        scraped_at: at,
        source: atom_source(feed_hash),
        feed_title: Some(meta.title.clone()),
        feed_link: extract_url(&meta.links),
        feed_subtitle: clone_opt(&meta.subtitle),
        published_at: parse_rfc3339_date(entry_date_str(e)),
    }
}

/// Assembles the articles of an Atom feed from its metadata and entries.
pub fn atom_articles_from_feed(
    feed_url: &str,
    feed_hash: &str,
    meta: &FeedMeta,
    entries: &Vec<EntryData>,
    scraped_at: Timestamp,
) -> (r: Vec<Article>)
    ensures
        article_views(r@) == entry_views(entries@).map_values(
            |e: EntryView| atom_entry_article(e, feed_url@, feed_hash@, meta@, scraped_at),
        ),
        forall|i: int| 0 <= i < r.len() ==> (#[trigger] r@[i]).id@.len() == 32,
{
    let mut out: Vec<Article> = Vec::new();
    let mut i: usize = 0;
    while i < entries.len()
        invariant
            i <= entries.len(),
            forall|j: int| 0 <= j < out.len() ==> (#[trigger] out@[j]).id@.len() == 32,
            article_views(out@) == entry_views(entries@).take(i as int).map_values(
                |e: EntryView| atom_entry_article(e, feed_url@, feed_hash@, meta@, scraped_at),
            ),
        decreases entries.len() - i,
    {
        let ghost prev = article_views(out@);
        let a = atom_article(&entries[i], feed_url, feed_hash, meta, scraped_at);
        out.push(a);
        assert(article_views(out@) =~= prev.push(a@));
        assert(entry_views(entries@).take(i + 1) =~= entry_views(entries@).take(i as int).push(
            entries@[i as int]@,
        ));
        assert(article_views(out@) =~= entry_views(entries@).take(i + 1).map_values(
            |e: EntryView| atom_entry_article(e, feed_url@, feed_hash@, meta@, scraped_at),
        ));
        i = i + 1;
    }
    assert(entry_views(entries@).take(entries.len() as int) =~= entry_views(entries@));
    out
}

/// What an Atom document gives: the parser's error message, or the
/// articles.
pub open spec fn spec_atom_page(
    feed_url: Seq<char>,
    feed_hash: Seq<char>,
    content: Seq<char>,
    at: Timestamp,
) -> Result<Seq<ArticleView>, Seq<char>> {
    match spec_atom_feed_meta(content) {
        Err(d) => Err(d),
        Ok(meta) => match spec_atom_entries(content) {
            Err(d) => Err(d),
            Ok(es) => Ok(es.map_values(|e: EntryView| atom_entry_article(e, feed_url, feed_hash, meta, at))),
        },
    }
}

/// The Atom feed law: a document the feed parser refuses gives its error;
/// otherwise there is one article per entry, in order, whose id is the hex
/// of the first 16 bytes of the BLAKE3 hash of `feed_url:entry id`, whose
/// score is 0, whose source is `atom:` and the feed's short hash, whose
/// title is the entry title with no-break spaces turned into spaces, and
/// which is dated by the entry's publication date, else its update date.
pub proof fn lemma_atom_page_law(feed_url: Seq<char>, content: Seq<char>, at: Timestamp)
    ensures
        (spec_atom_feed_meta(content) is Err || spec_atom_entries(content) is Err) <==> spec_atom_page(
            feed_url,
            spec_feed_hash(feed_url),
            content,
            at,
        ) is Err,
        spec_atom_page(feed_url, spec_feed_hash(feed_url), content, at) matches Ok(v) ==> {
            let es = spec_atom_entries(content)->Ok_0;
            &&& v.len() == es.len()
            &&& forall|i: int|
                0 <= i < v.len() ==> {
                    &&& (#[trigger] v[i]).id == spec_hex_lower(
                        spec_blake3(encode_utf8(feed_url + seq![':'] + es[i].id)).take(16),
                    )
                    &&& v[i].score == 0
                    &&& v[i].source == "atom:"@ + spec_feed_hash(feed_url)
                    &&& v[i].title == replace_nbsp(es[i].title)
                    &&& v[i].published_at == spec_parse_rfc3339_date(entry_date(es[i]))
                    &&& v[i].scraped_at == at
                }
        },
{
}

/// Scrapes the Atom document `content` of the feed at `feed_url` (whose
/// short hash is `feed_hash`).
pub fn scrape_atom_page(feed_url: &str, feed_hash: &str, content: &str, scraped_at: Timestamp) -> (r: Result<
    Vec<Article>,
    ScraperError,
>)
    ensures
        match r {
            Ok(v) => spec_atom_page(feed_url@, feed_hash@, content@, scraped_at) == Ok::<
                Seq<ArticleView>,
                Seq<char>,
            >(article_views(v@)),
            Err(ScraperError::AtomParse { details }) => spec_atom_page(feed_url@, feed_hash@, content@, scraped_at)
                == Err::<Seq<ArticleView>, Seq<char>>(details@),
            Err(_) => false,
        },
        r matches Ok(v) ==> forall|i: int| 0 <= i < v.len() ==> (#[trigger] v@[i]).id@.len() == 32,
{
    let meta = match atom_feed_meta(content) {
        Ok(m) => m,
        Err(details) => return Err(ScraperError::AtomParse { details }),
    };
    let entries = match atom_entries(content) {
        Ok(es) => es,
        Err(details) => return Err(ScraperError::AtomParse { details }),
    };
    let v = atom_articles_from_feed(feed_url, feed_hash, &meta, &entries, scraped_at);
    Ok(v)
}

} // verus!
