//! The bot's options and the decisions of one scraping and publishing
//! cycle: which sources run, which scraped articles are queued, which are
//! published, and what is recorded afterwards. Fetching pages, waiting and
//! publishing are done by the caller, which hands the results back here.
use vstd::prelude::*;
use crate::bot::database::{lemma_queue_keeps_duplicates, BotDatabase, BotDbView};
use crate::bot::pages::article_views;
use crate::bot::tables::{Article, ArticleView, Timestamp};
use crate::text::{join_str, join_with_str, push_str, str_eq, views};

verus! {

/// Articles older than this (about a month) are not queued.
pub const MAX_ARTICLE_AGE_SECS: u64 = 2592000;

/// Development commands.
pub enum DevCommand {
    /// Test scraping functionality.
    Test { hn: bool, lobsters: bool, atom_feed_url: Vec<String> },
}

/// The bot's subcommands.
pub enum Command {
    /// Development commands.
    Dev { dev_command: DevCommand },
}

/// The bot's command line options.
pub struct Opts {
    pub command: Option<Command>,
    /// Path to the secret file for authentication.
    pub secret_file: Option<String>,
    /// Interval between scraping runs in minutes.
    pub scrape_interval_minutes: u64,
    /// Maximum articles to publish per run.
    pub max_articles_per_run: usize,
    /// Data dir to store the database in.
    pub data_dir: Option<String>,
    /// Enable HackerNews scraping.
    pub hn: bool,
    /// Minimum score for HackerNews articles.
    pub hn_min_score: u32,
    /// Enable Lobsters scraping.
    pub lobsters: bool,
    /// Minimum score for Lobsters articles.
    pub lobsters_min_score: u32,
    /// Atom feed URLs to scrape.
    pub atom_feed_url: Vec<String>,
}

/// A source of articles.
pub enum SourceKind {
    HackerNews,
    Lobsters,
    Atom { feed_url: String },
}

/// A source as plain values: `None` for HackerNews and Lobsters, told apart
/// by the flag, the feed URL for an Atom feed.
pub open spec fn source_view(s: SourceKind) -> (int, Seq<char>) {
    match s {
        SourceKind::HackerNews => (0, seq![]),
        SourceKind::Lobsters => (1, seq![]),
        SourceKind::Atom { feed_url } => (2, feed_url@),
    }
}

/// The sources to scrape, in order: HackerNews, Lobsters, then each Atom
/// feed.
pub open spec fn spec_sources(hn: bool, lobsters: bool, urls: Seq<Seq<char>>) -> Seq<(int, Seq<char>)> {
    (if hn {
        seq![(0int, Seq::<char>::empty())]
    } else {
        seq![]
    }) + (if lobsters {
        seq![(1int, Seq::<char>::empty())]
    } else {
        seq![]
    }) + urls.map_values(|u: Seq<char>| (2int, u))
}

/// The name a source is described by.
pub open spec fn source_name(s: (int, Seq<char>)) -> Seq<char> {
    if s.0 == 0 {
        "HackerNews"@
    } else if s.0 == 1 {
        "Lobsters"@
    } else {
        "Atom:"@ + s.1
    }
}

/// The description of the sources: their names joined by `", "`.
pub open spec fn spec_sources_description(hn: bool, lobsters: bool, urls: Seq<Seq<char>>) -> Seq<char> {
    join_str(spec_sources(hn, lobsters, urls).map_values(|s: (int, Seq<char>)| source_name(s)), ", "@)
}

/// The sources to scrape (`create_scrapers`).
pub fn scraper_plan(hn: bool, lobsters: bool, atom_feed_urls: &Vec<String>) -> (r: Vec<SourceKind>)
    ensures
        r@.map_values(|s: SourceKind| source_view(s)) == spec_sources(hn, lobsters, views(atom_feed_urls@)),
{
    let mut r: Vec<SourceKind> = Vec::new();
    if hn {
        r.push(SourceKind::HackerNews);
    }
    if lobsters {
        r.push(SourceKind::Lobsters);
    }
    let ghost head = r@.map_values(|s: SourceKind| source_view(s));
    assert(head =~= (if hn {
        seq![(0int, Seq::<char>::empty())]
    } else {
        seq![]
    }) + (if lobsters {
        seq![(1int, Seq::<char>::empty())]
    } else {
        seq![]
    }));
    let mut i: usize = 0;
    while i < atom_feed_urls.len()
        invariant
            i <= atom_feed_urls.len(),
            r@.map_values(|s: SourceKind| source_view(s)) == head + views(atom_feed_urls@).take(
                i as int,
            ).map_values(|u: Seq<char>| (2int, u)),
        decreases atom_feed_urls.len() - i,
    {
        let ghost prev = r@.map_values(|s: SourceKind| source_view(s));
        r.push(SourceKind::Atom { feed_url: atom_feed_urls[i].clone() });
        assert(r@.map_values(|s: SourceKind| source_view(s)) =~= prev.push(
            (2int, atom_feed_urls@[i as int]@),
        ));
        assert(views(atom_feed_urls@).take(i + 1) =~= views(atom_feed_urls@).take(i as int).push(
            atom_feed_urls@[i as int]@,
        ));
        assert(views(atom_feed_urls@).take(i + 1).map_values(|u: Seq<char>| (2int, u))
            =~= views(atom_feed_urls@).take(i as int).map_values(|u: Seq<char>| (2int, u)).push(
            (2int, atom_feed_urls@[i as int]@),
        ));
        i = i + 1;
    }
    assert(views(atom_feed_urls@).take(atom_feed_urls.len() as int) =~= views(atom_feed_urls@));
    r
}

/// The name of a source.
pub fn describe_source(s: &SourceKind) -> (r: String)
    ensures
        r@ == source_name(source_view(*s)),
{
    let mut out = String::new();
    match s {
        SourceKind::HackerNews => push_str(&mut out, "HackerNews"),
        SourceKind::Lobsters => push_str(&mut out, "Lobsters"),
        SourceKind::Atom { feed_url } => {
            push_str(&mut out, "Atom:");
            push_str(&mut out, feed_url.as_str());
        },
    }
    out
}

/// The description of the sources, for the test command: the names of the
/// sources joined by `", "`.
pub fn build_test_sources_description(hn: bool, lobsters: bool, atom_feed_urls: &Vec<String>) -> (r: String)
    ensures
        r@ == spec_sources_description(hn, lobsters, views(atom_feed_urls@)),
{
    let plan = scraper_plan(hn, lobsters, atom_feed_urls);
    let ghost pv = plan@.map_values(|s: SourceKind| source_view(s));
    let mut names: Vec<String> = Vec::new();
    let mut i: usize = 0;
    while i < plan.len()
        invariant
            i <= plan.len(),
            pv == plan@.map_values(|s: SourceKind| source_view(s)),
            views(names@) == pv.take(i as int).map_values(|s: (int, Seq<char>)| source_name(s)),
        decreases plan.len() - i,
    {
        let ghost prev = views(names@);
        let n = describe_source(&plan[i]);
        names.push(n);
        assert(views(names@) =~= prev.push(n@));
        assert(pv.take(i + 1) =~= pv.take(i as int).push(pv[i as int]));
        assert(pv.take(i + 1).map_values(|s: (int, Seq<char>)| source_name(s)) =~= pv.take(
            i as int,
        ).map_values(|s: (int, Seq<char>)| source_name(s)).push(source_name(pv[i as int])));
        i = i + 1;
    }
    assert(pv.take(plan.len() as int) =~= pv);
    join_with_str(&names, ", ")
}

/// The description of the sources the options enable.
pub fn build_sources_description(opts: &Opts) -> (r: String)
    ensures
        r@ == spec_sources_description(opts.hn, opts.lobsters, views(opts.atom_feed_url@)),
{
    build_test_sources_description(opts.hn, opts.lobsters, &opts.atom_feed_url)
}

/// Why the bot does not start.
pub enum StartError {
    /// No secret file was given for running the bot.
    MissingSecretFile,
    /// No source is enabled.
    NoSourcesSpecified,
}

/// What running the bot needs: a secret file, then at least one source.
/// Returns the secret file.
pub fn check_run_options(opts: &Opts) -> (r: Result<String, StartError>)
    ensures
        match r {
            Ok(f) => opts.secret_file matches Some(s) && s@ == f@ && spec_sources(
                opts.hn,
                opts.lobsters,
                views(opts.atom_feed_url@),
            ).len() > 0,
            Err(StartError::MissingSecretFile) => opts.secret_file is None,
            Err(StartError::NoSourcesSpecified) => opts.secret_file is Some && spec_sources(
                opts.hn,
                opts.lobsters,
                views(opts.atom_feed_url@),
            ).len() == 0,
        },
{
    let f = match &opts.secret_file {
        Some(f) => f.clone(),
        None => return Err(StartError::MissingSecretFile),
    };
    if !opts.hn && !opts.lobsters && opts.atom_feed_url.len() == 0 {
        return Err(StartError::NoSourcesSpecified);
    }
    Ok(f)
}

// ---------------------------------------------------------------------------
// one cycle
// ---------------------------------------------------------------------------

/// The minimum score for an article of the given source: the HackerNews
/// minimum for `"hn"`, the Lobsters minimum for `"lobsters"`, else 0.
pub open spec fn min_score_for(hn_min_score: u32, lobsters_min_score: u32, source: Seq<char>) -> u32 {
    if source == "hn"@ {
        hn_min_score
    } else if source == "lobsters"@ {
        lobsters_min_score
    } else {
        0
    }
}

/// The minimum score an article needs to be queued.
pub fn get_min_score_for_article(hn_min_score: u32, lobsters_min_score: u32, article: &Article) -> (r: u32)
    ensures
        r == min_score_for(hn_min_score, lobsters_min_score, article.source@),
{
    if str_eq(article.source.as_str(), "hn") {
        hn_min_score
    } else if str_eq(article.source.as_str(), "lobsters") {
        lobsters_min_score
    } else {
        0
    }
}

/// Seconds from `then` to `now`, 0 when `then` is later.
pub open spec fn secs_since(now: Timestamp, then: Timestamp) -> int {
    if then <= now {
        now - then
    } else {
        0
    }
}

/// A scraped article is queued when it is not known to be older than
/// `MAX_ARTICLE_AGE_SECS` and its score reaches its source's minimum.
pub open spec fn wants_article(a: ArticleView, now: Timestamp, hn_min_score: u32, lobsters_min_score: u32) -> bool {
    &&& match a.published_at {
        Some(p) => secs_since(now, p) <= MAX_ARTICLE_AGE_SECS,
        None => true,
    }
    &&& min_score_for(hn_min_score, lobsters_min_score, a.source) <= a.score
}

/// Whether a scraped article is to be queued.
pub fn should_enqueue(article: &Article, now: Timestamp, hn_min_score: u32, lobsters_min_score: u32) -> (r: bool)
    ensures
        r == wants_article(article@, now, hn_min_score, lobsters_min_score),
{
    match article.published_at {
        Some(p) => {
            let age = now.saturating_sub(p);
            if MAX_ARTICLE_AGE_SECS < age {
                return false;
            }
        },
        None => {},
    }
    get_min_score_for_article(hn_min_score, lobsters_min_score, article) <= article.score
}

/// The tables after offering the articles in order, and how many were
/// queued: an article is offered when it is wanted, and queued when it is
/// no duplicate.
pub open spec fn enqueue_all(
    db: BotDbView,
    arts: Seq<ArticleView>,
    now: Timestamp,
    hn_min_score: u32,
    lobsters_min_score: u32,
) -> (BotDbView, nat)
    decreases arts.len(),
{
    if arts.len() == 0 {
        (db, 0)
    } else {
        let (d, n) = enqueue_all(db, arts.drop_last(), now, hn_min_score, lobsters_min_score);
        let a = arts.last();
        if wants_article(a, now, hn_min_score, lobsters_min_score) && !d.is_duplicate(a) {
            (d.with_queued(a), n + 1)
        } else {
            (d, n)
        }
    }
}

/// Offers the articles of one scrape to the queue; returns how many were
/// added.
pub fn enqueue_scraped(
    db: &mut BotDatabase,
    articles: &Vec<Article>,
    now: Timestamp,
    hn_min_score: u32,
    lobsters_min_score: u32,
) -> (added: usize)
    requires
        old(db).wf(),
    ensures
        final(db).wf(),
        (final(db)@, added as nat) == enqueue_all(
            old(db)@,
            article_views(articles@),
            now,
            hn_min_score,
            lobsters_min_score,
        ),
{
    let ghost start = db@;
    let ghost av = article_views(articles@);
    let mut added: usize = 0;
    let mut i: usize = 0;
    assert(av.take(0) =~= Seq::<ArticleView>::empty());
    while i < articles.len()
        invariant
            i <= articles.len(),
            added <= i,
            db.wf(),
            av == article_views(articles@),
            (db@, added as nat) == enqueue_all(start, av.take(i as int), now, hn_min_score, lobsters_min_score),
        decreases articles.len() - i,
    {
        assert(av.take(i + 1).drop_last() =~= av.take(i as int));
        assert(av.take(i + 1).last() == articles@[i as int]@);
        if should_enqueue(&articles[i], now, hn_min_score, lobsters_min_score) {
            if db.add_unpublished_article(&articles[i]) {
                added = added + 1;
            }
        }
        i = i + 1;
    }
    assert(av.take(articles.len() as int) =~= av);
    added
}

/// The scrape results of one cycle as plain values.
pub open spec fn scrape_result_views(results: Seq<(Option<Vec<Article>>, Timestamp)>) -> Seq<(Option<Seq<ArticleView>>, Timestamp)> {
    results.map_values(
        |r: (Option<Vec<Article>>, Timestamp)|
            (
                match r.0 {
                    Some(v) => Some(article_views(v@)),
                    None => None,
                },
                r.1,
            ),
    )
}

/// The tables after the scraping phase of a cycle, and how many articles
/// were queued: the sources' results are taken in the order the sources
/// were scraped; a failed scrape (`None`) is skipped, and the articles of a
/// successful one are offered as `enqueue_all` says, at the time they were
/// scraped.
pub open spec fn enqueue_results(
    db: BotDbView,
    results: Seq<(Option<Seq<ArticleView>>, Timestamp)>,
    hn_min_score: u32,
    lobsters_min_score: u32,
) -> (BotDbView, nat)
    decreases results.len(),
{
    if results.len() == 0 {
        (db, 0)
    } else {
        let (d, n) = enqueue_results(db, results.drop_last(), hn_min_score, lobsters_min_score);
        match results.last().0 {
            None => (d, n),
            Some(arts) => {
                let (e, m) = enqueue_all(d, arts, results.last().1, hn_min_score, lobsters_min_score);
                (e, n + m)
            },
        }
    }
}

/// The scraping phase of a cycle: offers the articles of each source's
/// scrape, in the order the sources were scraped, skipping failed scrapes;
/// returns how many articles were queued (saturating at `usize::MAX`).
pub fn enqueue_cycle_results(
    db: &mut BotDatabase,
    results: &Vec<(Option<Vec<Article>>, Timestamp)>,
    hn_min_score: u32,
    lobsters_min_score: u32,
) -> (added: usize)
    requires
        old(db).wf(),
    ensures
        final(db).wf(),
        final(db)@ == enqueue_results(old(db)@, scrape_result_views(results@), hn_min_score, lobsters_min_score).0,
        added as nat == if enqueue_results(old(db)@, scrape_result_views(results@), hn_min_score, lobsters_min_score).1
            <= usize::MAX {
            enqueue_results(old(db)@, scrape_result_views(results@), hn_min_score, lobsters_min_score).1
        } else {
            usize::MAX as nat
        },
{
    let ghost start = db@;
    let ghost rv = scrape_result_views(results@);
    let mut added: usize = 0;
    let mut i: usize = 0;
    assert(rv.take(0) =~= Seq::<(Option<Seq<ArticleView>>, Timestamp)>::empty());
    while i < results.len()
        invariant
            i <= results.len(),
            db.wf(),
            rv == scrape_result_views(results@),
            db@ == enqueue_results(start, rv.take(i as int), hn_min_score, lobsters_min_score).0,
            added as nat == if enqueue_results(start, rv.take(i as int), hn_min_score, lobsters_min_score).1
                <= usize::MAX {
                enqueue_results(start, rv.take(i as int), hn_min_score, lobsters_min_score).1
            } else {
                usize::MAX as nat
            },
        decreases results.len() - i,
    {
        assert(rv.take(i + 1).drop_last() =~= rv.take(i as int));
        assert(rv.take(i + 1).last() == rv[i as int]);
        match &results[i].0 {
            Some(articles) => {
                let n = enqueue_scraped(db, articles, results[i].1, hn_min_score, lobsters_min_score);
                added = added.saturating_add(n);
            },
            None => {},
        }
        i = i + 1;
    }
    assert(rv.take(results.len() as int) =~= rv);
    added
}

/// The first `n` articles, or all of them when there are fewer.
pub fn articles_to_publish(unpublished: &Vec<Article>, max_articles_per_run: usize) -> (r: Vec<Article>)
    ensures
        article_views(r@) == article_views(unpublished@).take(
            if max_articles_per_run < unpublished.len() {
                max_articles_per_run as int
            } else {
                unpublished.len() as int
            },
        ),
{
    let n = if max_articles_per_run < unpublished.len() {
        max_articles_per_run
    } else {
        unpublished.len()
    };
    let mut r: Vec<Article> = Vec::new();
    let mut i: usize = 0;
    while i < n
        invariant
            i <= n <= unpublished.len(),
            article_views(r@) == article_views(unpublished@).take(i as int),
        decreases n - i,
    {
        let ghost prev = article_views(r@);
        let a = unpublished[i].copy();
        r.push(a);
        assert(article_views(r@) =~= prev.push(a@));
        assert(article_views(unpublished@).take(i + 1) =~= article_views(unpublished@).take(
            i as int,
        ).push(unpublished@[i as int]@));
        i = i + 1;
    }
    r
}

/// The first article with the given id.
pub open spec fn first_with_id(arts: Seq<ArticleView>, id: Seq<char>) -> Option<ArticleView>
    decreases arts.len(),
{
    if arts.len() == 0 {
        None
    } else if arts[0].id == id {
        Some(arts[0])
    } else {
        first_with_id(arts.drop_first(), id)
    }
}

/// Finds the first article with the given id.
fn find_article<'a>(arts: &'a Vec<Article>, id: &str) -> (r: Option<&'a Article>)
    ensures
        match r {
            Some(a) => first_with_id(article_views(arts@), id@) == Some(a@),
            None => first_with_id(article_views(arts@), id@) is None,
        },
{
    let ghost av = article_views(arts@);
    let mut i: usize = 0;
    assert(av.skip(0) =~= av);
    while i < arts.len()
        invariant
            i <= arts.len(),
            av == article_views(arts@),
            first_with_id(av, id@) == first_with_id(av.skip(i as int), id@),
        decreases arts.len() - i,
    {
        assert(av.skip(i as int)[0] == arts@[i as int]@);
        if str_eq(arts[i].id.as_str(), id) {
            return Some(&arts[i]);
        }
        assert(av.skip(i as int).drop_first() =~= av.skip(i + 1));
        i = i + 1;
    }
    None
}

/// The tables after the publication results in order: each article whose
/// publication succeeded (found among the published ones by id) is marked
/// published at `at`.
pub open spec fn record_results(
    db: BotDbView,
    arts: Seq<ArticleView>,
    results: Seq<(Seq<char>, bool)>,
    at: Timestamp,
) -> BotDbView
    decreases results.len(),
{
    if results.len() == 0 {
        db
    } else {
        let d = record_results(db, arts, results.drop_last(), at);
        let (id, ok) = results.last();
        if ok {
            match first_with_id(arts, id) {
                Some(a) => d.with_published(a, at),
                None => d,
            }
        } else {
            d
        }
    }
}

/// The results as plain values.
pub open spec fn result_views(v: Seq<(String, bool)>) -> Seq<(Seq<char>, bool)> {
    v.map_values(|p: (String, bool)| (p.0@, p.1))
}

/// Records the results of publishing `published`: each article published
/// successfully is marked as published at `published_at`.
pub fn record_publish_results(
    db: &mut BotDatabase,
    published: &Vec<Article>,
    results: &Vec<(String, bool)>,
    published_at: Timestamp,
)
    requires
        old(db).wf(),
    ensures
        final(db).wf(),
        final(db)@ == record_results(old(db)@, article_views(published@), result_views(results@), published_at),
{
    let ghost start = db@;
    let ghost rv = result_views(results@);
    let ghost av = article_views(published@);
    let mut i: usize = 0;
    assert(rv.take(0) =~= Seq::<(Seq<char>, bool)>::empty());
    while i < results.len()
        invariant
            i <= results.len(),
            db.wf(),
            rv == result_views(results@),
            av == article_views(published@),
            db@ == record_results(start, av, rv.take(i as int), published_at),
        decreases results.len() - i,
    {
        assert(rv.take(i + 1).drop_last() =~= rv.take(i as int));
        assert(rv.take(i + 1).last() == (results@[i as int].0@, results@[i as int].1));
        if results[i].1 {
            match find_article(published, results[i].0.as_str()) {
                Some(a) => db.mark_article_published(a, published_at),
                None => {},
            }
        }
        i = i + 1;
    }
    assert(rv.take(results.len() as int) =~= rv);
}

/// Running the bot names exactly the sources it scrapes: the description
/// is the names of the planned sources joined by `", "`.
pub proof fn lemma_description_names_sources(hn: bool, lobsters: bool, urls: Seq<Seq<char>>)
    ensures
        spec_sources_description(hn, lobsters, urls) == join_str(
            spec_sources(hn, lobsters, urls).map_values(|s: (int, Seq<char>)| source_name(s)),
            ", "@,
        ),
        spec_sources(hn, lobsters, urls).len() == (if hn {
            1int
        } else {
            0
        }) + (if lobsters {
            1int
        } else {
            0
        }) + urls.len(),
{
}

/// After a cycle every wanted article it was offered is a duplicate, and
/// every earlier duplicate still is.
pub proof fn lemma_enqueue_covers_offered(
    db: BotDbView,
    arts: Seq<ArticleView>,
    now: Timestamp,
    hn_min_score: u32,
    lobsters_min_score: u32,
)
    requires
        db.wf(),
    ensures
        enqueue_all(db, arts, now, hn_min_score, lobsters_min_score).0.wf(),
        enqueue_all(db, arts, now, hn_min_score, lobsters_min_score).1 <= arts.len(),
        forall|i: int|
            0 <= i < arts.len() && wants_article(arts[i], now, hn_min_score, lobsters_min_score)
                ==> #[trigger] enqueue_all(db, arts, now, hn_min_score, lobsters_min_score).0.is_duplicate(arts[i]),
        forall|x: ArticleView|
            db.is_duplicate(x) ==> #[trigger] enqueue_all(db, arts, now, hn_min_score, lobsters_min_score).0.is_duplicate(x),
    decreases arts.len(),
{
    if arts.len() > 0 {
        let pre = arts.drop_last();
        lemma_enqueue_covers_offered(db, pre, now, hn_min_score, lobsters_min_score);
        let (d, n) = enqueue_all(db, pre, now, hn_min_score, lobsters_min_score);
        let a = arts.last();
        if wants_article(a, now, hn_min_score, lobsters_min_score) && !d.is_duplicate(a) {
            crate::bot::database::lemma_queued_article_is_duplicate(d, a);
            assert forall|x: ArticleView| d.is_duplicate(x) implies #[trigger] d.with_queued(a).is_duplicate(x) by {
                lemma_queue_keeps_duplicates(d, a, x);
            }
        }
        let e = enqueue_all(db, arts, now, hn_min_score, lobsters_min_score).0;
        assert forall|i: int|
            0 <= i < arts.len() && wants_article(arts[i], now, hn_min_score, lobsters_min_score)
                implies #[trigger] e.is_duplicate(arts[i]) by {
            if i < pre.len() {
                assert(arts[i] == pre[i]);
            }
        }
    }
}

/// With every wanted article already a duplicate, a cycle changes nothing.
proof fn lemma_enqueue_noop(
    db: BotDbView,
    arts: Seq<ArticleView>,
    now: Timestamp,
    hn_min_score: u32,
    lobsters_min_score: u32,
)
    requires
        forall|i: int|
            0 <= i < arts.len() && wants_article(arts[i], now, hn_min_score, lobsters_min_score)
                ==> #[trigger] db.is_duplicate(arts[i]),
    ensures
        enqueue_all(db, arts, now, hn_min_score, lobsters_min_score) == (db, 0nat),
    decreases arts.len(),
{
    if arts.len() > 0 {
        let pre = arts.drop_last();
        assert forall|i: int|
            0 <= i < pre.len() && wants_article(pre[i], now, hn_min_score, lobsters_min_score)
                implies #[trigger] db.is_duplicate(pre[i]) by {
            assert(pre[i] == arts[i]);
        }
        lemma_enqueue_noop(db, pre, now, hn_min_score, lobsters_min_score);
        let a = arts.last();
        if wants_article(a, now, hn_min_score, lobsters_min_score) {
            assert(db.is_duplicate(arts[arts.len() - 1]));
        }
    }
}

/// Offering the same scraped articles again queues nothing and leaves the
/// tables as they are.
pub proof fn lemma_enqueue_idempotent(
    db: BotDbView,
    arts: Seq<ArticleView>,
    now: Timestamp,
    hn_min_score: u32,
    lobsters_min_score: u32,
)
    requires
        db.wf(),
    ensures
        ({
            let d1 = enqueue_all(db, arts, now, hn_min_score, lobsters_min_score).0;
            enqueue_all(d1, arts, now, hn_min_score, lobsters_min_score) == (d1, 0nat)
        }),
{
    lemma_enqueue_covers_offered(db, arts, now, hn_min_score, lobsters_min_score);
    let d1 = enqueue_all(db, arts, now, hn_min_score, lobsters_min_score).0;
    lemma_enqueue_noop(d1, arts, now, hn_min_score, lobsters_min_score);
}

} // verus!
