use rostra::bot::cycle::{
    articles_to_publish, build_sources_description, build_test_sources_description, check_run_options,
    describe_source, enqueue_cycle_results, enqueue_scraped, get_min_score_for_article, record_publish_results, scraper_plan,
    should_enqueue, Opts, StartError, MAX_ARTICLE_AGE_SECS,
};
use rostra::bot::database::BotDatabase;
use rostra::bot::dedup::DEDUP_TIME_WINDOW_SECS;
use rostra::bot::pages::{scrape_atom_page, scrape_hn_page, scrape_lobsters_page, ScraperError};
use rostra::bot::publisher::{format_article_post, format_hn_article_post};
use rostra::bot::tables::{Article, HnArticle};

const NOW: u64 = 1_700_000_000;

fn make_article(id: &str, title: &str, url: Option<&str>, ts: u64) -> Article {
    Article {
        id: id.to_string(),
        title: title.to_string(),
        url: url.map(|u| u.to_string()),
        source_url: format!("https://example.com/{id}"),
        score: 10,
        author: "test-author".to_string(),
        scraped_at: ts,
        source: "test".to_string(),
        feed_title: None,
        feed_link: None,
        feed_subtitle: None,
        published_at: Some(ts),
    }
}

fn ids(v: &[Article]) -> Vec<String> {
    v.iter().map(|a| a.id.clone()).collect()
}

// ── deduplication in the queue ──────────────────────────────────

#[test]
fn test_exact_id_dedup() {
    let mut db = BotDatabase::new();
    let article = make_article("dup-1", "Some Title", Some("https://example.com/a"), NOW);
    assert!(db.add_unpublished_article(&article));
    assert!(!db.add_unpublished_article(&article));
}

#[test]
fn test_url_fuzzy_dedup() {
    let mut db = BotDatabase::new();
    let a = make_article("url-a", "Article A", Some("https://www.example.com/article?utm_source=hn"), NOW);
    assert!(db.add_unpublished_article(&a));
    db.mark_article_published(&a, NOW);
    let b = make_article("url-b", "Article B", Some("https://example.com/article?utm_source=lobsters"), NOW);
    assert!(!db.add_unpublished_article(&b));
}

#[test]
fn test_url_fuzzy_dedup_unpublished() {
    let mut db = BotDatabase::new();
    let a = make_article("url-a", "Article A", Some("https://www.example.com/page?ref=sidebar"), NOW);
    assert!(db.add_unpublished_article(&a));
    let b = make_article("url-b", "Article B", Some("https://example.com/page"), NOW);
    assert!(!db.add_unpublished_article(&b));
}

#[test]
fn test_title_fuzzy_dedup() {
    let mut db = BotDatabase::new();
    let a = make_article("title-a", "The Rust Programming Language Book", Some("https://example.com/rust-book"), NOW);
    assert!(db.add_unpublished_article(&a));
    db.mark_article_published(&a, NOW);
    let b = make_article("title-b", "The Rust Programming Language Guide Book", Some("https://other.com/rust-guide"), NOW);
    assert!(!db.add_unpublished_article(&b));
}

#[test]
fn test_title_dedup_outside_time_window() {
    let mut db = BotDatabase::new();
    let a = make_article("tw-a", "The Rust Programming Language Book", Some("https://example.com/rust-book"), NOW);
    assert!(db.add_unpublished_article(&a));
    db.mark_article_published(&a, NOW);
    let far_future = NOW + DEDUP_TIME_WINDOW_SECS + 1;
    let b = make_article("tw-b", "The Rust Programming Language Guide Book", Some("https://other.com/rust-guide"), far_future);
    assert!(db.add_unpublished_article(&b));
}

#[test]
fn test_short_title_skips_jaccard() {
    let mut db = BotDatabase::new();
    let a = make_article("short-a", "Rust News", Some("https://example.com/rust-news-1"), NOW);
    assert!(db.add_unpublished_article(&a));
    db.mark_article_published(&a, NOW);
    let b = make_article("short-b", "Rust News", Some("https://example.com/rust-news-2"), NOW);
    assert!(db.add_unpublished_article(&b));
}

#[test]
fn queue_lists_articles_and_publishing_removes_them() {
    let mut db = BotDatabase::new();
    let a = make_article("q-1", "First Queue Entry Here", None, NOW);
    let b = make_article("q-2", "Second Queue Entry There", None, NOW);
    assert!(db.add_unpublished_article(&a));
    assert!(db.add_unpublished_article(&b));
    assert_eq!(ids(&db.get_unpublished_articles()), vec!["q-1", "q-2"]);
    assert_eq!(db.get_unpublished_count(), 2);
    db.mark_article_published(&a, NOW);
    assert_eq!(ids(&db.get_unpublished_articles()), vec!["q-2"]);
    assert!(db.is_duplicate(&a));
    db.remove_unpublished_article("q-2");
    assert_eq!(db.get_unpublished_count(), 0);
}

// ── one cycle ───────────────────────────────────────────────────

fn run_cycle(db: &mut BotDatabase, scraped: &Vec<Article>, hn_min: u32, max: usize, now: u64) -> usize {
    let added = enqueue_scraped(db, scraped, now, hn_min, 0);
    let to_publish = articles_to_publish(&db.get_unpublished_articles(), max);
    let results: Vec<(String, bool)> = to_publish.iter().map(|a| (a.id.clone(), true)).collect();
    record_publish_results(db, &to_publish, &results, now);
    added
}

#[test]
fn cycle_skips_failed_sources_and_queues_the_rest_in_order() {
    let mut db = BotDatabase::new();
    let mut hn = make_article("hn-low", "A Low Scoring Story Title", Some("https://a.example/1"), NOW);
    hn.source = "hn".to_string();
    hn.score = 5;
    let first = vec![hn, make_article("feed-1", "Some Feed Entry Title", Some("https://b.example/2"), NOW)];
    let second = vec![
        make_article("feed-2", "Another Entry With Words", Some("https://c.example/3"), NOW),
        make_article("feed-1", "Some Feed Entry Title", Some("https://b.example/2"), NOW),
    ];
    let results = vec![(Some(first), NOW), (None, NOW), (Some(second), NOW)];
    let added = enqueue_cycle_results(&mut db, &results, 10, 0);
    assert_eq!(added, 2);
    assert_eq!(ids(&db.get_unpublished_articles()), vec!["feed-1", "feed-2"]);
}

#[test]
fn queue_comes_out_in_stored_key_order() {
    let mut db = BotDatabase::new();
    for (id, title) in [("zz", "Zebra Story About Things"), ("b", "Bee Story About Other Things"), ("aa", "Aardvark Tale Of Many Words")] {
        assert!(db.add_unpublished_article(&make_article(id, title, None, NOW)));
    }
    // shorter keys first, then byte order
    assert_eq!(ids(&db.get_unpublished_articles()), vec!["b", "aa", "zz"]);
}

#[test]
fn test_full_cycle_scrape_to_publish() {
    let mut db = BotDatabase::new();
    let articles = vec![
        make_article("cycle-1", "First Article Title Here", Some("https://example.com/1"), NOW),
        make_article("cycle-2", "Second Article Title Here", Some("https://example.com/2"), NOW),
        make_article("cycle-3", "Third Article Title Here", Some("https://example.com/3"), NOW),
    ];
    assert_eq!(run_cycle(&mut db, &articles, 0, 10, NOW), 3);
    assert!(db.get_unpublished_articles().is_empty());
    assert_eq!(run_cycle(&mut db, &articles, 0, 10, NOW), 0);
    assert!(db.get_unpublished_articles().is_empty());
}

#[test]
fn test_full_cycle_score_filter() {
    let mut db = BotDatabase::new();
    let mut low = make_article("low-score", "Low Score Article Title", Some("https://example.com/low"), NOW);
    low.source = "hn".to_string();
    low.score = 5;
    let mut high = make_article("high-score", "High Score Article Title", Some("https://example.com/high"), NOW);
    high.source = "hn".to_string();
    high.score = 50;
    assert_eq!(run_cycle(&mut db, &vec![low.clone_article(), high.clone_article()], 10, 10, NOW), 1);
    assert!(db.get_unpublished_articles().is_empty());
    assert!(!db.is_duplicate(&low));
    assert!(db.is_duplicate(&high));
}

trait CloneArticle {
    fn clone_article(&self) -> Article;
}

impl CloneArticle for Article {
    fn clone_article(&self) -> Article {
        self.copy()
    }
}

#[test]
fn test_full_cycle_new_articles_second_run() {
    let mut db = BotDatabase::new();
    let first = vec![
        make_article("batch1-1", "First Batch Article One", Some("https://example.com/b1-1"), NOW),
        make_article("batch1-2", "First Batch Article Two", Some("https://example.com/b1-2"), NOW),
    ];
    assert_eq!(run_cycle(&mut db, &first, 0, 10, NOW), 2);
    let second = vec![make_article("batch2-1", "Second Batch New Article", Some("https://example.com/b2-1"), NOW)];
    assert_eq!(run_cycle(&mut db, &second, 0, 10, NOW), 1);
    assert!(db.get_unpublished_articles().is_empty());
}

#[test]
fn cycle_publishes_at_most_max_and_keeps_the_rest() {
    let mut db = BotDatabase::new();
    let arts = vec![
        make_article("m-1", "Alpha Beta Gamma Delta", None, NOW),
        make_article("m-2", "Epsilon Zeta Eta Theta", None, NOW),
        make_article("m-3", "Iota Kappa Lambda Mu", None, NOW),
    ];
    run_cycle(&mut db, &arts, 0, 2, NOW);
    assert_eq!(ids(&db.get_unpublished_articles()), vec!["m-3"]);
}

#[test]
fn failed_publication_keeps_article_queued() {
    let mut db = BotDatabase::new();
    let arts = vec![make_article("f-1", "Failing Publication Article Title", None, NOW)];
    enqueue_scraped(&mut db, &arts, NOW, 0, 0);
    let to_publish = articles_to_publish(&db.get_unpublished_articles(), 5);
    record_publish_results(&mut db, &to_publish, &vec![("f-1".to_string(), false)], NOW);
    assert_eq!(ids(&db.get_unpublished_articles()), vec!["f-1"]);
}

#[test]
fn old_articles_are_not_queued() {
    let old = make_article("old", "An Old Article Title", None, NOW);
    assert!(should_enqueue(&old, NOW + MAX_ARTICLE_AGE_SECS, 0, 0));
    assert!(!should_enqueue(&old, NOW + MAX_ARTICLE_AGE_SECS + 1, 0, 0));
    let mut undated = make_article("undated", "An Undated Article", None, NOW);
    undated.published_at = None;
    assert!(should_enqueue(&undated, NOW + 10 * MAX_ARTICLE_AGE_SECS, 0, 0));
    let future = make_article("future", "From The Future", None, NOW + 100);
    assert!(should_enqueue(&future, NOW, 0, 0));
}

#[test]
fn min_score_depends_on_source() {
    let mut a = make_article("s", "t", None, NOW);
    a.source = "hn".to_string();
    assert_eq!(get_min_score_for_article(7, 9, &a), 7);
    a.source = "lobsters".to_string();
    assert_eq!(get_min_score_for_article(7, 9, &a), 9);
    a.source = "atom:abcd".to_string();
    assert_eq!(get_min_score_for_article(7, 9, &a), 0);
}

// ── options and sources ─────────────────────────────────────────

fn opts(hn: bool, lobsters: bool, urls: &[&str], secret: Option<&str>) -> Opts {
    Opts {
        command: None,
        secret_file: secret.map(String::from),
        scrape_interval_minutes: 30,
        max_articles_per_run: 5,
        data_dir: None,
        hn,
        hn_min_score: 0,
        lobsters,
        lobsters_min_score: 0,
        atom_feed_url: urls.iter().map(|s| s.to_string()).collect(),
    }
}

#[test]
fn sources_description_names_every_source() {
    let urls = vec!["https://a.example/feed".to_string(), "https://b.example/atom".to_string()];
    assert_eq!(
        build_test_sources_description(true, true, &urls),
        "HackerNews, Lobsters, Atom:https://a.example/feed, Atom:https://b.example/atom"
    );
    assert_eq!(build_test_sources_description(false, true, &Vec::new()), "Lobsters");
    assert_eq!(build_test_sources_description(false, false, &Vec::new()), "");
    assert_eq!(build_sources_description(&opts(true, false, &["u"], None)), "HackerNews, Atom:u");
    let plan = scraper_plan(true, false, &vec!["u".to_string()]);
    assert_eq!(plan.len(), 2);
    assert_eq!(describe_source(&plan[1]), "Atom:u");
}

#[test]
fn run_options_need_secret_then_source() {
    assert!(matches!(check_run_options(&opts(true, false, &[], None)), Err(StartError::MissingSecretFile)));
    assert!(matches!(check_run_options(&opts(false, false, &[], Some("s"))), Err(StartError::NoSourcesSpecified)));
    assert_eq!(check_run_options(&opts(false, false, &["u"], Some("s"))).ok(), Some("s".to_string()));
}

// ── posts ───────────────────────────────────────────────────────

#[test]
fn hn_and_lobsters_posts_link_comments() {
    let mut a = make_article("1", "Title", Some("https://example.com/x"), NOW);
    a.source = "hn".to_string();
    a.source_url = "https://news.ycombinator.com/item?id=1".to_string();
    assert_eq!(
        format_article_post(&a),
        "##### [Title](https://example.com/x)\n\n* [\u{1F4AC} HN Comments](https://news.ycombinator.com/item?id=1)\n\n"
    );
    a.source = "lobsters".to_string();
    a.url = None;
    assert_eq!(
        format_article_post(&a),
        "##### Title\n\n* [\u{1F4AC} Lobsters Comments](https://news.ycombinator.com/item?id=1)\n\n"
    );
    a.source = "other".to_string();
    assert!(format_article_post(&a).contains("[\u{1F4AC} other Comments]"));
}

#[test]
fn atom_posts_say_who_when_and_where() {
    let mut a = make_article("1", "Title", Some("https://blog.example/p"), NOW);
    a.source = "atom:0123456789abcdef".to_string();
    a.author = "Alice".to_string();
    a.published_at = Some(1705314600);
    a.feed_title = Some("Blog".to_string());
    a.feed_link = Some("https://blog.example".to_string());
    a.feed_subtitle = Some("Notes".to_string());
    assert_eq!(
        format_article_post(&a),
        "##### [Title](https://blog.example/p)\n\nPosted by Alice on 2024-01-15 from [Blog](https://blog.example) (Notes)\n\n"
    );
    a.published_at = None;
    a.feed_link = None;
    a.feed_subtitle = None;
    assert_eq!(
        format_article_post(&a),
        "##### [Title](https://blog.example/p)\n\nPosted by Alice from Blog\n\n"
    );
    a.feed_title = None;
    a.published_at = Some(0);
    assert_eq!(format_article_post(&a), "##### [Title](https://blog.example/p)\n\nPosted by Alice on 1970-01-01\n\n");
}

#[test]
fn hn_records_post_with_hn_comments() {
    let h = HnArticle {
        hn_id: 7,
        title: "T".to_string(),
        url: None,
        hn_url: "https://news.ycombinator.com/item?id=7".to_string(),
        score: 1,
        author: "a".to_string(),
        scraped_at: 0,
    };
    assert_eq!(
        format_hn_article_post(&h),
        "##### T\n\n* [\u{1F4AC} HN Comments](https://news.ycombinator.com/item?id=7)\n\n"
    );
}

// ── pages ───────────────────────────────────────────────────────

const HN_PAGE: &str = r#"<html><body><table>
<tr class="athing" id="101"><td><span class="titleline"><a href="https://example.com/a">First &amp; Best</a></span></td></tr>
<tr><td><span class="score">42 points</span> by <a class="hnuser">alice</a></td></tr>
<tr class="athing" id="102"><td><span class="titleline"><a href="item?id=102">Ask HN: Why?</a></span></td></tr>
<tr><td><span class="score">7 points</span> by <a class="hnuser">bob</a></td></tr>
</table></body></html>"#;

#[test]
fn hn_front_page_is_scraped() {
    let arts = scrape_hn_page(HN_PAGE, 5).ok().expect("page parses");
    assert_eq!(arts.len(), 2);
    assert_eq!(arts[0].hn_id, 101);
    assert_eq!(arts[0].title, "First & Best");
    assert_eq!(arts[0].url.as_deref(), Some("https://example.com/a"));
    assert_eq!(arts[0].score, 42);
    assert_eq!(arts[0].author, "alice");
    assert_eq!(arts[0].hn_url, "https://news.ycombinator.com/item?id=101");
    assert_eq!(arts[0].scraped_at, 5);
    assert_eq!(arts[1].url.as_deref(), Some("https://news.ycombinator.com/item?id=102"));
    assert_eq!(arts[1].author, "bob");
}

#[test]
fn hn_row_with_bad_id_is_an_error() {
    let page = r#"<table><tr class="athing" id="x1"><td><span class="titleline"><a href="u">T</a></span></td></tr></table>"#;
    match scrape_hn_page(page, 0) {
        Err(ScraperError::HnIdParse { id_str }) => assert_eq!(id_str, "x1"),
        _ => panic!("expected an id error"),
    }
}

const LOBSTERS_PAGE: &str = r#"<html><body><ol>
<li class="story" data-shortid="abc123"><div class="voters"><a class="upvoter"> 17 </a></div>
<a class="u-url" href="https://example.org/post">A&nbsp;Post</a> <a class="u-author">carol</a></li>
<li class="story"><a class="u-url" href="https://example.org/skip">No id</a></li>
<li class="story" data-shortid="def456"><a class="u-url">No link</a></li>
</ol></body></html>"#;

#[test]
fn lobsters_front_page_is_scraped() {
    let arts = scrape_lobsters_page(LOBSTERS_PAGE, 9).ok().expect("page parses");
    assert_eq!(arts.len(), 2);
    assert_eq!(arts[0].id, "abc123");
    assert_eq!(arts[0].title, "A Post");
    assert_eq!(arts[0].url.as_deref(), Some("https://example.org/post"));
    assert_eq!(arts[0].score, 17);
    assert_eq!(arts[0].author, "carol");
    assert_eq!(arts[0].source, "lobsters");
    assert_eq!(arts[0].source_url, "https://lobste.rs/s/abc123");
    assert_eq!(arts[1].id, "def456");
    assert_eq!(arts[1].url, None);
    assert_eq!(arts[1].score, 0);
    assert_eq!(arts[1].author, "unknown");
}

const ATOM_FEED: &str = r#"<?xml version="1.0" encoding="utf-8"?>
<feed xmlns="http://www.w3.org/2005/Atom">
  <title>Example Blog</title>
  <subtitle>Thoughts</subtitle>
  <link href="https://blog.example/"/>
  <link rel="self" href="https://blog.example/feed.atom"/>
  <id>urn:feed</id>
  <updated>2024-01-20T00:00:00Z</updated>
  <entry>
    <title>Hello&#160;World</title>
    <id>urn:entry:1</id>
    <updated>2024-01-16T00:00:00Z</updated>
    <published>2024-01-15T10:30:00Z</published>
    <link href="https://blog.example/hello"/>
    <author><name>Dana</name></author>
  </entry>
  <entry>
    <title>No Link</title>
    <id>urn:entry:2</id>
    <updated>2024-01-17T00:00:00Z</updated>
  </entry>
</feed>"#;

#[test]
fn atom_feed_is_scraped() {
    let feed_url = "https://blog.example/feed.atom";
    let hash = rostra::bot::scraper::feed_hash(feed_url);
    let arts = match scrape_atom_page(feed_url, &hash, ATOM_FEED, 3) {
        Ok(a) => a,
        _ => panic!("feed parses"),
    };
    assert_eq!(arts.len(), 2);
    assert_eq!(arts[0].title, "Hello World");
    assert_eq!(arts[0].url.as_deref(), Some("https://blog.example/hello"));
    assert_eq!(arts[0].source_url, "https://blog.example/hello");
    assert_eq!(arts[0].author, "Dana");
    assert_eq!(arts[0].published_at, Some(1705314600));
    assert_eq!(arts[0].feed_title.as_deref(), Some("Example Blog"));
    assert_eq!(arts[0].feed_link.as_deref(), Some("https://blog.example/"));
    assert_eq!(arts[0].feed_subtitle.as_deref(), Some("Thoughts"));
    assert_eq!(arts[0].source, format!("atom:{hash}"));
    assert_eq!(arts[0].id, rostra::bot::scraper::create_article_id(feed_url, "urn:entry:1"));
    assert_eq!(arts[1].url, None);
    assert_eq!(arts[1].source_url, feed_url);
    assert_eq!(arts[1].author, "unknown");
    assert_eq!(arts[1].published_at, Some(1705449600));
}

#[test]
fn broken_atom_feed_is_an_error() {
    match scrape_atom_page("u", "h", "<not a feed", 0) {
        Err(ScraperError::AtomParse { details }) => assert!(!details.is_empty()),
        _ => panic!("expected a parse error"),
    }
}
