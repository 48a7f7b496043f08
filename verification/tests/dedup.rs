use rostra::bot::dedup::{
    article_timestamp, articles_are_close_in_time, jaccard_counts, normalize_title, normalize_url,
    title_tokens, tokens_similar, DEDUP_TIME_WINDOW_SECS,
};
use rostra::bot::tables::Article;

fn set(items: &[&str]) -> Vec<String> {
    items.iter().map(|s| s.to_string()).collect()
}

fn ratio(a: &Vec<String>, b: &Vec<String>) -> f64 {
    let (shared, union) = jaccard_counts(a, b);
    if union == 0 {
        1.0
    } else {
        shared as f64 / union as f64
    }
}

// ── normalize_url ───────────────────────────────────────────────

#[test]
fn normalize_url_strips_scheme_and_www() {
    assert_eq!(
        normalize_url("https://www.example.com/page"),
        Some("example.com/page".into())
    );
    assert_eq!(
        normalize_url("http://example.com/page"),
        Some("example.com/page".into())
    );
}

#[test]
fn normalize_url_strips_trailing_slash() {
    assert_eq!(
        normalize_url("https://example.com/page/"),
        Some("example.com/page".into())
    );
    assert_eq!(
        normalize_url("https://example.com/"),
        Some("example.com".into())
    );
}

#[test]
fn normalize_url_strips_fragment() {
    assert_eq!(
        normalize_url("https://example.com/page#section"),
        Some("example.com/page".into())
    );
}

#[test]
fn normalize_url_strips_tracking_params() {
    assert_eq!(
        normalize_url("https://example.com/page?utm_source=twitter&id=42"),
        Some("example.com/page?id=42".into())
    );
    assert_eq!(
        normalize_url("https://example.com/page?fbclid=abc&gclid=xyz"),
        Some("example.com/page".into())
    );
    assert_eq!(
        normalize_url("https://example.com/page?ref=homepage&utm_medium=email"),
        Some("example.com/page".into())
    );
}

#[test]
fn normalize_url_sorts_params() {
    assert_eq!(
        normalize_url("https://example.com/page?z=1&a=2"),
        Some("example.com/page?a=2&z=1".into())
    );
}

#[test]
fn normalize_url_invalid_returns_none() {
    assert_eq!(normalize_url("not a url"), None);
    assert_eq!(normalize_url(""), None);
}

#[test]
fn normalize_url_preserves_path_case() {
    assert_eq!(
        normalize_url("https://example.com/CaseSensitive"),
        Some("example.com/CaseSensitive".into())
    );
}

#[test]
fn normalize_url_same_article_different_tracking() {
    let a = normalize_url("https://example.com/article?utm_source=hn");
    let b = normalize_url("https://www.example.com/article?utm_source=lobsters&ref=sidebar");
    assert_eq!(a, b);
}

#[test]
fn normalize_url_keeps_port_out_and_query_values() {
    assert_eq!(
        normalize_url("https://example.com/a/b//?q=rust%20lang"),
        Some("example.com/a/b?q=rust lang".into())
    );
}

// ── normalize_title ─────────────────────────────────────────────

#[test]
fn normalize_title_lowercases_and_strips_punctuation() {
    assert_eq!(
        normalize_title("Hello, World! — It's a Test."),
        "hello world it s a test"
    );
}

#[test]
fn normalize_title_collapses_whitespace() {
    assert_eq!(normalize_title("  foo   bar  baz  "), "foo bar baz");
}

#[test]
fn normalize_title_empty() {
    assert_eq!(normalize_title(""), "");
}

#[test]
fn normalize_title_is_idempotent_on_example() {
    let once = normalize_title("The Rust Programming Language (2nd Ed.)");
    assert_eq!(once, "the rust programming language 2nd ed");
    assert_eq!(normalize_title(&once), once);
}

// ── title_tokens ────────────────────────────────────────────────

#[test]
fn title_tokens_basic() {
    let tokens = title_tokens("foo bar baz");
    assert_eq!(tokens.len(), 3);
    assert!(tokens.contains(&"foo".to_string()));
    assert!(tokens.contains(&"bar".to_string()));
    assert!(tokens.contains(&"baz".to_string()));
}

#[test]
fn title_tokens_deduplicates() {
    let tokens = title_tokens("foo foo bar");
    assert_eq!(tokens.len(), 2);
}

// ── jaccard ─────────────────────────────────────────────────────

#[test]
fn jaccard_identical() {
    let a = set(&["foo", "bar", "baz"]);
    assert_eq!(jaccard_counts(&a, &a), (3, 3));
    assert!((ratio(&a, &a) - 1.0).abs() < f64::EPSILON);
}

#[test]
fn jaccard_disjoint() {
    let a = set(&["foo", "bar"]);
    let b = set(&["baz", "qux"]);
    assert_eq!(jaccard_counts(&a, &b), (0, 4));
    assert!(ratio(&a, &b).abs() < f64::EPSILON);
}

#[test]
fn jaccard_partial_overlap() {
    let a = set(&["a", "b", "c"]);
    let b = set(&["b", "c", "d"]);
    assert_eq!(jaccard_counts(&a, &b), (2, 4));
    assert!((ratio(&a, &b) - 0.5).abs() < f64::EPSILON);
}

#[test]
fn jaccard_both_empty() {
    let a: Vec<String> = Vec::new();
    let b: Vec<String> = Vec::new();
    assert_eq!(jaccard_counts(&a, &b), (0, 0));
    assert!((ratio(&a, &b) - 1.0).abs() < f64::EPSILON);
    assert!(tokens_similar(&a, &b));
}

#[test]
fn jaccard_above_threshold() {
    let a = set(&["the", "rust", "programming", "language", "book"]);
    let b = set(&["the", "rust", "programming", "language", "guide", "book"]);
    assert_eq!(jaccard_counts(&a, &b), (5, 6));
    assert!(0.8 < ratio(&a, &b));
    assert!(tokens_similar(&a, &b));
}

#[test]
fn jaccard_below_threshold() {
    let a = set(&["rust", "is", "great", "for"]);
    let b = set(&["python", "is", "great", "too"]);
    assert!(ratio(&a, &b) < 0.8);
    assert!(!tokens_similar(&a, &b));
}

#[test]
fn jaccard_exactly_at_threshold_is_similar() {
    // 4 of 5 tokens shared: 0.8 is not below the threshold.
    let a = set(&["a", "b", "c", "d"]);
    let b = set(&["a", "b", "c", "d", "e"]);
    assert_eq!(jaccard_counts(&a, &b), (4, 5));
    assert!(tokens_similar(&a, &b));
}

// ── articles_are_close_in_time ──────────────────────────────────

#[test]
fn close_in_time_same_timestamp() {
    let t = 1_000_000u64;
    assert!(articles_are_close_in_time(t, t));
}

#[test]
fn close_in_time_within_window() {
    let a = 1_000_000u64;
    let b = 1_000_000u64 + DEDUP_TIME_WINDOW_SECS - 1;
    assert!(articles_are_close_in_time(a, b));
    assert!(articles_are_close_in_time(b, a));
}

#[test]
fn close_in_time_exactly_at_boundary() {
    let a = 1_000_000u64;
    let b = 1_000_000u64 + DEDUP_TIME_WINDOW_SECS;
    assert!(!articles_are_close_in_time(a, b));
}

#[test]
fn close_in_time_outside_window() {
    let a = 1_000_000u64;
    let b = 1_000_000u64 + DEDUP_TIME_WINDOW_SECS + 1;
    assert!(!articles_are_close_in_time(a, b));
    assert!(!articles_are_close_in_time(b, a));
}

// ── article_timestamp ───────────────────────────────────────────

fn test_article(published_at: Option<u64>) -> Article {
    Article {
        id: "test".into(),
        title: "Test".into(),
        url: None,
        source_url: "https://example.com".into(),
        score: 0,
        author: "author".into(),
        scraped_at: 100,
        source: "test".into(),
        feed_title: None,
        feed_link: None,
        feed_subtitle: None,
        published_at,
    }
}

#[test]
fn article_timestamp_prefers_published_at() {
    assert_eq!(article_timestamp(&test_article(Some(200))), 200);
}

#[test]
fn article_timestamp_falls_back_to_scraped_at() {
    assert_eq!(article_timestamp(&test_article(None)), 100);
}
