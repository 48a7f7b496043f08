use rostra::bot::scraper::{
    atom_source, create_article_id, extract_text, extract_url, feed_hash, hn_item_url, hn_score,
    lobsters_score, lobsters_story_url, normalize_entry_title, parse_rfc3339_date,
    resolve_hn_link, trim_str, FeedLink,
};
use scraper::{Html, Selector};

/// Helper to extract text from an HTML fragment.
/// Wraps content in a div to ensure we always have an element to select.
fn text_from_html(html: &str) -> String {
    let wrapped = format!("<div>{html}</div>");
    let fragment = Html::parse_fragment(&wrapped);
    let selector = Selector::parse("div").unwrap();
    let el = fragment.select(&selector).next().expect("div must exist");
    let nodes: Vec<String> = el.text().map(String::from).collect();
    extract_text(&nodes)
}

#[test]
fn extract_text_plain() {
    assert_eq!(text_from_html("<span>Hello World</span>"), "Hello World");
}

#[test]
fn extract_text_strips_bold() {
    assert_eq!(
        text_from_html("<span>Hello <b>World</b></span>"),
        "Hello World"
    );
}

#[test]
fn extract_text_strips_nested_tags() {
    assert_eq!(
        text_from_html("<span>A <b>B <i>C</i> D</b> E</span>"),
        "A B C D E"
    );
}

#[test]
fn extract_text_converts_nbsp_entity() {
    assert_eq!(
        text_from_html("<span>Hello&nbsp;World</span>"),
        "Hello World"
    );
}

#[test]
fn extract_text_converts_nbsp_unicode() {
    assert_eq!(
        text_from_html("<span>Hello\u{00a0}World</span>"),
        "Hello World"
    );
}

#[test]
fn extract_text_preserves_em_dash() {
    assert_eq!(
        text_from_html("<span>Hello&mdash;World</span>"),
        "Hello\u{2014}World"
    );
}

#[test]
fn extract_text_preserves_en_dash() {
    assert_eq!(
        text_from_html("<span>2020&ndash;2024</span>"),
        "2020\u{2013}2024"
    );
}

#[test]
fn extract_text_decodes_common_entities() {
    assert_eq!(text_from_html("<span>&amp;</span>"), "&");
    assert_eq!(text_from_html("<span>&lt;</span>"), "<");
    assert_eq!(text_from_html("<span>&gt;</span>"), ">");
    assert_eq!(text_from_html("<span>&quot;</span>"), "\"");
    assert_eq!(text_from_html("<span>&apos;</span>"), "'");
}

#[test]
fn extract_text_handles_mixed_content() {
    assert_eq!(
        text_from_html("<span>The&nbsp;<b>Rust</b>&mdash;Programming&nbsp;Language</span>"),
        "The Rust\u{2014}Programming Language"
    );
}

#[test]
fn extract_text_strips_links() {
    assert_eq!(
        text_from_html("<span>Check out <a href=\"https://example.com\">this link</a>!</span>"),
        "Check out this link!"
    );
}

#[test]
fn extract_text_joins_nodes_and_replaces_nbsp() {
    let nodes = vec!["a\u{a0}b".to_string(), "".to_string(), " c".to_string()];
    assert_eq!(extract_text(&nodes), "a b c");
    assert_eq!(extract_text(&Vec::new()), "");
}

#[test]
fn entry_title_replaces_nbsp() {
    assert_eq!(normalize_entry_title("Rust\u{a0}1.80"), "Rust 1.80");
}

#[test]
fn hn_score_reads_first_word() {
    assert_eq!(hn_score("123 points"), 123);
    assert_eq!(hn_score("  7 point"), 7);
    assert_eq!(hn_score("points"), 0);
    assert_eq!(hn_score(""), 0);
    assert_eq!(hn_score("99999999999 points"), 0);
}

#[test]
fn lobsters_score_trims_and_parses() {
    assert_eq!(lobsters_score(&Some(" 42\n".to_string())), 42);
    assert_eq!(lobsters_score(&Some("x".to_string())), 0);
    assert_eq!(lobsters_score(&None), 0);
}

#[test]
fn trim_matches_str_trim() {
    assert_eq!(trim_str("  a b \t\n"), "a b");
    assert_eq!(trim_str("   "), "");
}

#[test]
fn hn_links_are_resolved() {
    assert_eq!(
        resolve_hn_link("item?id=123"),
        "https://news.ycombinator.com/item?id=123"
    );
    assert_eq!(resolve_hn_link("https://example.com/x"), "https://example.com/x");
    assert_eq!(hn_item_url(42), "https://news.ycombinator.com/item?id=42");
    assert_eq!(lobsters_story_url("abc123"), "https://lobste.rs/s/abc123");
}

fn link(rel: Option<&str>, href: &str) -> FeedLink {
    FeedLink {
        rel: rel.map(String::from),
        href: href.to_string(),
    }
}

#[test]
fn extract_url_prefers_alternate_then_first() {
    let links = vec![link(Some("self"), "a"), link(Some("alternate"), "b"), link(None, "c")];
    assert_eq!(extract_url(&links), Some("b".to_string()));
    let links = vec![link(Some("self"), "a"), link(None, "c")];
    assert_eq!(extract_url(&links), Some("c".to_string()));
    let links = vec![link(Some("self"), "a"), link(Some("related"), "b")];
    assert_eq!(extract_url(&links), Some("a".to_string()));
    assert_eq!(extract_url(&Vec::new()), None);
}

#[test]
fn rfc3339_dates_parse_as_utc() {
    assert_eq!(parse_rfc3339_date("1970-01-01T00:00:00Z"), Some(0));
    assert_eq!(parse_rfc3339_date("2024-01-15T10:30:00Z"), Some(1705314600));
    assert_eq!(parse_rfc3339_date("2024-01-15T10:30:00+02:00"), Some(1705314600));
    assert_eq!(parse_rfc3339_date("2024-03-01T00:00:00Z"), Some(1709251200));
    assert_eq!(parse_rfc3339_date("2000-02-29T12:00:00Z"), Some(951825600));
}

#[test]
fn rfc3339_rejects_short_or_malformed() {
    assert_eq!(parse_rfc3339_date("2024-01-15"), None);
    assert_eq!(parse_rfc3339_date("abcd-01-15T10:30:00Z"), None);
    assert_eq!(parse_rfc3339_date("2024-xx-15T10:30:00Z"), None);
    assert_eq!(parse_rfc3339_date("2024-13-01T00:00:00Z"), None);
    assert_eq!(parse_rfc3339_date("2024-14-01T00:00:00Z"), None);
    assert_eq!(parse_rfc3339_date("2024-00-10T00:00:00Z"), None);
    assert_eq!(parse_rfc3339_date("2024-01-00T00:00:00Z"), None);
    assert_eq!(parse_rfc3339_date("2024-12-31T23:59:59Z"), Some(1735689599));
}

#[test]
fn feed_ids_are_hex_of_blake3() {
    let h = feed_hash("https://example.com/feed.atom");
    assert_eq!(h.len(), 16);
    assert!(h.chars().all(|c| c.is_ascii_hexdigit() && !c.is_ascii_uppercase()));
    let expected = blake3::hash(b"https://example.com/feed.atom");
    assert_eq!(h, data_encoding::HEXLOWER.encode(&expected.as_bytes()[..8]));

    let id = create_article_id("https://example.com/feed.atom", "entry-1");
    let expected = blake3::hash(b"https://example.com/feed.atom:entry-1");
    assert_eq!(id, data_encoding::HEXLOWER.encode(&expected.as_bytes()[..16]));
    assert_ne!(id, create_article_id("https://example.com/feed.atom", "entry-2"));

    assert_eq!(atom_source(&h), format!("atom:{h}"));
}
