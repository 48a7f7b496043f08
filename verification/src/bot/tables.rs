//! Records the bot keeps about articles.
use vstd::prelude::*;
use crate::num::{decimal, decimal_string};
use crate::text::push_str;

verus! {

/// Seconds since the Unix epoch.
pub type Timestamp = u64;

/// An article scraped from one of the sources.
pub struct Article {
    pub id: String,
    pub title: String,
    pub url: Option<String>,
    pub source_url: String,
    pub score: u32,
    pub author: String,
    pub scraped_at: Timestamp,
    pub source: String,
    /// Feed title (for Atom feeds)
    pub feed_title: Option<String>,
    /// Feed link/homepage URL (for Atom feeds)
    pub feed_link: Option<String>,
    /// Feed subtitle/description (for Atom feeds)
    pub feed_subtitle: Option<String>,
    /// Publication date of the article
    pub published_at: Option<Timestamp>,
}

/// A HackerNews story in the legacy record format.
pub struct HnArticle {
    pub hn_id: u32,
    pub title: String,
    pub url: Option<String>,
    pub hn_url: String,
    pub score: u32,
    pub author: String,
    pub scraped_at: Timestamp,
}

/// The normalized title of a published article and the time it is dated by.
pub struct TitleEntry {
    pub normalized_title: String,
    pub article_timestamp: Timestamp,
}

/// An article as plain values.
pub struct ArticleView {
    pub id: Seq<char>,
    pub title: Seq<char>,
    pub url: Option<Seq<char>>,
    pub source_url: Seq<char>,
    pub score: u32,
    pub author: Seq<char>,
    pub scraped_at: Timestamp,
    pub source: Seq<char>,
    pub feed_title: Option<Seq<char>>,
    pub feed_link: Option<Seq<char>>,
    pub feed_subtitle: Option<Seq<char>>,
    pub published_at: Option<Timestamp>,
}

/// A legacy HackerNews record as plain values.
pub struct HnArticleView {
    pub hn_id: u32,
    pub title: Seq<char>,
    pub url: Option<Seq<char>>,
    pub hn_url: Seq<char>,
    pub score: u32,
    pub author: Seq<char>,
    pub scraped_at: Timestamp,
}

impl View for Article {
    type V = ArticleView;

    open spec fn view(&self) -> ArticleView {
        ArticleView {
            id: self.id@,
            title: self.title@,
            url: opt_view(self.url),
            source_url: self.source_url@,
            score: self.score,
            author: self.author@,
            scraped_at: self.scraped_at,
            source: self.source@,
            feed_title: opt_view(self.feed_title),
            feed_link: opt_view(self.feed_link),
            feed_subtitle: opt_view(self.feed_subtitle),
            published_at: self.published_at,
        }
    }
}

impl View for HnArticle {
    type V = HnArticleView;

    open spec fn view(&self) -> HnArticleView {
        HnArticleView {
            hn_id: self.hn_id,
            title: self.title@,
            url: opt_view(self.url),
            hn_url: self.hn_url@,
            score: self.score,
            author: self.author@,
            scraped_at: self.scraped_at,
        }
    }
}

/// The generic article that a legacy HackerNews record stands for: its id
/// is the decimal HN id and its source `"hn"`.
pub open spec fn hn_to_article(h: HnArticleView) -> ArticleView {
    ArticleView {
        id: decimal(h.hn_id as nat),
        title: h.title,
        url: h.url,
        source_url: h.hn_url,
        score: h.score,
        author: h.author,
        scraped_at: h.scraped_at,
        source: "hn"@,
        feed_title: None,
        feed_link: None,
        feed_subtitle: None,
        published_at: None,
    }
}

/// The view of an optional string.
pub open spec fn opt_view(o: Option<String>) -> Option<Seq<char>> {
    match o {
        Some(s) => Some(s@),
        None => None,
    }
}

/// Copies an optional string.
pub fn clone_opt(o: &Option<String>) -> (r: Option<String>)
    ensures
        opt_view(r) == opt_view(*o),
{
    match o {
        Some(s) => Some(s.clone()),
        None => None,
    }
}

impl Article {
    /// A field-by-field copy.
    pub fn copy(&self) -> (r: Article)
        ensures
            r@ == self@,
    {
        Article {
            id: self.id.clone(),
            title: self.title.clone(),
            url: clone_opt(&self.url),
            source_url: self.source_url.clone(),
            score: self.score,
            author: self.author.clone(),
            scraped_at: self.scraped_at,
            source: self.source.clone(),
            feed_title: clone_opt(&self.feed_title),
            feed_link: clone_opt(&self.feed_link),
            feed_subtitle: clone_opt(&self.feed_subtitle),
            published_at: self.published_at,
        }
    }

    /// The generic article for a legacy HackerNews record (`From<HnArticle>`).
    pub fn from_hn(hn_article: HnArticle) -> (r: Article)
        ensures
            r@ == hn_to_article(hn_article@),
    {
        let mut source = String::new();
        push_str(&mut source, "hn");
        Article {
            id: decimal_string(hn_article.hn_id as u64),
            title: hn_article.title,
            url: hn_article.url,
            source_url: hn_article.hn_url,
            score: hn_article.score,
            author: hn_article.author,
            scraped_at: hn_article.scraped_at,
            source,
            feed_title: None,
            feed_link: None,
            feed_subtitle: None,
            published_at: None,
        }
    }
}

impl HnArticle {
    /// A field-by-field copy.
    pub fn copy(&self) -> (r: HnArticle)
        ensures
            r@ == self@,
    {
        HnArticle {
            hn_id: self.hn_id,
            title: self.title.clone(),
            url: clone_opt(&self.url),
            hn_url: self.hn_url.clone(),
            score: self.score,
            author: self.author.clone(),
            scraped_at: self.scraped_at,
        }
    }
}

impl View for TitleEntry {
    type V = (Seq<char>, Timestamp);

    open spec fn view(&self) -> (Seq<char>, Timestamp) {
        (self.normalized_title@, self.article_timestamp)
    }
}

} // verus!
