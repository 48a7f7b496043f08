//! The text of the posts the bots publish. Posting it is done by the
//! caller.
use vstd::prelude::*;
use crate::bot::scraper::{days_before_month, days_before_year, month_len, spec_is_leap_year};
use crate::bot::tables::{Article, ArticleView, HnArticle, HnArticleView, Timestamp};
use crate::num::{decimal, decimal_pad2, push_decimal, push_decimal_pad2};
use crate::text::{is_prefix, push_str, starts_with, str_eq};

verus! {

/// The latest second that `time` represents without its `large-dates`
/// feature: 9999-12-31T23:59:59Z.
pub const MAX_UTC_SECS: u64 = 253402300799;

/// The UTC calendar date `(year, month, day)` of the Unix time `secs`, as
/// `time::OffsetDateTime::from_unix_timestamp` gives it, or `None` when it
/// is out of the range the crate represents.
pub uninterp spec fn spec_utc_date(secs: u64) -> Option<(i32, u8, u8)>;

/// `(year, month, day)` is the UTC calendar date of the Unix time `secs`:
/// a valid proleptic Gregorian date whose days since 1970-01-01 are the
/// whole days in `secs`.
pub open spec fn is_utc_date_of(d: (i32, u8, u8), secs: u64) -> bool {
    &&& 1970 <= d.0
    &&& 1 <= d.1 <= 12
    &&& 1 <= d.2 <= month_len(d.0 as int, d.1 as int)
    &&& days_before_year(d.0 as int) + days_before_month(d.1 as int, spec_is_leap_year(d.0 as int))
        + d.2 - 1 == secs as int / 86400
}

/// `time::OffsetDateTime::from_unix_timestamp` and its `year`, `month` and
/// `day`: the UTC calendar date of a Unix time. Its documentation gives the
/// date of the timestamp in UTC, for every timestamp up to the end of year
/// 9999; the date arithmetic is not restated beyond that characterization.
#[verifier::external_body]
fn utc_date(secs: u64) -> (r: Option<(i32, u8, u8)>)
    ensures
        r == spec_utc_date(secs),
        r matches Some(d) ==> is_utc_date_of(d, secs),
        secs <= MAX_UTC_SECS ==> r is Some,
{
    let t = i64::try_from(secs).ok()?;
    let dt = time::OffsetDateTime::from_unix_timestamp(t).ok()?;
    Some((dt.year(), dt.month() as u8, dt.day()))
}

/// The heading line of a post: the title, linked to the URL when there is
/// one.
pub open spec fn heading(title: Seq<char>, url: Option<Seq<char>>) -> Seq<char> {
    match url {
        Some(u) => "##### ["@ + title + "]("@ + u + ")\n\n"@,
        None => "##### "@ + title + "\n\n"@,
    }
}

/// The `" on YYYY-MM-DD"` part of an Atom post.
pub open spec fn date_part(published_at: Option<Timestamp>) -> Seq<char> {
    match published_at {
        Some(p) => match spec_utc_date(p) {
            Some(d) => " on "@ + decimal(d.0 as nat) + "-"@ + decimal_pad2(d.1 as nat) + "-"@
                + decimal_pad2(d.2 as nat),
            None => seq![],
        },
        None => seq![],
    }
}

/// The `" from {feed}"` part of an Atom post.
pub open spec fn from_part(a: ArticleView) -> Seq<char> {
    match a.feed_title {
        Some(ft) => " from "@ + match a.feed_link {
            Some(l) => "["@ + ft + "]("@ + l + ")"@,
            None => ft,
        } + match a.feed_subtitle {
            Some(s) => " ("@ + s + ")"@,
            None => seq![],
        },
        None => seq![],
    }
}

/// The name of an article's source in its comments link.
pub open spec fn source_label(source: Seq<char>) -> Seq<char> {
    if source == "hn"@ {
        "HN"@
    } else if source == "lobsters"@ {
        "Lobsters"@
    } else {
        source
    }
}

/// The body of the post for an article: for an Atom article the heading,
/// then who posted it, when and in which feed; for others the heading and a
/// link to the comments.
pub open spec fn spec_article_post(a: ArticleView) -> Seq<char> {
    if is_prefix("atom:"@, a.source) {
        heading(a.title, a.url) + "Posted by "@ + a.author + date_part(a.published_at) + from_part(a)
            + "\n"@ + "\n"@
    } else {
        heading(a.title, a.url) + "* [\u{1F4AC} "@ + source_label(a.source) + " Comments]("@
            + a.source_url + ")\n"@ + "\n"@
    }
}

/// Appends the heading line.
fn push_heading(post: &mut String, title: &str, url: &Option<String>)
    ensures
        final(post)@ == old(post)@ + heading(
            title@,
            match url {
                Some(u) => Some(u@),
                None => None,
            },
        ),
{
    match url {
        Some(u) => {
            push_str(post, "##### [");
            push_str(post, title);
            push_str(post, "](");
            push_str(post, u.as_str());
            push_str(post, ")\n\n");
        },
        None => {
            push_str(post, "##### ");
            push_str(post, title);
            push_str(post, "\n\n");
        },
    }
}

/// Appends the date part of an Atom post.
fn push_date(post: &mut String, published_at: Option<Timestamp>)
    ensures
        final(post)@ == old(post)@ + date_part(published_at),
{
    match published_at {
        Some(p) => match utc_date(p) {
            Some((y, m, d)) => {
                push_str(post, " on ");
                push_decimal(post, y as u64);
                push_str(post, "-");
                push_decimal_pad2(post, m as u64);
                push_str(post, "-");
                push_decimal_pad2(post, d as u64);
            },
            None => {},
        },
        None => {},
    }
}

/// Format an article into a Rostra post body.
pub fn format_article_post(article: &Article) -> (r: String)
    ensures
        r@ == spec_article_post(article@),
{
    let mut post = String::new();
    push_heading(&mut post, article.title.as_str(), &article.url);
    if starts_with(article.source.as_str(), "atom:") {
        push_str(&mut post, "Posted by ");
        push_str(&mut post, article.author.as_str());
        push_date(&mut post, article.published_at);
        match &article.feed_title {
            Some(ft) => {
                push_str(&mut post, " from ");
                match &article.feed_link {
                    Some(l) => {
                        push_str(&mut post, "[");
                        push_str(&mut post, ft.as_str());
                        push_str(&mut post, "](");
                        push_str(&mut post, l.as_str());
                        push_str(&mut post, ")");
                    },
                    None => push_str(&mut post, ft.as_str()),
                }
                match &article.feed_subtitle {
                    Some(s) => {
                        push_str(&mut post, " (");
                        push_str(&mut post, s.as_str());
                        push_str(&mut post, ")");
                    },
                    None => {},
                }
            },
            None => {},
        }
        push_str(&mut post, "\n");
    } else {
        push_str(&mut post, "* [\u{1F4AC} ");
        if str_eq(article.source.as_str(), "hn") {
            push_str(&mut post, "HN");
        } else if str_eq(article.source.as_str(), "lobsters") {
            push_str(&mut post, "Lobsters");
        } else {
            push_str(&mut post, article.source.as_str());
        }
        push_str(&mut post, " Comments](");
        push_str(&mut post, article.source_url.as_str());
        push_str(&mut post, ")\n");
    }
    push_str(&mut post, "\n");
    assert(post@ =~= spec_article_post(article@));
    post
}

/// The body of the post for a HackerNews record.
pub open spec fn spec_hn_post(a: HnArticleView) -> Seq<char> {
    heading(a.title, a.url) + "* [\u{1F4AC} HN Comments]("@ + a.hn_url + ")\n"@ + "\n"@
}

/// Format a HackerNews record into a Rostra post body.
pub fn format_hn_article_post(article: &HnArticle) -> (r: String)
    ensures
        r@ == spec_hn_post(article@),
{
    let mut post = String::new();
    push_heading(&mut post, article.title.as_str(), &article.url);
    push_str(&mut post, "* [\u{1F4AC} HN Comments](");
    push_str(&mut post, article.hn_url.as_str());
    push_str(&mut post, ")\n");
    push_str(&mut post, "\n");
    assert(post@ =~= spec_hn_post(article@));
    post
}

} // verus!
