//! The bot's article queue and its record of published articles, with
//! three-layer deduplication.
//!
//! The six tables are those the bot keeps in the client database: the queue
//! of unpublished articles, the published ids, the normalized URLs and the
//! normalized titles of published articles, and the two legacy HackerNews
//! tables. Reading and writing them to disk is done by the caller; this type
//! holds their contents and decides every change.
use vstd::prelude::*;
use crate::bot::dedup::{
    article_timestamp, articles_are_close_in_time, close_in_time, normalize_title,
    lemma_shared_count_le, normalize_url, shared_count, similar_counts, spec_article_timestamp, spec_normalize_title,
    spec_normalize_url, spec_title_tokens, title_tokens, tokens_similar, MIN_TITLE_TOKENS,
};
use crate::bot::tables::{
    hn_to_article, Article, ArticleView, HnArticle, HnArticleView, TitleEntry, Timestamp,
};
use crate::kv::{
    has_key, key_index, keys_unique, lemma_key_index, lemma_put, lemma_remove, put, put_str,
    put_u32, remove_key, remove_str, remove_u32, str_table_view, u32_table_view, value_at,
    find_str_key, find_u32_key, lemma_str_key_order, str_key_less, str_key_lt, str_keys_unique, u32_keys_unique,
};
use crate::num::{parse_u32, spec_parse_u32};
use crate::text::{str_eq, views};

verus! {

/// The tables as plain values.
pub struct BotDbView {
    /// Article id → article waiting to be published.
    pub unpublished: Seq<(Seq<char>, ArticleView)>,
    /// Article id → time it was published.
    pub published: Seq<(Seq<char>, Timestamp)>,
    /// Normalized URL → id of the published article.
    pub published_urls: Seq<(Seq<char>, Seq<char>)>,
    /// Article id → normalized title and the time the article is dated by.
    pub published_titles: Seq<(Seq<char>, (Seq<char>, Timestamp))>,
    /// Legacy: HN id → HN article waiting to be published.
    pub hn_unpublished: Seq<(u32, HnArticleView)>,
    /// Legacy: HN id → time it was published.
    pub hn_published: Seq<(u32, Timestamp)>,
}

/// The article queue and the record of published articles.
pub struct BotDatabase {
    unpublished: Vec<(String, Article)>,
    published: Vec<(String, Timestamp)>,
    published_urls: Vec<(String, String)>,
    published_titles: Vec<(String, TitleEntry)>,
    hn_unpublished: Vec<(u32, HnArticle)>,
    hn_published: Vec<(u32, Timestamp)>,
}

/// The six tables as stored.
pub struct BotTables {
    pub unpublished: Vec<(String, Article)>,
    pub published: Vec<(String, Timestamp)>,
    pub published_urls: Vec<(String, String)>,
    pub published_titles: Vec<(String, TitleEntry)>,
    pub hn_unpublished: Vec<(u32, HnArticle)>,
    pub hn_published: Vec<(u32, Timestamp)>,
}

impl View for BotTables {
    type V = BotDbView;

    open spec fn view(&self) -> BotDbView {
        BotDbView {
            unpublished: str_table_view(self.unpublished@),
            published: str_table_view(self.published@),
            published_urls: str_table_view(self.published_urls@),
            published_titles: str_table_view(self.published_titles@),
            hn_unpublished: u32_table_view(self.hn_unpublished@),
            hn_published: u32_table_view(self.hn_published@),
        }
    }
}

impl View for BotDatabase {
    type V = BotDbView;

    closed spec fn view(&self) -> BotDbView {
        BotDbView {
            unpublished: str_table_view(self.unpublished@),
            published: str_table_view(self.published@),
            published_urls: str_table_view(self.published_urls@),
            published_titles: str_table_view(self.published_titles@),
            hn_unpublished: u32_table_view(self.hn_unpublished@),
            hn_published: u32_table_view(self.hn_published@),
        }
    }
}

impl BotDbView {
    /// Every table has distinct keys.
    pub open spec fn wf(self) -> bool {
        &&& keys_unique(self.unpublished)
        &&& keys_unique(self.published)
        &&& keys_unique(self.published_urls)
        &&& keys_unique(self.published_titles)
        &&& keys_unique(self.hn_unpublished)
        &&& keys_unique(self.hn_published)
    }

    /// No tables hold anything.
    pub open spec fn is_empty(self) -> bool {
        &&& self.unpublished.len() == 0
        &&& self.published.len() == 0
        &&& self.published_urls.len() == 0
        &&& self.published_titles.len() == 0
        &&& self.hn_unpublished.len() == 0
        &&& self.hn_published.len() == 0
    }

    /// Layer 1: the id is already published or queued, in the current or,
    /// for a HackerNews article with a numeric id, the legacy tables.
    pub open spec fn id_duplicate(self, a: ArticleView) -> bool {
        ||| has_key(self.published, a.id)
        ||| (a.source == "hn"@ && match spec_parse_u32(a.id) {
            Some(n) => has_key(self.hn_published, n) || has_key(self.hn_unpublished, n),
            None => false,
        })
        ||| has_key(self.unpublished, a.id)
    }

    /// Layer 2: the URL normalizes to the URL of a published or queued
    /// article.
    pub open spec fn url_duplicate(self, a: ArticleView) -> bool {
        match a.url {
            None => false,
            Some(u) => match spec_normalize_url(u) {
                None => false,
                Some(nu) => {
                    ||| has_key(self.published_urls, nu)
                    ||| exists|i: int|
                        0 <= i < self.unpublished.len() && match (#[trigger] self.unpublished[i]).1.url {
                            Some(qu) => spec_normalize_url(qu) == Some(nu),
                            None => false,
                        }
                },
            },
        }
    }

    /// Layer 3: the normalized title is similar to the title of a published
    /// or queued article dated close to it.
    pub open spec fn title_duplicate(self, a: ArticleView) -> bool {
        let t = spec_normalize_title(a.title);
        let ts = spec_article_timestamp(a);
        &&& MIN_TITLE_TOKENS <= spec_title_tokens(t).len()
        &&& {
            ||| exists|i: int|
                0 <= i < self.published_titles.len() && {
                    let e = (#[trigger] self.published_titles[i]).1;
                    close_in_time(ts, e.1) && titles_match(t, e.0)
                }
            ||| exists|i: int|
                0 <= i < self.unpublished.len() && {
                    let q = (#[trigger] self.unpublished[i]).1;
                    close_in_time(ts, spec_article_timestamp(q)) && titles_match(
                        t,
                        spec_normalize_title(q.title),
                    )
                }
        }
    }

    /// The article duplicates one already published or queued.
    pub open spec fn is_duplicate(self, a: ArticleView) -> bool {
        self.id_duplicate(a) || self.url_duplicate(a) || self.title_duplicate(a)
    }

    /// The tables after queueing `a`.
    pub open spec fn with_queued(self, a: ArticleView) -> BotDbView {
        BotDbView { unpublished: put(self.unpublished, a.id, a), ..self }
    }

    /// The tables after recording `a` as published at `at`.
    pub open spec fn with_published(self, a: ArticleView, at: Timestamp) -> BotDbView {
        let legacy = spec_parse_u32(a.id);
        let hn_unpublished = match legacy {
            Some(n) => remove_key(self.hn_unpublished, n),
            None => self.hn_unpublished,
        };
        let hn_published = match legacy {
            Some(n) => put(self.hn_published, n, at),
            None => self.hn_published,
        };
        let published_urls = match a.url {
            Some(u) => match spec_normalize_url(u) {
                Some(nu) => put(self.published_urls, nu, a.id),
                None => self.published_urls,
            },
            None => self.published_urls,
        };
        let dated = match a.published_at {
            Some(t) => t,
            None => at,
        };
        BotDbView {
            unpublished: remove_key(self.unpublished, a.id),
            published: put(self.published, a.id, at),
            published_urls,
            published_titles: put(
                self.published_titles,
                a.id,
                (spec_normalize_title(a.title), dated),
            ),
            hn_unpublished,
            hn_published,
        }
    }

    /// The articles waiting to be published, as the tables hold them: the
    /// queue, then the legacy HackerNews queue converted to articles.
    pub open spec fn unpublished_articles(self) -> Seq<ArticleView> {
        self.unpublished.map_values(|p: (Seq<char>, ArticleView)| p.1) + self.hn_unpublished.map_values(
            |p: (u32, HnArticleView)| hn_to_article(p.1),
        )
    }
}

/// Two normalized titles have at least `MIN_TITLE_TOKENS` tokens each and a
/// Jaccard similarity of at least 0.8.
pub open spec fn titles_match(t1: Seq<char>, t2: Seq<char>) -> bool {
    let a = spec_title_tokens(t1);
    let b = spec_title_tokens(t2);
    &&& MIN_TITLE_TOKENS <= a.len()
    &&& MIN_TITLE_TOKENS <= b.len()
    &&& similar_counts(shared_count(a, b), (a.len() + b.len() - shared_count(a, b)) as nat)
}

impl BotDatabase {
    /// The tables' contents are well formed.
    pub open spec fn wf(&self) -> bool {
        self@.wf()
    }

    /// A database with empty tables.
    pub fn new() -> (db: BotDatabase)
        ensures
            db.wf(),
            db@.is_empty(),
    {
        let db = BotDatabase {
            unpublished: Vec::new(),
            published: Vec::new(),
            published_urls: Vec::new(),
            published_titles: Vec::new(),
            hn_unpublished: Vec::new(),
            hn_published: Vec::new(),
        };
        assert(db@.unpublished =~= Seq::empty());
        assert(db@.published =~= Seq::empty());
        assert(db@.published_urls =~= Seq::empty());
        assert(db@.published_titles =~= Seq::empty());
        assert(db@.hn_unpublished =~= Seq::empty());
        assert(db@.hn_published =~= Seq::empty());
        db
    }

    /// The database holding stored tables; `None` when a table has a key
    /// twice.
    pub fn from_tables(tables: BotTables) -> (r: Option<BotDatabase>)
        ensures
            match r {
                Some(db) => db.wf() && db@ == tables@,
                None => !tables@.wf(),
            },
    {
        if !str_keys_unique(&tables.unpublished) || !str_keys_unique(&tables.published) || !str_keys_unique(
            &tables.published_urls,
        ) || !str_keys_unique(&tables.published_titles) || !u32_keys_unique(&tables.hn_unpublished)
            || !u32_keys_unique(&tables.hn_published) {
            return None;
        }
        Some(
            BotDatabase {
                unpublished: tables.unpublished,
                published: tables.published,
                published_urls: tables.published_urls,
                published_titles: tables.published_titles,
                hn_unpublished: tables.hn_unpublished,
                hn_published: tables.hn_published,
            },
        )
    }

    /// The tables, to be stored.
    pub fn into_tables(self) -> (r: BotTables)
        ensures
            r@ == self@,
    {
        BotTables {
            unpublished: self.unpublished,
            published: self.published,
            published_urls: self.published_urls,
            published_titles: self.published_titles,
            hn_unpublished: self.hn_unpublished,
            hn_published: self.hn_published,
        }
    }

    fn id_duplicate(&self, article: &Article) -> (r: bool)
        requires
            self.wf(),
        ensures
            r == self@.id_duplicate(article@),
    {
        let in_published = find_str_key(&self.published, article.id.as_str()).is_some();
        let in_legacy = if str_eq(article.source.as_str(), "hn") {
            match parse_u32(article.id.as_str()) {
                Some(n) => find_u32_key(&self.hn_published, n).is_some() || find_u32_key(
                    &self.hn_unpublished,
                    n,
                ).is_some(),
                None => false,
            }
        } else {
            false
        };
        let queued = find_str_key(&self.unpublished, article.id.as_str()).is_some();
        in_published || in_legacy || queued
    }

    fn url_duplicate(&self, article: &Article) -> (r: bool)
        requires
            self.wf(),
        ensures
            r == self@.url_duplicate(article@),
    {
        let u = match &article.url {
            Some(u) => u,
            None => return false,
        };
        let nu = match normalize_url(u.as_str()) {
            Some(nu) => nu,
            None => return false,
        };
        let ghost v = self@;
        if find_str_key(&self.published_urls, nu.as_str()).is_some() {
            return true;
        }
        assert(!has_key(v.published_urls, nu@)) by {
            if has_key(v.published_urls, nu@) {
                let i = key_index(v.published_urls, nu@);
                assert(self.published_urls@[i].0@ == nu@);
            }
        }
        let mut i: usize = 0;
        while i < self.unpublished.len()
            invariant
                i <= self.unpublished.len(),
                v == self@,
                article@.url == Some(u@),
                spec_normalize_url(u@) == Some(nu@),
                forall|j: int|
                    0 <= j < i ==> match (#[trigger] v.unpublished[j]).1.url {
                        Some(qu) => spec_normalize_url(qu) != Some(nu@),
                        None => true,
                    },
            decreases self.unpublished.len() - i,
        {
            assert(v.unpublished[i as int].1 == self.unpublished@[i as int].1@);
            if let Some(qu) = &self.unpublished[i].1.url {
                if let Some(qn) = normalize_url(qu.as_str()) {
                    if str_eq(qn.as_str(), nu.as_str()) {
                        assert(match (v.unpublished[i as int]).1.url {
                            Some(x) => spec_normalize_url(x) == Some(nu@),
                            None => false,
                        });
                        assert(spec_normalize_url(u@) == Some(nu@));
                        assert(article@.url == Some(u@));
                        assert(v.url_duplicate(article@));
                        return true;
                    }
                }
            }
            i = i + 1;
        }
        false
    }

    fn title_duplicate(&self, article: &Article) -> (r: bool)
        requires
            self.wf(),
        ensures
            r == self@.title_duplicate(article@),
    {
        let ghost v = self@;
        let t = normalize_title(article.title.as_str());
        let toks = title_tokens(t.as_str());
        if toks.len() < MIN_TITLE_TOKENS {
            return false;
        }
        let ts = article_timestamp(article);
        let mut i: usize = 0;
        while i < self.published_titles.len()
            invariant
                i <= self.published_titles.len(),
                v == self@,
                views(toks@) == spec_title_tokens(t@),
                toks.len() >= MIN_TITLE_TOKENS,
                t@ == spec_normalize_title(article@.title),
                ts == spec_article_timestamp(article@),
                forall|j: int|
                    0 <= j < i ==> {
                        let e = (#[trigger] v.published_titles[j]).1;
                        !(close_in_time(ts, e.1) && titles_match(t@, e.0))
                    },
            decreases self.published_titles.len() - i,
        {
            let e = &self.published_titles[i].1;
            assert(v.published_titles[i as int].1 == e@);
            if articles_are_close_in_time(ts, e.article_timestamp) {
                let et = title_tokens(e.normalized_title.as_str());
                if et.len() >= MIN_TITLE_TOKENS && tokens_similar(&toks, &et) {
                    assert({
                        let e2 = (v.published_titles[i as int]).1;
                        close_in_time(ts, e2.1) && titles_match(t@, e2.0)
                    });
                    return true;
                }
            }
            i = i + 1;
        }
        let mut i: usize = 0;
        while i < self.unpublished.len()
            invariant
                i <= self.unpublished.len(),
                v == self@,
                views(toks@) == spec_title_tokens(t@),
                toks.len() >= MIN_TITLE_TOKENS,
                t@ == spec_normalize_title(article@.title),
                ts == spec_article_timestamp(article@),
                forall|j: int|
                    0 <= j < i ==> {
                        let q = (#[trigger] v.unpublished[j]).1;
                        !(close_in_time(ts, spec_article_timestamp(q)) && titles_match(
                            t@,
                            spec_normalize_title(q.title),
                        ))
                    },
            decreases self.unpublished.len() - i,
        {
            let q = &self.unpublished[i].1;
            assert(v.unpublished[i as int].1 == q@);
            if articles_are_close_in_time(ts, article_timestamp(q)) {
                let qn = normalize_title(q.title.as_str());
                let qt = title_tokens(qn.as_str());
                if qt.len() >= MIN_TITLE_TOKENS && tokens_similar(&toks, &qt) {
                    assert({
                        let q2 = (v.unpublished[i as int]).1;
                        close_in_time(ts, spec_article_timestamp(q2)) && titles_match(
                            t@,
                            spec_normalize_title(q2.title),
                        )
                    });
                    return true;
                }
            }
            i = i + 1;
        }
        false
    }

    /// Whether `article` duplicates an article already published or queued:
    /// by id, by normalized URL, or by similar title close in time.
    pub fn is_duplicate(&self, article: &Article) -> (r: bool)
        requires
            self.wf(),
        ensures
            r == self@.is_duplicate(article@),
    {
        self.id_duplicate(article) || self.url_duplicate(article) || self.title_duplicate(article)
    }

    /// Add an unpublished article to the queue.
    ///
    /// Three-layer dedup:
    /// 1. Exact ID match (existing published + unpublished)
    /// 2. Normalized URL match
    /// 3. Title Jaccard similarity + temporal proximity
    ///
    /// Returns whether the article was added; a duplicate changes nothing.
    pub fn add_unpublished_article(&mut self, article: &Article) -> (added: bool)
        requires
            old(self).wf(),
        ensures
            final(self).wf(),
            added == !old(self)@.is_duplicate(article@),
            added ==> final(self)@ == old(self)@.with_queued(article@),
            !added ==> final(self)@ == old(self)@,
    {
        if self.is_duplicate(article) {
            return false;
        }
        proof {
            lemma_put(self@.unpublished, article@.id, article@);
        }
        put_str(&mut self.unpublished, article.id.clone(), article.copy());
        true
    }

    /// Mark an article as published and remove it from the queue.
    ///
    /// Also records its normalized URL and title for fuzzy dedup, and, for a
    /// numeric id, updates the legacy HackerNews tables.
    pub fn mark_article_published(&mut self, article: &Article, published_at: Timestamp)
        requires
            old(self).wf(),
        ensures
            final(self).wf(),
            final(self)@ == old(self)@.with_published(article@, published_at),
    {
        let ghost v = self@;
        let ghost a = article@;
        proof {
            lemma_remove(v.unpublished, a.id);
            lemma_put(v.published, a.id, published_at);
        }
        remove_str(&mut self.unpublished, article.id.as_str());
        match parse_u32(article.id.as_str()) {
            Some(n) => {
                proof {
                    lemma_remove(v.hn_unpublished, n);
                    lemma_put(v.hn_published, n, published_at);
                }
                remove_u32(&mut self.hn_unpublished, n);
                put_u32(&mut self.hn_published, n, published_at);
            },
            None => {},
        }
        put_str(&mut self.published, article.id.clone(), published_at);
        match &article.url {
            Some(u) => match normalize_url(u.as_str()) {
                Some(nu) => {
                    proof {
                        lemma_put(v.published_urls, nu@, a.id);
                    }
                    put_str(&mut self.published_urls, nu, article.id.clone());
                },
                None => {},
            },
            None => {},
        }
        let normalized_title = normalize_title(article.title.as_str());
        let ts = match article.published_at {
            Some(t) => t,
            None => published_at,
        };
        proof {
            lemma_put(v.published_titles, a.id, (normalized_title@, ts));
        }
        put_str(
            &mut self.published_titles,
            article.id.clone(),
            TitleEntry { normalized_title, article_timestamp: ts },
        );
    }

    /// Remove an article from the unpublished queue without marking it as
    /// published.
    pub fn remove_unpublished_article(&mut self, article_id: &str)
        requires
            old(self).wf(),
        ensures
            final(self).wf(),
            final(self)@ == (BotDbView {
                unpublished: remove_key(old(self)@.unpublished, article_id@),
                ..old(self)@
            }),
    {
        proof {
            lemma_remove(self@.unpublished, article_id@);
        }
        remove_str(&mut self.unpublished, article_id);
    }

    /// All unpublished articles as the tables list them: the queue in the
    /// order of its stored keys (`str_key_lt`), then the legacy HackerNews
    /// queue in increasing id order, converted to articles.
    pub fn get_unpublished_articles(&self) -> (out: Vec<Article>)
        requires
            self.wf(),
        ensures
            exists|ord: Seq<int>, hord: Seq<int>|
                {
                    &&& str_key_order(self@.unpublished, ord)
                    &&& u32_key_order(self@.hn_unpublished, hord)
                    &&& out@.map_values(|a: Article| a@) == ord.map_values(|j: int| self@.unpublished[j].1)
                        + hord.map_values(|j: int| hn_to_article(self@.hn_unpublished[j].1))
                },
    {
        let ghost v = self@;
        let ord = str_key_positions(&self.unpublished);
        let hord = u32_key_positions(&self.hn_unpublished);
        let mut out: Vec<Article> = Vec::new();
        let mut i: usize = 0;
        while i < ord.len()
            invariant
                i <= ord.len(),
                v == self@,
                ord@.len() == self.unpublished.len(),
                forall|k: int| 0 <= k < ord@.len() ==> (#[trigger] ord@[k]) < self.unpublished.len(),
                out@.map_values(|a: Article| a@) == positions_of(ord@).take(i as int).map_values(
                    |j: int| v.unpublished[j].1,
                ),
            decreases ord.len() - i,
        {
            let ghost before = out@.map_values(|a: Article| a@);
            let c = self.unpublished[ord[i]].1.copy();
            assert(c@ == v.unpublished[ord@[i as int] as int].1);
            out.push(c);
            assert(out@.map_values(|a: Article| a@) =~= before.push(c@));
            assert(positions_of(ord@).take(i + 1).map_values(|j: int| v.unpublished[j].1) =~= positions_of(
                ord@,
            ).take(i as int).map_values(|j: int| v.unpublished[j].1).push(c@));
            i = i + 1;
        }
        assert(positions_of(ord@).take(ord.len() as int) =~= positions_of(ord@));
        let ghost first = out@.map_values(|a: Article| a@);
        let mut i: usize = 0;
        while i < hord.len()
            invariant
                i <= hord.len(),
                v == self@,
                hord@.len() == self.hn_unpublished.len(),
                forall|k: int| 0 <= k < hord@.len() ==> (#[trigger] hord@[k]) < self.hn_unpublished.len(),
                out@.map_values(|a: Article| a@) == first + positions_of(hord@).take(i as int).map_values(
                    |j: int| hn_to_article(v.hn_unpublished[j].1),
                ),
            decreases hord.len() - i,
        {
            let ghost before = out@.map_values(|a: Article| a@);
            let c = Article::from_hn(self.hn_unpublished[hord[i]].1.copy());
            assert(c@ == hn_to_article(v.hn_unpublished[hord@[i as int] as int].1));
            out.push(c);
            assert(out@.map_values(|a: Article| a@) =~= before.push(c@));
            assert(positions_of(hord@).take(i + 1).map_values(|j: int| hn_to_article(v.hn_unpublished[j].1))
                =~= positions_of(hord@).take(i as int).map_values(|j: int| hn_to_article(v.hn_unpublished[j].1)).push(
                c@,
            ));
            i = i + 1;
        }
        assert(positions_of(hord@).take(hord.len() as int) =~= positions_of(hord@));
        out
    }

    /// The number of unpublished articles, legacy queue included.
    pub fn get_unpublished_count(&self) -> (n: usize)
        requires
            self@.unpublished.len() + self@.hn_unpublished.len() <= usize::MAX,
        ensures
            n == self@.unpublished_articles().len(),
    {
        self.unpublished.len() + self.hn_unpublished.len()
    }
}

/// Queueing an article keeps every earlier duplicate a duplicate.
pub proof fn lemma_queue_keeps_duplicates(db: BotDbView, a: ArticleView, x: ArticleView)
    requires
        db.wf(),
        !db.is_duplicate(a),
        db.is_duplicate(x),
    ensures
        db.with_queued(a).is_duplicate(x),
{
    let d2 = db.with_queued(a);
    lemma_put(db.unpublished, a.id, a);
    assert(!has_key(db.unpublished, a.id));
    assert(d2.unpublished == db.unpublished.push((a.id, a)));
    if db.url_duplicate(x) && !has_key(db.published_urls, spec_normalize_url(x.url->0)->0) {
        let nu = spec_normalize_url(x.url->0)->0;
        let i = choose|i: int|
            0 <= i < db.unpublished.len() && match (#[trigger] db.unpublished[i]).1.url {
                Some(qu) => spec_normalize_url(qu) == Some(nu),
                None => false,
            };
        assert(d2.unpublished[i] == db.unpublished[i]);
    }
    if db.title_duplicate(x) {
        let t = spec_normalize_title(x.title);
        let ts = spec_article_timestamp(x);
        if exists|i: int|
            0 <= i < db.unpublished.len() && {
                let q = (#[trigger] db.unpublished[i]).1;
                close_in_time(ts, spec_article_timestamp(q)) && titles_match(
                    t,
                    spec_normalize_title(q.title),
                )
            } {
            let i = choose|i: int|
                0 <= i < db.unpublished.len() && {
                    let q = (#[trigger] db.unpublished[i]).1;
                    close_in_time(ts, spec_article_timestamp(q)) && titles_match(
                        t,
                        spec_normalize_title(q.title),
                    )
                };
            assert(d2.unpublished[i] == db.unpublished[i]);
        } else {
            let i = choose|i: int|
                0 <= i < db.published_titles.len() && {
                    let e = (#[trigger] db.published_titles[i]).1;
                    close_in_time(ts, e.1) && titles_match(t, e.0)
                };
            assert(d2.published_titles[i] == db.published_titles[i]);
        }
    }
    assert(db.id_duplicate(x) ==> d2.id_duplicate(x));
    assert(db.url_duplicate(x) ==> d2.url_duplicate(x));
    assert(db.title_duplicate(x) ==> d2.title_duplicate(x));
}

/// An article once queued is a duplicate of itself: offering it again is
/// refused.
pub proof fn lemma_queued_article_is_duplicate(db: BotDbView, a: ArticleView)
    requires
        db.wf(),
    ensures
        db.with_queued(a).wf(),
        db.with_queued(a).is_duplicate(a),
{
    lemma_put(db.unpublished, a.id, a);
}

/// An article once published is a duplicate of itself: offering it again is
/// refused, and it has left the queue.
pub proof fn lemma_published_article_is_duplicate(db: BotDbView, a: ArticleView, at: Timestamp)
    requires
        db.wf(),
    ensures
        db.with_published(a, at).is_duplicate(a),
        !has_key(db.with_published(a, at).unpublished, a.id),
{
    lemma_put(db.published, a.id, at);
    lemma_remove(db.unpublished, a.id);
}

/// Queueing adds exactly one article to the unpublished table, after its
/// current entries (the table's entries, which are read out in key order).
pub proof fn lemma_queue_grows_by_one(db: BotDbView, a: ArticleView)
    requires
        db.wf(),
        !db.is_duplicate(a),
    ensures
        db.with_queued(a).unpublished_articles().len() == db.unpublished_articles().len() + 1,
        db.with_queued(a).unpublished_articles()[db.unpublished.len() as int] == a,
{
    assert(!has_key(db.unpublished, a.id));
}

/// Publishing removes the article from the queue and records it under its
/// id with the publication time.
pub proof fn lemma_published_recorded(db: BotDbView, a: ArticleView, at: Timestamp)
    requires
        db.wf(),
    ensures
        db.with_published(a, at).wf(),
        has_key(db.with_published(a, at).published, a.id),
        value_at(db.with_published(a, at).published, a.id) == at,
{
    lemma_put(db.published, a.id, at);
    lemma_remove(db.unpublished, a.id);
    lemma_put(db.published_titles, a.id, (spec_normalize_title(a.title), match a.published_at {
        Some(t) => t,
        None => at,
    }));
    match spec_parse_u32(a.id) {
        Some(n) => {
            lemma_remove(db.hn_unpublished, n);
            lemma_put(db.hn_published, n, at);
        },
        None => {},
    }
    match a.url {
        Some(u) => match spec_normalize_url(u) {
            Some(nu) => {
                lemma_put(db.published_urls, nu, a.id);
            },
            None => {},
        },
        None => {},
    }
}

/// Positions as integers.
pub open spec fn positions_of(v: Seq<usize>) -> Seq<int> {
    v.map_values(|x: usize| x as int)
}

/// `ord` lists every position of `s` once, in increasing key order.
pub open spec fn str_key_order<V>(s: Seq<(Seq<char>, V)>, ord: Seq<int>) -> bool {
    &&& ord.len() == s.len()
    &&& forall|k: int| 0 <= k < ord.len() ==> 0 <= #[trigger] ord[k] < s.len()
    &&& forall|a: int, b: int| 0 <= a < b < ord.len() ==> str_key_lt(s[ord[a]].0, s[ord[b]].0)
}

/// `ord` lists every position of `s` once, in increasing id order.
pub open spec fn u32_key_order<V>(s: Seq<(u32, V)>, ord: Seq<int>) -> bool {
    &&& ord.len() == s.len()
    &&& forall|k: int| 0 <= k < ord.len() ==> 0 <= #[trigger] ord[k] < s.len()
    &&& forall|a: int, b: int| 0 <= a < b < ord.len() ==> s[ord[a]].0 < s[ord[b]].0
}

/// The positions of a string-keyed table in increasing key order.
fn str_key_positions(t: &Vec<(String, Article)>) -> (r: Vec<usize>)
    requires
        keys_unique(str_table_view(t@)),
    ensures
        str_key_order(str_table_view(t@), positions_of(r@)),
        forall|k: int| 0 <= k < r@.len() ==> (#[trigger] r@[k]) < t.len(),
{
    let ghost s = str_table_view(t@);
    let mut r: Vec<usize> = Vec::new();
    let mut i: usize = 0;
    while i < t.len()
        invariant
            i <= t.len(),
            s == str_table_view(t@),
            keys_unique(s),
            r@.len() == i,
            forall|k: int| 0 <= k < r@.len() ==> (#[trigger] r@[k]) < i,
            forall|a: int, b: int| 0 <= a < b < r@.len() ==> str_key_lt(s[r@[a] as int].0, s[r@[b] as int].0),
        decreases t.len() - i,
    {
        let ghost kx = s[i as int].0;
        let mut k: usize = 0;
        while k < r.len() && !str_key_less(t[i].0.as_str(), t[r[k]].0.as_str())
            invariant
                k <= r.len(),
                i < t.len(),
                s == str_table_view(t@),
                keys_unique(s),
                kx == s[i as int].0,
                forall|m: int| 0 <= m < r@.len() ==> (#[trigger] r@[m]) < i,
                forall|m: int| 0 <= m < k ==> str_key_lt(s[(#[trigger] r@[m]) as int].0, kx),
            decreases r.len() - k,
        {
            assert(s[r@[k as int] as int].0 == t@[r@[k as int] as int].0@);
            assert(s[i as int].0 == t@[i as int].0@);
            assert(s[r@[k as int] as int].0 != kx);
            proof {
                lemma_str_key_order(kx, s[r@[k as int] as int].0, kx);
            }
            k = k + 1;
        }
        let ghost old_r = r@;
        proof {
            if k < r.len() {
                assert(s[r@[k as int] as int].0 == t@[r@[k as int] as int].0@);
                assert(s[i as int].0 == t@[i as int].0@);
            }
        }
        assert forall|m: int| k <= m < old_r.len() implies str_key_lt(kx, s[(#[trigger] old_r[m]) as int].0) by {
            if k < m {
                lemma_str_key_order(kx, s[old_r[k as int] as int].0, s[old_r[m] as int].0);
            }
        }
        r.insert(k, i);
        assert(r@ == old_r.insert(k as int, i));
        assert forall|a: int, b: int| 0 <= a < b < r@.len() implies str_key_lt(s[r@[a] as int].0, s[r@[b] as int].0) by {
            if b < k {
                assert(r@[a] == old_r[a] && r@[b] == old_r[b]);
            } else if b == k {
                assert(r@[a] == old_r[a]);
            } else if a < k {
                assert(r@[a] == old_r[a] && r@[b] == old_r[b - 1]);
                lemma_str_key_order(s[old_r[a] as int].0, kx, s[old_r[b - 1] as int].0);
            } else if a == k {
                assert(r@[b] == old_r[b - 1]);
            } else {
                assert(r@[a] == old_r[a - 1] && r@[b] == old_r[b - 1]);
            }
        }
        assert forall|m: int| 0 <= m < r@.len() implies (#[trigger] r@[m]) < i + 1 by {
            if m < k {
                assert(r@[m] == old_r[m]);
            } else if m > k {
                assert(r@[m] == old_r[m - 1]);
            }
        }
        i = i + 1;
    }
    r
}

/// The positions of an id-keyed table in increasing id order.
fn u32_key_positions(t: &Vec<(u32, HnArticle)>) -> (r: Vec<usize>)
    requires
        keys_unique(u32_table_view(t@)),
    ensures
        u32_key_order(u32_table_view(t@), positions_of(r@)),
        forall|k: int| 0 <= k < r@.len() ==> (#[trigger] r@[k]) < t.len(),
{
    let ghost s = u32_table_view(t@);
    let mut r: Vec<usize> = Vec::new();
    let mut i: usize = 0;
    while i < t.len()
        invariant
            i <= t.len(),
            s == u32_table_view(t@),
            keys_unique(s),
            r@.len() == i,
            forall|k: int| 0 <= k < r@.len() ==> (#[trigger] r@[k]) < i,
            forall|a: int, b: int| 0 <= a < b < r@.len() ==> s[r@[a] as int].0 < s[r@[b] as int].0,
        decreases t.len() - i,
    {
        let x = t[i].0;
        let mut k: usize = 0;
        while k < r.len() && !(x < t[r[k]].0)
            invariant
                k <= r.len(),
                i < t.len(),
                s == u32_table_view(t@),
                keys_unique(s),
                x == s[i as int].0,
                forall|m: int| 0 <= m < r@.len() ==> (#[trigger] r@[m]) < i,
                forall|m: int| 0 <= m < k ==> s[(#[trigger] r@[m]) as int].0 < x,
            decreases r.len() - k,
        {
            assert(s[r@[k as int] as int].0 == t@[r@[k as int] as int].0);
            assert(s[r@[k as int] as int].0 != x);
            k = k + 1;
        }
        let ghost old_r = r@;
        proof {
            if k < r.len() {
                assert(s[r@[k as int] as int].0 == t@[r@[k as int] as int].0);
            }
        }
        r.insert(k, i);
        assert(r@ == old_r.insert(k as int, i));
        assert forall|a: int, b: int| 0 <= a < b < r@.len() implies s[r@[a] as int].0 < s[r@[b] as int].0 by {
            if b < k {
                assert(r@[a] == old_r[a] && r@[b] == old_r[b]);
            } else if b == k {
                assert(r@[a] == old_r[a]);
            } else if a < k {
                assert(r@[a] == old_r[a] && r@[b] == old_r[b - 1]);
            } else if a == k {
                assert(r@[b] == old_r[b - 1]);
                if k < b - 1 {
                    assert(s[old_r[k as int] as int].0 < s[old_r[b - 1] as int].0);
                }
            } else {
                assert(r@[a] == old_r[a - 1] && r@[b] == old_r[b - 1]);
            }
        }
        assert forall|m: int| 0 <= m < r@.len() implies (#[trigger] r@[m]) < i + 1 by {
            if m < k {
                assert(r@[m] == old_r[m]);
            } else if m > k {
                assert(r@[m] == old_r[m - 1]);
            }
        }
        i = i + 1;
    }
    r
}

/// Two titles are near duplicates: each has at least three distinct words
/// and their word sets have a Jaccard similarity of at least 0.8 (five
/// times the shared words is at least four times all words).
pub open spec fn near_duplicate_titles(a: Seq<char>, b: Seq<char>) -> bool {
    let x = spec_title_tokens(spec_normalize_title(a));
    let y = spec_title_tokens(spec_normalize_title(b));
    let shared = shared_count(y, x);
    &&& 3 <= x.len()
    &&& 3 <= y.len()
    &&& 5 * shared >= 4 * (x.len() + y.len() - shared)
}

/// Two times lie less than thirty days apart.
pub open spec fn within_thirty_days(a: Timestamp, b: Timestamp) -> bool {
    -2592000 < a - b < 2592000
}

/// Once an article is queued, another article with a near-duplicate title
/// dated within thirty days of it is refused as a duplicate.
pub proof fn lemma_queued_title_refuses_near_duplicate(db: BotDbView, a: ArticleView, b: ArticleView)
    requires
        db.wf(),
        near_duplicate_titles(a.title, b.title),
        within_thirty_days(
            match b.published_at {
                Some(t) => t,
                None => b.scraped_at,
            },
            match a.published_at {
                Some(t) => t,
                None => a.scraped_at,
            },
        ),
    ensures
        db.with_queued(a).is_duplicate(b),
{
    let q = db.with_queued(a).unpublished;
    lemma_put(db.unpublished, a.id, a);
    let i = key_index(q, a.id);
    assert(q[i].1 == a);
    let t = spec_normalize_title(b.title);
    let ts = spec_article_timestamp(b);
    lemma_shared_count_le(spec_title_tokens(t), spec_title_tokens(spec_normalize_title(a.title)));
    assert(close_in_time(ts, spec_article_timestamp(q[i].1)));
    assert(titles_match(t, spec_normalize_title(q[i].1.title)));
}

/// Once an article is published, another article with a near-duplicate
/// title dated within thirty days of its date (its publication date, else
/// the time it was published) is refused as a duplicate.
pub proof fn lemma_published_title_refuses_near_duplicate(db: BotDbView, a: ArticleView, at: Timestamp, b: ArticleView)
    requires
        db.wf(),
        near_duplicate_titles(a.title, b.title),
        within_thirty_days(
            match b.published_at {
                Some(t) => t,
                None => b.scraped_at,
            },
            match a.published_at {
                Some(t) => t,
                None => at,
            },
        ),
    ensures
        db.with_published(a, at).is_duplicate(b),
{
    let dated = match a.published_at {
        Some(t) => t,
        None => at,
    };
    let p = db.with_published(a, at).published_titles;
    lemma_put(db.published_titles, a.id, (spec_normalize_title(a.title), dated));
    let i = key_index(p, a.id);
    assert(p[i].1 == (spec_normalize_title(a.title), dated));
    let t = spec_normalize_title(b.title);
    let ts = spec_article_timestamp(b);
    lemma_shared_count_le(spec_title_tokens(t), spec_title_tokens(spec_normalize_title(a.title)));
    assert(close_in_time(ts, p[i].1.1));
    assert(titles_match(t, p[i].1.0));
}

/// A HackerNews article whose id is the number of a story the legacy
/// HackerNews tables hold, published or queued, is refused as a duplicate.
pub proof fn lemma_legacy_hn_story_is_duplicate(db: BotDbView, a: ArticleView, n: u32)
    requires
        a.source == "hn"@,
        spec_parse_u32(a.id) == Some(n),
        has_key(db.hn_published, n) || has_key(db.hn_unpublished, n),
    ensures
        db.is_duplicate(a),
{
}

/// An article whose id is already queued or published is refused.
pub proof fn lemma_known_id_is_duplicate(db: BotDbView, a: ArticleView)
    requires
        has_key(db.published, a.id) || has_key(db.unpublished, a.id),
    ensures
        db.is_duplicate(a),
{
}

/// Once an article is queued, another article whose URL normalizes to the
/// same text as its URL is refused.
pub proof fn lemma_queued_url_refuses_same_url(db: BotDbView, a: ArticleView, b: ArticleView, u: Seq<char>, v: Seq<char>)
    requires
        db.wf(),
        a.url == Some(u),
        b.url == Some(v),
        spec_normalize_url(u) is Some,
        spec_normalize_url(u) == spec_normalize_url(v),
    ensures
        db.with_queued(a).is_duplicate(b),
{
    let q = db.with_queued(a).unpublished;
    lemma_put(db.unpublished, a.id, a);
    let i = key_index(q, a.id);
    assert(q[i].1 == a);
    assert(match q[i].1.url {
        Some(qu) => spec_normalize_url(qu) == spec_normalize_url(v),
        None => false,
    });
}

} // verus!
