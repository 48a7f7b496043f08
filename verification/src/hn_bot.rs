//! The HackerNews bot: its queue of stories ordered by HN id, its record of
//! published stories, and the decisions of its cycle. Scraping, posting and
//! waiting are done by the caller.
use vstd::prelude::*;
use crate::bot::tables::{HnArticle, HnArticleView, Timestamp};
use crate::kv::{
    find_u32_key, has_key, key_index, keys_sorted, keys_unique, lemma_key_index, lemma_put, lemma_put_sorted,
    lemma_remove, lemma_remove_sorted, lemma_sorted_unique, put, put_sorted, put_sorted_u32, put_u32,
    remove_key, remove_u32, u32_table_view, value_at,
};

verus! {

/// The two tables as plain values.
pub struct HnBotDbView {
    /// HN id → story waiting to be published, in increasing id order.
    pub unpublished: Seq<(u32, HnArticleView)>,
    /// HN id → time it was published.
    pub published: Seq<(u32, Timestamp)>,
}

impl HnBotDbView {
    /// The queue is ordered by id and every story is stored under its own
    /// id; published ids are distinct.
    pub open spec fn wf(self) -> bool {
        &&& keys_sorted(self.unpublished)
        &&& keys_unique(self.published)
        &&& forall|x: u32| #[trigger] has_key(self.unpublished, x) ==> value_at(self.unpublished, x).hn_id == x
    }

    /// The tables after offering a story: a published story is refused,
    /// any other is queued (replacing a queued story with the same id).
    pub open spec fn with_offered(self, a: HnArticleView) -> HnBotDbView {
        if has_key(self.published, a.hn_id) {
            self
        } else {
            HnBotDbView { unpublished: put_sorted(self.unpublished, a.hn_id, a), ..self }
        }
    }

    /// The tables after recording a story as published at `at`.
    pub open spec fn with_published(self, hn_id: u32, at: Timestamp) -> HnBotDbView {
        HnBotDbView {
            unpublished: remove_key(self.unpublished, hn_id),
            published: put(self.published, hn_id, at),
        }
    }

    /// The queued stories, in increasing id order.
    pub open spec fn unpublished_articles(self) -> Seq<HnArticleView> {
        self.unpublished.map_values(|p: (u32, HnArticleView)| p.1)
    }
}

/// The HackerNews bot's tables.
pub struct HnBotDatabase {
    unpublished: Vec<(u32, HnArticle)>,
    published: Vec<(u32, Timestamp)>,
}

/// The two tables as stored.
pub struct HnBotTables {
    pub unpublished: Vec<(u32, HnArticle)>,
    pub published: Vec<(u32, Timestamp)>,
}

impl View for HnBotTables {
    type V = HnBotDbView;

    open spec fn view(&self) -> HnBotDbView {
        HnBotDbView { unpublished: u32_table_view(self.unpublished@), published: u32_table_view(self.published@) }
    }
}

impl View for HnBotDatabase {
    type V = HnBotDbView;

    closed spec fn view(&self) -> HnBotDbView {
        HnBotDbView {
            unpublished: u32_table_view(self.unpublished@),
            published: u32_table_view(self.published@),
        }
    }
}

/// The views of a list of HackerNews records.
pub open spec fn hn_article_views(v: Seq<HnArticle>) -> Seq<HnArticleView> {
    v.map_values(|a: HnArticle| a@)
}

impl HnBotDatabase {
    /// The tables are well formed.
    pub open spec fn wf(&self) -> bool {
        self@.wf()
    }

    /// Empty tables.
    pub fn new() -> (db: HnBotDatabase)
        ensures
            db.wf(),
            db@.unpublished.len() == 0,
            db@.published.len() == 0,
    {
        let db = HnBotDatabase { unpublished: Vec::new(), published: Vec::new() };
        assert(db@.unpublished =~= Seq::empty());
        assert(db@.published =~= Seq::empty());
        db
    }

    /// The database holding stored tables; `None` unless the queue is
    /// ordered by id, every story is stored under its own id and published
    /// ids are distinct.
    pub fn from_tables(tables: HnBotTables) -> (r: Option<HnBotDatabase>)
        ensures
            match r {
                Some(db) => db.wf() && db@ == tables@,
                None => !tables@.wf(),
            },
    {
        let ghost u = tables@.unpublished;
        let mut i: usize = 0;
        while i < tables.unpublished.len()
            invariant
                i <= tables.unpublished.len(),
                u == tables@.unpublished,
                forall|a: int, b: int| 0 <= a < b < i ==> (#[trigger] u[a]).0 < (#[trigger] u[b]).0,
                forall|a: int| 0 <= a < i ==> (#[trigger] u[a]).1.hn_id == u[a].0,
            decreases tables.unpublished.len() - i,
        {
            if i > 0 && tables.unpublished[i].0 <= tables.unpublished[i - 1].0 {
                assert(!keys_sorted(u)) by {
                    assert(!(u[i - 1].0 < u[i as int].0));
                }
                return None;
            }
            if tables.unpublished[i].1.hn_id != tables.unpublished[i].0 {
                assert(!tables@.wf()) by {
                    if keys_sorted(u) {
                        lemma_sorted_unique(u);
                        assert(has_key(u, u[i as int].0));
                        lemma_key_index(u, u[i as int].0, i as int);
                    }
                }
                return None;
            }
            proof {
                assert forall|a: int, b: int| 0 <= a < b < i + 1 implies (#[trigger] u[a]).0 < (#[trigger] u[b]).0 by {
                    if b == i && a < i - 1 {
                        assert(u[a].0 < u[i - 1].0);
                    }
                }
            }
            i = i + 1;
        }
        if !crate::kv::u32_keys_unique(&tables.published) {
            return None;
        }
        proof {
            lemma_sorted_unique(u);
            assert forall|x: u32| #[trigger] has_key(u, x) implies value_at(u, x).hn_id == x by {
                let k = key_index(u, x);
                lemma_key_index(u, x, k);
            }
        }
        Some(HnBotDatabase { unpublished: tables.unpublished, published: tables.published })
    }

    /// The tables, to be stored.
    pub fn into_tables(self) -> (r: HnBotTables)
        ensures
            r@ == self@,
    {
        HnBotTables { unpublished: self.unpublished, published: self.published }
    }

    /// Add an unpublished story to the queue; a story already published is
    /// refused. Returns whether it was added.
    pub fn add_unpublished_article(&mut self, article: &HnArticle) -> (added: bool)
        requires
            old(self).wf(),
        ensures
            final(self).wf(),
            added == !has_key(old(self)@.published, article.hn_id),
            final(self)@ == old(self)@.with_offered(article@),
    {
        if find_u32_key(&self.published, article.hn_id).is_some() {
            return false;
        }
        let ghost s = self@.unpublished;
        proof {
            lemma_put_sorted(s, article.hn_id, article@);
        }
        put_sorted_u32(&mut self.unpublished, article.hn_id, article.copy());
        proof {
            let t = self@.unpublished;
            assert forall|x: u32| #[trigger] has_key(t, x) implies value_at(t, x).hn_id == x by {
                if x != article.hn_id {
                    assert(has_key(s, x));
                }
            }
        }
        true
    }

    /// All queued stories, in increasing HN id order.
    pub fn get_unpublished_articles(&self) -> (out: Vec<HnArticle>)
        requires
            self.wf(),
        ensures
            hn_article_views(out@) == self@.unpublished_articles(),
            forall|i: int, j: int| 0 <= i < j < out.len() ==> (#[trigger] out@[i]).hn_id < (#[trigger] out@[j]).hn_id,
    {
        let ghost v = self@;
        let mut out: Vec<HnArticle> = Vec::new();
        let mut i: usize = 0;
        while i < self.unpublished.len()
            invariant
                i <= self.unpublished.len(),
                v == self@,
                hn_article_views(out@) == v.unpublished_articles().take(i as int),
            decreases self.unpublished.len() - i,
        {
            let ghost prev = hn_article_views(out@);
            let c = self.unpublished[i].1.copy();
            out.push(c);
            assert(hn_article_views(out@) =~= prev.push(c@));
            assert(v.unpublished_articles().take(i + 1) =~= v.unpublished_articles().take(i as int).push(
                v.unpublished[i as int].1,
            ));
            i = i + 1;
        }
        assert(v.unpublished_articles().take(self.unpublished.len() as int) =~= v.unpublished_articles());
        proof {
            lemma_sorted_unique(v.unpublished);
            assert forall|i: int, j: int| 0 <= i < j < out.len() implies (#[trigger] out@[i]).hn_id < (
            #[trigger] out@[j]).hn_id by {
                assert(hn_article_views(out@).len() == v.unpublished.len());
                assert(hn_article_views(out@)[i] == out@[i]@);
                assert(hn_article_views(out@)[j] == out@[j]@);
                assert(v.unpublished_articles()[i] == v.unpublished[i].1);
                assert(v.unpublished_articles()[j] == v.unpublished[j].1);
                assert(has_key(v.unpublished, v.unpublished[i].0));
                assert(has_key(v.unpublished, v.unpublished[j].0));
                lemma_key_index(v.unpublished, v.unpublished[i].0, i);
                lemma_key_index(v.unpublished, v.unpublished[j].0, j);
            }
        }
        out
    }

    /// Mark a story as published and remove it from the queue.
    pub fn mark_article_published(&mut self, hn_id: u32, published_at: Timestamp)
        requires
            old(self).wf(),
        ensures
            final(self).wf(),
            final(self)@ == old(self)@.with_published(hn_id, published_at),
    {
        let ghost s = self@.unpublished;
        proof {
            lemma_sorted_unique(s);
            lemma_remove(s, hn_id);
            lemma_remove_sorted(s, hn_id);
            lemma_put(self@.published, hn_id, published_at);
        }
        remove_u32(&mut self.unpublished, hn_id);
        put_u32(&mut self.published, hn_id, published_at);
        proof {
            let t = self@.unpublished;
            assert forall|x: u32| #[trigger] has_key(t, x) implies value_at(t, x).hn_id == x by {
                assert(has_key(s, x));
            }
        }
    }

    /// The number of queued stories.
    pub fn get_unpublished_count(&self) -> (n: usize)
        ensures
            n == self@.unpublished.len(),
    {
        self.unpublished.len()
    }
}

/// A story once published is refused when offered again.
pub proof fn lemma_published_story_refused(db: HnBotDbView, a: HnArticleView, at: Timestamp)
    requires
        db.wf(),
    ensures
        db.with_published(a.hn_id, at).with_offered(a) == db.with_published(a.hn_id, at),
        !has_key(db.with_published(a.hn_id, at).unpublished, a.hn_id),
{
    lemma_put(db.published, a.hn_id, at);
    lemma_sorted_unique(db.unpublished);
    lemma_remove(db.unpublished, a.hn_id);
}

/// Offering a story that is not published queues it under its id.
pub proof fn lemma_offered_story_queued(db: HnBotDbView, a: HnArticleView)
    requires
        db.wf(),
        !has_key(db.published, a.hn_id),
    ensures
        db.with_offered(a).wf(),
        has_key(db.with_offered(a).unpublished, a.hn_id),
        value_at(db.with_offered(a).unpublished, a.hn_id) == a,
{
    lemma_put_sorted(db.unpublished, a.hn_id, a);
    let t = db.with_offered(a).unpublished;
    assert forall|x: u32| #[trigger] has_key(t, x) implies value_at(t, x).hn_id == x by {
        if x != a.hn_id {
            assert(has_key(db.unpublished, x));
        }
    }
}

// ---------------------------------------------------------------------------
// one cycle
// ---------------------------------------------------------------------------

/// The tables after offering the scraped stories in order, and how many
/// were queued: a story is offered when its score reaches `min_score`.
pub open spec fn hn_enqueue_all(db: HnBotDbView, arts: Seq<HnArticleView>, min_score: u32) -> (HnBotDbView, nat)
    decreases arts.len(),
{
    if arts.len() == 0 {
        (db, 0)
    } else {
        let (d, n) = hn_enqueue_all(db, arts.drop_last(), min_score);
        let a = arts.last();
        if min_score <= a.score && !has_key(d.published, a.hn_id) {
            (d.with_offered(a), n + 1)
        } else {
            (d, n)
        }
    }
}

/// Offers the scraped stories to the queue; returns how many were added.
pub fn hn_enqueue_scraped(db: &mut HnBotDatabase, articles: &Vec<HnArticle>, min_score: u32) -> (added: usize)
    requires
        old(db).wf(),
    ensures
        final(db).wf(),
        (final(db)@, added as nat) == hn_enqueue_all(old(db)@, hn_article_views(articles@), min_score),
{
    let ghost start = db@;
    let ghost av = hn_article_views(articles@);
    let mut added: usize = 0;
    let mut i: usize = 0;
    assert(av.take(0) =~= Seq::<HnArticleView>::empty());
    while i < articles.len()
        invariant
            i <= articles.len(),
            added <= i,
            db.wf(),
            av == hn_article_views(articles@),
            (db@, added as nat) == hn_enqueue_all(start, av.take(i as int), min_score),
        decreases articles.len() - i,
    {
        assert(av.take(i + 1).drop_last() =~= av.take(i as int));
        assert(av.take(i + 1).last() == articles@[i as int]@);
        if articles[i].score >= min_score {
            if db.add_unpublished_article(&articles[i]) {
                added = added + 1;
            }
        }
        i = i + 1;
    }
    assert(av.take(articles.len() as int) =~= av);
    added
}

/// The first `n` stories, or all of them when there are fewer.
pub fn hn_articles_to_publish(unpublished: &Vec<HnArticle>, max_articles_per_run: usize) -> (r: Vec<HnArticle>)
    ensures
        hn_article_views(r@) == hn_article_views(unpublished@).take(
            if max_articles_per_run < unpublished.len() {
                max_articles_per_run as int
            } else {
                unpublished.len() as int
            },
        ),
{
    let n = if max_articles_per_run < unpublished.len() {
        max_articles_per_run
    } else {
        unpublished.len()
    };
    let mut r: Vec<HnArticle> = Vec::new();
    let mut i: usize = 0;
    while i < n
        invariant
            i <= n <= unpublished.len(),
            hn_article_views(r@) == hn_article_views(unpublished@).take(i as int),
        decreases n - i,
    {
        let ghost prev = hn_article_views(r@);
        let a = unpublished[i].copy();
        r.push(a);
        assert(hn_article_views(r@) =~= prev.push(a@));
        assert(hn_article_views(unpublished@).take(i + 1) =~= hn_article_views(unpublished@).take(
            i as int,
        ).push(unpublished@[i as int]@));
        i = i + 1;
    }
    r
}

/// The tables after the publication results in order: each story posted
/// successfully is marked published at `at`.
pub open spec fn hn_record_results(db: HnBotDbView, results: Seq<(u32, bool)>, at: Timestamp) -> HnBotDbView
    decreases results.len(),
{
    if results.len() == 0 {
        db
    } else {
        let d = hn_record_results(db, results.drop_last(), at);
        let (id, ok) = results.last();
        if ok {
            d.with_published(id, at)
        } else {
            d
        }
    }
}

/// Records the results of posting: each story posted successfully is
/// marked as published at `published_at`.
pub fn hn_record_publish_results(db: &mut HnBotDatabase, results: &Vec<(u32, bool)>, published_at: Timestamp)
    requires
        old(db).wf(),
    ensures
        final(db).wf(),
        final(db)@ == hn_record_results(old(db)@, results@, published_at),
{
    let ghost start = db@;
    let mut i: usize = 0;
    assert(results@.take(0) =~= Seq::<(u32, bool)>::empty());
    while i < results.len()
        invariant
            i <= results.len(),
            db.wf(),
            db@ == hn_record_results(start, results@.take(i as int), published_at),
        decreases results.len() - i,
    {
        assert(results@.take(i + 1).drop_last() =~= results@.take(i as int));
        assert(results@.take(i + 1).last() == results@[i as int]);
        if results[i].1 {
            db.mark_article_published(results[i].0, published_at);
        }
        i = i + 1;
    }
    assert(results@.take(results.len() as int) =~= results@);
}

} // verus!
