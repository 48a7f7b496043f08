//! News posts: the score a post is ranked by, the vote sums it is computed
//! from, and the rank tables (by post, by score, by time) kept in step.
use vstd::prelude::*;
use crate::db::keys::{
    post_time_set_insert, post_time_set_remove, score_set_insert, score_set_remove, set_of,
    PostKey, PostTimeKey, RostraId, ScoreKey, ShortEventId, Timestamp,
};
use crate::db::paginate::TableKey;
use vstd::arithmetic::div_mod::{
    lemma_div_is_ordered, lemma_div_is_ordered_by_denominator, lemma_div_pos_is_pos, lemma_fundamental_div_mod,
    lemma_mod_pos_bound,
};
use crate::kv::{has_key, keys_unique, lemma_key_index, lemma_put, lemma_remove, put, remove_key, value_at};

verus! {

/// Post `a` sorts strictly before post `b`: by author, then event id.
pub open spec fn post_lt(a: PostKey, b: PostKey) -> bool {
    a.0 < b.0 || (a.0 == b.0 && a.1 < b.1)
}

fn post_less(a: PostKey, b: PostKey) -> (r: bool)
    ensures
        r == post_lt(a, b),
{
    a.0 < b.0 || (a.0 == b.0 && a.1 < b.1)
}

/// Cursor for paginating news posts by score, the key of the rank-by-score
/// index: ordered by score, then post.
#[derive(Clone, Copy, Debug, PartialEq, Eq)]
pub struct NewsRankPaginationCursor {
    pub score: i64,
    pub post_id: PostKey,
}

impl TableKey for NewsRankPaginationCursor {
    open spec fn key_lt(self, other: Self) -> bool {
        self.score < other.score || (self.score == other.score && post_lt(self.post_id, other.post_id))
    }

    proof fn lemma_lt_irreflexive(a: Self) {
    }

    proof fn lemma_lt_transitive(a: Self, b: Self, c: Self) {
    }

    proof fn lemma_lt_total(a: Self, b: Self) {
    }

    fn key_less(&self, other: &Self) -> (r: bool) {
        self.score < other.score || (self.score == other.score && post_less(self.post_id, other.post_id))
    }
}

/// Cursor for paginating news posts by capped creation time, the key of the
/// rank-by-time index: ordered by time, then post.
#[derive(Clone, Copy, Debug, PartialEq, Eq)]
pub struct NewsTimePaginationCursor {
    pub ts: Timestamp,
    pub post_id: PostKey,
}

impl TableKey for NewsTimePaginationCursor {
    open spec fn key_lt(self, other: Self) -> bool {
        self.ts < other.ts || (self.ts == other.ts && post_lt(self.post_id, other.post_id))
    }

    proof fn lemma_lt_irreflexive(a: Self) {
    }

    proof fn lemma_lt_transitive(a: Self, b: Self, c: Self) {
    }

    proof fn lemma_lt_total(a: Self, b: Self) {
    }

    fn key_less(&self, other: &Self) -> (r: bool) {
        self.ts < other.ts || (self.ts == other.ts && post_less(self.post_id, other.post_id))
    }
}

/// Posts older than this (about four years) leave the news ranking.
pub const NEWS_MAX_AGE_SECS: u64 = 126144000;

/// Seconds from `then` to `now`, 0 when `then` is later.
pub open spec fn secs_since(now: Timestamp, then: Timestamp) -> int {
    if then <= now {
        now - then
    } else {
        0
    }
}

/// Integer division rounding toward zero, for a positive divisor.
pub open spec fn trunc_div(a: int, b: int) -> int {
    if a >= 0 {
        a / b
    } else {
        -((-a) / b)
    }
}

/// `x` clamped to the range of `i64`.
pub open spec fn clamp_i64(x: int) -> i64 {
    if x < i64::MIN {
        i64::MIN
    } else if x > i64::MAX {
        i64::MAX
    } else {
        x as i64
    }
}

/// The news score of a post: `(10 + 10000 * votes) / (hours since creation
/// + 1)`, rounded toward zero and clamped to `i64`.
pub open spec fn spec_news_score(creation_ts: Timestamp, vote_sum: i64, now: Timestamp) -> i64 {
    let hours = secs_since(now, creation_ts) / 3600;
    clamp_i64(trunc_div(10 + vote_sum * 10000, hours + 1))
}

/// Computes the news score of a post.
pub fn calculate_news_score(creation_ts: Timestamp, vote_sum: i64, now: Timestamp) -> (r: i64)
    ensures
        r == spec_news_score(creation_ts, vote_sum, now),
{
    let hours: u64 = now.saturating_sub(creation_ts) / 3600;
    let numerator: i128 = 10i128 + (vote_sum as i128) * 10000i128;
    let denominator: u128 = hours as u128 + 1;
    let magnitude: u128 = if numerator >= 0 {
        numerator as u128
    } else {
        (-numerator) as u128
    };
    let qm: u128 = magnitude / denominator;
    assert(qm <= magnitude);
    let q: i128 = if numerator >= 0 {
        qm as i128
    } else {
        -(qm as i128)
    };
    if q < i64::MIN as i128 {
        i64::MIN
    } else if q > i64::MAX as i128 {
        i64::MAX
    } else {
        q as i64
    }
}

/// The news score of a post with a non-negative numerator
/// `10 + 10000 * votes` (that fits `i64`) is that numerator divided by the
/// whole hours since creation plus one (no hours when created later than
/// now), rounded down: the largest `r` with `r * (hours + 1)` at most the
/// numerator. Age keeps counting: a later `now` never gives a higher score.
pub proof fn lemma_news_score_decays(creation_ts: Timestamp, vote_sum: i64, now: Timestamp, later: Timestamp)
    requires
        0 <= 10 + 10000 * vote_sum <= i64::MAX,
        now <= later,
    ensures
        ({
            let n = 10 + 10000 * vote_sum;
            let h = if creation_ts <= now {
                (now - creation_ts) / 3600
            } else {
                0
            };
            let r = spec_news_score(creation_ts, vote_sum, now) as int;
            &&& 0 <= r
            &&& r * (h + 1) <= n
            &&& n < (r + 1) * (h + 1)
        }),
        spec_news_score(creation_ts, vote_sum, later) <= spec_news_score(creation_ts, vote_sum, now),
{
    let n: int = 10 + 10000 * vote_sum;
    let s1 = secs_since(now, creation_ts);
    let s2 = secs_since(later, creation_ts);
    let h1 = s1 / 3600;
    let h2 = s2 / 3600;
    lemma_div_pos_is_pos(s1, 3600);
    lemma_div_pos_is_pos(s2, 3600);
    lemma_div_is_ordered(s1, s2, 3600);
    let d = h1 + 1;
    lemma_fundamental_div_mod(n, d);
    lemma_mod_pos_bound(n, d);
    lemma_div_pos_is_pos(n, d);
    assert(n / d <= n) by {
        lemma_div_is_ordered_by_denominator(n, 1, d);
    }
    assert(spec_news_score(creation_ts, vote_sum, now) == n / d);
    assert((n / d) * d <= n && n < (n / d + 1) * d) by (nonlinear_arith)
        requires
            n == d * (n / d) + n % d,
            0 <= n % d < d,
    ;
    lemma_div_is_ordered_by_denominator(n, h1 + 1, h2 + 1);
    lemma_div_pos_is_pos(n, h2 + 1);
    assert(n / (h2 + 1) <= n) by {
        lemma_div_is_ordered_by_denominator(n, 1, h2 + 1);
    }
    assert(spec_news_score(creation_ts, vote_sum, later) == n / (h2 + 1));
}

/// With a negative numerator `10 + 10000 * votes` (at least `i64::MIN`)
/// the score is the numerator divided by the whole hours since creation
/// plus one, rounded toward zero: `-r * (hours + 1)` is at most the
/// numerator's magnitude, and `-r + 1` times it exceeds it. A later `now`
/// never gives a lower score: negative scores fade toward zero with age.
pub proof fn lemma_negative_news_score_fades(creation_ts: Timestamp, vote_sum: i64, now: Timestamp, later: Timestamp)
    requires
        i64::MIN <= 10 + 10000 * vote_sum < 0,
        now <= later,
    ensures
        ({
            let m = -(10 + 10000 * vote_sum);
            let h = if creation_ts <= now {
                (now - creation_ts) / 3600
            } else {
                0
            };
            let r = spec_news_score(creation_ts, vote_sum, now) as int;
            &&& r <= 0
            &&& -r * (h + 1) <= m
            &&& m < (-r + 1) * (h + 1)
        }),
        spec_news_score(creation_ts, vote_sum, now) <= spec_news_score(creation_ts, vote_sum, later),
{
    let m: int = -(10 + 10000 * vote_sum);
    let s1 = secs_since(now, creation_ts);
    let s2 = secs_since(later, creation_ts);
    let h1 = s1 / 3600;
    let h2 = s2 / 3600;
    lemma_div_pos_is_pos(s1, 3600);
    lemma_div_pos_is_pos(s2, 3600);
    lemma_div_is_ordered(s1, s2, 3600);
    let d = h1 + 1;
    lemma_fundamental_div_mod(m, d);
    lemma_mod_pos_bound(m, d);
    lemma_div_pos_is_pos(m, d);
    assert(m / d <= m) by {
        lemma_div_is_ordered_by_denominator(m, 1, d);
    }
    assert(spec_news_score(creation_ts, vote_sum, now) == -(m / d));
    assert((m / d) * d <= m && m < (m / d + 1) * d) by (nonlinear_arith)
        requires
            m == d * (m / d) + m % d,
            0 <= m % d < d,
    ;
    lemma_div_is_ordered_by_denominator(m, h1 + 1, h2 + 1);
    lemma_div_pos_is_pos(m, h2 + 1);
    assert(m / (h2 + 1) <= m) by {
        lemma_div_is_ordered_by_denominator(m, 1, h2 + 1);
    }
    assert(spec_news_score(creation_ts, vote_sum, later) == -(m / (h2 + 1)));
}

/// The creation time a post is ranked by: its own, but never later than
/// now.
pub fn cap_creation_timestamp(ts: Timestamp, now: Timestamp) -> (r: Timestamp)
    ensures
        r == if ts <= now {
            ts
        } else {
            now
        },
{
    if ts <= now {
        ts
    } else {
        now
    }
}

// ---------------------------------------------------------------------------
// votes
// ---------------------------------------------------------------------------

/// An author's vote on a post, as projected from its singleton event.
#[derive(Clone, Copy)]
pub struct VoteRecord {
    /// Timestamp of the vote event.
    pub ts: Timestamp,
    /// Id of the vote event.
    pub event_id: ShortEventId,
    /// The post voted on.
    pub target: PostKey,
    /// What the vote adds to the post's sum.
    pub score: i32,
}

/// The vote tables as plain values.
pub struct VoteView {
    /// (voter, voted event id) → the voter's winning vote.
    pub winners: Seq<((RostraId, ShortEventId), VoteRecord)>,
    /// Post → (time of its latest counted vote, sum of votes).
    pub sums: Seq<(PostKey, (Timestamp, i64))>,
}

/// Event `a` is ordered no later than event `b`: by timestamp, then id.
pub open spec fn event_order_le(a_ts: Timestamp, a_id: ShortEventId, b_ts: Timestamp, b_id: ShortEventId) -> bool {
    a_ts < b_ts || (a_ts == b_ts && a_id <= b_id)
}

/// The recorded sum of a post, or none.
pub open spec fn sum_of(sums: Seq<(PostKey, (Timestamp, i64))>, t: PostKey) -> (Timestamp, i64) {
    if has_key(sums, t) {
        value_at(sums, t)
    } else {
        (0, 0)
    }
}

/// `a + d`, saturating at the bounds of `i64`.
pub open spec fn sat_add(a: i64, d: int) -> i64 {
    clamp_i64(a + d)
}

/// The sums after adding `delta` to a post's sum at time `ts`: nothing for
/// a zero delta.
pub open spec fn bump(sums: Seq<(PostKey, (Timestamp, i64))>, t: PostKey, ts: Timestamp, delta: int) -> Seq<(PostKey, (Timestamp, i64))> {
    if delta == 0 {
        sums
    } else {
        let (last, cur) = sum_of(sums, t);
        put(sums, t, (if last < ts { ts } else { last }, sat_add(cur, delta)))
    }
}

/// A stored winner does not belong to the singleton key it is stored
/// under.
pub enum VoteError {
    InvalidProjection,
}

/// The tables after a vote by `author`: a vote ordered no later than the
/// author's current winner for the same event id changes nothing; else the
/// sums move by the change of the author's vote (from the old target to
/// the new one when they differ) and the vote becomes the winner.
pub open spec fn spec_apply_vote(v: VoteView, author: RostraId, vote: VoteRecord) -> Result<VoteView, VoteError> {
    let key = (author, vote.target.1);
    if has_key(v.winners, key) {
        let prev = value_at(v.winners, key);
        if event_order_le(vote.ts, vote.event_id, prev.ts, prev.event_id) {
            Ok(v)
        } else if prev.target.1 != vote.target.1 {
            Err(VoteError::InvalidProjection)
        } else {
            let sums = if prev.target == vote.target {
                bump(v.sums, vote.target, vote.ts, vote.score - prev.score)
            } else {
                bump(bump(v.sums, prev.target, vote.ts, -prev.score), vote.target, vote.ts, vote.score as int)
            };
            Ok(VoteView { winners: put(v.winners, key, vote), sums })
        }
    } else {
        Ok(VoteView { winners: put(v.winners, key, vote), sums: bump(v.sums, vote.target, vote.ts, vote.score as int) })
    }
}

/// The posts whose news score changed with a vote.
pub open spec fn spec_vote_notifications(v: VoteView, author: RostraId, vote: VoteRecord) -> Seq<PostKey> {
    let key = (author, vote.target.1);
    if has_key(v.winners, key) {
        let prev = value_at(v.winners, key);
        if event_order_le(vote.ts, vote.event_id, prev.ts, prev.event_id) {
            seq![]
        } else if prev.target != vote.target {
            seq![prev.target, vote.target]
        } else if vote.score != prev.score {
            seq![vote.target]
        } else {
            seq![]
        }
    } else if vote.score != 0 {
        seq![vote.target]
    } else {
        seq![]
    }
}

/// The vote tables.
pub struct VoteTables {
    winners: Vec<((RostraId, ShortEventId), VoteRecord)>,
    sums: Vec<(PostKey, (Timestamp, i64))>,
}

impl View for VoteTables {
    type V = VoteView;

    closed spec fn view(&self) -> VoteView {
        VoteView { winners: self.winners@, sums: self.sums@ }
    }
}

impl VoteTables {
    /// Keys are distinct.
    pub closed spec fn wf(&self) -> bool {
        keys_unique(self.winners@) && keys_unique(self.sums@)
    }

    /// Empty tables.
    pub fn new() -> (r: VoteTables)
        ensures
            r.wf(),
            r@.winners.len() == 0,
            r@.sums.len() == 0,
    {
        VoteTables { winners: Vec::new(), sums: Vec::new() }
    }

    fn find_winner(&self, key: (RostraId, ShortEventId)) -> (r: Option<VoteRecord>)
        requires
            self.wf(),
        ensures
            r is Some <==> has_key(self@.winners, key),
            r matches Some(w) ==> w == value_at(self@.winners, key),
    {
        let mut i: usize = 0;
        while i < self.winners.len()
            invariant
                i <= self.winners.len(),
                keys_unique(self.winners@),
                forall|j: int| 0 <= j < i ==> (#[trigger] self.winners@[j]).0 != key,
            decreases self.winners.len() - i,
        {
            let e = self.winners[i].0;
            if e.0 == key.0 && e.1 == key.1 {
                proof {
                    lemma_key_index(self.winners@, key, i as int);
                }
                return Some(self.winners[i].1);
            }
            i = i + 1;
        }
        None
    }

    fn set_winner(&mut self, key: (RostraId, ShortEventId), vote: VoteRecord)
        requires
            old(self).wf(),
        ensures
            final(self).wf(),
            final(self)@ == (VoteView { winners: put(old(self)@.winners, key, vote), ..old(self)@ }),
    {
        let ghost s = self.winners@;
        proof {
            lemma_put(s, key, vote);
        }
        let mut i: usize = 0;
        while i < self.winners.len()
            invariant
                i <= self.winners.len(),
                s == self.winners@,
                self@ == old(self)@,
                self.wf(),
                forall|j: int| 0 <= j < i ==> (#[trigger] s[j]).0 != key,
            decreases self.winners.len() - i,
        {
            let e = self.winners[i].0;
            if e.0 == key.0 && e.1 == key.1 {
                proof {
                    lemma_key_index(s, key, i as int);
                }
                self.winners.set(i, (key, vote));
                assert(self.winners@ =~= s.update(i as int, (key, vote)));
                return;
            }
            i = i + 1;
        }
        assert(!has_key(s, key));
        self.winners.push((key, vote));
        assert(self.winners@ =~= s.push((key, vote)));
    }

    /// The sum of votes of a post (0 for a post without votes).
    pub fn get_social_vote_sum(&self, post: PostKey) -> (r: (Timestamp, i64))
        requires
            self.wf(),
        ensures
            r == sum_of(self@.sums, post),
    {
        let mut i: usize = 0;
        while i < self.sums.len()
            invariant
                i <= self.sums.len(),
                keys_unique(self.sums@),
                forall|j: int| 0 <= j < i ==> (#[trigger] self.sums@[j]).0 != post,
            decreases self.sums.len() - i,
        {
            let e = self.sums[i].0;
            if e.0 == post.0 && e.1 == post.1 {
                proof {
                    lemma_key_index(self.sums@, post, i as int);
                }
                return self.sums[i].1;
            }
            i = i + 1;
        }
        (0, 0)
    }

    fn bump_sum(&mut self, post: PostKey, ts: Timestamp, delta: i64)
        requires
            old(self).wf(),
        ensures
            final(self).wf(),
            final(self)@ == (VoteView { sums: bump(old(self)@.sums, post, ts, delta as int), ..old(self)@ }),
    {
        if delta == 0 {
            return;
        }
        let (last, cur) = self.get_social_vote_sum(post);
        let wide: i128 = cur as i128 + delta as i128;
        let sum: i64 = if wide < i64::MIN as i128 {
            i64::MIN
        } else if wide > i64::MAX as i128 {
            i64::MAX
        } else {
            wide as i64
        };
        let nv = (if last < ts { ts } else { last }, sum);
        let ghost s = self.sums@;
        proof {
            lemma_put(s, post, nv);
        }
        assert(put(s, post, nv) == bump(s, post, ts, delta as int));
        let mut i: usize = 0;
        while i < self.sums.len()
            invariant
                i <= self.sums.len(),
                s == self.sums@,
                put(s, post, nv) == bump(s, post, ts, delta as int),
                self@ == old(self)@,
                self.wf(),
                forall|j: int| 0 <= j < i ==> (#[trigger] s[j]).0 != post,
            decreases self.sums.len() - i,
        {
            let e = self.sums[i].0;
            if e.0 == post.0 && e.1 == post.1 {
                proof {
                    lemma_key_index(s, post, i as int);
                }
                self.sums.set(i, (post, nv));
                assert(self.sums@ =~= s.update(i as int, (post, nv)));
                return;
            }
            i = i + 1;
        }
        assert(!has_key(s, post));
        self.sums.push((post, nv));
        assert(self.sums@ =~= s.push((post, nv)));
    }

    /// Applies a vote by `author` and records it as the author's winning
    /// vote; returns the posts whose score changed. A stale vote changes
    /// nothing; an inconsistent stored winner is an error and changes
    /// nothing.
    pub fn apply_social_vote(&mut self, author: RostraId, vote: VoteRecord) -> (r: Result<Vec<PostKey>, VoteError>)
        requires
            old(self).wf(),
        ensures
            final(self).wf(),
            match r {
                Ok(n) => spec_apply_vote(old(self)@, author, vote) == Ok::<VoteView, VoteError>(final(self)@)
                    && n@ == spec_vote_notifications(old(self)@, author, vote),
                Err(_) => spec_apply_vote(old(self)@, author, vote) is Err && final(self)@ == old(self)@,
            },
    {
        let key = (author, vote.target.1);
        let mut notify: Vec<PostKey> = Vec::new();
        match self.find_winner(key) {
            Some(prev) => {
                if vote.ts < prev.ts || (vote.ts == prev.ts && vote.event_id <= prev.event_id) {
                    assert(notify@ =~= seq![]);
                    return Ok(notify);
                }
                if prev.target.1 != vote.target.1 {
                    return Err(VoteError::InvalidProjection);
                }
                if prev.target.0 == vote.target.0 {
                    let delta: i64 = vote.score as i64 - prev.score as i64;
                    self.bump_sum(vote.target, vote.ts, delta);
                    if delta != 0 {
                        notify.push(vote.target);
                    }
                } else {
                    self.bump_sum(prev.target, vote.ts, -(prev.score as i64));
                    self.bump_sum(vote.target, vote.ts, vote.score as i64);
                    notify.push(prev.target);
                    notify.push(vote.target);
                }
            },
            None => {
                self.bump_sum(vote.target, vote.ts, vote.score as i64);
                if vote.score != 0 {
                    notify.push(vote.target);
                }
            },
        }
        self.set_winner(key, vote);
        assert(notify@ =~= spec_vote_notifications(old(self)@, author, vote));
        Ok(notify)
    }
}

/// Only an author's latest vote on a post counts: voting, then voting
/// again later on the same post, leaves the post's sum as the later vote
/// alone would (away from the bounds of `i64`).
pub proof fn lemma_latest_vote_counts(v: VoteView, author: RostraId, first: VoteRecord, second: VoteRecord)
    requires
        keys_unique(v.winners),
        keys_unique(v.sums),
        !has_key(v.winners, (author, first.target.1)),
        first.target == second.target,
        !event_order_le(second.ts, second.event_id, first.ts, first.event_id),
        first.ts <= second.ts,
        -0x4000_0000_0000_0000 <= sum_of(v.sums, first.target).1 <= 0x4000_0000_0000_0000,
    ensures
        ({
            let once = spec_apply_vote(v, author, first);
            let twice = spec_apply_vote(once->Ok_0, author, second);
            let alone = spec_apply_vote(v, author, second);
            &&& once is Ok && twice is Ok && alone is Ok
            &&& sum_of(twice->Ok_0.sums, second.target).1 == sum_of(alone->Ok_0.sums, second.target).1
            &&& value_at(twice->Ok_0.winners, (author, second.target.1)) == second
        }),
{
    let key = (author, first.target.1);
    let t = first.target;
    let once = spec_apply_vote(v, author, first)->Ok_0;
    lemma_put(v.winners, key, first);
    let (l0, s0) = sum_of(v.sums, t);
    if first.score != 0 {
        lemma_put(v.sums, t, (if l0 < first.ts { first.ts } else { l0 }, sat_add(s0, first.score as int)));
    }
    assert(sum_of(once.sums, t).1 == s0 + first.score);
    assert(value_at(once.winners, key) == first);
    let twice = spec_apply_vote(once, author, second)->Ok_0;
    let (l1, s1) = sum_of(once.sums, t);
    if second.score - first.score != 0 {
        lemma_put(once.sums, t, (if l1 < second.ts { second.ts } else { l1 }, sat_add(s1, second.score - first.score)));
    }
    lemma_put(once.winners, key, second);
    if second.score != 0 {
        lemma_put(v.sums, t, (if l0 < second.ts { second.ts } else { l0 }, sat_add(s0, second.score as int)));
    }
}

/// Vote `a` is ordered no later than vote `b`.
pub open spec fn vote_order_le(a: VoteRecord, b: VoteRecord) -> bool {
    event_order_le(a.ts, a.event_id, b.ts, b.event_id)
}

/// The tables after applying the votes of `author` in the order given,
/// each in its own step; the first error stops.
pub open spec fn apply_votes(v: VoteView, author: RostraId, votes: Seq<VoteRecord>) -> Result<VoteView, VoteError>
    decreases votes.len(),
{
    if votes.len() == 0 {
        Ok(v)
    } else {
        match apply_votes(v, author, votes.drop_last()) {
            Ok(w) => spec_apply_vote(w, author, votes.last()),
            Err(e) => Err(e),
        }
    }
}

/// The vote that wins among `votes`: the one ordered last (the earliest
/// of equally ordered ones).
pub open spec fn latest_vote(votes: Seq<VoteRecord>) -> VoteRecord
    decreases votes.len(),
{
    if votes.len() <= 1 {
        votes[0]
    } else {
        let m = latest_vote(votes.drop_last());
        if vote_order_le(votes.last(), m) {
            m
        } else {
            votes.last()
        }
    }
}

proof fn lemma_apply_votes_step(v: VoteView, author: RostraId, votes: Seq<VoteRecord>, t: PostKey)
    requires
        keys_unique(v.winners),
        keys_unique(v.sums),
        !has_key(v.winners, (author, t.1)),
        -0x4000_0000_0000_0000 <= sum_of(v.sums, t).1 <= 0x4000_0000_0000_0000,
        votes.len() > 0,
        forall|i: int| 0 <= i < votes.len() ==> (#[trigger] votes[i]).target == t,
    ensures
        apply_votes(v, author, votes) is Ok,
        keys_unique(apply_votes(v, author, votes)->Ok_0.winners),
        keys_unique(apply_votes(v, author, votes)->Ok_0.sums),
        has_key(apply_votes(v, author, votes)->Ok_0.winners, (author, t.1)),
        value_at(apply_votes(v, author, votes)->Ok_0.winners, (author, t.1)) == latest_vote(votes),
        votes.contains(latest_vote(votes)),
        forall|i: int| 0 <= i < votes.len() ==> vote_order_le(#[trigger] votes[i], latest_vote(votes)),
        sum_of(apply_votes(v, author, votes)->Ok_0.sums, t).1 == sum_of(v.sums, t).1 + latest_vote(votes).score,
    decreases votes.len(),
{
    let key = (author, t.1);
    let x = votes.last();
    assert(votes[votes.len() - 1].target == t);
    if votes.len() == 1 {
        assert(votes.drop_last() =~= Seq::<VoteRecord>::empty());
        lemma_put(v.winners, key, x);
        let (l0, s0) = sum_of(v.sums, t);
        if x.score != 0 {
            lemma_put(v.sums, t, (if l0 < x.ts { x.ts } else { l0 }, sat_add(s0, x.score as int)));
        }
        assert(votes[0] == x);
    } else {
        let d = votes.drop_last();
        assert forall|i: int| 0 <= i < d.len() implies (#[trigger] d[i]).target == t by {
            assert(d[i] == votes[i]);
        }
        lemma_apply_votes_step(v, author, d, t);
        let w = apply_votes(v, author, d)->Ok_0;
        let m = latest_vote(d);
        assert(m.target == t) by {
            let k = choose|k: int| 0 <= k < d.len() && d[k] == m;
            assert(d[k].target == t);
        }
        if vote_order_le(x, m) {
            assert(apply_votes(v, author, votes) == Ok::<VoteView, VoteError>(w));
        } else {
            lemma_put(w.winners, key, x);
            let (l1, s1) = sum_of(w.sums, t);
            if x.score - m.score != 0 {
                lemma_put(w.sums, t, (if l1 < x.ts { x.ts } else { l1 }, sat_add(s1, x.score - m.score)));
            }
        }
        assert forall|i: int| 0 <= i < votes.len() implies vote_order_le(#[trigger] votes[i], latest_vote(votes)) by {
            if i < d.len() {
                assert(votes[i] == d[i]);
                assert(vote_order_le(d[i], m));
            }
        }
        if vote_order_le(x, m) {
            let k = choose|k: int| 0 <= k < d.len() && d[k] == m;
            assert(votes[k] == m);
        } else {
            assert(votes[votes.len() - 1] == x);
        }
    }
}

/// Only an author's latest vote on a post counts, whatever order the votes
/// arrive in: after applying any non-empty sequence of the author's votes
/// on one post (the author having no vote on it before), the winner is the
/// vote ordered last among them and the post's sum is its earlier sum plus
/// that vote's score. With distinct event orders that vote is the same for
/// every arrival order. A vote ordered no later than the current winner
/// changes nothing (`spec_apply_vote`).
pub proof fn lemma_latest_vote_wins(v: VoteView, author: RostraId, votes: Seq<VoteRecord>, t: PostKey)
    requires
        keys_unique(v.winners),
        keys_unique(v.sums),
        !has_key(v.winners, (author, t.1)),
        -0x4000_0000_0000_0000 <= sum_of(v.sums, t).1 <= 0x4000_0000_0000_0000,
        votes.len() > 0,
        forall|i: int| 0 <= i < votes.len() ==> (#[trigger] votes[i]).target == t,
    ensures
        apply_votes(v, author, votes) is Ok,
        votes.contains(latest_vote(votes)),
        forall|i: int| 0 <= i < votes.len() ==> vote_order_le(#[trigger] votes[i], latest_vote(votes)),
        value_at(apply_votes(v, author, votes)->Ok_0.winners, (author, t.1)) == latest_vote(votes),
        sum_of(apply_votes(v, author, votes)->Ok_0.sums, t).1 == sum_of(v.sums, t).1 + latest_vote(votes).score,
{
    lemma_apply_votes_step(v, author, votes, t);
}

// ---------------------------------------------------------------------------
// rank tables
// ---------------------------------------------------------------------------

/// The rank tables as plain values.
pub struct RankView {
    /// Post → (capped creation time, score).
    pub by_post: Seq<(PostKey, (Timestamp, i64))>,
    /// (score, post) for every ranked post.
    pub by_score: Set<ScoreKey>,
    /// (creation time, post) for every ranked post.
    pub by_time: Set<PostTimeKey>,
}

/// The two indexes list exactly the ranked posts, each under its current
/// score and creation time.
pub open spec fn rank_in_sync(v: RankView) -> bool {
    &&& keys_unique(v.by_post)
    &&& forall|k: ScoreKey|
        #[trigger] v.by_score.contains(k) <==> (has_key(v.by_post, (k.1, k.2)) && value_at(v.by_post, (k.1, k.2)).1 == k.0)
    &&& forall|k: PostTimeKey|
        #[trigger] v.by_time.contains(k) <==> (has_key(v.by_post, (k.1, k.2)) && value_at(v.by_post, (k.1, k.2)).0 == k.0)
}

/// The rank tables after (re)ranking a post.
pub open spec fn spec_upsert_rank(v: RankView, post: PostKey, creation_ts: Timestamp, score: i64) -> RankView {
    let (by_score, by_time) = if has_key(v.by_post, post) {
        let old_rec = value_at(v.by_post, post);
        (v.by_score.remove((old_rec.1, post.0, post.1)), v.by_time.remove((old_rec.0, post.0, post.1)))
    } else {
        (v.by_score, v.by_time)
    };
    RankView {
        by_post: put(v.by_post, post, (creation_ts, score)),
        by_score: by_score.insert((score, post.0, post.1)),
        by_time: by_time.insert((creation_ts, post.0, post.1)),
    }
}

/// The rank tables after dropping a post.
pub open spec fn spec_remove_rank(v: RankView, post: PostKey) -> RankView {
    if has_key(v.by_post, post) {
        let old_rec = value_at(v.by_post, post);
        RankView {
            by_post: remove_key(v.by_post, post),
            by_score: v.by_score.remove((old_rec.1, post.0, post.1)),
            by_time: v.by_time.remove((old_rec.0, post.0, post.1)),
        }
    } else {
        v
    }
}

/// The news rank tables.
pub struct RankTables {
    by_post: Vec<(PostKey, (Timestamp, i64))>,
    by_score: Vec<ScoreKey>,
    by_time: Vec<PostTimeKey>,
}

impl View for RankTables {
    type V = RankView;

    closed spec fn view(&self) -> RankView {
        RankView { by_post: self.by_post@, by_score: set_of(self.by_score@), by_time: set_of(self.by_time@) }
    }
}

proof fn lemma_upsert_in_sync(v: RankView, post: PostKey, creation_ts: Timestamp, score: i64)
    requires
        rank_in_sync(v),
    ensures
        rank_in_sync(spec_upsert_rank(v, post, creation_ts, score)),
{
    let w = spec_upsert_rank(v, post, creation_ts, score);
    lemma_put(v.by_post, post, (creation_ts, score));
    assert forall|k: ScoreKey| #[trigger] w.by_score.contains(k) <==> (has_key(w.by_post, (k.1, k.2)) && value_at(w.by_post, (k.1, k.2)).1 == k.0) by {
        if (k.1, k.2) != post {
            assert(has_key(w.by_post, (k.1, k.2)) <==> has_key(v.by_post, (k.1, k.2)));
            assert(v.by_score.contains(k) <==> (has_key(v.by_post, (k.1, k.2)) && value_at(v.by_post, (k.1, k.2)).1 == k.0));
        }
    }
    assert forall|k: PostTimeKey| #[trigger] w.by_time.contains(k) <==> (has_key(w.by_post, (k.1, k.2)) && value_at(w.by_post, (k.1, k.2)).0 == k.0) by {
        if (k.1, k.2) != post {
            assert(has_key(w.by_post, (k.1, k.2)) <==> has_key(v.by_post, (k.1, k.2)));
            assert(v.by_time.contains(k) <==> (has_key(v.by_post, (k.1, k.2)) && value_at(v.by_post, (k.1, k.2)).0 == k.0));
        }
    }
}

proof fn lemma_remove_in_sync(v: RankView, post: PostKey)
    requires
        rank_in_sync(v),
    ensures
        rank_in_sync(spec_remove_rank(v, post)),
        !has_key(spec_remove_rank(v, post).by_post, post),
{
    lemma_remove(v.by_post, post);
    let w = spec_remove_rank(v, post);
    assert forall|k: ScoreKey| #[trigger] w.by_score.contains(k) <==> (has_key(w.by_post, (k.1, k.2)) && value_at(w.by_post, (k.1, k.2)).1 == k.0) by {
        assert(v.by_score.contains(k) <==> (has_key(v.by_post, (k.1, k.2)) && value_at(v.by_post, (k.1, k.2)).1 == k.0));
    }
    assert forall|k: PostTimeKey| #[trigger] w.by_time.contains(k) <==> (has_key(w.by_post, (k.1, k.2)) && value_at(w.by_post, (k.1, k.2)).0 == k.0) by {
        assert(v.by_time.contains(k) <==> (has_key(v.by_post, (k.1, k.2)) && value_at(v.by_post, (k.1, k.2)).0 == k.0));
    }
}

impl RankTables {
    /// The indexes are in step with the ranked posts.
    pub closed spec fn wf(&self) -> bool {
        &&& rank_in_sync(self@)
        &&& self.by_score@.no_duplicates()
        &&& self.by_time@.no_duplicates()
    }

    /// Empty tables.
    pub fn new() -> (r: RankTables)
        ensures
            r.wf(),
            r@.by_post.len() == 0,
            r@.by_score.is_empty(),
            r@.by_time.is_empty(),
    {
        let r = RankTables { by_post: Vec::new(), by_score: Vec::new(), by_time: Vec::new() };
        assert(r@.by_score =~= Set::empty());
        assert(r@.by_time =~= Set::empty());
        r
    }

    /// The rank record of a post.
    pub fn get_rank(&self, post: PostKey) -> (r: Option<(Timestamp, i64)>)
        requires
            self.wf(),
        ensures
            r is Some <==> has_key(self@.by_post, post),
            r matches Some(x) ==> x == value_at(self@.by_post, post),
    {
        let mut i: usize = 0;
        while i < self.by_post.len()
            invariant
                i <= self.by_post.len(),
                keys_unique(self.by_post@),
                forall|j: int| 0 <= j < i ==> (#[trigger] self.by_post@[j]).0 != post,
            decreases self.by_post.len() - i,
        {
            let e = self.by_post[i].0;
            if e.0 == post.0 && e.1 == post.1 {
                proof {
                    lemma_key_index(self.by_post@, post, i as int);
                }
                return Some(self.by_post[i].1);
            }
            i = i + 1;
        }
        None
    }

    fn put_rank(&mut self, post: PostKey, rec: (Timestamp, i64))
        requires
            keys_unique(old(self).by_post@),
        ensures
            final(self).by_post@ == put(old(self).by_post@, post, rec),
            final(self).by_score@ == old(self).by_score@,
            final(self).by_time@ == old(self).by_time@,
    {
        let ghost s = self.by_post@;
        let mut i: usize = 0;
        while i < self.by_post.len()
            invariant
                i <= self.by_post.len(),
                s == self.by_post@,
                s == old(self).by_post@,
                keys_unique(s),
                self.by_score@ == old(self).by_score@,
                self.by_time@ == old(self).by_time@,
                forall|j: int| 0 <= j < i ==> (#[trigger] s[j]).0 != post,
            decreases self.by_post.len() - i,
        {
            let e = self.by_post[i].0;
            if e.0 == post.0 && e.1 == post.1 {
                proof {
                    lemma_key_index(s, post, i as int);
                }
                self.by_post.set(i, (post, rec));
                assert(self.by_post@ =~= s.update(i as int, (post, rec)));
                return;
            }
            i = i + 1;
        }
        assert(!has_key(s, post));
        self.by_post.push((post, rec));
        assert(self.by_post@ =~= s.push((post, rec)));
    }

    fn drop_rank(&mut self, post: PostKey)
        requires
            keys_unique(old(self).by_post@),
        ensures
            final(self).by_post@ == remove_key(old(self).by_post@, post),
            final(self).by_score@ == old(self).by_score@,
            final(self).by_time@ == old(self).by_time@,
    {
        let ghost s = self.by_post@;
        let mut i: usize = 0;
        while i < self.by_post.len()
            invariant
                i <= self.by_post.len(),
                s == self.by_post@,
                s == old(self).by_post@,
                keys_unique(s),
                self.by_score@ == old(self).by_score@,
                self.by_time@ == old(self).by_time@,
                forall|j: int| 0 <= j < i ==> (#[trigger] s[j]).0 != post,
            decreases self.by_post.len() - i,
        {
            let e = self.by_post[i].0;
            if e.0 == post.0 && e.1 == post.1 {
                proof {
                    lemma_key_index(s, post, i as int);
                }
                self.by_post.remove(i);
                assert(self.by_post@ =~= s.remove(i as int));
                return;
            }
            i = i + 1;
        }
        assert(!has_key(s, post));
    }

    /// (Re)ranks a post under its creation time and score.
    pub fn upsert_social_news_rank(&mut self, post: PostKey, creation_ts: Timestamp, score: i64)
        requires
            old(self).wf(),
        ensures
            final(self).wf(),
            final(self)@ == spec_upsert_rank(old(self)@, post, creation_ts, score),
    {
        let ghost v = self@;
        proof {
            lemma_upsert_in_sync(v, post, creation_ts, score);
        }
        match self.get_rank(post) {
            Some(old_rec) => {
                score_set_remove(&mut self.by_score, (old_rec.1, post.0, post.1));
                post_time_set_remove(&mut self.by_time, (old_rec.0, post.0, post.1));
            },
            None => {},
        }
        self.put_rank(post, (creation_ts, score));
        score_set_insert(&mut self.by_score, (score, post.0, post.1));
        post_time_set_insert(&mut self.by_time, (creation_ts, post.0, post.1));
        assert(self@ == spec_upsert_rank(v, post, creation_ts, score));
    }

    /// Drops a post from the ranking.
    pub fn remove_social_news_rank(&mut self, post: PostKey)
        requires
            old(self).wf(),
        ensures
            final(self).wf(),
            final(self)@ == spec_remove_rank(old(self)@, post),
    {
        let ghost v = self@;
        proof {
            lemma_remove_in_sync(v, post);
        }
        match self.get_rank(post) {
            Some(old_rec) => {
                self.drop_rank(post);
                score_set_remove(&mut self.by_score, (old_rec.1, post.0, post.1));
                post_time_set_remove(&mut self.by_time, (old_rec.0, post.0, post.1));
                assert(self@ == spec_remove_rank(v, post));
            },
            None => {},
        }
    }

    /// Recomputes a ranked post's score from its vote sum: a post older than
    /// `NEWS_MAX_AGE_SECS` leaves the ranking. Returns whether the post is
    /// (still) ranked.
    pub fn recalculate_news_post_score(&mut self, post: PostKey, vote_sum: i64, now: Timestamp) -> (r: bool)
        requires
            old(self).wf(),
        ensures
            final(self).wf(),
            !has_key(old(self)@.by_post, post) ==> !r && final(self)@ == old(self)@,
            has_key(old(self)@.by_post, post) ==> {
                let rec = value_at(old(self)@.by_post, post);
                if NEWS_MAX_AGE_SECS < secs_since(now, rec.0) {
                    !r && final(self)@ == spec_remove_rank(old(self)@, post)
                } else {
                    let score = spec_news_score(rec.0, vote_sum, now);
                    r && final(self)@ == if score == rec.1 {
                        old(self)@
                    } else {
                        spec_upsert_rank(old(self)@, post, rec.0, score)
                    }
                }
            },
    {
        let rec = match self.get_rank(post) {
            Some(rec) => rec,
            None => return false,
        };
        if NEWS_MAX_AGE_SECS < now.saturating_sub(rec.0) {
            self.remove_social_news_rank(post);
            return false;
        }
        let score = calculate_news_score(rec.0, vote_sum, now);
        if score == rec.1 {
            return true;
        }
        self.upsert_social_news_rank(post, rec.0, score);
        true
    }
}

} // verus!
