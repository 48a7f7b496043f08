//! The append-only feed of materialized social posts: each position holds
//! one post's event id, positions are dense from zero, and readers scan it
//! in bounded pages from a cursor.
use vstd::prelude::*;
use crate::db::keys::ShortEventId;

verus! {

/// Maximum number of feed rows one scan resolves.
pub const SOCIAL_POST_MATERIALIZATION_SCAN_MAX: usize = 4096;

/// A position in the feed: every earlier occurrence is acknowledged.
#[derive(Clone, Copy, PartialEq, Eq, Structural)]
pub struct SocialPostMaterializationCursor(u64);

impl SocialPostMaterializationCursor {
    /// The position.
    pub closed spec fn pos(self) -> u64 {
        self.0
    }

    /// The cursor at a position.
    pub fn at(position: u64) -> (r: Self)
        ensures
            r.pos() == position,
    {
        SocialPostMaterializationCursor(position)
    }

    /// The position of the cursor.
    pub fn position(&self) -> (r: u64)
        ensures
            r == self.pos(),
    {
        self.0
    }
}

/// Why appending or scanning failed.
pub enum FeedError {
    /// A position would leave the range of `u64`.
    Overflow,
    /// More rows were asked for than a scan resolves.
    ScanLimitTooHigh { requested: usize, maximum: usize },
    /// The cursor is past the end of the feed.
    CursorOutOfRange { position: u64, durable_next: u64 },
    /// A position is missing from the feed.
    LogGap { expected: u64, actual: u64 },
}

/// The feed's positions are `0, 1, ..., n - 1`.
pub open spec fn dense(keys: Seq<u64>) -> bool {
    forall|i: int| 0 <= i < keys.len() ==> #[trigger] keys[i] == i
}

/// The feed's positions strictly increase.
pub open spec fn increasing(keys: Seq<u64>) -> bool {
    forall|i: int, j: int| 0 <= i < j < keys.len() ==> keys[i] < keys[j]
}

/// The position after the last row, or 0 for an empty feed; `None` when
/// the last row is at `u64::MAX`.
pub open spec fn durable_next(keys: Seq<u64>) -> Option<u64> {
    if keys.len() == 0 {
        Some(0)
    } else if keys.last() == u64::MAX {
        None
    } else {
        Some((keys.last() + 1) as u64)
    }
}

/// The first index whose position is at least `p`.
pub open spec fn first_at_least(keys: Seq<u64>, p: int) -> int
    decreases keys.len(),
{
    if keys.len() == 0 {
        0
    } else if keys.last() < p {
        keys.len() as int
    } else {
        first_at_least(keys.drop_last(), p)
    }
}

/// An outcome of a scan: how many rows it resolved, the position it
/// acknowledges through, and whether the feed had nothing more.
pub enum ScanOutcome {
    Page { count: nat, through: u64, exhausted: bool },
    Gap { expected: u64, actual: u64 },
    Overflow,
}

/// Scanning from index `i`, which should hold position `expected`, with
/// room for `c` more rows (then one look ahead).
pub open spec fn scan_from(keys: Seq<u64>, i: int, expected: u64, c: nat) -> ScanOutcome
    decreases c,
{
    if i < 0 || i >= keys.len() {
        ScanOutcome::Page { count: 0, through: expected, exhausted: true }
    } else if keys[i] != expected {
        ScanOutcome::Gap { expected, actual: keys[i] }
    } else if c == 0 {
        ScanOutcome::Page { count: 0, through: expected, exhausted: false }
    } else if expected == u64::MAX {
        ScanOutcome::Overflow
    } else {
        match scan_from(keys, i + 1, (expected + 1) as u64, (c - 1) as nat) {
            ScanOutcome::Page { count, through, exhausted } => ScanOutcome::Page { count: count + 1, through, exhausted },
            other => other,
        }
    }
}

/// One page of the feed.
pub struct ScanPage {
    /// The event ids of the rows resolved, in feed order.
    pub items: Vec<ShortEventId>,
    /// Position acknowledging every row before it.
    pub scanned_through: SocialPostMaterializationCursor,
    /// Whether the feed had no later row.
    pub exhausted: bool,
}

/// The feed of materialized posts.
pub struct MaterializationFeed {
    rows: Vec<(u64, ShortEventId)>,
}

impl MaterializationFeed {
    /// The feed's positions.
    pub closed spec fn keys(&self) -> Seq<u64> {
        self.rows@.map_values(|r: (u64, ShortEventId)| r.0)
    }

    /// The feed's event ids.
    pub closed spec fn ids(&self) -> Seq<ShortEventId> {
        self.rows@.map_values(|r: (u64, ShortEventId)| r.1)
    }

    /// Positions strictly increase.
    pub closed spec fn wf(&self) -> bool {
        increasing(self.keys())
    }

    /// An empty feed.
    pub fn new() -> (r: MaterializationFeed)
        ensures
            r.wf(),
            r.keys().len() == 0,
            r.ids().len() == 0,
    {
        let r = MaterializationFeed { rows: Vec::new() };
        assert(r.keys() =~= Seq::empty());
        assert(r.ids() =~= Seq::empty());
        r
    }

    /// A feed holding the given rows (as read from storage); `None` unless
    /// their positions strictly increase.
    pub fn from_rows(rows: Vec<(u64, ShortEventId)>) -> (r: Option<MaterializationFeed>)
        ensures
            match r {
                Some(f) => f.wf() && f.keys() == rows@.map_values(|r: (u64, ShortEventId)| r.0) && f.ids()
                    == rows@.map_values(|r: (u64, ShortEventId)| r.1),
                None => !increasing(rows@.map_values(|r: (u64, ShortEventId)| r.0)),
            },
    {
        let ghost ks = rows@.map_values(|r: (u64, ShortEventId)| r.0);
        let mut i: usize = 1;
        if rows.len() > 1 {
            while i < rows.len()
                invariant
                    1 <= i <= rows.len(),
                    ks == rows@.map_values(|r: (u64, ShortEventId)| r.0),
                    forall|a: int, b: int| 0 <= a < b < i ==> ks[a] < ks[b],
                decreases rows.len() - i,
            {
                if rows[i].0 <= rows[i - 1].0 {
                    assert(!(ks[i - 1] < ks[i as int]));
                    return None;
                }
                assert forall|a: int, b: int| 0 <= a < b < i + 1 implies ks[a] < ks[b] by {
                    if b == i && a < i - 1 {
                        assert(ks[a] < ks[i - 1]);
                    }
                }
                i = i + 1;
            }
        }
        let f = MaterializationFeed { rows };
        assert(f.keys() == ks);
        Some(f)
    }

    /// Appends a materialized post at the next position, when emission is
    /// enabled. Fails, changing nothing, when the next position would be
    /// `u64::MAX` or beyond.
    pub fn append_social_post_materialization(&mut self, event_id: ShortEventId, enabled: bool) -> (r: Result<(), FeedError>)
        requires
            old(self).wf(),
        ensures
            final(self).wf(),
            !enabled ==> (r is Ok && final(self).keys() == old(self).keys() && final(self).ids() == old(self).ids()),
            enabled ==> match durable_next(old(self).keys()) {
                Some(n) if n != u64::MAX => r is Ok && final(self).keys() == old(self).keys().push(n)
                    && final(self).ids() == old(self).ids().push(event_id),
                _ => r matches Err(FeedError::Overflow) && final(self).keys() == old(self).keys()
                    && final(self).ids() == old(self).ids(),
            },
    {
        if !enabled {
            return Ok(());
        }
        let ghost k = self.keys();
        let n = self.rows.len();
        let next: u64 = if n == 0 {
            0
        } else {
            let last = self.rows[n - 1].0;
            assert(k.last() == last);
            if last == u64::MAX {
                return Err(FeedError::Overflow);
            }
            last + 1
        };
        if next == u64::MAX {
            return Err(FeedError::Overflow);
        }
        let ghost ids = self.ids();
        self.rows.push((next, event_id));
        assert(self.keys() =~= k.push(next));
        assert(self.ids() =~= ids.push(event_id));
        assert forall|a: int, b: int| 0 <= a < b < self.keys().len() implies self.keys()[a] < self.keys()[b] by {
            if b == k.len() && a < k.len() - 1 {
                assert(k[a] < k[k.len() - 1]);
            }
        }
        Ok(())
    }

    /// Replays the social posts of a total migration against the kept feed.
    /// Feed emission is off during the replay, so no post is appended a
    /// second time and the feed is left as it was.
    pub fn replay_social_posts(&mut self, event_ids: &Vec<ShortEventId>)
        requires
            old(self).wf(),
        ensures
            final(self).wf(),
            final(self).keys() == old(self).keys(),
            final(self).ids() == old(self).ids(),
    {
        let mut i: usize = 0;
        while i < event_ids.len()
            invariant
                i <= event_ids.len(),
                self.wf(),
                self.keys() == old(self).keys(),
                self.ids() == old(self).ids(),
            decreases event_ids.len() - i,
        {
            let _ = self.append_social_post_materialization(event_ids[i], false);
            i = i + 1;
        }
    }

    /// Scans up to `limit` rows after the cursor (from position 0 without
    /// one): their event ids, the position acknowledged through, and whether
    /// the feed has nothing more.
    pub fn scan_social_post_materializations(
        &self,
        after: Option<SocialPostMaterializationCursor>,
        limit: usize,
    ) -> (r: Result<ScanPage, FeedError>)
        requires
            self.wf(),
            limit > 0,
        ensures
            SOCIAL_POST_MATERIALIZATION_SCAN_MAX < limit ==> (r matches Err(FeedError::ScanLimitTooHigh { requested, maximum })
                && requested == limit && maximum == SOCIAL_POST_MATERIALIZATION_SCAN_MAX),
            limit <= SOCIAL_POST_MATERIALIZATION_SCAN_MAX ==> {
                let expected: u64 = match after {
                    Some(c) => c.pos(),
                    None => 0,
                };
                match durable_next(self.keys()) {
                    None => r matches Err(FeedError::Overflow),
                    Some(dn) => if dn < expected {
                        r matches Err(FeedError::CursorOutOfRange { position, durable_next })
                            && position == expected && durable_next == dn
                    } else {
                        let i0 = first_at_least(self.keys(), expected as int);
                        match scan_from(self.keys(), i0, expected, limit as nat) {
                            ScanOutcome::Page { count, through, exhausted } => r matches Ok(p)
                                && p.items@ == self.ids().subrange(i0, i0 + count)
                                && p.scanned_through.pos() == through && p.exhausted == exhausted,
                            ScanOutcome::Gap { expected: e, actual: a } => r matches Err(FeedError::LogGap { expected, actual })
                                && expected == e && actual == a,
                            ScanOutcome::Overflow => r matches Err(FeedError::Overflow),
                        }
                    },
                }
            },
    {
        if SOCIAL_POST_MATERIALIZATION_SCAN_MAX < limit {
            return Err(FeedError::ScanLimitTooHigh { requested: limit, maximum: SOCIAL_POST_MATERIALIZATION_SCAN_MAX });
        }
        let ghost keys = self.keys();
        let ghost ids = self.ids();
        let n = self.rows.len();
        let dn: u64 = if n == 0 {
            0
        } else {
            let last = self.rows[n - 1].0;
            if last == u64::MAX {
                return Err(FeedError::Overflow);
            }
            last + 1
        };
        let expected0: u64 = match after {
            Some(c) => c.0,
            None => 0,
        };
        assert(durable_next(keys) == Some(dn)) by {
            if n > 0 {
                assert(keys.last() == self.rows@[n - 1].0);
            }
        }
        if dn < expected0 {
            return Err(FeedError::CursorOutOfRange { position: expected0, durable_next: dn });
        }
        let mut i: usize = 0;
        while i < n && self.rows[i].0 < expected0
            invariant
                i <= n == self.rows.len(),
                keys == self.keys(),
                increasing(keys),
                forall|j: int| 0 <= j < i ==> keys[j] < expected0,
            decreases n - i,
        {
            i = i + 1;
        }
        proof {
            lemma_first_at_least(keys, expected0 as int, i as int);
        }
        let i0 = i;
        let mut expected: u64 = expected0;
        let mut items: Vec<ShortEventId> = Vec::new();
        let mut taken: usize = 0;
        while taken < limit
            invariant
                i0 <= i <= n == self.rows.len(),
                keys == self.keys(),
                ids == self.ids(),
                limit <= SOCIAL_POST_MATERIALIZATION_SCAN_MAX,
                expected0 == match after {
                    Some(c) => c.pos(),
                    None => 0,
                },
                durable_next(keys) == Some(dn),
                !(dn < expected0),
                i0 == first_at_least(keys, expected0 as int),
                taken <= limit,
                i == i0 + taken,
                expected == expected0 + taken,
                items@ == ids.subrange(i0 as int, i as int),
                scan_from(keys, i0 as int, expected0, limit as nat) == match scan_from(keys, i as int, expected, (limit - taken) as nat) {
                    ScanOutcome::Page { count, through, exhausted } => ScanOutcome::Page { count: (count + taken) as nat, through, exhausted },
                    other => other,
                },
            decreases limit - taken,
        {
            if i >= n {
                return Ok(ScanPage { items, scanned_through: SocialPostMaterializationCursor(expected), exhausted: true });
            }
            let actual = self.rows[i].0;
            if actual != expected {
                return Err(FeedError::LogGap { expected, actual });
            }
            if expected == u64::MAX {
                return Err(FeedError::Overflow);
            }
            items.push(self.rows[i].1);
            assert(items@ =~= ids.subrange(i0 as int, i + 1));
            expected = expected + 1;
            i = i + 1;
            taken = taken + 1;
        }
        if i >= n {
            return Ok(ScanPage { items, scanned_through: SocialPostMaterializationCursor(expected), exhausted: true });
        }
        let actual = self.rows[i].0;
        if actual != expected {
            return Err(FeedError::LogGap { expected, actual });
        }
        Ok(ScanPage { items, scanned_through: SocialPostMaterializationCursor(expected), exhausted: false })
    }
}

proof fn lemma_first_at_least(keys: Seq<u64>, p: int, i: int)
    requires
        increasing(keys),
        0 <= i <= keys.len(),
        forall|j: int| 0 <= j < i ==> keys[j] < p,
        i < keys.len() ==> p <= keys[i],
    ensures
        first_at_least(keys, p) == i,
    decreases keys.len(),
{
    if keys.len() > 0 {
        let d = keys.drop_last();
        if keys.last() < p {
            if i < keys.len() {
                assert(keys[keys.len() - 1] < p);
                if i < keys.len() - 1 {
                    assert(keys[i] < keys[keys.len() - 1]);
                }
            }
        } else {
            assert(i < keys.len());
            assert forall|a: int, b: int| 0 <= a < b < d.len() implies d[a] < d[b] by {
                assert(d[a] == keys[a] && d[b] == keys[b]);
            }
            if i == keys.len() - 1 {
                lemma_first_at_least(d, p, i);
            } else {
                assert(d[i] == keys[i]);
                lemma_first_at_least(d, p, i);
            }
        }
    }
}

proof fn lemma_scan_dense(keys: Seq<u64>, i: int, c: nat)
    requires
        dense(keys),
        keys.len() < u64::MAX,
        0 <= i <= keys.len(),
    ensures
        scan_from(keys, i, i as u64, c) == (ScanOutcome::Page {
            count: if c < keys.len() - i { c } else { (keys.len() - i) as nat },
            through: (if c < keys.len() - i { i + c } else { keys.len() as int }) as u64,
            exhausted: !(c < keys.len() - i),
        }),
    decreases c,
{
    if i < keys.len() && c > 0 {
        lemma_scan_dense(keys, i + 1, (c - 1) as nat);
    }
}

/// On a dense feed, scanning from any position up to its end never fails:
/// it resolves `min(limit, n - after)` rows, acknowledges through the
/// position after them, and is exhausted exactly when it reaches the end.
pub proof fn lemma_dense_scan(keys: Seq<u64>, after: u64, limit: nat)
    requires
        dense(keys),
        keys.len() < u64::MAX,
        after <= keys.len(),
    ensures
        durable_next(keys) == Some(keys.len() as u64),
        first_at_least(keys, after as int) == after,
        scan_from(keys, after as int, after, limit) == (ScanOutcome::Page {
            count: if limit < keys.len() - after { limit } else { (keys.len() - after) as nat },
            through: (if limit < keys.len() - after { after + limit } else { keys.len() as int }) as u64,
            exhausted: !(limit < keys.len() - after),
        }),
{
    assert(increasing(keys));
    if keys.len() > 0 {
        assert(keys[keys.len() - 1] == keys.len() - 1);
    }
    lemma_first_at_least(keys, after as int, after as int);
    lemma_scan_dense(keys, after as int, limit);
}

/// Appending to a dense feed keeps it dense.
pub proof fn lemma_append_keeps_dense(keys: Seq<u64>)
    requires
        dense(keys),
        keys.len() + 1 < u64::MAX,
    ensures
        durable_next(keys) == Some(keys.len() as u64),
        dense(keys.push(keys.len() as u64)),
{
    if keys.len() > 0 {
        assert(keys[keys.len() - 1] == keys.len() - 1);
    }
    let k2 = keys.push(keys.len() as u64);
    assert forall|i: int| 0 <= i < k2.len() implies #[trigger] k2[i] == i by {
        if i < keys.len() {
            assert(k2[i] == keys[i]);
        }
    }
}

} // verus!
