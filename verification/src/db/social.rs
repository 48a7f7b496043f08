//! What a social post's content does to the social tables when it is
//! processed, and what reverting it (after the post is deleted) undoes:
//! the by-time index, and the reply and reaction counts and indexes of the
//! post it answers.
use vstd::prelude::*;
use crate::db::keys::{
    reply_set_insert, reply_set_remove, set_of, time_set_insert, time_set_remove, ReplyKey,
    ShortEventId, TimeKey, Timestamp,
};
use crate::db::paginate::TableKey;
use crate::kv::{has_key, keys_unique, lemma_key_index, lemma_put, put, value_at};

verus! {

/// Cursor for paginating posts by their author timestamp, the key of the
/// posts-by-time index: ordered by timestamp, then event id.
#[derive(Clone, Copy, Debug, PartialEq, Eq, Structural)]
pub struct EventPaginationCursor {
    pub ts: Timestamp,
    pub event_id: ShortEventId,
}

impl TableKey for EventPaginationCursor {
    open spec fn key_lt(self, other: Self) -> bool {
        self.ts < other.ts || (self.ts == other.ts && self.event_id < other.event_id)
    }

    proof fn lemma_lt_irreflexive(a: Self) {
    }

    proof fn lemma_lt_transitive(a: Self, b: Self, c: Self) {
    }

    proof fn lemma_lt_total(a: Self, b: Self) {
    }

    fn key_less(&self, other: &Self) -> (r: bool) {
        self.ts < other.ts || (self.ts == other.ts && self.event_id < other.event_id)
    }
}

/// Cursor for paginating posts by when they were received, the key of the
/// posts-by-reception index: ordered by reception time, then the reception
/// counter (which orders posts received in the same second), then event id.
#[derive(Clone, Copy, Debug, PartialEq, Eq, Structural)]
pub struct ReceivedAtPaginationCursor {
    pub ts: Timestamp,
    pub reception_order: u64,
    pub event_id: ShortEventId,
}

impl TableKey for ReceivedAtPaginationCursor {
    open spec fn key_lt(self, other: Self) -> bool {
        ||| self.ts < other.ts
        ||| (self.ts == other.ts && self.reception_order < other.reception_order)
        ||| (self.ts == other.ts && self.reception_order == other.reception_order && self.event_id < other.event_id)
    }

    proof fn lemma_lt_irreflexive(a: Self) {
    }

    proof fn lemma_lt_transitive(a: Self, b: Self, c: Self) {
    }

    proof fn lemma_lt_total(a: Self, b: Self) {
    }

    fn key_less(&self, other: &Self) -> (r: bool) {
        if self.ts != other.ts {
            self.ts < other.ts
        } else if self.reception_order != other.reception_order {
            self.reception_order < other.reception_order
        } else {
            self.event_id < other.event_id
        }
    }
}

/// Aggregate metadata for a social post: how many replies and reactions it
/// has received. A post not in the table counts as having none.
#[derive(Clone, Copy)]
pub struct SocialPostRecord {
    /// Number of replies to this post
    pub reply_count: u64,
    /// Number of reactions to this post
    pub reaction_count: u64,
}

/// What processing a social post reads of it.
pub struct SocialPostEvent {
    pub event_id: ShortEventId,
    pub ts: Timestamp,
    /// The post it answers, if any.
    pub reply_to: Option<ShortEventId>,
    /// It carries text (a reply).
    pub has_text: bool,
    /// It carries a reaction.
    pub has_reaction: bool,
}

/// The social tables as plain values.
pub struct SocialView {
    /// Post id → (reply count, reaction count).
    pub posts: Seq<(ShortEventId, (u64, u64))>,
    pub replies: Set<ReplyKey>,
    pub reactions: Set<ReplyKey>,
    pub by_time: Set<TimeKey>,
}

/// The counts of a post: those recorded, or none.
pub open spec fn counts(posts: Seq<(ShortEventId, (u64, u64))>, p: ShortEventId) -> (u64, u64) {
    if has_key(posts, p) {
        value_at(posts, p)
    } else {
        (0, 0)
    }
}

/// The tables after processing a post, or `None` when a count would
/// overflow.
pub open spec fn spec_post_inserted(v: SocialView, e: SocialPostEvent) -> Option<SocialView> {
    let by_time = v.by_time.insert((e.ts, e.event_id));
    match e.reply_to {
        None => Some(SocialView { by_time, ..v }),
        Some(p) => {
            let (rc, xc) = counts(v.posts, p);
            if (e.has_text && rc == u64::MAX) || (e.has_reaction && xc == u64::MAX) {
                None
            } else {
                let k = (p, e.ts, e.event_id);
                Some(
                    SocialView {
                        posts: put(
                            v.posts,
                            p,
                            (
                                if e.has_text {
                                    (rc + 1) as u64
                                } else {
                                    rc
                                },
                                if e.has_reaction {
                                    (xc + 1) as u64
                                } else {
                                    xc
                                },
                            ),
                        ),
                        replies: if e.has_text {
                            v.replies.insert(k)
                        } else {
                            v.replies
                        },
                        reactions: if e.has_reaction {
                            v.reactions.insert(k)
                        } else {
                            v.reactions
                        },
                        by_time,
                    },
                )
            }
        },
    }
}

/// The tables after reverting a post, or `None` when a count would go
/// below zero.
pub open spec fn spec_post_reverted(v: SocialView, e: SocialPostEvent) -> Option<SocialView> {
    let by_time = v.by_time.remove((e.ts, e.event_id));
    match e.reply_to {
        None => Some(SocialView { by_time, ..v }),
        Some(p) => {
            let (rc, xc) = counts(v.posts, p);
            if (e.has_text && rc == 0) || (e.has_reaction && xc == 0) {
                None
            } else {
                let k = (p, e.ts, e.event_id);
                Some(
                    SocialView {
                        posts: put(
                            v.posts,
                            p,
                            (
                                if e.has_text {
                                    (rc - 1) as u64
                                } else {
                                    rc
                                },
                                if e.has_reaction {
                                    (xc - 1) as u64
                                } else {
                                    xc
                                },
                            ),
                        ),
                        replies: if e.has_text {
                            v.replies.remove(k)
                        } else {
                            v.replies
                        },
                        reactions: if e.has_reaction {
                            v.reactions.remove(k)
                        } else {
                            v.reactions
                        },
                        by_time,
                    },
                )
            }
        },
    }
}

/// A count would leave the range of `u64`.
pub enum SocialError {
    Overflow,
}

/// The social tables.
pub struct SocialTables {
    posts: Vec<(ShortEventId, SocialPostRecord)>,
    replies: Vec<ReplyKey>,
    reactions: Vec<ReplyKey>,
    by_time: Vec<TimeKey>,
}

impl View for SocialTables {
    type V = SocialView;

    closed spec fn view(&self) -> SocialView {
        SocialView {
            posts: self.posts@.map_values(
                |p: (ShortEventId, SocialPostRecord)| (p.0, (p.1.reply_count, p.1.reaction_count)),
            ),
            replies: set_of(self.replies@),
            reactions: set_of(self.reactions@),
            by_time: set_of(self.by_time@),
        }
    }
}

impl SocialTables {
    /// The tables are well formed.
    pub closed spec fn wf(&self) -> bool {
        &&& keys_unique(self@.posts)
        &&& self.replies@.no_duplicates()
        &&& self.reactions@.no_duplicates()
        &&& self.by_time@.no_duplicates()
    }

    /// Empty tables.
    pub fn new() -> (r: SocialTables)
        ensures
            r.wf(),
            r@.posts.len() == 0,
            r@.replies.is_empty(),
            r@.reactions.is_empty(),
            r@.by_time.is_empty(),
    {
        let r = SocialTables { posts: Vec::new(), replies: Vec::new(), reactions: Vec::new(), by_time: Vec::new() };
        assert(r@.posts =~= Seq::empty());
        assert(r@.replies =~= Set::empty());
        assert(r@.reactions =~= Set::empty());
        assert(r@.by_time =~= Set::empty());
        r
    }

    /// The counts of a post (zero for a post never seen).
    pub fn get_counts(&self, post: ShortEventId) -> (r: SocialPostRecord)
        requires
            self.wf(),
        ensures
            (r.reply_count, r.reaction_count) == counts(self@.posts, post),
    {
        let ghost v = self@.posts;
        let mut i: usize = 0;
        while i < self.posts.len()
            invariant
                i <= self.posts.len(),
                v == self@.posts,
                keys_unique(v),
                forall|j: int| 0 <= j < i ==> (#[trigger] v[j]).0 != post,
            decreases self.posts.len() - i,
        {
            assert(v[i as int] == (self.posts@[i as int].0, (self.posts@[i as int].1.reply_count, self.posts@[i as int].1.reaction_count)));
            if self.posts[i].0 == post {
                proof {
                    lemma_key_index(v, post, i as int);
                }
                return self.posts[i].1;
            }
            i = i + 1;
        }
        assert(!has_key(v, post));
        SocialPostRecord { reply_count: 0, reaction_count: 0 }
    }

    fn set_counts(&mut self, post: ShortEventId, rec: SocialPostRecord)
        requires
            old(self).wf(),
        ensures
            final(self).wf(),
            final(self)@ == (SocialView {
                posts: put(old(self)@.posts, post, (rec.reply_count, rec.reaction_count)),
                ..old(self)@
            }),
    {
        let ghost v = self@.posts;
        let ghost nv = (rec.reply_count, rec.reaction_count);
        proof {
            lemma_put(v, post, nv);
        }
        let mut i: usize = 0;
        while i < self.posts.len()
            invariant
                i <= self.posts.len(),
                v == self@.posts,
                self@ == old(self)@,
                self.wf(),
                keys_unique(v),
                nv == (rec.reply_count, rec.reaction_count),
                forall|j: int| 0 <= j < i ==> (#[trigger] v[j]).0 != post,
            decreases self.posts.len() - i,
        {
            assert(v[i as int].0 == self.posts@[i as int].0);
            if self.posts[i].0 == post {
                proof {
                    lemma_key_index(v, post, i as int);
                }
                self.posts.set(i, (post, rec));
                assert(self@.posts =~= v.update(i as int, (post, nv)));
                return;
            }
            i = i + 1;
        }
        assert(!has_key(v, post));
        self.posts.push((post, rec));
        assert(self@.posts =~= v.push((post, nv)));
    }

    /// After a post's content was processed: index it by time and, for a
    /// reply, count it on the post it answers and index it there. On a
    /// count overflow nothing changes.
    pub fn social_post_inserted(&mut self, e: &SocialPostEvent) -> (r: Result<(), SocialError>)
        requires
            old(self).wf(),
        ensures
            final(self).wf(),
            match r {
                Ok(()) => spec_post_inserted(old(self)@, *e) == Some(final(self)@),
                Err(_) => spec_post_inserted(old(self)@, *e) is None && final(self)@ == old(self)@,
            },
    {
        match e.reply_to {
            Some(p) => {
                let c = self.get_counts(p);
                if (e.has_text && c.reply_count == u64::MAX) || (e.has_reaction && c.reaction_count == u64::MAX) {
                    return Err(SocialError::Overflow);
                }
                let rec = SocialPostRecord {
                    reply_count: if e.has_text { c.reply_count + 1 } else { c.reply_count },
                    reaction_count: if e.has_reaction { c.reaction_count + 1 } else { c.reaction_count },
                };
                self.set_counts(p, rec);
                let k: ReplyKey = (p, e.ts, e.event_id);
                if e.has_text {
                    reply_set_insert(&mut self.replies, k);
                }
                if e.has_reaction {
                    reply_set_insert(&mut self.reactions, k);
                }
            },
            None => {},
        }
        time_set_insert(&mut self.by_time, (e.ts, e.event_id));
        Ok(())
    }

    /// After a post was deleted: remove it from the time index and, for a
    /// reply, uncount and unindex it on the post it answers. When a count
    /// would go below zero nothing changes.
    pub fn social_post_reverted(&mut self, e: &SocialPostEvent) -> (r: Result<(), SocialError>)
        requires
            old(self).wf(),
        ensures
            final(self).wf(),
            match r {
                Ok(()) => spec_post_reverted(old(self)@, *e) == Some(final(self)@),
                Err(_) => spec_post_reverted(old(self)@, *e) is None && final(self)@ == old(self)@,
            },
    {
        match e.reply_to {
            Some(p) => {
                let c = self.get_counts(p);
                if (e.has_text && c.reply_count == 0) || (e.has_reaction && c.reaction_count == 0) {
                    return Err(SocialError::Overflow);
                }
                let rec = SocialPostRecord {
                    reply_count: if e.has_text { c.reply_count - 1 } else { c.reply_count },
                    reaction_count: if e.has_reaction { c.reaction_count - 1 } else { c.reaction_count },
                };
                self.set_counts(p, rec);
                let k: ReplyKey = (p, e.ts, e.event_id);
                if e.has_text {
                    reply_set_remove(&mut self.replies, k);
                }
                if e.has_reaction {
                    reply_set_remove(&mut self.reactions, k);
                }
            },
            None => {},
        }
        time_set_remove(&mut self.by_time, (e.ts, e.event_id));
        Ok(())
    }
}

/// Reverting a post right after processing it restores every post's counts
/// and the indexes, when the post was not indexed before.
pub proof fn lemma_revert_undoes_insert(v: SocialView, e: SocialPostEvent)
    requires
        keys_unique(v.posts),
        spec_post_inserted(v, e) is Some,
        !v.by_time.contains((e.ts, e.event_id)),
        e.reply_to matches Some(p) ==> (e.has_text ==> !v.replies.contains((p, e.ts, e.event_id))),
        e.reply_to matches Some(p) ==> (e.has_reaction ==> !v.reactions.contains((p, e.ts, e.event_id))),
    ensures
        ({
            let v2 = spec_post_inserted(v, e)->0;
            &&& spec_post_reverted(v2, e) is Some
            &&& forall|k: ShortEventId| #[trigger] counts(spec_post_reverted(v2, e)->0.posts, k) == counts(v.posts, k)
            &&& spec_post_reverted(v2, e)->0.replies == v.replies
            &&& spec_post_reverted(v2, e)->0.reactions == v.reactions
            &&& spec_post_reverted(v2, e)->0.by_time == v.by_time
        }),
{
    let v2 = spec_post_inserted(v, e)->0;
    assert(v2.by_time.remove((e.ts, e.event_id)) =~= v.by_time);
    match e.reply_to {
        None => {},
        Some(p) => {
            let (rc, xc) = counts(v.posts, p);
            let nv = (
                if e.has_text { (rc + 1) as u64 } else { rc },
                if e.has_reaction { (xc + 1) as u64 } else { xc },
            );
            lemma_put(v.posts, p, nv);
            assert(counts(v2.posts, p) == nv);
            let v3 = spec_post_reverted(v2, e)->0;
            lemma_put(v2.posts, p, (rc, xc));
            assert forall|k: ShortEventId| #[trigger] counts(v3.posts, k) == counts(v.posts, k) by {
                if k != p {
                    assert(has_key(v3.posts, k) <==> has_key(v.posts, k));
                }
            }
            if e.has_text {
                assert(v2.replies.remove((p, e.ts, e.event_id)) =~= v.replies);
            }
            if e.has_reaction {
                assert(v2.reactions.remove((p, e.ts, e.event_id)) =~= v.reactions);
            }
        },
    }
}

} // verus!
