//! The network nodes an identity announces: the latest announcement time
//! of each, and at most ten nodes kept per identity.
use vstd::prelude::*;
use crate::db::keys::Timestamp;
use crate::kv::{has_key, keys_unique, lemma_key_index, lemma_put, lemma_remove, put, remove_key, value_at};

verus! {

/// An identity keeps at most this many nodes.
pub const MAX_NODES_PER_ID: usize = 10;

/// A node id, as a number.
pub type IrohNodeId = u128;

/// Connection statistics for a node.
#[derive(Clone, Copy, PartialEq, Eq, Structural)]
pub struct IrohNodeStats {
    /// Last successful connection time
    pub last_success: Option<Timestamp>,
    /// Last failed connection time
    pub last_failure: Option<Timestamp>,
    /// Total successful connection count
    pub success_count: u64,
    /// Total failed connection count
    pub fail_count: u64,
}

/// A node of an identity.
#[derive(Clone, Copy, PartialEq, Eq, Structural)]
pub struct IrohNodeRecord {
    /// When this node was last announced
    pub announcement_ts: Timestamp,
    /// Connection statistics for this node
    pub stats: IrohNodeStats,
}

/// No connections yet.
pub open spec fn no_stats() -> IrohNodeStats {
    IrohNodeStats { last_success: None, last_failure: None, success_count: 0, fail_count: 0 }
}

/// Node `a` was announced before node `b` (by time, then id).
pub open spec fn older(a: (IrohNodeId, IrohNodeRecord), b: (IrohNodeId, IrohNodeRecord)) -> bool {
    a.1.announcement_ts < b.1.announcement_ts || (a.1.announcement_ts == b.1.announcement_ts && a.0 <= b.0)
}

/// Node `a` sorts strictly before node `b`: by announcement time, then id.
pub open spec fn node_lt(a: (IrohNodeId, IrohNodeRecord), b: (IrohNodeId, IrohNodeRecord)) -> bool {
    a.1.announcement_ts < b.1.announcement_ts || (a.1.announcement_ts == b.1.announcement_ts && a.0 < b.0)
}

fn node_less(a: (IrohNodeId, IrohNodeRecord), b: (IrohNodeId, IrohNodeRecord)) -> (r: bool)
    ensures
        r == node_lt(a, b),
{
    a.1.announcement_ts < b.1.announcement_ts || (a.1.announcement_ts == b.1.announcement_ts && a.0 < b.0)
}

/// The position of the oldest node.
pub open spec fn is_oldest(s: Seq<(IrohNodeId, IrohNodeRecord)>, i: int) -> bool {
    0 <= i < s.len() && forall|j: int| 0 <= j < s.len() ==> older(s[i], #[trigger] s[j])
}

/// The node table after an announcement of `node` at `ts`: the node's
/// announcement time becomes the later of the two (a new node starts
/// without statistics).
pub open spec fn spec_announced(s: Seq<(IrohNodeId, IrohNodeRecord)>, node: IrohNodeId, ts: Timestamp) -> Seq<(IrohNodeId, IrohNodeRecord)> {
    let rec = if has_key(s, node) {
        let e = value_at(s, node);
        IrohNodeRecord { announcement_ts: if e.announcement_ts < ts { ts } else { e.announcement_ts }, stats: e.stats }
    } else {
        IrohNodeRecord { announcement_ts: ts, stats: no_stats() }
    };
    put(s, node, rec)
}

/// The nodes of one identity.
pub struct IdNodes {
    nodes: Vec<(IrohNodeId, IrohNodeRecord)>,
}

impl View for IdNodes {
    type V = Seq<(IrohNodeId, IrohNodeRecord)>;

    closed spec fn view(&self) -> Seq<(IrohNodeId, IrohNodeRecord)> {
        self.nodes@
    }
}

impl IdNodes {
    /// Node ids are distinct.
    pub open spec fn wf(&self) -> bool {
        keys_unique(self@)
    }

    /// No nodes.
    pub fn new() -> (r: IdNodes)
        ensures
            r.wf(),
            r@.len() == 0,
    {
        IdNodes { nodes: Vec::new() }
    }

    /// The nodes ordered by announcement time, then node id.
    pub fn get_id_endpoints(&self) -> (r: Vec<(IrohNodeId, IrohNodeRecord)>)
        requires
            self.wf(),
        ensures
            r@.len() == self@.len(),
            forall|a: int, b: int| 0 <= a < b < r@.len() ==> node_lt(r@[a], r@[b]),
            forall|x: (IrohNodeId, IrohNodeRecord)| r@.contains(x) <==> self@.contains(x),
    {
        let mut r: Vec<(IrohNodeId, IrohNodeRecord)> = Vec::new();
        let mut i: usize = 0;
        while i < self.nodes.len()
            invariant
                i <= self.nodes.len(),
                keys_unique(self.nodes@),
                r@.len() == i,
                forall|a: int, b: int| 0 <= a < b < r@.len() ==> node_lt(r@[a], r@[b]),
                forall|x: (IrohNodeId, IrohNodeRecord)| r@.contains(x) <==> self.nodes@.take(i as int).contains(x),
            decreases self.nodes.len() - i,
        {
            let x = self.nodes[i];
            assert forall|m: int| 0 <= m < r@.len() implies (#[trigger] r@[m]).0 != x.0 by {
                assert(r@.contains(r@[m]));
                let t0 = self.nodes@.take(i as int);
                let j = choose|j: int| 0 <= j < t0.len() && t0[j] == r@[m];
                assert(self.nodes@[j] == r@[m]);
            }
            let mut k: usize = 0;
            while k < r.len() && !node_less(x, r[k])
                invariant
                    k <= r.len(),
                    forall|m: int| 0 <= m < k ==> node_lt(#[trigger] r@[m], x),
                    forall|m: int| 0 <= m < r@.len() ==> (#[trigger] r@[m]).0 != x.0,
                decreases r.len() - k,
            {
                k = k + 1;
            }
            let ghost old_r = r@;
            assert(forall|m: int| k <= m < old_r.len() ==> node_lt(x, #[trigger] old_r[m])) by {
                assert forall|m: int| k <= m < old_r.len() implies node_lt(x, #[trigger] old_r[m]) by {
                    if k < m {
                        assert(node_lt(old_r[k as int], old_r[m]));
                    }
                }
            }
            r.insert(k, x);
            assert(r@ == old_r.insert(k as int, x));
            assert forall|a: int, b: int| 0 <= a < b < r@.len() implies node_lt(r@[a], r@[b]) by {
                if b < k {
                    assert(r@[a] == old_r[a] && r@[b] == old_r[b]);
                } else if b == k {
                    assert(r@[a] == old_r[a]);
                } else if a < k {
                    assert(r@[a] == old_r[a] && r@[b] == old_r[b - 1]);
                    assert(node_lt(old_r[a], x));
                } else if a == k {
                    assert(r@[b] == old_r[b - 1]);
                } else {
                    assert(r@[a] == old_r[a - 1] && r@[b] == old_r[b - 1]);
                }
            }
            assert(self.nodes@.take(i + 1) =~= self.nodes@.take(i as int).push(x));
            assert forall|y: (IrohNodeId, IrohNodeRecord)| r@.contains(y) <==> self.nodes@.take(i + 1).contains(y) by {
                if r@.contains(y) {
                    let j = choose|j: int| 0 <= j < r@.len() && r@[j] == y;
                    if j < k {
                        assert(old_r[j] == y);
                        assert(old_r.contains(y));
                    } else if j > k {
                        assert(old_r[j - 1] == y);
                        assert(old_r.contains(y));
                    }
                    assert(self.nodes@.take(i as int).push(x).contains(y)) by {
                        if y != x {
                            assert(self.nodes@.take(i as int).contains(y));
                            let t0 = self.nodes@.take(i as int);
                            let q = choose|q: int| 0 <= q < t0.len() && t0[q] == y;
                            assert(self.nodes@.take(i as int).push(x)[q] == y);
                        } else {
                            assert(self.nodes@.take(i as int).push(x)[i as int] == y);
                        }
                    }
                }
                if self.nodes@.take(i + 1).contains(y) {
                    let t1 = self.nodes@.take(i + 1);
                    let q = choose|q: int| 0 <= q < t1.len() && t1[q] == y;
                    if q < i {
                        assert(self.nodes@.take(i as int)[q] == y);
                        assert(old_r.contains(y));
                        let j = choose|j: int| 0 <= j < old_r.len() && old_r[j] == y;
                        if j < k {
                            assert(r@[j] == y);
                        } else {
                            assert(r@[j + 1] == y);
                        }
                    } else {
                        assert(y == x);
                        assert(r@[k as int] == y);
                    }
                }
            }
            i = i + 1;
        }
        assert(self.nodes@.take(self.nodes.len() as int) =~= self.nodes@);
        r
    }

    /// Records an announcement of `node` at `ts`, then drops the oldest node
    /// when there are more than `MAX_NODES_PER_ID`.
    pub fn announce(&mut self, node: IrohNodeId, ts: Timestamp)
        requires
            old(self).wf(),
        ensures
            final(self).wf(),
            ({
                let a = spec_announced(old(self)@, node, ts);
                if MAX_NODES_PER_ID < a.len() {
                    exists|i: int| is_oldest(a, i) && final(self)@ == remove_key(a, #[trigger] a[i].0)
                } else {
                    final(self)@ == a
                }
            }),
    {
        let ghost s = self.nodes@;
        let mut i: usize = 0;
        while i < self.nodes.len() && self.nodes[i].0 != node
            invariant
                i <= self.nodes.len(),
                self.nodes@ == s,
                keys_unique(s),
                forall|j: int| 0 <= j < i ==> (#[trigger] s[j]).0 != node,
            decreases self.nodes.len() - i,
        {
            i = i + 1;
        }
        let found: Option<usize> = if i < self.nodes.len() {
            Some(i)
        } else {
            None
        };
        let ghost rec_spec = if has_key(s, node) {
            let e = value_at(s, node);
            IrohNodeRecord { announcement_ts: if e.announcement_ts < ts { ts } else { e.announcement_ts }, stats: e.stats }
        } else {
            IrohNodeRecord { announcement_ts: ts, stats: no_stats() }
        };
        proof {
            lemma_put(s, node, rec_spec);
        }
        match found {
            Some(k) => {
                proof {
                    lemma_key_index(s, node, k as int);
                }
                let e = self.nodes[k].1;
                let rec = IrohNodeRecord { announcement_ts: if e.announcement_ts < ts { ts } else { e.announcement_ts }, stats: e.stats };
                self.nodes.set(k, (node, rec));
                assert(self.nodes@ =~= s.update(k as int, (node, rec)));
            },
            None => {
                assert(!has_key(s, node));
                let rec = IrohNodeRecord {
                    announcement_ts: ts,
                    stats: IrohNodeStats { last_success: None, last_failure: None, success_count: 0, fail_count: 0 },
                };
                self.nodes.push((node, rec));
                assert(self.nodes@ =~= s.push((node, rec)));
            },
        }
        let ghost a = self.nodes@;
        assert(a == spec_announced(s, node, ts));
        if MAX_NODES_PER_ID < self.nodes.len() {
            let mut best: usize = 0;
            let mut j: usize = 1;
            while j < self.nodes.len()
                invariant
                    1 <= j <= self.nodes.len(),
                    self.nodes@ == a,
                    best < j,
                    forall|m: int| 0 <= m < j ==> older(a[best as int], #[trigger] a[m]),
                decreases self.nodes.len() - j,
            {
                let c = self.nodes[j];
                let b = self.nodes[best];
                if c.1.announcement_ts < b.1.announcement_ts || (c.1.announcement_ts == b.1.announcement_ts && c.0 < b.0) {
                    best = j;
                }
                j = j + 1;
            }
            assert(is_oldest(a, best as int));
            let victim = self.nodes[best].0;
            proof {
                lemma_key_index(a, victim, best as int);
                lemma_remove(a, victim);
            }
            self.nodes.remove(best);
            assert(self.nodes@ =~= a.remove(best as int));
            assert(self.nodes@ == remove_key(a, a[best as int].0));
        }
    }
}

/// An identity never keeps more than `MAX_NODES_PER_ID` nodes: an
/// announcement to a table within the limit leaves it within the limit.
pub proof fn lemma_announce_within_limit(s: Seq<(IrohNodeId, IrohNodeRecord)>, node: IrohNodeId, ts: Timestamp, i: int)
    requires
        keys_unique(s),
        s.len() <= MAX_NODES_PER_ID,
        MAX_NODES_PER_ID < spec_announced(s, node, ts).len() ==> is_oldest(spec_announced(s, node, ts), i),
    ensures
        ({
            let a = spec_announced(s, node, ts);
            let r = if MAX_NODES_PER_ID < a.len() {
                remove_key(a, a[i].0)
            } else {
                a
            };
            r.len() <= MAX_NODES_PER_ID
        }),
{
    let a = spec_announced(s, node, ts);
    if has_key(s, node) {
        assert(a.len() == s.len());
    } else {
        assert(a.len() == s.len() + 1);
    }
    if MAX_NODES_PER_ID < a.len() {
        let k = a[i].0;
        assert(has_key(a, k));
        assert(remove_key(a, k).len() == a.len() - 1);
    }
}

/// The node dropped when an identity has too many is determined: the
/// oldest node by announcement time, then smallest id, is unique.
pub proof fn lemma_oldest_unique(s: Seq<(IrohNodeId, IrohNodeRecord)>, i: int, j: int)
    requires
        keys_unique(s),
        is_oldest(s, i),
        is_oldest(s, j),
    ensures
        i == j,
{
    assert(older(s[i], s[j]) && older(s[j], s[i]));
    if i < j {
        assert(s[i].0 != s[j].0);
    } else if j < i {
        assert(s[j].0 != s[i].0);
    }
}

} // verus!
