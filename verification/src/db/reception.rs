//! Database-local reception order: a durable counter handing out the next
//! unused sequence number, and tables keyed by reception time and order.
use vstd::prelude::*;
use crate::db::keys::{ShortEventId, Timestamp};
use crate::kv::{has_key, keys_unique, lemma_key_index, lemma_put, put, value_at};

verus! {

/// Why an order could not be allocated or used.
pub enum ReceptionError {
    /// The counter is exhausted (`u64::MAX` is reserved as its sentinel).
    Overflow,
    /// The key is already occupied.
    ReceptionOrderCollision { received_at: Timestamp, reception_order: u64 },
}

/// The in-memory reception counter: a monotonically increasing counter
/// ordering events received at the same timestamp (wrapping past
/// `u64::MAX`, as an atomic `fetch_add` does).
pub struct ReceptionOrderCounter {
    next: u64,
}

impl ReceptionOrderCounter {
    /// A counter whose first order is `start`.
    pub fn new(start: u64) -> (r: ReceptionOrderCounter)
        ensures
            r.value() == start,
    {
        ReceptionOrderCounter { next: start }
    }

    /// The order the next call hands out.
    pub closed spec fn value(&self) -> u64 {
        self.next
    }

    /// Hands out the next order: each call returns the counter's value and
    /// advances it by one.
    pub fn next_reception_order(&mut self) -> (r: u64)
        ensures
            r == old(self).value(),
            final(self).value() == if old(self).value() == u64::MAX {
                0
            } else {
                (old(self).value() + 1) as u64
            },
    {
        let r = self.next;
        self.next = self.next.wrapping_add(1);
        r
    }
}

/// The counter and a table ordered by reception, as plain values.
pub struct ReceptionView {
    /// The next unused sequence number.
    pub next: u64,
    /// (received at, reception order) → event id.
    pub entries: Seq<((Timestamp, u64), ShortEventId)>,
}

/// Every order in the table was handed out before the counter's value.
pub open spec fn orders_below_next(v: ReceptionView) -> bool {
    forall|i: int| 0 <= i < v.entries.len() ==> (#[trigger] v.entries[i]).0.1 < v.next
}

/// The state after inserting `value` received at `received_at`, with the
/// order it got: the counter's value is taken (failing when it is
/// `u64::MAX`) and the counter advances; an occupied key fails. A failure
/// changes nothing.
pub open spec fn spec_insert(v: ReceptionView, received_at: Timestamp, value: ShortEventId) -> Result<(ReceptionView, u64), ReceptionError> {
    if v.next == u64::MAX {
        Err(ReceptionError::Overflow)
    } else if has_key(v.entries, (received_at, v.next)) {
        Err(ReceptionError::ReceptionOrderCollision { received_at, reception_order: v.next })
    } else {
        Ok((ReceptionView { next: (v.next + 1) as u64, entries: put(v.entries, (received_at, v.next), value) }, v.next))
    }
}

/// The counter and one table ordered by reception.
pub struct ReceptionOrdered {
    next: Option<u64>,
    entries: Vec<((Timestamp, u64), ShortEventId)>,
}

impl View for ReceptionOrdered {
    type V = ReceptionView;

    closed spec fn view(&self) -> ReceptionView {
        ReceptionView {
            next: match self.next {
                Some(n) => n,
                None => 0,
            },
            entries: self.entries@,
        }
    }
}

impl ReceptionOrdered {
    /// Keys are distinct.
    pub closed spec fn wf(&self) -> bool {
        keys_unique(self.entries@)
    }

    /// A fresh counter (no value stored yet) and an empty table.
    pub fn new() -> (r: ReceptionOrdered)
        ensures
            r.wf(),
            r@.next == 0,
            r@.entries.len() == 0,
    {
        ReceptionOrdered { next: None, entries: Vec::new() }
    }

    /// The next order the durable counter would hand out.
    pub fn peek_reception_order(&self) -> (r: u64)
        ensures
            r == self@.next,
    {
        match self.next {
            Some(n) => n,
            None => 0,
        }
    }

    /// Allocates the next reception order and inserts `value` under
    /// `(received_at, order)` without replacing an occupied key; returns the
    /// order.
    pub fn insert_reception_ordered(&mut self, received_at: Timestamp, value: ShortEventId) -> (r: Result<u64, ReceptionError>)
        requires
            old(self).wf(),
        ensures
            final(self).wf(),
            match r {
                Ok(o) => spec_insert(old(self)@, received_at, value) == Ok::<(ReceptionView, u64), ReceptionError>((final(self)@, o)),
                Err(ReceptionError::Overflow) => spec_insert(old(self)@, received_at, value) matches Err(ReceptionError::Overflow)
                    && final(self)@ == old(self)@,
                Err(ReceptionError::ReceptionOrderCollision { received_at: t, reception_order: o }) => spec_insert(
                    old(self)@,
                    received_at,
                    value,
                ) matches Err(ReceptionError::ReceptionOrderCollision { received_at: t2, reception_order: o2 }) && t == t2 && o == o2
                    && final(self)@ == old(self)@,
            },
    {
        let next = self.peek_reception_order();
        if next == u64::MAX {
            return Err(ReceptionError::Overflow);
        }
        let key = (received_at, next);
        let ghost s = self.entries@;
        let mut i: usize = 0;
        while i < self.entries.len()
            invariant
                i <= self.entries.len(),
                s == self.entries@,
                self@ == old(self)@,
                next == old(self)@.next,
                next != u64::MAX,
                key == (received_at, next),
                keys_unique(s),
                forall|j: int| 0 <= j < i ==> (#[trigger] s[j]).0 != key,
            decreases self.entries.len() - i,
        {
            let k = self.entries[i].0;
            if k.0 == key.0 && k.1 == key.1 {
                assert(has_key(s, key)) by {
                    assert(s[i as int].0 == key);
                }
                return Err(ReceptionError::ReceptionOrderCollision { received_at, reception_order: next });
            }
            i = i + 1;
        }
        assert(!has_key(s, key));
        proof {
            lemma_put(s, key, value);
        }
        self.entries.push((key, value));
        assert(self.entries@ =~= s.push((key, value)));
        self.next = Some(next + 1);
        Ok(next)
    }
}

/// Orders are never reused: when every stored order is below the counter,
/// an insertion never collides, and afterwards every stored order is still
/// below the counter.
pub proof fn lemma_orders_never_collide(v: ReceptionView, received_at: Timestamp, value: ShortEventId)
    requires
        keys_unique(v.entries),
        orders_below_next(v),
        v.next < u64::MAX,
    ensures
        spec_insert(v, received_at, value) is Ok,
        orders_below_next(spec_insert(v, received_at, value)->Ok_0.0),
{
    let key = (received_at, v.next);
    assert(!has_key(v.entries, key)) by {
        if has_key(v.entries, key) {
            let i = choose|i: int| 0 <= i < v.entries.len() && (#[trigger] v.entries[i]).0 == key;
            assert(v.entries[i].0.1 < v.next);
        }
    }
    let w = spec_insert(v, received_at, value)->Ok_0.0;
    assert(w.entries == v.entries.push((key, value)));
    assert forall|i: int| 0 <= i < w.entries.len() implies (#[trigger] w.entries[i]).0.1 < w.next by {
        if i < v.entries.len() {
            assert(w.entries[i] == v.entries[i]);
        }
    }
}

} // verus!
