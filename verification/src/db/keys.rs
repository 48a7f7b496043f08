//! Identifiers of the event database and the small keyed collections its
//! tables are modeled by.
use vstd::prelude::*;

verus! {

/// A short event id (the 16 bytes that identify an event), as a number.
pub type ShortEventId = u128;

/// An identity, as a number by which it is ordered and found again.
pub type RostraId = u128;

/// Seconds since the Unix epoch.
pub type Timestamp = u64;

/// The set of distinct elements of a sequence.
pub open spec fn set_of<T>(s: Seq<T>) -> Set<T> {
    Set::new(|x: T| s.contains(x))
}

/// A key of an index of replies or reactions: the post replied to, the
/// time of the reply and its id.
pub type ReplyKey = (ShortEventId, Timestamp, ShortEventId);

/// Adds a reply key to an index held without duplicates.
pub fn reply_set_insert(s: &mut Vec<ReplyKey>, k: ReplyKey)
    requires
        old(s)@.no_duplicates(),
    ensures
        final(s)@.no_duplicates(),
        set_of(final(s)@) == set_of(old(s)@).insert(k),
{
    let mut i: usize = 0;
    while i < s.len()
        invariant
            i <= s.len(),
            s@ == old(s)@,
            s@.no_duplicates(),
            forall|j: int| 0 <= j < i ==> s@[j] != k,
        decreases s.len() - i,
    {
        let e = s[i];
        if e.0 == k.0 && e.1 == k.1 && e.2 == k.2 {
            assert(s@[i as int] == k);
            assert(set_of(s@) =~= set_of(s@).insert(k));
            return;
        }
        i = i + 1;
    }
    let ghost before = s@;
    assert(!before.contains(k));
    s.push(k);
    assert forall|x: ReplyKey| s@.contains(x) <==> before.contains(x) || x == k by {
        if before.contains(x) {
            let j = choose|j: int| 0 <= j < before.len() && before[j] == x;
            assert(s@[j] == x);
        }
        if s@.contains(x) && x != k {
            let j = choose|j: int| 0 <= j < s@.len() && s@[j] == x;
            assert(before[j] == x);
        }
        if x == k {
            assert(s@[before.len() as int] == k);
        }
    }
    assert(set_of(s@) =~= set_of(before).insert(k));
}

/// Removes a reply key from an index held without duplicates.
pub fn reply_set_remove(s: &mut Vec<ReplyKey>, k: ReplyKey)
    requires
        old(s)@.no_duplicates(),
    ensures
        final(s)@.no_duplicates(),
        set_of(final(s)@) == set_of(old(s)@).remove(k),
{
    let mut i: usize = 0;
    while i < s.len()
        invariant
            i <= s.len(),
            s@ == old(s)@,
            s@.no_duplicates(),
            forall|j: int| 0 <= j < i ==> s@[j] != k,
        decreases s.len() - i,
    {
        let e = s[i];
        if e.0 == k.0 && e.1 == k.1 && e.2 == k.2 {
            let ghost before = s@;
            assert(before[i as int] == k);
            s.remove(i);
            assert forall|x: ReplyKey| s@.contains(x) <==> before.contains(x) && x != k by {
                if before.contains(x) && x != k {
                    let j = choose|j: int| 0 <= j < before.len() && before[j] == x;
                    assert(j != i);
                    if j < i {
                        assert(s@[j] == x);
                    } else {
                        assert(s@[j - 1] == x);
                    }
                }
                if s@.contains(x) {
                    let j = choose|j: int| 0 <= j < s@.len() && s@[j] == x;
                    if j < i {
                        assert(before[j] == x);
                    } else {
                        assert(before[j + 1] == x);
                        assert(j + 1 != i);
                    }
                }
            }
            assert forall|a: int, b: int| 0 <= a < s@.len() && 0 <= b < s@.len() && a != b implies s@[a] != s@[b] by {
                let a2 = if a < i { a } else { a + 1 };
                let b2 = if b < i { b } else { b + 1 };
                assert(s@[a] == before[a2]);
                assert(s@[b] == before[b2]);
            }
            assert(set_of(s@) =~= set_of(before).remove(k));
            return;
        }
        i = i + 1;
    }
    assert(!s@.contains(k));
    assert(set_of(s@) =~= set_of(s@).remove(k));
}

/// A key of an index by time: a timestamp and an event id.
pub type TimeKey = (Timestamp, ShortEventId);

/// Adds a time key to an index held without duplicates.
pub fn time_set_insert(s: &mut Vec<TimeKey>, k: TimeKey)
    requires
        old(s)@.no_duplicates(),
    ensures
        final(s)@.no_duplicates(),
        set_of(final(s)@) == set_of(old(s)@).insert(k),
{
    let mut i: usize = 0;
    while i < s.len()
        invariant
            i <= s.len(),
            s@ == old(s)@,
            s@.no_duplicates(),
            forall|j: int| 0 <= j < i ==> s@[j] != k,
        decreases s.len() - i,
    {
        let e = s[i];
        if e.0 == k.0 && e.1 == k.1 {
            assert(s@[i as int] == k);
            assert(set_of(s@) =~= set_of(s@).insert(k));
            return;
        }
        i = i + 1;
    }
    let ghost before = s@;
    assert(!before.contains(k));
    s.push(k);
    assert forall|x: TimeKey| s@.contains(x) <==> before.contains(x) || x == k by {
        if before.contains(x) {
            let j = choose|j: int| 0 <= j < before.len() && before[j] == x;
            assert(s@[j] == x);
        }
        if s@.contains(x) && x != k {
            let j = choose|j: int| 0 <= j < s@.len() && s@[j] == x;
            assert(before[j] == x);
        }
        if x == k {
            assert(s@[before.len() as int] == k);
        }
    }
    assert(set_of(s@) =~= set_of(before).insert(k));
}

/// Removes a time key from an index held without duplicates.
pub fn time_set_remove(s: &mut Vec<TimeKey>, k: TimeKey)
    requires
        old(s)@.no_duplicates(),
    ensures
        final(s)@.no_duplicates(),
        set_of(final(s)@) == set_of(old(s)@).remove(k),
{
    let mut i: usize = 0;
    while i < s.len()
        invariant
            i <= s.len(),
            s@ == old(s)@,
            s@.no_duplicates(),
            forall|j: int| 0 <= j < i ==> s@[j] != k,
        decreases s.len() - i,
    {
        let e = s[i];
        if e.0 == k.0 && e.1 == k.1 {
            let ghost before = s@;
            assert(before[i as int] == k);
            s.remove(i);
            assert forall|x: TimeKey| s@.contains(x) <==> before.contains(x) && x != k by {
                if before.contains(x) && x != k {
                    let j = choose|j: int| 0 <= j < before.len() && before[j] == x;
                    assert(j != i);
                    if j < i {
                        assert(s@[j] == x);
                    } else {
                        assert(s@[j - 1] == x);
                    }
                }
                if s@.contains(x) {
                    let j = choose|j: int| 0 <= j < s@.len() && s@[j] == x;
                    if j < i {
                        assert(before[j] == x);
                    } else {
                        assert(before[j + 1] == x);
                        assert(j + 1 != i);
                    }
                }
            }
            assert forall|a: int, b: int| 0 <= a < s@.len() && 0 <= b < s@.len() && a != b implies s@[a] != s@[b] by {
                let a2 = if a < i { a } else { a + 1 };
                let b2 = if b < i { b } else { b + 1 };
                assert(s@[a] == before[a2]);
                assert(s@[b] == before[b2]);
            }
            assert(set_of(s@) =~= set_of(before).remove(k));
            return;
        }
        i = i + 1;
    }
    assert(!s@.contains(k));
    assert(set_of(s@) =~= set_of(s@).remove(k));
}

/// A post: its author and its event id.
pub type PostKey = (RostraId, ShortEventId);

/// A key of the news rank index by score.
pub type ScoreKey = (i64, RostraId, ShortEventId);

/// A key of the news rank index by creation time.
pub type PostTimeKey = (Timestamp, RostraId, ShortEventId);

/// Adds a score key to an index held without duplicates.
pub fn score_set_insert(s: &mut Vec<ScoreKey>, k: ScoreKey)
    requires
        old(s)@.no_duplicates(),
    ensures
        final(s)@.no_duplicates(),
        set_of(final(s)@) == set_of(old(s)@).insert(k),
{
    let mut i: usize = 0;
    while i < s.len()
        invariant
            i <= s.len(),
            s@ == old(s)@,
            s@.no_duplicates(),
            forall|j: int| 0 <= j < i ==> s@[j] != k,
        decreases s.len() - i,
    {
        let e = s[i];
        if e.0 == k.0 && e.1 == k.1 && e.2 == k.2 {
            assert(s@[i as int] == k);
            assert(set_of(s@) =~= set_of(s@).insert(k));
            return;
        }
        i = i + 1;
    }
    let ghost before = s@;
    assert(!before.contains(k));
    s.push(k);
    assert forall|x: ScoreKey| s@.contains(x) <==> before.contains(x) || x == k by {
        if before.contains(x) {
            let j = choose|j: int| 0 <= j < before.len() && before[j] == x;
            assert(s@[j] == x);
        }
        if s@.contains(x) && x != k {
            let j = choose|j: int| 0 <= j < s@.len() && s@[j] == x;
            assert(before[j] == x);
        }
        if x == k {
            assert(s@[before.len() as int] == k);
        }
    }
    assert(set_of(s@) =~= set_of(before).insert(k));
}

/// Removes a score key from an index held without duplicates.
pub fn score_set_remove(s: &mut Vec<ScoreKey>, k: ScoreKey)
    requires
        old(s)@.no_duplicates(),
    ensures
        final(s)@.no_duplicates(),
        set_of(final(s)@) == set_of(old(s)@).remove(k),
{
    let mut i: usize = 0;
    while i < s.len()
        invariant
            i <= s.len(),
            s@ == old(s)@,
            s@.no_duplicates(),
            forall|j: int| 0 <= j < i ==> s@[j] != k,
        decreases s.len() - i,
    {
        let e = s[i];
        if e.0 == k.0 && e.1 == k.1 && e.2 == k.2 {
            let ghost before = s@;
            assert(before[i as int] == k);
            s.remove(i);
            assert forall|x: ScoreKey| s@.contains(x) <==> before.contains(x) && x != k by {
                if before.contains(x) && x != k {
                    let j = choose|j: int| 0 <= j < before.len() && before[j] == x;
                    assert(j != i);
                    if j < i {
                        assert(s@[j] == x);
                    } else {
                        assert(s@[j - 1] == x);
                    }
                }
                if s@.contains(x) {
                    let j = choose|j: int| 0 <= j < s@.len() && s@[j] == x;
                    if j < i {
                        assert(before[j] == x);
                    } else {
                        assert(before[j + 1] == x);
                        assert(j + 1 != i);
                    }
                }
            }
            assert forall|a: int, b: int| 0 <= a < s@.len() && 0 <= b < s@.len() && a != b implies s@[a] != s@[b] by {
                let a2 = if a < i { a } else { a + 1 };
                let b2 = if b < i { b } else { b + 1 };
                assert(s@[a] == before[a2]);
                assert(s@[b] == before[b2]);
            }
            assert(set_of(s@) =~= set_of(before).remove(k));
            return;
        }
        i = i + 1;
    }
    assert(!s@.contains(k));
    assert(set_of(s@) =~= set_of(s@).remove(k));
}

/// Adds a post time key to an index held without duplicates.
pub fn post_time_set_insert(s: &mut Vec<PostTimeKey>, k: PostTimeKey)
    requires
        old(s)@.no_duplicates(),
    ensures
        final(s)@.no_duplicates(),
        set_of(final(s)@) == set_of(old(s)@).insert(k),
{
    let mut i: usize = 0;
    while i < s.len()
        invariant
            i <= s.len(),
            s@ == old(s)@,
            s@.no_duplicates(),
            forall|j: int| 0 <= j < i ==> s@[j] != k,
        decreases s.len() - i,
    {
        let e = s[i];
        if e.0 == k.0 && e.1 == k.1 && e.2 == k.2 {
            assert(s@[i as int] == k);
            assert(set_of(s@) =~= set_of(s@).insert(k));
            return;
        }
        i = i + 1;
    }
    let ghost before = s@;
    assert(!before.contains(k));
    s.push(k);
    assert forall|x: PostTimeKey| s@.contains(x) <==> before.contains(x) || x == k by {
        if before.contains(x) {
            let j = choose|j: int| 0 <= j < before.len() && before[j] == x;
            assert(s@[j] == x);
        }
        if s@.contains(x) && x != k {
            let j = choose|j: int| 0 <= j < s@.len() && s@[j] == x;
            assert(before[j] == x);
        }
        if x == k {
            assert(s@[before.len() as int] == k);
        }
    }
    assert(set_of(s@) =~= set_of(before).insert(k));
}

/// Removes a post time key from an index held without duplicates.
pub fn post_time_set_remove(s: &mut Vec<PostTimeKey>, k: PostTimeKey)
    requires
        old(s)@.no_duplicates(),
    ensures
        final(s)@.no_duplicates(),
        set_of(final(s)@) == set_of(old(s)@).remove(k),
{
    let mut i: usize = 0;
    while i < s.len()
        invariant
            i <= s.len(),
            s@ == old(s)@,
            s@.no_duplicates(),
            forall|j: int| 0 <= j < i ==> s@[j] != k,
        decreases s.len() - i,
    {
        let e = s[i];
        if e.0 == k.0 && e.1 == k.1 && e.2 == k.2 {
            let ghost before = s@;
            assert(before[i as int] == k);
            s.remove(i);
            assert forall|x: PostTimeKey| s@.contains(x) <==> before.contains(x) && x != k by {
                if before.contains(x) && x != k {
                    let j = choose|j: int| 0 <= j < before.len() && before[j] == x;
                    assert(j != i);
                    if j < i {
                        assert(s@[j] == x);
                    } else {
                        assert(s@[j - 1] == x);
                    }
                }
                if s@.contains(x) {
                    let j = choose|j: int| 0 <= j < s@.len() && s@[j] == x;
                    if j < i {
                        assert(before[j] == x);
                    } else {
                        assert(before[j + 1] == x);
                        assert(j + 1 != i);
                    }
                }
            }
            assert forall|a: int, b: int| 0 <= a < s@.len() && 0 <= b < s@.len() && a != b implies s@[a] != s@[b] by {
                let a2 = if a < i { a } else { a + 1 };
                let b2 = if b < i { b } else { b + 1 };
                assert(s@[a] == before[a2]);
                assert(s@[b] == before[b2]);
            }
            assert(set_of(s@) =~= set_of(before).remove(k));
            return;
        }
        i = i + 1;
    }
    assert(!s@.contains(k));
    assert(set_of(s@) =~= set_of(s@).remove(k));
}

} // verus!
