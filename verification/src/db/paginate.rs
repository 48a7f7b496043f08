//! Paging through an ordered table: from a cursor, up to a limit of
//! entries that pass a filter, returning where the next page starts.
//!
//! The table is given by its keys in increasing order and, for each entry,
//! whether the filter keeps it; a page is the positions of the kept entries
//! it returns and the key of the first entry it did not look at.
use vstd::prelude::*;

verus! {

/// A key a table is ordered by: a strict total order, and a test of it.
pub trait TableKey: Copy + Sized {
    /// `self` sorts strictly before `other`.
    spec fn key_lt(self, other: Self) -> bool;

    proof fn lemma_lt_irreflexive(a: Self)
        ensures
            !a.key_lt(a),
    ;

    proof fn lemma_lt_transitive(a: Self, b: Self, c: Self)
        requires
            a.key_lt(b),
            b.key_lt(c),
        ensures
            a.key_lt(c),
    ;

    proof fn lemma_lt_total(a: Self, b: Self)
        ensures
            a.key_lt(b) || a == b || b.key_lt(a),
    ;

    /// Whether `self` sorts strictly before `other`.
    fn key_less(&self, other: &Self) -> (r: bool)
        ensures
            r == self.key_lt(*other),
    ;
}

impl TableKey for u64 {
    open spec fn key_lt(self, other: Self) -> bool {
        self < other
    }

    proof fn lemma_lt_irreflexive(a: Self) {
    }

    proof fn lemma_lt_transitive(a: Self, b: Self, c: Self) {
    }

    proof fn lemma_lt_total(a: Self, b: Self) {
    }

    fn key_less(&self, other: &Self) -> (r: bool) {
        *self < *other
    }
}

/// The keys strictly increase.
pub open spec fn strictly_sorted<K: TableKey>(keys: Seq<K>) -> bool {
    forall|i: int, j: int| 0 <= i < j < keys.len() ==> keys[i].key_lt(keys[j])
}

/// Scanning forward from position `i` with room for `c` more results: the
/// positions of the kept entries taken, and the position where the scan
/// stopped for lack of room (`None` at the end of the table).
pub open spec fn scan(keep: Seq<bool>, i: int, c: nat) -> (Seq<int>, Option<int>)
    decreases keep.len() - i,
{
    if i < 0 || i >= keep.len() {
        (seq![], None)
    } else if c == 0 {
        (seq![], Some(i))
    } else {
        let next = scan(keep, i + 1, if keep[i] { (c - 1) as nat } else { c });
        (if keep[i] { seq![i] + next.0 } else { next.0 }, next.1)
    }
}

/// Scanning backward from position `i` (inclusive) with room for `c` more
/// results.
pub open spec fn scan_rev(keep: Seq<bool>, i: int, c: nat) -> (Seq<int>, Option<int>)
    decreases i + 1,
{
    if i < 0 || i >= keep.len() {
        (seq![], None)
    } else if c == 0 {
        (seq![], Some(i))
    } else {
        let next = scan_rev(keep, i - 1, if keep[i] { (c - 1) as nat } else { c });
        (if keep[i] { seq![i] + next.0 } else { next.0 }, next.1)
    }
}

/// The first position whose key is at least `cursor`.
pub open spec fn lower_bound<K: TableKey>(keys: Seq<K>, cursor: K) -> int
    decreases keys.len(),
{
    if keys.len() == 0 {
        0
    } else if keys.last().key_lt(cursor) {
        keys.len() as int
    } else {
        lower_bound(keys.drop_last(), cursor)
    }
}

/// The number of positions whose key is at most `cursor`.
pub open spec fn upper_bound<K: TableKey>(keys: Seq<K>, cursor: K) -> int
    decreases keys.len(),
{
    if keys.len() == 0 {
        0
    } else if !cursor.key_lt(keys.last()) {
        keys.len() as int
    } else {
        upper_bound(keys.drop_last(), cursor)
    }
}

/// A page as plain values: positions taken and the next cursor.
pub open spec fn page_view<K: TableKey>(keys: Seq<K>, s: (Seq<int>, Option<int>)) -> (Seq<int>, Option<K>) {
    (
        s.0,
        match s.1 {
            Some(n) => Some(keys[n]),
            None => None,
        },
    )
}

/// The page that starts at `cursor` (or the first entry).
pub open spec fn spec_paginate<K: TableKey>(keys: Seq<K>, keep: Seq<bool>, cursor: Option<K>, limit: nat) -> (
    Seq<int>,
    Option<K>,
) {
    let start = match cursor {
        Some(c) => lower_bound(keys, c),
        None => 0,
    };
    page_view(keys, scan(keep, start, limit))
}

/// The page that starts at `cursor` (or the last entry) and goes toward
/// smaller keys.
pub open spec fn spec_paginate_rev<K: TableKey>(keys: Seq<K>, keep: Seq<bool>, cursor: Option<K>, limit: nat) -> (
    Seq<int>,
    Option<K>,
) {
    let start = match cursor {
        Some(c) => upper_bound(keys, c) - 1,
        None => keys.len() - 1,
    };
    page_view(keys, scan_rev(keep, start, limit))
}

proof fn lemma_scan_split(keep: Seq<bool>, i: int, a: nat, b: nat)
    ensures
        match scan(keep, i, a).1 {
            Some(n) => scan(keep, i, a + b) == (scan(keep, i, a).0 + scan(keep, n, b).0, scan(keep, n, b).1),
            None => scan(keep, i, a + b) == scan(keep, i, a),
        },
    decreases keep.len() - i,
{
    if i < 0 || i >= keep.len() {
    } else if a == 0 {
        assert(seq![] + scan(keep, i, b).0 =~= scan(keep, i, b).0);
    } else {
        let a2: nat = if keep[i] { (a - 1) as nat } else { a };
        lemma_scan_split(keep, i + 1, a2, b);
        assert((if keep[i] { (a + b - 1) as nat } else { a + b }) == a2 + b);
        match scan(keep, i + 1, a2).1 {
            Some(n) => {
                if keep[i] {
                    assert(seq![i] + (scan(keep, i + 1, a2).0 + scan(keep, n, b).0) =~= (seq![i] + scan(keep, i + 1, a2).0)
                        + scan(keep, n, b).0);
                }
            },
            None => {},
        }
    }
}

proof fn lemma_lower_bound<K: TableKey>(keys: Seq<K>, cursor: K)
    requires
        strictly_sorted(keys),
    ensures
        0 <= lower_bound(keys, cursor) <= keys.len(),
        forall|j: int| 0 <= j < lower_bound(keys, cursor) ==> (#[trigger] keys[j]).key_lt(cursor),
        forall|j: int| lower_bound(keys, cursor) <= j < keys.len() ==> !(#[trigger] keys[j]).key_lt(cursor),
    decreases keys.len(),
{
    if keys.len() > 0 {
        let d = keys.drop_last();
        assert forall|i: int, j: int| 0 <= i < j < d.len() implies d[i].key_lt(d[j]) by {
            assert(d[i] == keys[i] && d[j] == keys[j]);
        }
        if !keys.last().key_lt(cursor) {
            lemma_lower_bound(d, cursor);
            assert forall|j: int| lower_bound(keys, cursor) <= j < keys.len() implies !(#[trigger] keys[j]).key_lt(
                cursor,
            ) by {
                if j < d.len() {
                    assert(d[j] == keys[j]);
                }
            }
            assert forall|j: int| 0 <= j < lower_bound(keys, cursor) implies (#[trigger] keys[j]).key_lt(cursor) by {
                assert(d[j] == keys[j]);
            }
        } else {
            assert forall|j: int| 0 <= j < keys.len() implies (#[trigger] keys[j]).key_lt(cursor) by {
                if j < keys.len() - 1 {
                    K::lemma_lt_transitive(keys[j], keys[keys.len() - 1], cursor);
                }
            }
        }
    }
}

proof fn lemma_upper_bound<K: TableKey>(keys: Seq<K>, cursor: K)
    requires
        strictly_sorted(keys),
    ensures
        0 <= upper_bound(keys, cursor) <= keys.len(),
        forall|j: int| 0 <= j < upper_bound(keys, cursor) ==> !cursor.key_lt(#[trigger] keys[j]),
        forall|j: int| upper_bound(keys, cursor) <= j < keys.len() ==> cursor.key_lt(#[trigger] keys[j]),
    decreases keys.len(),
{
    if keys.len() > 0 {
        let d = keys.drop_last();
        assert forall|i: int, j: int| 0 <= i < j < d.len() implies d[i].key_lt(d[j]) by {
            assert(d[i] == keys[i] && d[j] == keys[j]);
        }
        if cursor.key_lt(keys.last()) {
            lemma_upper_bound(d, cursor);
            assert forall|j: int| upper_bound(keys, cursor) <= j < keys.len() implies cursor.key_lt(#[trigger] keys[j]) by {
                if j < d.len() {
                    assert(d[j] == keys[j]);
                }
            }
            assert forall|j: int| 0 <= j < upper_bound(keys, cursor) implies !cursor.key_lt(#[trigger] keys[j]) by {
                assert(d[j] == keys[j]);
            }
        } else {
            assert forall|j: int| 0 <= j < keys.len() implies !cursor.key_lt(#[trigger] keys[j]) by {
                if j < keys.len() - 1 && cursor.key_lt(keys[j]) {
                    K::lemma_lt_transitive(cursor, keys[j], keys[keys.len() - 1]);
                }
            }
        }
    }
}

/// Pages of a table: resuming from a page's cursor with room for `b` more
/// gives what one page with room for `a + b` gives, so paging neither skips
/// nor repeats an entry.
pub proof fn lemma_paginate_resume<K: TableKey>(keys: Seq<K>, keep: Seq<bool>, cursor: Option<K>, a: nat, b: nat)
    requires
        strictly_sorted(keys),
        keep.len() == keys.len(),
    ensures
        ({
            let first = spec_paginate(keys, keep, cursor, a);
            match first.1 {
                Some(c) => spec_paginate(keys, keep, cursor, a + b) == (
                    first.0 + spec_paginate(keys, keep, Some(c), b).0,
                    spec_paginate(keys, keep, Some(c), b).1,
                ),
                None => spec_paginate(keys, keep, cursor, a + b) == first,
            }
        }),
{
    let start = match cursor {
        Some(c) => lower_bound(keys, c),
        None => 0,
    };
    lemma_scan_split(keep, start, a, b);
    match scan(keep, start, a).1 {
        Some(n) => {
            lemma_scan_stops_inside(keep, start, a);
            lemma_lower_bound(keys, keys[n]);
            lemma_lower_bound_at(keys, n);
        },
        None => {},
    }
}

proof fn lemma_scan_stops_inside(keep: Seq<bool>, i: int, c: nat)
    ensures
        scan(keep, i, c).1 matches Some(n) ==> 0 <= n < keep.len(),
    decreases keep.len() - i,
{
    if 0 <= i < keep.len() && c > 0 {
        lemma_scan_stops_inside(keep, i + 1, if keep[i] { (c - 1) as nat } else { c });
    }
}

proof fn lemma_lower_bound_at<K: TableKey>(keys: Seq<K>, n: int)
    requires
        strictly_sorted(keys),
        0 <= n < keys.len(),
    ensures
        lower_bound(keys, keys[n]) == n,
{
    lemma_lower_bound(keys, keys[n]);
    let lb = lower_bound(keys, keys[n]);
    if lb < n {
        assert(keys[lb].key_lt(keys[n]));
    }
    if lb > n {
        assert(keys[n].key_lt(keys[n]));
        K::lemma_lt_irreflexive(keys[n]);
    }
}

/// The first position whose key is at least `cursor`.
fn find_lower_bound<K: TableKey>(keys: &Vec<K>, cursor: K) -> (r: usize)
    requires
        strictly_sorted(keys@),
    ensures
        r == lower_bound(keys@, cursor),
        r <= keys.len(),
{
    proof {
        lemma_lower_bound(keys@, cursor);
    }
    let mut i: usize = 0;
    while i < keys.len() && keys[i].key_less(&cursor)
        invariant
            i <= keys.len(),
            strictly_sorted(keys@),
            0 <= lower_bound(keys@, cursor) <= keys@.len(),
            forall|j: int| 0 <= j < lower_bound(keys@, cursor) ==> (#[trigger] keys@[j]).key_lt(cursor),
            forall|j: int| lower_bound(keys@, cursor) <= j < keys@.len() ==> !(#[trigger] keys@[j]).key_lt(cursor),
            i <= lower_bound(keys@, cursor),
        decreases keys.len() - i,
    {
        i = i + 1;
    }
    i
}

/// The number of positions whose key is at most `cursor`.
fn find_upper_bound<K: TableKey>(keys: &Vec<K>, cursor: K) -> (r: usize)
    requires
        strictly_sorted(keys@),
    ensures
        r == upper_bound(keys@, cursor),
        r <= keys.len(),
{
    proof {
        lemma_upper_bound(keys@, cursor);
    }
    let mut i: usize = 0;
    while i < keys.len() && !cursor.key_less(&keys[i])
        invariant
            i <= keys.len(),
            strictly_sorted(keys@),
            0 <= upper_bound(keys@, cursor) <= keys@.len(),
            forall|j: int| 0 <= j < upper_bound(keys@, cursor) ==> !cursor.key_lt(#[trigger] keys@[j]),
            forall|j: int| upper_bound(keys@, cursor) <= j < keys@.len() ==> cursor.key_lt(#[trigger] keys@[j]),
            i <= upper_bound(keys@, cursor),
        decreases keys.len() - i,
    {
        i = i + 1;
    }
    i
}

/// The positions of a page as plain values.
pub open spec fn positions(v: Seq<usize>) -> Seq<int> {
    v.map_values(|x: usize| x as int)
}

/// One page of a table, forward from `cursor` (or the first entry): the
/// positions of up to `limit` entries the filter keeps, and the key of the
/// first entry not looked at once the page is full (`None` at the end).
pub fn paginate_table<K: TableKey>(keys: &Vec<K>, keep: &Vec<bool>, cursor: Option<K>, limit: usize) -> (r: (
    Vec<usize>,
    Option<K>,
))
    requires
        strictly_sorted(keys@),
        keep.len() == keys.len(),
    ensures
        (positions(r.0@), r.1) == spec_paginate(keys@, keep@, cursor, limit as nat),
{
    let start = match cursor {
        Some(c) => find_lower_bound(keys, c),
        None => 0,
    };
    let ghost whole = scan(keep@, start as int, limit as nat);
    let mut ret: Vec<usize> = Vec::new();
    let mut i: usize = start;
    assert(positions(ret@) + scan(keep@, i as int, limit as nat).0 =~= whole.0);
    while i < keys.len()
        invariant
            start <= i <= keys.len(),
            keep.len() == keys.len(),
            start == match cursor {
                Some(c) => lower_bound(keys@, c),
                None => 0,
            },
            ret.len() <= limit,
            whole == scan(keep@, start as int, limit as nat),
            whole.0 == positions(ret@) + scan(keep@, i as int, (limit - ret.len()) as nat).0,
            whole.1 == scan(keep@, i as int, (limit - ret.len()) as nat).1,
        decreases keys.len() - i,
    {
        if limit <= ret.len() {
            assert(scan(keep@, i as int, 0).0 =~= Seq::<int>::empty());
            assert(positions(ret@) + Seq::<int>::empty() =~= positions(ret@));
            return (ret, Some(keys[i]));
        }
        let ghost prev = positions(ret@);
        let ghost c = (limit - ret.len()) as nat;
        if keep[i] {
            ret.push(i);
            assert(positions(ret@) =~= prev.push(i as int));
            assert(prev + (seq![i as int] + scan(keep@, i + 1, (c - 1) as nat).0) =~= positions(ret@) + scan(
                keep@,
                i + 1,
                (c - 1) as nat,
            ).0);
        }
        i = i + 1;
    }
    assert(positions(ret@) + Seq::<int>::empty() =~= positions(ret@));
    (ret, None)
}

/// One page of a table, backward from `cursor` (or the last entry): the
/// positions of up to `limit` entries the filter keeps, in decreasing key
/// order, and the key of the first entry not looked at once the page is
/// full (`None` at the start).
pub fn paginate_table_rev<K: TableKey>(keys: &Vec<K>, keep: &Vec<bool>, cursor: Option<K>, limit: usize) -> (r: (
    Vec<usize>,
    Option<K>,
))
    requires
        strictly_sorted(keys@),
        keep.len() == keys.len(),
    ensures
        (positions(r.0@), r.1) == spec_paginate_rev(keys@, keep@, cursor, limit as nat),
{
    let end: usize = match cursor {
        Some(c) => find_upper_bound(keys, c),
        None => keys.len(),
    };
    let ghost whole = scan_rev(keep@, end - 1, limit as nat);
    let mut ret: Vec<usize> = Vec::new();
    let mut i: usize = end;
    assert(positions(ret@) + scan_rev(keep@, i - 1, limit as nat).0 =~= whole.0);
    while i > 0
        invariant
            i <= end <= keys.len(),
            keep.len() == keys.len(),
            end == match cursor {
                Some(c) => upper_bound(keys@, c),
                None => keys.len() as int,
            },
            ret.len() <= limit,
            whole == scan_rev(keep@, end - 1, limit as nat),
            whole.0 == positions(ret@) + scan_rev(keep@, i - 1, (limit - ret.len()) as nat).0,
            whole.1 == scan_rev(keep@, i - 1, (limit - ret.len()) as nat).1,
        decreases i,
    {
        let j = i - 1;
        if limit <= ret.len() {
            assert(positions(ret@) + Seq::<int>::empty() =~= positions(ret@));
            return (ret, Some(keys[j]));
        }
        let ghost prev = positions(ret@);
        let ghost c = (limit - ret.len()) as nat;
        if keep[j] {
            ret.push(j);
            assert(positions(ret@) =~= prev.push(j as int));
            assert(prev + (seq![j as int] + scan_rev(keep@, j - 1, (c - 1) as nat).0) =~= positions(ret@)
                + scan_rev(keep@, j - 1, (c - 1) as nat).0);
        }
        i = j;
    }
    assert(positions(ret@) + Seq::<int>::empty() =~= positions(ret@));
    (ret, None)
}

} // verus!
