//! Keyed tables held as sequences of `(key, value)` pairs with distinct keys,
//! the way persistent key-value tables store them.
use vstd::prelude::*;
use vstd::string::StringSliceAdditionalSpecFns;
use vstd::utf8::{decode_utf8, encode_utf8, encode_utf8_decode_utf8};
use crate::db::ranges::{lemma_lex_lt_after_prefix, lemma_lex_lt_irreflexive, lemma_lex_lt_total, lemma_lex_lt_transitive, lex_lt};
use crate::text::str_eq;

verus! {

/// Some entry of `s` has key `k`.
pub open spec fn has_key<K, V>(s: Seq<(K, V)>, k: K) -> bool {
    exists|i: int| 0 <= i < s.len() && (#[trigger] s[i]).0 == k
}

/// No two entries of `s` share a key.
pub open spec fn keys_unique<K, V>(s: Seq<(K, V)>) -> bool {
    forall|i: int, j: int| 0 <= i < j < s.len() ==> (#[trigger] s[i]).0 != (#[trigger] s[j]).0
}

/// The position of the entry under `k` (meaningful when `has_key(s, k)`).
pub open spec fn key_index<K, V>(s: Seq<(K, V)>, k: K) -> int {
    choose|i: int| 0 <= i < s.len() && (#[trigger] s[i]).0 == k
}

/// The value stored under `k` (meaningful when `has_key(s, k)`).
pub open spec fn value_at<K, V>(s: Seq<(K, V)>, k: K) -> V {
    s[key_index(s, k)].1
}

/// `s` with `k` bound to `v`: the entry under `k` replaced in place, or a new
/// entry appended (a table `insert`).
pub open spec fn put<K, V>(s: Seq<(K, V)>, k: K, v: V) -> Seq<(K, V)> {
    if has_key(s, k) {
        s.update(key_index(s, k), (k, v))
    } else {
        s.push((k, v))
    }
}

/// `s` without its entry under `k` (a table `remove`).
pub open spec fn remove_key<K, V>(s: Seq<(K, V)>, k: K) -> Seq<(K, V)> {
    if has_key(s, k) {
        s.remove(key_index(s, k))
    } else {
        s
    }
}

/// With distinct keys, the entry under `k` is the one at `i`.
pub proof fn lemma_key_index<K, V>(s: Seq<(K, V)>, k: K, i: int)
    requires
        keys_unique(s),
        0 <= i < s.len(),
        s[i].0 == k,
    ensures
        has_key(s, k),
        key_index(s, k) == i,
{
    assert(s[i].0 == k);
    let j = key_index(s, k);
    if j != i {
        if j < i {
            assert(s[j].0 != s[i].0);
        } else {
            assert(s[i].0 != s[j].0);
        }
    }
}

/// Binding a key keeps keys distinct, and the key then maps to the value.
pub proof fn lemma_put<K, V>(s: Seq<(K, V)>, k: K, v: V)
    requires
        keys_unique(s),
    ensures
        keys_unique(put(s, k, v)),
        has_key(put(s, k, v), k),
        value_at(put(s, k, v), k) == v,
        forall|x: K| #[trigger] has_key(put(s, k, v), x) <==> (x == k || has_key(s, x)),
        forall|x: K| x != k && has_key(s, x) ==> #[trigger] value_at(put(s, k, v), x) == value_at(s, x),
{
    let t = put(s, k, v);
    let n = if has_key(s, k) { key_index(s, k) } else { s.len() as int };
    assert(t[n] == (k, v));
    assert forall|i: int, j: int| 0 <= i < j < t.len() implies (#[trigger] t[i]).0 != (
    #[trigger] t[j]).0 by {
        if i != n && j != n {
            assert(s[i].0 != s[j].0);
        } else if i == n {
            if has_key(s, k) {
                assert(s[i].0 != s[j].0);
            } else {
                assert(s[i].0 != k);
            }
        } else {
            if has_key(s, k) {
                assert(s[i].0 != s[j].0);
            } else {
                assert(s[i].0 != k) by {
                    if s[i].0 == k {
                        assert(has_key(s, k));
                    }
                }
            }
        }
    }
    lemma_key_index(t, k, n);
    assert forall|x: K| #[trigger] has_key(t, x) <==> (x == k || has_key(s, x)) by {
        if has_key(s, x) && x != k {
            let i = key_index(s, x);
            assert(t[i].0 == x);
        }
        if has_key(t, x) && x != k {
            let i = key_index(t, x);
            assert(s[i].0 == x);
        }
    }
    assert forall|x: K| x != k && has_key(s, x) implies #[trigger] value_at(t, x) == value_at(
        s,
        x,
    ) by {
        let i = key_index(s, x);
        assert(t[i] == s[i]);
        lemma_key_index(t, x, i);
    }
}

/// Removing a key keeps keys distinct and drops exactly that key.
pub proof fn lemma_remove<K, V>(s: Seq<(K, V)>, k: K)
    requires
        keys_unique(s),
    ensures
        keys_unique(remove_key(s, k)),
        forall|x: K| #[trigger] has_key(remove_key(s, k), x) <==> (x != k && has_key(s, x)),
        forall|x: K| x != k && has_key(s, x) ==> #[trigger] value_at(remove_key(s, k), x) == value_at(s, x),
{
    if has_key(s, k) {
        let n = key_index(s, k);
        let t = s.remove(n);
        assert forall|i: int, j: int| 0 <= i < j < t.len() implies (#[trigger] t[i]).0 != (
        #[trigger] t[j]).0 by {
            let i2 = if i < n { i } else { i + 1 };
            let j2 = if j < n { j } else { j + 1 };
            assert(t[i] == s[i2] && t[j] == s[j2]);
            assert(s[i2].0 != s[j2].0);
        }
        assert forall|x: K| #[trigger] has_key(t, x) <==> (x != k && has_key(s, x)) by {
            if has_key(s, x) && x != k {
                let i = key_index(s, x);
                let i2 = if i < n { i } else { i - 1 };
                assert(i != n);
                assert(t[i2].0 == x);
            }
            if has_key(t, x) {
                let i = key_index(t, x);
                let i2 = if i < n { i } else { i + 1 };
                assert(s[i2].0 == x);
                if x == k {
                    lemma_key_index(s, k, i2);
                }
            }
        }
        assert forall|x: K| x != k && has_key(s, x) implies #[trigger] value_at(t, x) == value_at(
            s,
            x,
        ) by {
            let i = key_index(s, x);
            assert(i != n);
            let i2 = if i < n { i } else { i - 1 };
            assert(t[i2] == s[i]);
            lemma_key_index(t, x, i2);
        }
    }
}

/// The view of a table keyed by strings.
pub open spec fn str_table_view<V: View>(s: Seq<(String, V)>) -> Seq<(Seq<char>, V::V)> {
    s.map_values(|p: (String, V)| (p.0@, p.1@))
}

/// The view of a table keyed by integers.
pub open spec fn u32_table_view<V: View>(s: Seq<(u32, V)>) -> Seq<(u32, V::V)> {
    s.map_values(|p: (u32, V)| (p.0, p.1@))
}

/// Binds `k` to `val` in a table keyed by strings.
pub fn put_str<V: View>(t: &mut Vec<(String, V)>, k: String, val: V)
    requires
        keys_unique(str_table_view(old(t)@)),
    ensures
        str_table_view(final(t)@) == put(str_table_view(old(t)@), k@, val@),
{
    let ghost s = str_table_view(t@);
    let ghost kv = k@;
    let ghost vv = val@;
    match find_str_key(t, k.as_str()) {
        Some(i) => {
            proof {
                lemma_key_index(s, kv, i as int);
            }
            t.set(i, (k, val));
            assert(str_table_view(t@) =~= s.update(i as int, (kv, vv)));
        },
        None => {
            assert(!has_key(s, kv)) by {
                if has_key(s, kv) {
                    let j = key_index(s, kv);
                    assert(t@[j].0@ == kv);
                }
            }
            t.push((k, val));
            assert(str_table_view(t@) =~= s.push((kv, vv)));
        },
    }
}

/// Removes the entry under `k` from a table keyed by strings.
pub fn remove_str<V: View>(t: &mut Vec<(String, V)>, k: &str)
    requires
        keys_unique(str_table_view(old(t)@)),
    ensures
        str_table_view(final(t)@) == remove_key(str_table_view(old(t)@), k@),
{
    let ghost s = str_table_view(t@);
    match find_str_key(t, k) {
        Some(i) => {
            proof {
                lemma_key_index(s, k@, i as int);
            }
            t.remove(i);
            assert(str_table_view(t@) =~= s.remove(i as int));
        },
        None => {
            assert(!has_key(s, k@)) by {
                if has_key(s, k@) {
                    let j = key_index(s, k@);
                    assert(t@[j].0@ == k@);
                }
            }
        },
    }
}

/// Binds `k` to `val` in a table keyed by integers.
pub fn put_u32<V: View>(t: &mut Vec<(u32, V)>, k: u32, val: V)
    requires
        keys_unique(u32_table_view(old(t)@)),
    ensures
        u32_table_view(final(t)@) == put(u32_table_view(old(t)@), k, val@),
{
    let ghost s = u32_table_view(t@);
    let ghost vv = val@;
    match find_u32_key(t, k) {
        Some(i) => {
            proof {
                lemma_key_index(s, k, i as int);
            }
            t.set(i, (k, val));
            assert(u32_table_view(t@) =~= s.update(i as int, (k, vv)));
        },
        None => {
            assert(!has_key(s, k)) by {
                if has_key(s, k) {
                    let j = key_index(s, k);
                    assert(t@[j].0 == k);
                }
            }
            t.push((k, val));
            assert(u32_table_view(t@) =~= s.push((k, vv)));
        },
    }
}

/// Removes the entry under `k` from a table keyed by integers.
pub fn remove_u32<V: View>(t: &mut Vec<(u32, V)>, k: u32)
    requires
        keys_unique(u32_table_view(old(t)@)),
    ensures
        u32_table_view(final(t)@) == remove_key(u32_table_view(old(t)@), k),
{
    let ghost s = u32_table_view(t@);
    match find_u32_key(t, k) {
        Some(i) => {
            proof {
                lemma_key_index(s, k, i as int);
            }
            t.remove(i);
            assert(u32_table_view(t@) =~= s.remove(i as int));
        },
        None => {
            assert(!has_key(s, k)) by {
                if has_key(s, k) {
                    let j = key_index(s, k);
                    assert(t@[j].0 == k);
                }
            }
        },
    }
}

/// The position of key `k` in a table keyed by strings.
pub fn find_str_key<V: View>(v: &Vec<(String, V)>, k: &str) -> (r: Option<usize>)
    ensures
        r.is_some() == has_key(str_table_view(v@), k@),
        match r {
            Some(i) => i < v.len() && v@[i as int].0@ == k@,
            None => forall|i: int| 0 <= i < v.len() ==> (#[trigger] v@[i]).0@ != k@,
        },
{
    let mut i: usize = 0;
    while i < v.len()
        invariant
            i <= v.len(),
            forall|j: int| 0 <= j < i ==> (#[trigger] v@[j]).0@ != k@,
        decreases v.len() - i,
    {
        if str_eq(v[i].0.as_str(), k) {
            assert(str_table_view(v@)[i as int].0 == k@);
            return Some(i);
        }
        i = i + 1;
    }
    assert(!has_key(str_table_view(v@), k@)) by {
        if has_key(str_table_view(v@), k@) {
            let j = key_index(str_table_view(v@), k@);
            assert(v@[j].0@ == k@);
        }
    }
    None
}

/// The position of key `k` in a table keyed by integers.
pub fn find_u32_key<V: View>(v: &Vec<(u32, V)>, k: u32) -> (r: Option<usize>)
    ensures
        r.is_some() == has_key(u32_table_view(v@), k),
        match r {
            Some(i) => i < v.len() && v@[i as int].0 == k,
            None => forall|i: int| 0 <= i < v.len() ==> (#[trigger] v@[i]).0 != k,
        },
{
    let mut i: usize = 0;
    while i < v.len()
        invariant
            i <= v.len(),
            forall|j: int| 0 <= j < i ==> (#[trigger] v@[j]).0 != k,
        decreases v.len() - i,
    {
        if v[i].0 == k {
            assert(u32_table_view(v@)[i as int].0 == k);
            return Some(i);
        }
        i = i + 1;
    }
    assert(!has_key(u32_table_view(v@), k)) by {
        if has_key(u32_table_view(v@), k) {
            let j = key_index(u32_table_view(v@), k);
            assert(v@[j].0 == k);
        }
    }
    None
}

/// Whether the keys of a table keyed by strings are distinct.
pub fn str_keys_unique<V: View>(t: &Vec<(String, V)>) -> (r: bool)
    ensures
        r == keys_unique(str_table_view(t@)),
{
    let ghost s = str_table_view(t@);
    let mut j: usize = 0;
    while j < t.len()
        invariant
            j <= t.len(),
            s == str_table_view(t@),
            forall|a: int, b: int| 0 <= a < b < j ==> (#[trigger] s[a]).0 != (#[trigger] s[b]).0,
        decreases t.len() - j,
    {
        let mut i: usize = 0;
        while i < j
            invariant
                i <= j < t.len(),
                s == str_table_view(t@),
                forall|a: int| 0 <= a < i ==> (#[trigger] s[a]).0 != s[j as int].0,
            decreases j - i,
        {
            if str_eq(t[i].0.as_str(), t[j].0.as_str()) {
                assert(s[i as int].0 == s[j as int].0);
                return false;
            }
            i = i + 1;
        }
        j = j + 1;
    }
    true
}

/// Whether the keys of a table keyed by integers are distinct.
pub fn u32_keys_unique<V: View>(t: &Vec<(u32, V)>) -> (r: bool)
    ensures
        r == keys_unique(u32_table_view(t@)),
{
    let ghost s = u32_table_view(t@);
    let mut j: usize = 0;
    while j < t.len()
        invariant
            j <= t.len(),
            s == u32_table_view(t@),
            forall|a: int, b: int| 0 <= a < b < j ==> (#[trigger] s[a]).0 != (#[trigger] s[b]).0,
        decreases t.len() - j,
    {
        let mut i: usize = 0;
        while i < j
            invariant
                i <= j < t.len(),
                s == u32_table_view(t@),
                forall|a: int| 0 <= a < i ==> (#[trigger] s[a]).0 != s[j as int].0,
            decreases j - i,
        {
            if t[i].0 == t[j].0 {
                assert(s[i as int].0 == s[j as int].0);
                return false;
            }
            i = i + 1;
        }
        j = j + 1;
    }
    true
}

/// The keys of `s` strictly increase (a table ordered by its integer key).
pub open spec fn keys_sorted<V>(s: Seq<(u32, V)>) -> bool {
    forall|i: int, j: int| 0 <= i < j < s.len() ==> (#[trigger] s[i]).0 < (#[trigger] s[j]).0
}

/// `s` with `k` bound to `v`, keeping the keys in increasing order: the
/// entry under `k` replaced, or a new entry placed before the first larger
/// key.
pub open spec fn put_sorted<V>(s: Seq<(u32, V)>, k: u32, v: V) -> Seq<(u32, V)>
    decreases s.len(),
{
    if s.len() == 0 {
        seq![(k, v)]
    } else if s[0].0 == k {
        s.update(0, (k, v))
    } else if k < s[0].0 {
        seq![(k, v)] + s
    } else {
        seq![s[0]] + put_sorted(s.drop_first(), k, v)
    }
}

/// Sorted keys are distinct.
pub proof fn lemma_sorted_unique<V>(s: Seq<(u32, V)>)
    requires
        keys_sorted(s),
    ensures
        keys_unique(s),
{
}

/// The keys and values of a table with one entry put in front.
proof fn lemma_cons<V>(e: (u32, V), q: Seq<(u32, V)>)
    requires
        keys_unique(seq![e] + q),
    ensures
        forall|x: u32| #[trigger] has_key(seq![e] + q, x) <==> (x == e.0 || has_key(q, x)),
        has_key(seq![e] + q, e.0),
        value_at(seq![e] + q, e.0) == e.1,
        forall|x: u32| x != e.0 && has_key(q, x) ==> #[trigger] value_at(seq![e] + q, x) == value_at(q, x),
{
    let t = seq![e] + q;
    assert forall|x: u32| #[trigger] has_key(t, x) <==> (x == e.0 || has_key(q, x)) by {
        if has_key(q, x) {
            let i = choose|i: int| 0 <= i < q.len() && (#[trigger] q[i]).0 == x;
            assert(t[i + 1] == q[i]);
        }
        if x == e.0 {
            assert(t[0] == e);
        }
        if has_key(t, x) && x != e.0 {
            let i = choose|i: int| 0 <= i < t.len() && (#[trigger] t[i]).0 == x;
            assert(q[i - 1] == t[i]);
        }
    }
    assert(t[0] == e);
    lemma_key_index(t, e.0, 0);
    assert forall|x: u32| x != e.0 && has_key(q, x) implies #[trigger] value_at(t, x) == value_at(q, x) by {
        let i = key_index(q, x);
        assert(t[i + 1] == q[i]);
        lemma_key_index(t, x, i + 1);
    }
}

/// An ordered insert keeps the keys ordered, binds `k` to `v` and keeps
/// every other entry.
pub proof fn lemma_put_sorted<V>(s: Seq<(u32, V)>, k: u32, v: V)
    requires
        keys_sorted(s),
    ensures
        keys_sorted(put_sorted(s, k, v)),
        forall|x: u32| #[trigger] has_key(put_sorted(s, k, v), x) <==> (x == k || has_key(s, x)),
        has_key(put_sorted(s, k, v), k),
        value_at(put_sorted(s, k, v), k) == v,
        forall|x: u32| x != k && has_key(s, x) ==> #[trigger] value_at(put_sorted(s, k, v), x) == value_at(s, x),
    decreases s.len(),
{
    let t = put_sorted(s, k, v);
    if s.len() == 0 {
        assert(t[0].0 == k);
        lemma_key_index(t, k, 0);
    } else if s[0].0 == k {
        let r = s.drop_first();
        assert(s =~= seq![s[0]] + r);
        assert(t =~= seq![(k, v)] + r);
        lemma_sorted_unique(s);
        lemma_sorted_unique(t);
        lemma_cons(s[0], r);
        lemma_cons((k, v), r);
    } else if k < s[0].0 {
        assert(t =~= seq![(k, v)] + s);
        assert forall|i: int, j: int| 0 <= i < j < t.len() implies (#[trigger] t[i]).0 < (#[trigger] t[j]).0 by {
            if i > 0 {
                assert(t[i] == s[i - 1]);
            }
            assert(t[j] == s[j - 1]);
            if i == 0 && j > 1 {
                assert(s[0].0 < s[j - 1].0);
            }
        }
        lemma_sorted_unique(t);
        lemma_cons((k, v), s);
        assert(!has_key(s, k)) by {
            if has_key(s, k) {
                let i = choose|i: int| 0 <= i < s.len() && (#[trigger] s[i]).0 == k;
                if i > 0 {
                    assert(s[0].0 < s[i].0);
                }
            }
        }
    } else {
        let r = s.drop_first();
        assert(s =~= seq![s[0]] + r);
        lemma_put_sorted(r, k, v);
        let tr = put_sorted(r, k, v);
        assert(t == seq![s[0]] + tr);
        assert forall|i: int, j: int| 0 <= i < j < t.len() implies (#[trigger] t[i]).0 < (#[trigger] t[j]).0 by {
            assert(t[j] == tr[j - 1]);
            if i == 0 {
                let x = tr[j - 1].0;
                assert(has_key(tr, x));
                if x != k {
                    assert(has_key(r, x));
                    let m = choose|m: int| 0 <= m < r.len() && (#[trigger] r[m]).0 == x;
                    assert(r[m] == s[m + 1]);
                }
            } else {
                assert(t[i] == tr[i - 1]);
            }
        }
        lemma_sorted_unique(t);
        lemma_sorted_unique(s);
        lemma_cons(s[0], tr);
        lemma_cons(s[0], r);
    }
}

/// Removing an entry keeps the keys ordered.
pub proof fn lemma_remove_sorted<V>(s: Seq<(u32, V)>, k: u32)
    requires
        keys_sorted(s),
    ensures
        keys_sorted(remove_key(s, k)),
{
    if has_key(s, k) {
        let n = key_index(s, k);
        let t = s.remove(n);
        assert forall|i: int, j: int| 0 <= i < j < t.len() implies (#[trigger] t[i]).0 < (#[trigger] t[j]).0 by {
            let a = if i < n { i } else { i + 1 };
            let b = if j < n { j } else { j + 1 };
            assert(t[i] == s[a]);
            assert(t[j] == s[b]);
        }
    }
}

/// Binds `k` to `val` in a table ordered by its integer key.
pub fn put_sorted_u32<V: View>(t: &mut Vec<(u32, V)>, k: u32, val: V)
    requires
        keys_sorted(u32_table_view(old(t)@)),
    ensures
        u32_table_view(final(t)@) == put_sorted(u32_table_view(old(t)@), k, val@),
{
    let ghost s = u32_table_view(t@);
    let ghost vv = val@;
    let mut i: usize = 0;
    assert(s.take(0) + put_sorted(s.skip(0), k, vv) =~= put_sorted(s, k, vv)) by {
        assert(s.skip(0) =~= s);
    }
    while i < t.len() && t[i].0 < k
        invariant
            i <= t.len(),
            s == u32_table_view(t@),
            put_sorted(s, k, vv) == s.take(i as int) + put_sorted(s.skip(i as int), k, vv),
        decreases t.len() - i,
    {
        let ghost r = s.skip(i as int);
        assert(r[0] == s[i as int]);
        assert(r.drop_first() =~= s.skip(i + 1));
        assert(s.take(i + 1) =~= s.take(i as int) + seq![r[0]]);
        assert(put_sorted(r, k, vv) == seq![r[0]] + put_sorted(r.drop_first(), k, vv));
        assert(s.take(i as int) + (seq![r[0]] + put_sorted(s.skip(i + 1), k, vv)) =~= s.take(i + 1)
            + put_sorted(s.skip(i + 1), k, vv));
        i = i + 1;
    }
    let ghost r = s.skip(i as int);
    if i < t.len() && t[i].0 == k {
        assert(r[0].0 == k);
        t.set(i, (k, val));
        assert(u32_table_view(t@) =~= s.take(i as int) + r.update(0, (k, vv)));
    } else {
        assert(r.len() == 0 || k < r[0].0);
        t.insert(i, (k, val));
        assert(u32_table_view(t@) =~= s.take(i as int) + (seq![(k, vv)] + r));
    }
}

// ---------------------------------------------------------------------------
// the order of stored string keys
// ---------------------------------------------------------------------------

/// The order of string keys in a table whose keys are stored by their
/// encoded form: shorter UTF-8 byte strings first, then byte by byte.
pub open spec fn str_key_lt(a: Seq<char>, b: Seq<char>) -> bool {
    let x = encode_utf8(a);
    let y = encode_utf8(b);
    x.len() < y.len() || (x.len() == y.len() && lex_lt(x, y))
}

/// `str_key_lt` is a strict total order.
pub proof fn lemma_str_key_order(a: Seq<char>, b: Seq<char>, c: Seq<char>)
    ensures
        !str_key_lt(a, a),
        str_key_lt(a, b) && str_key_lt(b, c) ==> str_key_lt(a, c),
        a != b ==> str_key_lt(a, b) || str_key_lt(b, a),
{
    lemma_lex_lt_irreflexive(encode_utf8(a));
    if str_key_lt(a, b) && str_key_lt(b, c) && encode_utf8(a).len() == encode_utf8(c).len() {
        lemma_lex_lt_transitive(encode_utf8(a), encode_utf8(b), encode_utf8(c));
    }
    if a != b {
        encode_utf8_decode_utf8(a);
        encode_utf8_decode_utf8(b);
        if encode_utf8(a) != encode_utf8(b) {
            lemma_lex_lt_total(encode_utf8(a), encode_utf8(b));
        }
    }
}

/// Whether key `a` sorts before key `b`.
pub fn str_key_less(a: &str, b: &str) -> (r: bool)
    ensures
        r == str_key_lt(a@, b@),
{
    let x = a.as_bytes();
    let y = b.as_bytes();
    if x.len() != y.len() {
        return x.len() < y.len();
    }
    let mut i: usize = 0;
    while i < x.len() && x[i] == y[i]
        invariant
            i <= x.len(),
            x.len() == y.len(),
            x@ == encode_utf8(a@),
            y@ == encode_utf8(b@),
            x@.take(i as int) == y@.take(i as int),
        decreases x.len() - i,
    {
        assert(x@.take(i + 1) =~= x@.take(i as int).push(x@[i as int]));
        assert(y@.take(i + 1) =~= y@.take(i as int).push(y@[i as int]));
        i = i + 1;
    }
    if i == x.len() {
        assert(x@ =~= y@) by {
            assert(x@ =~= x@.take(i as int));
            assert(y@ =~= y@.take(i as int));
        }
        proof {
            lemma_lex_lt_irreflexive(x@);
        }
        false
    } else if x[i] < y[i] {
        proof {
            lemma_lex_lt_after_prefix(x@, y@, i as int);
        }
        true
    } else {
        proof {
            lemma_lex_lt_after_prefix(y@, x@, i as int);
            lemma_lex_lt_irreflexive(x@);
            if lex_lt(x@, y@) {
                lemma_lex_lt_transitive(x@, y@, x@);
            }
        }
        false
    }
}

} // verus!
