//! Key ranges over encoded keys: the end of the range of keys that start
//! with a given prefix.
use vstd::prelude::*;

verus! {

/// Byte string `a` sorts before `b` (lexicographically, a proper prefix
/// first).
pub open spec fn lex_lt(a: Seq<u8>, b: Seq<u8>) -> bool
    decreases a.len(),
{
    if b.len() == 0 {
        false
    } else if a.len() == 0 {
        true
    } else if a[0] != b[0] {
        a[0] < b[0]
    } else {
        lex_lt(a.drop_first(), b.drop_first())
    }
}

/// The last position holding a byte other than `0xff`.
pub open spec fn last_non_max(b: Seq<u8>) -> Option<int>
    decreases b.len(),
{
    if b.len() == 0 {
        None
    } else if b.last() != 255 {
        Some(b.len() - 1)
    } else {
        last_non_max(b.drop_last())
    }
}

/// The shortest byte string after every string starting with `b`: `b` cut
/// after its last byte other than `0xff`, that byte incremented; none when
/// every byte is `0xff`.
pub open spec fn spec_successor(b: Seq<u8>) -> Option<Seq<u8>> {
    match last_non_max(b) {
        None => None,
        Some(i) => Some(b.take(i).push((b[i] + 1) as u8)),
    }
}

proof fn lemma_last_non_max(b: Seq<u8>)
    ensures
        last_non_max(b) matches Some(i) ==> 0 <= i < b.len() && b[i] != 255 && forall|j: int| i < j < b.len() ==> b[j] == 255,
        last_non_max(b) is None ==> forall|j: int| 0 <= j < b.len() ==> b[j] == 255,
    decreases b.len(),
{
    if b.len() > 0 && b.last() == 255 {
        lemma_last_non_max(b.drop_last());
        let d = b.drop_last();
        assert forall|j: int| 0 <= j < d.len() implies d[j] == b[j] by {}
    }
}

/// The end of the range of keys starting with `bytes`: the least byte
/// string greater than all of them, or `None` when the range is unbounded.
pub fn lexicographic_successor(bytes: &[u8]) -> (r: Option<Vec<u8>>)
    ensures
        match r {
            Some(v) => spec_successor(bytes@) == Some(v@),
            None => spec_successor(bytes@) is None,
        },
{
    proof {
        lemma_last_non_max(bytes@);
    }
    let mut i: usize = bytes.len();
    while i > 0 && bytes[i - 1] == 255
        invariant
            i <= bytes@.len(),
            forall|j: int| i <= j < bytes@.len() ==> bytes@[j] == 255,
        decreases i,
    {
        i = i - 1;
    }
    if i == 0 {
        proof {
            if let Some(k) = last_non_max(bytes@) {
                assert(bytes@[k] == 255);
            }
        }
        return None;
    }
    let index = i - 1;
    proof {
        lemma_last_non_max_at(bytes@, index as int);
    }
    let mut out: Vec<u8> = Vec::new();
    let mut k: usize = 0;
    while k < index
        invariant
            k <= index < bytes@.len(),
            out@ == bytes@.take(k as int),
        decreases index - k,
    {
        out.push(bytes[k]);
        assert(out@ =~= bytes@.take(k + 1));
        k = k + 1;
    }
    out.push(bytes[index] + 1);
    Some(out)
}

proof fn lemma_last_non_max_at(b: Seq<u8>, i: int)
    requires
        0 <= i < b.len(),
        b[i] != 255,
        forall|j: int| i < j < b.len() ==> b[j] == 255,
    ensures
        last_non_max(b) == Some(i),
    decreases b.len(),
{
    if i < b.len() - 1 {
        let d = b.drop_last();
        assert forall|j: int| i < j < d.len() implies d[j] == 255 by {
            assert(d[j] == b[j]);
        }
        lemma_last_non_max_at(d, i);
    }
}

pub proof fn lemma_lex_lt_after_prefix(x: Seq<u8>, s: Seq<u8>, i: int)
    requires
        0 <= i < x.len(),
        i < s.len(),
        x.take(i) == s.take(i),
        x[i] < s[i],
    ensures
        lex_lt(x, s),
    decreases i,
{
    if i > 0 {
        assert(x[0] == x.take(i)[0]);
        assert(s[0] == s.take(i)[0]);
        assert(x.drop_first().take(i - 1) =~= s.drop_first().take(i - 1)) by {
            assert forall|j: int| 0 <= j < i - 1 implies x.drop_first()[j] == s.drop_first()[j] by {
                assert(x.take(i)[j + 1] == s.take(i)[j + 1]);
                assert(x.take(i)[j + 1] == x[j + 1]);
                assert(s.take(i)[j + 1] == s[j + 1]);
            }
        }
        lemma_lex_lt_after_prefix(x.drop_first(), s.drop_first(), i - 1);
    }
}

/// Every key that starts with `bytes` sorts before the successor: the
/// successor ends the range of such keys.
pub proof fn lemma_successor_bounds_prefix(bytes: Seq<u8>, x: Seq<u8>)
    requires
        bytes.len() <= x.len(),
        x.take(bytes.len() as int) == bytes,
        spec_successor(bytes) is Some,
    ensures
        lex_lt(x, spec_successor(bytes)->0),
{
    lemma_last_non_max(bytes);
    let i = last_non_max(bytes)->0;
    let s = spec_successor(bytes)->0;
    assert(x[i] == bytes[i]) by {
        assert(x.take(bytes.len() as int)[i] == x[i]);
    }
    assert(x.take(i) =~= s.take(i)) by {
        assert forall|j: int| 0 <= j < i implies x.take(i)[j] == s.take(i)[j] by {
            assert(x.take(bytes.len() as int)[j] == x[j]);
        }
    }
    lemma_lex_lt_after_prefix(x, s, i);
}

/// A key that is not below a run of `0xff` bytes starts with that run.
proof fn lemma_not_below_max_run(b: Seq<u8>, y: Seq<u8>)
    requires
        forall|j: int| 0 <= j < b.len() ==> b[j] == 255,
        !lex_lt(y, b),
    ensures
        b.len() <= y.len(),
        y.take(b.len() as int) == b,
    decreases b.len(),
{
    if b.len() > 0 {
        assert(y.len() > 0);
        assert(y[0] == 255);
        let bd = b.drop_first();
        assert forall|j: int| 0 <= j < bd.len() implies bd[j] == 255 by {
            assert(bd[j] == b[j + 1]);
        }
        lemma_not_below_max_run(bd, y.drop_first());
        assert(y.take(b.len() as int) =~= b) by {
            assert forall|j: int| 0 <= j < b.len() implies y.take(b.len() as int)[j] == b[j] by {
                if j > 0 {
                    assert(y.drop_first().take(bd.len() as int)[j - 1] == bd[j - 1]);
                }
            }
        }
    }
}

/// A key at least `b` and below `b` cut after position `i` with that byte
/// incremented (all later bytes of `b` being `0xff`) starts with `b`.
proof fn lemma_between_starts_with(b: Seq<u8>, i: int, y: Seq<u8>)
    requires
        0 <= i < b.len(),
        b[i] != 255,
        forall|j: int| i < j < b.len() ==> b[j] == 255,
        !lex_lt(y, b),
        lex_lt(y, b.take(i).push((b[i] + 1) as u8)),
    ensures
        b.len() <= y.len(),
        y.take(b.len() as int) == b,
    decreases i,
{
    let s = b.take(i).push((b[i] + 1) as u8);
    assert(y.len() > 0);
    if i > 0 {
        assert(s[0] == b[0]);
        assert(y[0] == b[0]);
        let bd = b.drop_first();
        assert(s.drop_first() =~= bd.take(i - 1).push((bd[i - 1] + 1) as u8));
        assert forall|j: int| i - 1 < j < bd.len() implies bd[j] == 255 by {
            assert(bd[j] == b[j + 1]);
        }
        lemma_between_starts_with(bd, i - 1, y.drop_first());
        assert(y.take(b.len() as int) =~= b) by {
            assert forall|j: int| 0 <= j < b.len() implies y.take(b.len() as int)[j] == b[j] by {
                if j > 0 {
                    assert(y.drop_first().take(bd.len() as int)[j - 1] == bd[j - 1]);
                }
            }
        }
    } else {
        assert(s.len() == 1 && s[0] == b[0] + 1);
        if y[0] == s[0] {
            assert(s.drop_first().len() == 0);
            assert(!lex_lt(y.drop_first(), s.drop_first()));
        }
        assert(y[0] == b[0]);
        let bd = b.drop_first();
        assert forall|j: int| 0 <= j < bd.len() implies bd[j] == 255 by {
            assert(bd[j] == b[j + 1]);
        }
        lemma_not_below_max_run(bd, y.drop_first());
        assert(y.take(b.len() as int) =~= b) by {
            assert forall|j: int| 0 <= j < b.len() implies y.take(b.len() as int)[j] == b[j] by {
                if j > 0 {
                    assert(y.drop_first().take(bd.len() as int)[j - 1] == bd[j - 1]);
                }
            }
        }
    }
}

/// The successor ends exactly the range of keys starting with `bytes`:
/// there is none just when every byte is `0xff` (the empty string
/// included); otherwise `bytes` sorts before it, and every key from `bytes`
/// up to (not including) the successor starts with `bytes`.
pub proof fn lemma_successor_exact(bytes: Seq<u8>, y: Seq<u8>)
    ensures
        spec_successor(bytes) is None <==> forall|j: int| 0 <= j < bytes.len() ==> bytes[j] == 255,
        spec_successor(bytes) matches Some(s) ==> lex_lt(bytes, s),
        spec_successor(bytes) matches Some(s) ==> (!lex_lt(y, bytes) && lex_lt(y, s) ==> bytes.len() <= y.len()
            && y.take(bytes.len() as int) == bytes),
{
    lemma_last_non_max(bytes);
    if let Some(i) = last_non_max(bytes) {
        assert(bytes[i] != 255);
        assert(bytes.take(bytes.len() as int) =~= bytes);
        lemma_successor_bounds_prefix(bytes, bytes);
        if !lex_lt(y, bytes) && lex_lt(y, spec_successor(bytes)->0) {
            lemma_between_starts_with(bytes, i, y);
        }
    }
}

/// `lex_lt` is irreflexive.
pub proof fn lemma_lex_lt_irreflexive(a: Seq<u8>)
    ensures
        !lex_lt(a, a),
    decreases a.len(),
{
    if a.len() > 0 {
        lemma_lex_lt_irreflexive(a.drop_first());
    }
}

/// `lex_lt` is transitive.
pub proof fn lemma_lex_lt_transitive(a: Seq<u8>, b: Seq<u8>, c: Seq<u8>)
    requires
        lex_lt(a, b),
        lex_lt(b, c),
    ensures
        lex_lt(a, c),
    decreases a.len(),
{
    if a.len() > 0 && b.len() > 0 && c.len() > 0 && a[0] == b[0] && b[0] == c[0] {
        lemma_lex_lt_transitive(a.drop_first(), b.drop_first(), c.drop_first());
    }
}

/// Two different byte strings are ordered one way or the other by
/// `lex_lt`.
pub proof fn lemma_lex_lt_total(a: Seq<u8>, b: Seq<u8>)
    requires
        a != b,
    ensures
        lex_lt(a, b) || lex_lt(b, a),
    decreases a.len(),
{
    if a.len() > 0 && b.len() > 0 && a[0] == b[0] {
        if a.drop_first() == b.drop_first() {
            assert(a =~= seq![a[0]] + a.drop_first());
            assert(b =~= seq![b[0]] + b.drop_first());
        }
        lemma_lex_lt_total(a.drop_first(), b.drop_first());
    } else if a.len() == 0 {
        if b.len() == 0 {
            assert(a =~= b);
        }
    }
}

} // verus!
