//! Character-level string helpers shared by the rest of the library.
//!
//! Strings are reasoned about through their views, `Seq<char>`. The
//! whitespace classification of `char` is Unicode's, obtained from std.
use vstd::prelude::*;
use vstd::relations::*;

verus! {

// ---------------------------------------------------------------------------
// std character classification
// ---------------------------------------------------------------------------

/// The Unicode `White_Space` property: tab to carriage return, space,
/// next line, no-break space, ogham space mark, the spaces from en quad to
/// hair space, line and paragraph separators, narrow no-break space, medium
/// mathematical space and ideographic space.
pub open spec fn spec_is_whitespace(c: char) -> bool {
    let u = c as u32;
    ||| 0x09 <= u <= 0x0d
    ||| u == 0x20
    ||| u == 0x85
    ||| u == 0xa0
    ||| u == 0x1680
    ||| 0x2000 <= u <= 0x200a
    ||| u == 0x2028
    ||| u == 0x2029
    ||| u == 0x202f
    ||| u == 0x205f
    ||| u == 0x3000
}

/// `char::is_whitespace`: whether `c` has the Unicode `White_Space`
/// property, as its documentation says.
#[verifier::external_body]
pub(crate) fn is_whitespace(c: char) -> (r: bool)
    ensures
        r == spec_is_whitespace(c),
{
    c.is_whitespace()
}

/// Appends one character to a `String` (`String::push`).
#[verifier::external_body]
pub(crate) fn push_char(s: &mut String, c: char)
    ensures
        final(s)@ == old(s)@.push(c),
{
    s.push(c);
}

// ---------------------------------------------------------------------------
// conversions and comparisons
// ---------------------------------------------------------------------------

/// The characters of a string, in order.
pub fn chars_of(s: &str) -> (out: Vec<char>)
    ensures
        out@ == s@,
{
    let mut out: Vec<char> = Vec::new();
    for c in it: s.chars()
        invariant
            out@ == it.seq().take(it.index() as int),
    {
        out.push(c);
    }
    out
}

/// A `String` holding exactly the characters `cs[from..to]`.
pub fn string_from_range(cs: &Vec<char>, from: usize, to: usize) -> (s: String)
    requires
        from <= to <= cs.len(),
    ensures
        s@ == cs@.subrange(from as int, to as int),
{
    let mut s = String::new();
    let mut i = from;
    while i < to
        invariant
            from <= i <= to <= cs.len(),
            s@ == cs@.subrange(from as int, i as int),
        decreases to - i,
    {
        push_char(&mut s, cs[i]);
        assert(cs@.subrange(from as int, i + 1) == cs@.subrange(from as int, i as int).push(
            cs@[i as int],
        ));
        i = i + 1;
    }
    s
}

/// A `String` holding exactly the characters of `cs`.
pub fn string_from_chars(cs: &Vec<char>) -> (s: String)
    ensures
        s@ == cs@,
{
    let s = string_from_range(cs, 0, cs.len());
    assert(cs@.subrange(0, cs@.len() as int) == cs@);
    s
}

/// Appends every character of `t` to `s`.
pub fn push_str(s: &mut String, t: &str)
    ensures
        final(s)@ == old(s)@ + t@,
{
    s.append(t);
}

/// Whether two strings hold the same characters.
pub fn str_eq(a: &str, b: &str) -> (r: bool)
    ensures
        r == (a@ == b@),
{
    let x = a.to_owned();
    let y = b.to_owned();
    x == y
}

/// `p` is a prefix of `s`.
pub open spec fn is_prefix(p: Seq<char>, s: Seq<char>) -> bool {
    p.len() <= s.len() && s.take(p.len() as int) == p
}

/// Whether `s` starts with `prefix` (`str::starts_with`).
pub fn starts_with(s: &str, prefix: &str) -> (r: bool)
    ensures
        r == is_prefix(prefix@, s@),
{
    let a = chars_of(s);
    let p = chars_of(prefix);
    if a.len() < p.len() {
        return false;
    }
    let mut i: usize = 0;
    while i < p.len()
        invariant
            i <= p.len() <= a.len(),
            a@ == s@,
            p@ == prefix@,
            forall|j: int| 0 <= j < i ==> a@[j] == p@[j],
        decreases p.len() - i,
    {
        if a[i] != p[i] {
            assert(s@.take(p@.len() as int)[i as int] != prefix@[i as int]);
            return false;
        }
        i = i + 1;
    }
    assert(s@.take(p@.len() as int) =~= prefix@);
    true
}

// ---------------------------------------------------------------------------
// lexicographic order (std `Ord` for `str`/`String`)
// ---------------------------------------------------------------------------

/// Lexicographic `<=` on character sequences by code point. UTF-8 preserves
/// code point order, so this is the order std's `Ord` gives `str`.
pub open spec fn lex_le(a: Seq<char>, b: Seq<char>) -> bool
    decreases a.len(),
{
    if a.len() == 0 {
        true
    } else if b.len() == 0 {
        false
    } else if (a[0] as u32) < (b[0] as u32) {
        true
    } else if a[0] == b[0] {
        lex_le(a.drop_first(), b.drop_first())
    } else {
        false
    }
}

proof fn lemma_char_eq(a: char, b: char)
    requires
        (a as u32) == (b as u32),
    ensures
        a == b,
{
}

/// `lex_le` is reflexive.
pub proof fn lemma_lex_le_reflexive(a: Seq<char>)
    ensures
        lex_le(a, a),
    decreases a.len(),
{
    if a.len() > 0 {
        lemma_lex_le_reflexive(a.drop_first());
    }
}

/// `lex_le` is antisymmetric.
pub proof fn lemma_lex_le_antisymmetric(a: Seq<char>, b: Seq<char>)
    requires
        lex_le(a, b),
        lex_le(b, a),
    ensures
        a == b,
    decreases a.len(),
{
    if a.len() == 0 {
        assert(b.len() == 0);
        assert(a =~= b);
    } else {
        assert(b.len() > 0);
        if a[0] == b[0] {
            lemma_lex_le_antisymmetric(a.drop_first(), b.drop_first());
            assert(a =~= seq![a[0]] + a.drop_first());
            assert(b =~= seq![b[0]] + b.drop_first());
        } else {
            if (a[0] as u32) == (b[0] as u32) {
                lemma_char_eq(a[0], b[0]);
            }
        }
    }
}

/// `lex_le` is transitive.
pub proof fn lemma_lex_le_transitive(a: Seq<char>, b: Seq<char>, c: Seq<char>)
    requires
        lex_le(a, b),
        lex_le(b, c),
    ensures
        lex_le(a, c),
    decreases a.len(),
{
    if a.len() > 0 && b.len() > 0 && c.len() > 0 {
        if a[0] == b[0] && b[0] == c[0] {
            lemma_lex_le_transitive(a.drop_first(), b.drop_first(), c.drop_first());
        }
    }
}

/// `lex_le` relates any two sequences one way or the other.
pub proof fn lemma_lex_le_total(a: Seq<char>, b: Seq<char>)
    ensures
        lex_le(a, b) || lex_le(b, a),
    decreases a.len(),
{
    if a.len() > 0 && b.len() > 0 {
        if a[0] == b[0] {
            lemma_lex_le_total(a.drop_first(), b.drop_first());
        } else if (a[0] as u32) == (b[0] as u32) {
            lemma_char_eq(a[0], b[0]);
        }
    }
}

/// `lex_le` is a total order.
pub proof fn lemma_lex_le_total_ordering()
    ensures
        total_ordering(|a: Seq<char>, b: Seq<char>| lex_le(a, b)),
{
    let r = |a: Seq<char>, b: Seq<char>| lex_le(a, b);
    assert forall|a: Seq<char>| #[trigger] r(a, a) by {
        lemma_lex_le_reflexive(a);
    }
    assert forall|a: Seq<char>, b: Seq<char>| #[trigger] r(a, b) && #[trigger] r(b, a) implies a
        == b by {
        lemma_lex_le_antisymmetric(a, b);
    }
    assert forall|a: Seq<char>, b: Seq<char>, c: Seq<char>|
        #[trigger] r(a, b) && #[trigger] r(b, c) implies r(a, c) by {
        lemma_lex_le_transitive(a, b, c);
    }
    assert forall|a: Seq<char>, b: Seq<char>| #[trigger] r(a, b) || #[trigger] r(b, a) by {
        lemma_lex_le_total(a, b);
    }
}

fn lex_le_from(a: &Vec<char>, b: &Vec<char>, i: usize) -> (r: bool)
    requires
        i <= a.len(),
        i <= b.len(),
    ensures
        r == lex_le(a@.skip(i as int), b@.skip(i as int)),
    decreases a.len() - i,
{
    if i == a.len() {
        return true;
    }
    if i == b.len() {
        return false;
    }
    let x = a[i];
    let y = b[i];
    assert(a@.skip(i as int)[0] == x);
    assert(b@.skip(i as int)[0] == y);
    if (x as u32) < (y as u32) {
        true
    } else if x == y {
        assert(a@.skip(i as int).drop_first() =~= a@.skip(i + 1));
        assert(b@.skip(i as int).drop_first() =~= b@.skip(i + 1));
        lex_le_from(a, b, i + 1)
    } else {
        false
    }
}

/// `a <= b` in std's order on strings.
pub fn str_le(a: &str, b: &str) -> (r: bool)
    ensures
        r == lex_le(a@, b@),
{
    let x = chars_of(a);
    let y = chars_of(b);
    assert(x@.skip(0) =~= x@);
    assert(y@.skip(0) =~= y@);
    lex_le_from(&x, &y, 0)
}

// ---------------------------------------------------------------------------
// splitting on whitespace and joining with spaces
// ---------------------------------------------------------------------------

/// Left-to-right scan of `s` for `str::split_whitespace`: the words already
/// closed, and the word still being read.
pub open spec fn split_state(s: Seq<char>) -> (Seq<Seq<char>>, Seq<char>)
    decreases s.len(),
{
    if s.len() == 0 {
        (seq![], seq![])
    } else {
        let prev = split_state(s.drop_last());
        let c = s.last();
        if spec_is_whitespace(c) {
            if prev.1.len() > 0 {
                (prev.0.push(prev.1), seq![])
            } else {
                prev
            }
        } else {
            (prev.0, prev.1.push(c))
        }
    }
}

/// The maximal runs of non-whitespace characters of `s`, in order
/// (`str::split_whitespace`).
pub open spec fn words(s: Seq<char>) -> Seq<Seq<char>> {
    let st = split_state(s);
    if st.1.len() > 0 {
        st.0.push(st.1)
    } else {
        st.0
    }
}

/// The pieces joined by the separator `sep` (`[..].join(sep)`).
pub open spec fn join_sep(ws: Seq<Seq<char>>, sep: char) -> Seq<char>
    decreases ws.len(),
{
    if ws.len() == 0 {
        seq![]
    } else if ws.len() == 1 {
        ws[0]
    } else {
        join_sep(ws.drop_last(), sep) + seq![sep] + ws.last()
    }
}

/// The words joined by single spaces (`[..].join(" ")`).
pub open spec fn join_spaces(ws: Seq<Seq<char>>) -> Seq<char> {
    join_sep(ws, ' ')
}

/// The views of a vector of strings.
pub open spec fn views(v: Seq<String>) -> Seq<Seq<char>> {
    v.map_values(|s: String| s@)
}

/// Every word produced by the scan is non-empty and free of whitespace.
pub proof fn lemma_split_state_words(s: Seq<char>)
    ensures
        forall|i: int|
            0 <= i < split_state(s).0.len() ==> #[trigger] split_state(s).0[i].len() > 0,
        forall|i: int, j: int|
            0 <= i < split_state(s).0.len() && 0 <= j < split_state(s).0[i].len()
                ==> !spec_is_whitespace(#[trigger] split_state(s).0[i][j]),
        forall|j: int|
            0 <= j < split_state(s).1.len() ==> !spec_is_whitespace(#[trigger] split_state(s).1[j]),
    decreases s.len(),
{
    if s.len() > 0 {
        lemma_split_state_words(s.drop_last());
        let prev = split_state(s.drop_last());
        let c = s.last();
        if spec_is_whitespace(c) {
            if prev.1.len() > 0 {
                let d = prev.0.push(prev.1);
                assert forall|i: int| 0 <= i < d.len() implies #[trigger] d[i].len() > 0 by {
                    if i < prev.0.len() {
                        assert(d[i] == prev.0[i]);
                    }
                }
                assert forall|i: int, j: int| 0 <= i < d.len() && 0 <= j < d[i].len()
                    implies !spec_is_whitespace(#[trigger] d[i][j]) by {
                    if i < prev.0.len() {
                        assert(d[i] == prev.0[i]);
                    } else {
                        assert(d[i] == prev.1);
                    }
                }
            }
        } else {
            let w = prev.1.push(c);
            assert forall|j: int| 0 <= j < w.len() implies !spec_is_whitespace(#[trigger] w[j]) by {
                if j < prev.1.len() {
                    assert(w[j] == prev.1[j]);
                }
            }
        }
    }
}

proof fn lemma_split_append_word(p: Seq<char>, w: Seq<char>)
    requires
        forall|j: int| 0 <= j < w.len() ==> !spec_is_whitespace(#[trigger] w[j]),
    ensures
        split_state(p + w) == (split_state(p).0, split_state(p).1 + w),
    decreases w.len(),
{
    if w.len() == 0 {
        assert(p + w =~= p);
        assert(split_state(p).1 + w =~= split_state(p).1);
    } else {
        let wd = w.drop_last();
        assert((p + w).drop_last() =~= p + wd);
        assert((p + w).last() == w.last());
        assert(!spec_is_whitespace(w[w.len() - 1]));
        lemma_split_append_word(p, wd);
        assert((split_state(p).1 + wd).push(w.last()) =~= split_state(p).1 + w);
    }
}

/// Splitting words joined by single spaces gives the words back, when each
/// is non-empty and free of whitespace.
pub proof fn lemma_words_of_join(ws: Seq<Seq<char>>)
    requires
        forall|i: int| 0 <= i < ws.len() ==> (#[trigger] ws[i]).len() > 0,
        forall|i: int, j: int| 0 <= i < ws.len() && 0 <= j < ws[i].len() ==> !spec_is_whitespace(#[trigger] ws[i][j]),
    ensures
        words(join_spaces(ws)) == ws,
    decreases ws.len(),
{
    if ws.len() == 0 {
        assert(words(join_spaces(ws)) =~= ws);
    } else if ws.len() == 1 {
        let w = ws[0];
        assert forall|j: int| 0 <= j < w.len() implies !spec_is_whitespace(#[trigger] w[j]) by {
            assert(!spec_is_whitespace(ws[0][j]));
        }
        lemma_split_append_word(Seq::<char>::empty(), w);
        assert(Seq::<char>::empty() + w =~= w);
        assert(Seq::<char>::empty() + w =~= join_spaces(ws));
        assert(words(join_spaces(ws)) =~= ws);
    } else {
        let d = ws.drop_last();
        let w = ws.last();
        assert forall|i: int| 0 <= i < d.len() implies (#[trigger] d[i]).len() > 0 by {
            assert(d[i] == ws[i]);
        }
        assert forall|i: int, j: int| 0 <= i < d.len() && 0 <= j < d[i].len() implies !spec_is_whitespace(
            #[trigger] d[i][j],
        ) by {
            assert(d[i] == ws[i]);
        }
        lemma_words_of_join(d);
        assert(w.len() > 0);
        assert forall|j: int| 0 <= j < w.len() implies !spec_is_whitespace(#[trigger] w[j]) by {
            assert(!spec_is_whitespace(ws[ws.len() - 1][j]));
        }
        let p = join_spaces(d).push(' ');
        assert(join_spaces(ws) =~= p + w);
        assert(p.drop_last() =~= join_spaces(d));
        assert(spec_is_whitespace(' '));
        lemma_split_append_word(p, w);
        assert(split_state(p).1 =~= Seq::<char>::empty());
        assert(split_state(p).0 =~= words(join_spaces(d)));
        assert(Seq::<char>::empty() + w =~= w);
        assert(words(join_spaces(ws)) =~= ws);
    }
}

/// Every character of the words of `s` satisfies `q` when every
/// non-whitespace character of `s` does.
pub proof fn lemma_word_chars(s: Seq<char>, q: spec_fn(char) -> bool)
    requires
        forall|k: int| 0 <= k < s.len() && !spec_is_whitespace(#[trigger] s[k]) ==> q(s[k]),
    ensures
        forall|i: int, j: int| 0 <= i < words(s).len() && 0 <= j < words(s)[i].len() ==> q(#[trigger] words(s)[i][j]),
{
    lemma_split_chars(s, q);
    let st = split_state(s);
    if st.1.len() > 0 {
        assert forall|i: int, j: int| 0 <= i < words(s).len() && 0 <= j < words(s)[i].len() implies q(
            #[trigger] words(s)[i][j],
        ) by {
            if i < st.0.len() {
                assert(words(s)[i] == st.0[i]);
            } else {
                assert(words(s)[i] == st.1);
            }
        }
    }
}

proof fn lemma_split_chars(s: Seq<char>, q: spec_fn(char) -> bool)
    requires
        forall|k: int| 0 <= k < s.len() && !spec_is_whitespace(#[trigger] s[k]) ==> q(s[k]),
    ensures
        forall|i: int, j: int|
            0 <= i < split_state(s).0.len() && 0 <= j < split_state(s).0[i].len() ==> q(#[trigger] split_state(s).0[i][j]),
        forall|j: int| 0 <= j < split_state(s).1.len() ==> q(#[trigger] split_state(s).1[j]),
    decreases s.len(),
{
    if s.len() > 0 {
        let d = s.drop_last();
        assert forall|k: int| 0 <= k < d.len() && !spec_is_whitespace(#[trigger] d[k]) implies q(d[k]) by {
            assert(d[k] == s[k]);
        }
        lemma_split_chars(d, q);
        let prev = split_state(d);
        let c = s.last();
        if spec_is_whitespace(c) {
            if prev.1.len() > 0 {
                let n = prev.0.push(prev.1);
                assert forall|i: int, j: int| 0 <= i < n.len() && 0 <= j < n[i].len() implies q(#[trigger] n[i][j]) by {
                    if i < prev.0.len() {
                        assert(n[i] == prev.0[i]);
                    } else {
                        assert(n[i] == prev.1);
                    }
                }
            }
        } else {
            assert(q(s[s.len() - 1]));
            let w = prev.1.push(c);
            assert forall|j: int| 0 <= j < w.len() implies q(#[trigger] w[j]) by {
                if j < prev.1.len() {
                    assert(w[j] == prev.1[j]);
                }
            }
        }
    }
}

/// Every character of words joined by spaces is a space or satisfies `q`
/// when every character of the words does.
pub proof fn lemma_join_chars(ws: Seq<Seq<char>>, q: spec_fn(char) -> bool)
    requires
        forall|i: int, j: int| 0 <= i < ws.len() && 0 <= j < ws[i].len() ==> q(#[trigger] ws[i][j]),
    ensures
        forall|k: int| 0 <= k < join_spaces(ws).len() ==> #[trigger] join_spaces(ws)[k] == ' ' || q(join_spaces(ws)[k]),
    decreases ws.len(),
{
    if ws.len() == 1 {
        assert forall|k: int| 0 <= k < join_spaces(ws).len() implies #[trigger] join_spaces(ws)[k] == ' ' || q(
            join_spaces(ws)[k],
        ) by {
            assert(q(ws[0][k]));
        }
    } else if ws.len() > 1 {
        let d = ws.drop_last();
        assert forall|i: int, j: int| 0 <= i < d.len() && 0 <= j < d[i].len() implies q(#[trigger] d[i][j]) by {
            assert(d[i] == ws[i]);
        }
        lemma_join_chars(d, q);
        let a = join_spaces(d);
        let w = ws.last();
        assert(join_spaces(ws) == a + seq![' '] + w);
        assert forall|k: int| 0 <= k < join_spaces(ws).len() implies #[trigger] join_spaces(ws)[k] == ' ' || q(
            join_spaces(ws)[k],
        ) by {
            if k < a.len() {
                assert(join_spaces(ws)[k] == a[k]);
            } else if k > a.len() {
                assert(join_spaces(ws)[k] == w[k - a.len() - 1]);
                assert(q(ws[ws.len() - 1][k - a.len() - 1]));
            }
        }
    }
}

/// The words of a string are non-empty and free of whitespace.
pub proof fn lemma_words_props(s: Seq<char>)
    ensures
        forall|i: int| 0 <= i < words(s).len() ==> (#[trigger] words(s)[i]).len() > 0,
        forall|i: int, j: int| 0 <= i < words(s).len() && 0 <= j < words(s)[i].len() ==> !spec_is_whitespace(
            #[trigger] words(s)[i][j],
        ),
{
    lemma_split_state_words(s);
    let st = split_state(s);
    assert forall|i: int| 0 <= i < words(s).len() implies (#[trigger] words(s)[i]).len() > 0 by {
        if i < st.0.len() {
            assert(words(s)[i] == st.0[i]);
        }
    }
    assert forall|i: int, j: int| 0 <= i < words(s).len() && 0 <= j < words(s)[i].len() implies !spec_is_whitespace(
        #[trigger] words(s)[i][j],
    ) by {
        if i < st.0.len() {
            assert(words(s)[i] == st.0[i]);
        } else {
            assert(words(s)[i] == st.1);
        }
    }
}

/// The whitespace-separated words of a string (`str::split_whitespace`).
pub fn split_whitespace(s: &str) -> (out: Vec<String>)
    ensures
        views(out@) == words(s@),
{
    let cs = chars_of(s);
    let mut done: Vec<String> = Vec::new();
    let mut cur = String::new();
    let mut i: usize = 0;
    while i < cs.len()
        invariant
            i <= cs.len(),
            cs@ == s@,
            (views(done@), cur@) == split_state(cs@.take(i as int)),
        decreases cs.len() - i,
    {
        let c = cs[i];
        assert(cs@.take(i + 1).drop_last() =~= cs@.take(i as int));
        if is_whitespace(c) {
            if !cur.as_str().is_empty() {
                proof {
                    assert(views(done@.push(cur)) =~= views(done@).push(cur@));
                }
                done.push(cur);
                cur = String::new();
            }
        } else {
            push_char(&mut cur, c);
        }
        i = i + 1;
    }
    assert(cs@.take(cs.len() as int) =~= cs@);
    if !cur.as_str().is_empty() {
        proof {
            assert(views(done@.push(cur)) =~= views(done@).push(cur@));
        }
        done.push(cur);
    }
    done
}

/// The strings of `ws` joined by single spaces.
pub fn join_with_spaces(ws: &Vec<String>) -> (out: String)
    ensures
        out@ == join_spaces(views(ws@)),
{
    join_with(ws, ' ')
}

/// The strings of `ws` joined by the separator `sep`.
pub fn join_with(ws: &Vec<String>, sep: char) -> (out: String)
    ensures
        out@ == join_sep(views(ws@), sep),
{
    let mut out = String::new();
    let mut i: usize = 0;
    while i < ws.len()
        invariant
            i <= ws.len(),
            out@ == join_sep(views(ws@).take(i as int), sep),
        decreases ws.len() - i,
    {
        let ghost prev = views(ws@).take(i as int);
        assert(views(ws@).take(i + 1).drop_last() =~= prev);
        if i > 0 {
            push_char(&mut out, sep);
        } else {
            assert(views(ws@).take(1) =~= seq![ws@[0]@]);
        }
        push_str(&mut out, ws[i].as_str());
        proof {
            if i > 0 {
                assert(out@ =~= join_sep(prev, sep) + seq![sep] + ws@[i as int]@);
            }
        }
        i = i + 1;
    }
    assert(views(ws@).take(ws.len() as int) =~= views(ws@));
    out
}

/// The pieces joined by the separator text `sep` (`[..].join(sep)`).
pub open spec fn join_str(ws: Seq<Seq<char>>, sep: Seq<char>) -> Seq<char>
    decreases ws.len(),
{
    if ws.len() == 0 {
        seq![]
    } else if ws.len() == 1 {
        ws[0]
    } else {
        join_str(ws.drop_last(), sep) + sep + ws.last()
    }
}

/// The strings of `ws` joined by the separator text `sep`.
pub fn join_with_str(ws: &Vec<String>, sep: &str) -> (out: String)
    ensures
        out@ == join_str(views(ws@), sep@),
{
    let mut out = String::new();
    let mut i: usize = 0;
    while i < ws.len()
        invariant
            i <= ws.len(),
            out@ == join_str(views(ws@).take(i as int), sep@),
        decreases ws.len() - i,
    {
        let ghost prev = views(ws@).take(i as int);
        assert(views(ws@).take(i + 1).drop_last() =~= prev);
        if i > 0 {
            push_str(&mut out, sep);
        } else {
            assert(views(ws@).take(1) =~= seq![ws@[0]@]);
        }
        push_str(&mut out, ws[i].as_str());
        proof {
            if i > 0 {
                assert(out@ =~= join_str(prev, sep@) + sep@ + ws@[i as int]@);
            }
        }
        i = i + 1;
    }
    assert(views(ws@).take(ws.len() as int) =~= views(ws@));
    out
}

} // verus!
