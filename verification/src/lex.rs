//! Lexicographic order on strings, as `String`'s `Ord` orders them, and sorted
//! sets of strings.
//!
//! Rust orders strings by their UTF-8 bytes, which orders them by code point;
//! the specification here compares the characters.
use vstd::prelude::*;

use crate::strs::{chars_of, str_eq};

verus! {

/// `a` comes before or equals `b` in lexicographic order.
pub open spec fn lex_le(a: Seq<char>, b: Seq<char>) -> bool
    decreases a.len(),
{
    if a.len() == 0 {
        true
    } else if b.len() == 0 {
        false
    } else if a[0] < b[0] {
        true
    } else if a[0] > b[0] {
        false
    } else {
        lex_le(a.drop_first(), b.drop_first())
    }
}

/// `a` comes strictly before `b`.
pub open spec fn lex_lt(a: Seq<char>, b: Seq<char>) -> bool {
    lex_le(a, b) && a != b
}

/// The character views of a sequence of strings.
pub open spec fn views(v: Seq<String>) -> Seq<Seq<char>> {
    v.map_values(|s: String| s@)
}

/// Every element comes strictly before every later element.
pub open spec fn sorted_strictly(s: Seq<Seq<char>>) -> bool {
    forall|i: int, j: int| 0 <= i < j < s.len() ==> lex_lt(#[trigger] s[i], #[trigger] s[j])
}

/// Every element comes before or equals every later element.
pub open spec fn sorted(s: Seq<Seq<char>>) -> bool {
    forall|i: int, j: int| 0 <= i < j < s.len() ==> lex_le(#[trigger] s[i], #[trigger] s[j])
}

pub proof fn lemma_lex_refl(a: Seq<char>)
    ensures
        lex_le(a, a),
    decreases a.len(),
{
    if a.len() > 0 {
        lemma_lex_refl(a.drop_first());
    }
}

pub proof fn lemma_lex_total(a: Seq<char>, b: Seq<char>)
    ensures
        lex_le(a, b) || lex_le(b, a),
    decreases a.len(),
{
    if a.len() > 0 && b.len() > 0 && a[0] == b[0] {
        lemma_lex_total(a.drop_first(), b.drop_first());
    }
}

pub proof fn lemma_lex_antisym(a: Seq<char>, b: Seq<char>)
    requires
        lex_le(a, b),
        lex_le(b, a),
    ensures
        a == b,
    decreases a.len(),
{
    if a.len() == 0 {
        assert(b.len() == 0);
        assert(a =~= b);
    } else {
        assert(b.len() > 0);
        assert(a[0] == b[0]);
        lemma_lex_antisym(a.drop_first(), b.drop_first());
        assert(a =~= seq![a[0]] + a.drop_first());
        assert(b =~= seq![b[0]] + b.drop_first());
    }
}

/// Two strictly sorted sequences holding the same strings are equal.
pub proof fn lemma_sorted_sets_equal(a: Seq<Seq<char>>, b: Seq<Seq<char>>)
    requires
        sorted_strictly(a),
        sorted_strictly(b),
        a.to_set() == b.to_set(),
    ensures
        a == b,
    decreases a.len(),
{
    if a.len() == 0 {
        if b.len() > 0 {
            assert(b.to_set().contains(b[0]));
            assert(!a.to_set().contains(b[0]));
        }
        assert(a =~= b);
    } else {
        assert(a.to_set().contains(a[0]));
        assert(b.to_set().contains(a[0]));
        let j = choose|j: int| 0 <= j < b.len() && b[j] == a[0];
        assert(b.to_set().contains(b[0]));
        assert(a.to_set().contains(b[0]));
        let k = choose|k: int| 0 <= k < a.len() && a[k] == b[0];
        if a[0] != b[0] {
            assert(j > 0 && k > 0);
            assert(lex_lt(b[0], b[j]));
            assert(lex_lt(a[0], a[k]));
            lemma_lex_antisym(a[0], b[0]);
        }
        let x = a[0];
        let ar = a.drop_first();
        let br = b.drop_first();
        assert forall|v: Seq<char>| ar.to_set().contains(v) <==> br.to_set().contains(v) by {
            if ar.to_set().contains(v) {
                let i = choose|i: int| 0 <= i < ar.len() && ar[i] == v;
                assert(a[i + 1] == v);
                assert(lex_lt(a[0], a[i + 1]));
                assert(a.to_set().contains(v));
                let m = choose|m: int| 0 <= m < b.len() && b[m] == v;
                assert(m != 0);
                assert(br[m - 1] == v);
            }
            if br.to_set().contains(v) {
                let i = choose|i: int| 0 <= i < br.len() && br[i] == v;
                assert(b[i + 1] == v);
                assert(lex_lt(b[0], b[i + 1]));
                assert(b.to_set().contains(v));
                let m = choose|m: int| 0 <= m < a.len() && a[m] == v;
                assert(m != 0);
                assert(ar[m - 1] == v);
            }
        }
        assert(ar.to_set() =~= br.to_set());
        assert forall|p: int, q: int| 0 <= p < q < ar.len() implies lex_lt(#[trigger] ar[p], #[trigger] ar[q]) by {
            assert(lex_lt(a[p + 1], a[q + 1]));
        }
        assert forall|p: int, q: int| 0 <= p < q < br.len() implies lex_lt(#[trigger] br[p], #[trigger] br[q]) by {
            assert(lex_lt(b[p + 1], b[q + 1]));
        }
        lemma_sorted_sets_equal(ar, br);
        assert(a =~= seq![x] + ar);
        assert(b =~= seq![x] + br);
    }
}

pub proof fn lemma_lex_trans(a: Seq<char>, b: Seq<char>, c: Seq<char>)
    requires
        lex_le(a, b),
        lex_le(b, c),
    ensures
        lex_le(a, c),
    decreases a.len(),
{
    if a.len() > 0 && b.len() > 0 && c.len() > 0 && a[0] == b[0] && b[0] == c[0] {
        lemma_lex_trans(a.drop_first(), b.drop_first(), c.drop_first());
    }
}

pub proof fn lemma_lex_lt_trans(a: Seq<char>, b: Seq<char>, c: Seq<char>)
    requires
        lex_lt(a, b),
        lex_lt(b, c),
    ensures
        lex_lt(a, c),
{
    lemma_lex_trans(a, b, c);
    if a == c {
        lemma_lex_antisym(a, b);
    }
}

/// Whether `a` comes before or equals `b`.
pub fn lex_le_exec(a: &[char], b: &[char]) -> (r: bool)
    ensures
        r == lex_le(a@, b@),
{
    let mut i: usize = 0;
    assert(a@.subrange(0, a.len() as int) =~= a@);
    assert(b@.subrange(0, b.len() as int) =~= b@);
    while i < a.len() && i < b.len() && a[i] == b[i]
        invariant
            i <= a.len(),
            i <= b.len(),
            lex_le(a@, b@) == lex_le(a@.subrange(i as int, a.len() as int), b@.subrange(i as int, b.len() as int)),
        decreases a.len() - i,
    {
        assert(a@.subrange(i as int, a.len() as int).drop_first() =~= a@.subrange(i + 1, a.len() as int));
        assert(b@.subrange(i as int, b.len() as int).drop_first() =~= b@.subrange(i + 1, b.len() as int));
        i = i + 1;
    }
    proof {
        assert(a@.subrange(0, a.len() as int) =~= a@);
        assert(b@.subrange(0, b.len() as int) =~= b@);
    }
    if i == a.len() {
        true
    } else if i == b.len() {
        false
    } else {
        a[i] < b[i]
    }
}

/// Whether the string `a` comes before or equals `b`.
pub fn string_le(a: &str, b: &str) -> (r: bool)
    ensures
        r == lex_le(a@, b@),
{
    let x = chars_of(a);
    let y = chars_of(b);
    lex_le_exec(x.as_slice(), y.as_slice())
}

/// The strings of `v` as a sorted sequence without repeats.
pub fn sorted_set_of(v: Vec<String>) -> (r: Vec<String>)
    ensures
        sorted_strictly(views(r@)),
        views(r@).to_set() == views(v@).to_set(),
{
    let mut r: Vec<String> = Vec::new();
    let mut k: usize = 0;
    while k < v.len()
        invariant
            k <= v.len(),
            sorted_strictly(views(r@)),
            views(r@).to_set() == views(v@.take(k as int)).to_set(),
        decreases v.len() - k,
    {
        r = insert_into_set(r, v[k].as_str());
        proof {
            assert(views(v@.take(k + 1)) =~= views(v@.take(k as int)).push(v@[k as int]@));
            lemma_seq_push_to_set(views(v@.take(k as int)), v@[k as int]@);
        }
        k = k + 1;
    }
    assert(v@.take(v.len() as int) =~= v@);
    r
}

/// A sorted set of strings with `s` added.
pub fn insert_into_set(r: Vec<String>, s: &str) -> (out: Vec<String>)
    requires
        sorted_strictly(views(r@)),
    ensures
        sorted_strictly(views(out@)),
        views(out@).to_set() == views(r@).to_set().insert(s@),
{
    let mut r = r;
    let p = insertion_point(&r, s);
    let ghost old_r = r@;
    let present = p < r.len() && str_eq(r[p].as_str(), s);
    if present {
        proof {
            assert(views(r@)[p as int] == s@);
            assert(views(r@).contains(s@));
            assert(views(r@).to_set().insert(s@) =~= views(r@).to_set());
        }
    } else {
        r.insert(p, s.to_owned());
        proof {
            let w = views(old_r);
            assert(views(r@) =~= w.insert(p as int, s@));
            lemma_s_before(w, s@, p as int);
            assert forall|m: int| p <= m < w.len() implies lex_lt(s@, #[trigger] w[m]) by {
                if m > p {
                    lemma_lex_lt_trans(s@, w[p as int], w[m]);
                }
            }
            let t = views(r@);
            assert forall|i: int, j: int| 0 <= i < j < t.len() implies lex_lt(#[trigger] t[i], #[trigger] t[j]) by {
                if j < p {
                    assert(t[i] == w[i] && t[j] == w[j]);
                } else if j == p {
                    assert(t[i] == w[i]);
                } else if i < p {
                    assert(t[i] == w[i] && t[j] == w[j - 1]);
                    lemma_lex_lt_trans(w[i], s@, w[j - 1]);
                } else if i == p {
                    assert(t[j] == w[j - 1]);
                } else {
                    assert(t[i] == w[i - 1] && t[j] == w[j - 1]);
                }
            }
            lemma_seq_insert_to_set(w, p as int, s@);
        }
    }
    r
}

/// Inserting into a sequence inserts into its set of elements.
pub proof fn lemma_seq_insert_to_set<T>(s: Seq<T>, i: int, x: T)
    requires
        0 <= i <= s.len(),
    ensures
        s.insert(i, x).to_set() == s.to_set().insert(x),
{
    let t = s.insert(i, x);
    assert forall|y: T| #[trigger] t.to_set().contains(y) == s.to_set().insert(x).contains(y) by {
        if t.contains(y) {
            let k = choose|k: int| 0 <= k < t.len() && t[k] == y;
            if k < i {
                assert(s[k] == y);
            } else if k > i {
                assert(s[k - 1] == y);
            }
        }
        if s.contains(y) {
            let k = choose|k: int| 0 <= k < s.len() && s[k] == y;
            if k < i {
                assert(t[k] == y);
            } else {
                assert(t[k + 1] == y);
            }
        }
        if y == x {
            assert(t[i] == x);
        }
    }
    assert(t.to_set() =~= s.to_set().insert(x));
}

/// Pushing onto a sequence inserts into its set of elements.
pub proof fn lemma_seq_push_to_set<T>(s: Seq<T>, x: T)
    ensures
        s.push(x).to_set() == s.to_set().insert(x),
{
    assert(s.push(x) =~= s.insert(s.len() as int, x));
    lemma_seq_insert_to_set(s, s.len() as int, x);
}

/// The position before which `s` belongs in a strictly sorted sequence:
/// everything before it comes strictly before `s`.
pub fn insertion_point(r: &Vec<String>, s: &str) -> (p: usize)
    requires
        sorted_strictly(views(r@)),
    ensures
        p <= r.len(),
        forall|j: int| 0 <= j < p ==> lex_lt(#[trigger] views(r@)[j], s@),
        p < r.len() ==> lex_le(s@, r@[p as int]@),
{
    let mut p: usize = 0;
    let mut done = false;
    while p < r.len() && !done
        invariant
            p <= r.len(),
            forall|j: int| 0 <= j < p ==> lex_lt(#[trigger] views(r@)[j], s@),
            done ==> p < r.len() && lex_le(s@, r@[p as int]@),
        decreases r.len() - p + (if done { 0int } else { 1int }),
    {
        if string_le(s, r[p].as_str()) {
            done = true;
        } else {
            proof {
                lemma_lex_total(s@, r@[p as int]@);
                if r@[p as int]@ == s@ {
                    lemma_lex_refl(s@);
                }
            }
            p = p + 1;
        }
    }
    p
}

/// In the insertion point `p` of a strictly sorted sequence, `s` comes
/// strictly before the element at `p` when that element differs from `s`.
proof fn lemma_s_before(w: Seq<Seq<char>>, s: Seq<char>, p: int)
    requires
        0 <= p,
        p < w.len() ==> lex_le(s, w[p]) && w[p] != s,
    ensures
        p < w.len() ==> lex_lt(s, w[p]),
{
}

} // verus!
