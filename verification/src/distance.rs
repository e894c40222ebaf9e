//! Edit distance between character sequences.
use vstd::prelude::*;

verus! {

pub open spec fn min2(x: nat, y: nat) -> nat {
    if x <= y {
        x
    } else {
        y
    }
}

/// The Levenshtein distance: the fewest single-character insertions,
/// deletions and substitutions that turn `a` into `b`.
pub open spec fn lev(a: Seq<char>, b: Seq<char>) -> nat
    decreases a.len() + b.len(),
{
    if a.len() == 0 {
        b.len()
    } else if b.len() == 0 {
        a.len()
    } else {
        min2(
            min2(lev(a.drop_last(), b) + 1, lev(a, b.drop_last()) + 1),
            lev(a.drop_last(), b.drop_last()) + (if a.last() == b.last() {
                0nat
            } else {
                1nat
            }),
        )
    }
}

pub proof fn lemma_lev_bound(a: Seq<char>, b: Seq<char>)
    ensures
        lev(a, b) <= (if a.len() >= b.len() {
            a.len()
        } else {
            b.len()
        }),
    decreases a.len() + b.len(),
{
    if a.len() > 0 && b.len() > 0 {
        lemma_lev_bound(a.drop_last(), b.drop_last());
    }
}

/// The distance of a sequence to itself is zero.
pub proof fn lemma_lev_self(a: Seq<char>)
    ensures
        lev(a, a) == 0,
    decreases a.len(),
{
    if a.len() > 0 {
        lemma_lev_self(a.drop_last());
    }
}

/// The Levenshtein distance of two character slices.
pub fn levenshtein(a: &[char], b: &[char]) -> (d: usize)
    ensures
        d == lev(a@, b@),
{
    let n = a.len();
    let m = b.len();
    if n == 0 {
        return m;
    }
    if m == 0 {
        return n;
    }
    // prev[j] == lev(a[..i], b[..j]) for the rows done so far
    let mut prev: Vec<usize> = Vec::new();
    prev.push(0);
    let mut j: usize = 0;
    while j < m
        invariant
            j <= m,
            m == b.len(),
            prev@.len() == j + 1,
            forall|k: int| 0 <= k <= j ==> prev@[k] == lev(a@.take(0), b@.take(k)),
        decreases m - j,
    {
        j = j + 1;
        prev.push(j);
        proof {
            assert(a@.take(0).len() == 0);
        }
    }
    let mut i: usize = 0;
    while i < n
        invariant
            i <= n,
            n == a.len(),
            m == b.len(),
            m > 0,
            prev@.len() == m + 1,
            forall|k: int| 0 <= k <= m ==> #[trigger] prev@[k] == lev(a@.take(i as int), b@.take(k)),
        decreases n - i,
    {
        i = i + 1;
        let mut cur: Vec<usize> = Vec::new();
        cur.push(i);
        proof {
            assert(b@.take(0).len() == 0);
            assert(a@.take(i as int).len() == i);
        }
        let mut j: usize = 0;
        while j < m
            invariant
                1 <= i <= n,
                j <= m,
                n == a.len(),
                m == b.len(),
                prev@.len() == m + 1,
                cur@.len() == j + 1,
                forall|k: int| 0 <= k <= m ==> #[trigger] prev@[k] == lev(a@.take(i - 1), b@.take(k)),
                forall|k: int| 0 <= k <= j ==> #[trigger] cur@[k] == lev(a@.take(i as int), b@.take(k)),
            decreases m - j,
        {
            j = j + 1;
            let cost: usize = if a[i - 1] == b[j - 1] {
                0
            } else {
                1
            };
            let del = prev[j].saturating_add(1);
            let ins = cur[j - 1].saturating_add(1);
            let sub = prev[j - 1].saturating_add(cost);
            let best = if del <= ins {
                del
            } else {
                ins
            };
            let best = if best <= sub {
                best
            } else {
                sub
            };
            proof {
                let ai = a@.take(i as int);
                let bj = b@.take(j as int);
                assert(ai.drop_last() =~= a@.take(i - 1));
                assert(bj.drop_last() =~= b@.take(j - 1));
                assert(ai.last() == a@[i - 1]);
                assert(bj.last() == b@[j - 1]);
                lemma_lev_bound(ai, bj);
                let c1: nat = lev(ai.drop_last(), bj) + 1;
                let c2: nat = lev(ai, bj.drop_last()) + 1;
                let c3: nat = lev(ai.drop_last(), bj.drop_last()) + (cost as nat);
                assert(lev(ai, bj) == min2(min2(c1, c2), c3));
                assert(lev(ai, bj) <= usize::MAX);
            }
            cur.push(best);
        }
        prev = cur;
    }
    proof {
        assert(a@.take(n as int) =~= a@);
        assert(b@.take(m as int) =~= b@);
    }
    prev[m]
}

} // verus!
