//! Top-k selection: keys ordered by decreasing score, equal scores by lower key.
use vstd::prelude::*;

verus! {

/// Key `i` ranks before key `j`: a higher score, or an equal score and a lower key.
pub open spec fn ranks_before(scores: Seq<int>, i: int, j: int) -> bool {
    scores[i] > scores[j] || (scores[i] == scores[j] && i < j)
}

/// `keys` is the best `min(k, n)` keys of `scores` in ranked order: each key is
/// in range, each ranks before the ones after it, and every key left out ranks
/// after every key chosen.
pub open spec fn is_top_k(scores: Seq<int>, k: nat, keys: Seq<int>) -> bool {
    &&& keys.len() == if k < scores.len() { k } else { scores.len() }
    &&& forall|a: int| 0 <= a < keys.len() ==> 0 <= #[trigger] keys[a] < scores.len()
    &&& forall|a: int, b: int| 0 <= a < b < keys.len() ==> ranks_before(scores, #[trigger] keys[a], #[trigger] keys[b])
    &&& forall|a: int, j: int|
        0 <= a < keys.len() && 0 <= j < scores.len() && !keys.contains(j) ==> #[trigger] ranks_before(scores, keys[a], j)
}

proof fn lemma_ranks_asymmetric(scores: Seq<int>, i: int, j: int)
    requires
        ranks_before(scores, i, j),
    ensures
        !ranks_before(scores, j, i),
{
}

/// Where two best-`k` sequences agree before position `a`, the first one's key
/// at `a` equals the second one's or ranks before it.
proof fn lemma_first_difference(scores: Seq<int>, k: nat, k1: Seq<int>, k2: Seq<int>, a: int)
    requires
        is_top_k(scores, k, k1),
        is_top_k(scores, k, k2),
        0 <= a < k1.len(),
        forall|b: int| 0 <= b < a ==> k1[b] == k2[b],
    ensures
        ranks_before(scores, k1[a], k2[a]) || k1[a] == k2[a],
{
    let y = k2[a];
    if y != k1[a] {
        if k1.contains(y) {
            let b = choose|b: int| 0 <= b < k1.len() && k1[b] == y;
            if b < a {
                assert(k2[b] == y);
                assert(ranks_before(scores, k2[b], k2[a]));
            }
            assert(b > a);
            assert(ranks_before(scores, k1[a], k1[b]));
        } else {
            assert(ranks_before(scores, k1[a], y));
        }
    }
}

/// The best `k` keys are unique: two sequences that both meet `is_top_k` for
/// the same scores and `k` are equal.
pub proof fn lemma_top_k_unique(scores: Seq<int>, k: nat, k1: Seq<int>, k2: Seq<int>)
    requires
        is_top_k(scores, k, k1),
        is_top_k(scores, k, k2),
    ensures
        k1 == k2,
{
    assert forall|a: int| 0 <= a < k1.len() implies k1[a] == k2[a] by {
        lemma_agree_upto(scores, k, k1, k2, a);
    }
    assert(k1 =~= k2);
}

proof fn lemma_agree_upto(scores: Seq<int>, k: nat, k1: Seq<int>, k2: Seq<int>, a: int)
    requires
        is_top_k(scores, k, k1),
        is_top_k(scores, k, k2),
        0 <= a < k1.len(),
    ensures
        forall|b: int| 0 <= b <= a ==> k1[b] == k2[b],
    decreases a,
{
    if a > 0 {
        lemma_agree_upto(scores, k, k1, k2, a - 1);
    }
    lemma_first_difference(scores, k, k1, k2, a);
    lemma_first_difference(scores, k, k2, k1, a);
    if k1[a] != k2[a] {
        lemma_ranks_asymmetric(scores, k1[a], k2[a]);
    }
}

/// Scores as mathematical integers.
pub open spec fn int_scores(s: Seq<i128>) -> Seq<int> {
    Seq::new(s.len(), |i: int| s[i] as int)
}

/// Keys as mathematical integers.
pub open spec fn int_keys(s: Seq<usize>) -> Seq<int> {
    Seq::new(s.len(), |i: int| s[i] as int)
}

/// The best `k` keys of `scores`, best first.
pub fn top_k(scores: &Vec<i128>, k: usize) -> (r: Vec<usize>)
    ensures
        is_top_k(int_scores(scores@), k as nat, int_keys(r@)),
{
    let ghost sc = int_scores(scores@);
    let n = scores.len();
    let m = if k < n { k } else { n };
    let mut chosen: Vec<bool> = Vec::with_capacity(n);
    let mut i: usize = 0;
    while i < n
        invariant
            i <= n,
            n == scores@.len(),
            chosen@.len() == i,
            forall|j: int| 0 <= j < i ==> !(#[trigger] chosen@[j]),
        decreases n - i,
    {
        chosen.push(false);
        i += 1;
    }
    let mut r: Vec<usize> = Vec::with_capacity(m);
    while r.len() < m
        invariant
            sc == int_scores(scores@),
            n == scores@.len(),
            m <= n,
            m == if k < n { k } else { n },
            r@.len() <= m,
            chosen@.len() == n,
            forall|a: int| 0 <= a < r@.len() ==> (#[trigger] r@[a]) < n,
            forall|j: int| 0 <= j < n ==> (#[trigger] chosen@[j] <==> int_keys(r@).contains(j)),
            forall|a: int, b: int| 0 <= a < b < r@.len() ==> ranks_before(sc, #[trigger] r@[a] as int, #[trigger] r@[b] as int),
            forall|a: int, j: int|
                #![trigger r@[a], chosen@[j]]
                0 <= a < r@.len() && 0 <= j < n && !chosen@[j] ==> ranks_before(sc, r@[a] as int, j),
        decreases m - r@.len(),
    {
        // pick the best key not yet chosen
        let mut best: usize = n;
        let mut j: usize = 0;
        while j < n
            invariant
                sc == int_scores(scores@),
                n == scores@.len(),
                chosen@.len() == n,
                j <= n,
                best == n || (best < j && !chosen@[best as int]),
                best == n ==> forall|t: int| 0 <= t < j ==> #[trigger] chosen@[t],
                best < n ==> forall|t: int|
                    0 <= t < j && !(#[trigger] chosen@[t]) && t != best ==> ranks_before(sc, best as int, t),
            decreases n - j,
        {
            if !chosen[j] {
                if best == n || scores[j] > scores[best] {
                    best = j;
                }
            }
            j += 1;
        }
        proof {
            // some key is still free, since fewer than n are chosen
            if best == n {
                let keys = int_keys(r@);
                assert forall|t: int| 0 <= t < n implies keys.contains(t) by {
                    assert(chosen@[t]);
                }
                assert(forall|a: int| 0 <= a < keys.len() ==> 0 <= #[trigger] keys[a] < n);
                lemma_distinct_keys_cover(keys, n as int, sc);
            }
        }
        let ghost old_r = r@;
        chosen.set(best, true);
        r.push(best);
        proof {
            assert(int_keys(r@) =~= int_keys(old_r).push(best as int));
            assert forall|t: int| 0 <= t < n implies (#[trigger] chosen@[t] <==> int_keys(r@).contains(t)) by {
                if t == best as int {
                    assert(int_keys(r@)[old_r.len() as int] == t);
                } else {
                    if int_keys(r@).contains(t) {
                        let a = choose|a: int| 0 <= a < int_keys(r@).len() && int_keys(r@)[a] == t;
                        assert(a < old_r.len());
                        assert(int_keys(old_r)[a] == t);
                    }
                    if int_keys(old_r).contains(t) {
                        let a = choose|a: int| 0 <= a < int_keys(old_r).len() && int_keys(old_r)[a] == t;
                        assert(int_keys(r@)[a] == t);
                    }
                }
            }
        }
    }
    proof {
        let keys = int_keys(r@);
        assert forall|a: int, j: int|
            0 <= a < keys.len() && 0 <= j < sc.len() && !keys.contains(j) implies #[trigger] ranks_before(sc, keys[a], j) by {
            assert(!chosen@[j]);
            assert(keys[a] == r@[a] as int);
        }
        assert forall|a: int, b: int| 0 <= a < b < keys.len() implies ranks_before(sc, #[trigger] keys[a], #[trigger] keys[b]) by {
            assert(keys[a] == r@[a] as int);
            assert(keys[b] == r@[b] as int);
        }
        assert forall|a: int| 0 <= a < keys.len() implies 0 <= #[trigger] keys[a] < sc.len() by {
            assert(keys[a] == r@[a] as int);
        }
    }
    r
}

/// Keys that rank strictly in order are pairwise distinct, so they number at
/// least the `n` values they cover.
proof fn lemma_distinct_keys_cover(keys: Seq<int>, n: int, sc: Seq<int>)
    requires
        0 <= n,
        forall|a: int| 0 <= a < keys.len() ==> 0 <= #[trigger] keys[a] < n,
        forall|a: int, b: int| 0 <= a < b < keys.len() ==> ranks_before(sc, #[trigger] keys[a], #[trigger] keys[b]),
        forall|t: int| 0 <= t < n ==> keys.contains(t),
    ensures
        keys.len() >= n,
{
    // the key set injects into [0, n), and [0, n) injects into the key set
    let s = keys.to_set();
    assert(keys.no_duplicates()) by {
        assert forall|a: int, b: int| 0 <= a < keys.len() && 0 <= b < keys.len() && a != b implies keys[a] != keys[b] by {
            if a < b {
                assert(ranks_before(sc, keys[a], keys[b]));
            } else {
                assert(ranks_before(sc, keys[b], keys[a]));
            }
        }
    }
    keys.unique_seq_to_set();
    let full = Set::new(|t: int| 0 <= t < n);
    assert(full =~= vstd::set_lib::set_int_range(0, n));
    vstd::set_lib::lemma_int_range(0, n);
    assert(full.subset_of(s)) by {
        assert forall|t: int| full.contains(t) implies s.contains(t) by {
            assert(keys.contains(t));
        }
    }
    vstd::set_lib::lemma_len_subset(full, s);
}

} // verus!
