//! Ordering and filtering players by an order key of their overall score.

use vstd::prelude::*;

use crate::selection::exceeds;

verus! {

/// In a descending ranking, position `i` comes before position `j`: it has the
/// larger key, or the same key and comes first in the input (a stable order).
pub open spec fn ranks_before(keys: Seq<i64>, i: int, j: int) -> bool {
    keys[i] > keys[j] || (keys[i] == keys[j] && i < j)
}

/// `r` holds the first `min(n, keys.len())` positions of the stable descending
/// ranking of `keys`.
pub open spec fn is_top_ranking(keys: Seq<i64>, n: int, r: Seq<usize>) -> bool {
    &&& r.len() == if n < keys.len() { n } else { keys.len() as int }
    &&& forall|i: int| 0 <= i < r.len() ==> #[trigger] r[i] < keys.len()
    &&& forall|i: int, j: int|
        0 <= i < j < r.len() ==> ranks_before(keys, #[trigger] r[i] as int, #[trigger] r[j] as int)
    &&& forall|i: int, k: int|
        0 <= i < r.len() && 0 <= k < keys.len() && !r.contains(k as usize) ==> #[trigger] ranks_before(keys, r[i] as int, k)
}

/// The ranking is fully determined: two lists that both hold the first `n`
/// positions of the stable descending ranking of the same keys are equal.
pub proof fn lemma_top_ranking_unique(keys: Seq<i64>, n: int, r1: Seq<usize>, r2: Seq<usize>)
    requires
        is_top_ranking(keys, n, r1),
        is_top_ranking(keys, n, r2),
    ensures
        r1 == r2,
{
    assert forall|i: int| 0 <= i < r1.len() implies r1[i] == r2[i] by {
        lemma_rankings_agree_at(keys, n, r1, r2, i);
    }
    assert(r1 =~= r2);
}

proof fn lemma_rankings_agree_at(keys: Seq<i64>, n: int, r1: Seq<usize>, r2: Seq<usize>, i: int)
    requires
        is_top_ranking(keys, n, r1),
        is_top_ranking(keys, n, r2),
        0 <= i < r1.len(),
    ensures
        r1[i] == r2[i],
    decreases i,
{
    if i > 0 {
        lemma_rankings_agree_at(keys, n, r1, r2, i - 1);
    }
    if r1[i] != r2[i] {
        let a = r1[i] as int;
        let b = r2[i] as int;
        assert(a < keys.len() && b < keys.len());
        if ranks_before(keys, a, b) {
            // `a` is placed somewhere by r2, or it ranks after everything r2 holds.
            if r2.contains(a as usize) {
                let j = choose|j: int| 0 <= j < r2.len() && r2[j] == a as usize;
                if j < i {
                    lemma_rankings_prefix_agree(keys, n, r1, r2, i, j);
                    assert(ranks_before(keys, r1[j] as int, r1[i] as int));
                } else {
                    assert(j != i);
                    assert(ranks_before(keys, r2[i] as int, r2[j] as int));
                }
            } else {
                assert(ranks_before(keys, r2[i] as int, a));
            }
        } else {
            if r1.contains(b as usize) {
                let j = choose|j: int| 0 <= j < r1.len() && r1[j] == b as usize;
                if j < i {
                    lemma_rankings_prefix_agree(keys, n, r1, r2, i, j);
                    assert(ranks_before(keys, r2[j] as int, r2[i] as int));
                } else {
                    assert(j != i);
                    assert(ranks_before(keys, r1[i] as int, r1[j] as int));
                }
            } else {
                assert(ranks_before(keys, r1[i] as int, b));
            }
        }
    }
}

proof fn lemma_rankings_prefix_agree(
    keys: Seq<i64>,
    n: int,
    r1: Seq<usize>,
    r2: Seq<usize>,
    i: int,
    j: int,
)
    requires
        is_top_ranking(keys, n, r1),
        is_top_ranking(keys, n, r2),
        0 <= j < i < r1.len(),
        forall|k: int| 0 <= k < i ==> r1[k] == r2[k],
    ensures
        r1[j] == r2[j],
{
}

/// The positions of the `n` highest keys, highest first; equal keys keep their
/// input order. This is the input sorted stably by descending key, cut to `n`.
pub fn rank_descending(keys: &Vec<i64>, n: usize) -> (r: Vec<usize>)
    ensures
        is_top_ranking(keys@, n as int, r@),
{
    let len = keys.len();
    let m = if n < len { n } else { len };
    let mut taken: Vec<bool> = Vec::new();
    let mut t: usize = 0;
    while t < len
        invariant
            t <= len,
            len == keys.len(),
            taken.len() == t,
            forall|k: int| 0 <= k < t ==> !(#[trigger] taken@[k]),
        decreases len - t,
    {
        taken.push(false);
        t = t + 1;
    }
    let mut r: Vec<usize> = Vec::new();
    while r.len() < m
        invariant
            m <= len,
            len == keys.len(),
            m == if n < len { n } else { len },
            taken.len() == len,
            r.len() <= m,
            forall|i: int| 0 <= i < r.len() ==> #[trigger] r@[i] < len,
            forall|k: int| 0 <= k < len ==> (#[trigger] taken@[k] <==> r@.contains(k as usize)),
            forall|i: int, j: int|
                0 <= i < j < r.len() ==> ranks_before(
                    keys@,
                    #[trigger] r@[i] as int,
                    #[trigger] r@[j] as int,
                ),
            forall|i: int, k: int|
                0 <= i < r.len() && 0 <= k < len && !taken@[k] ==> #[trigger] ranks_before(keys@, r@[i] as int, k),
        decreases m - r.len(),
    {
        // Some position is still free, since fewer than `len` are taken.
        proof {
            if forall|k: int| 0 <= k < len ==> #[trigger] taken@[k] {
                assert forall|k: int| 0 <= k < len implies #[trigger] r@.contains(k as usize) by {
                    assert(taken@[k]);
                }
                lemma_all_taken_means_full(r@, len as int);
                assert(false);
            }
        }
        let mut best: usize = len;
        let mut j: usize = 0;
        while j < len
            invariant
                j <= len,
                len == keys.len(),
                taken.len() == len,
                best == len || (best < j && !taken@[best as int]),
                best == len ==> forall|k: int| 0 <= k < j ==> #[trigger] taken@[k],
                best < len ==> forall|k: int|
                    0 <= k < j && !taken@[k] && k != best ==> ranks_before(
                        keys@,
                        best as int,
                        k,
                    ),
            decreases len - j,
        {
            if !taken[j] {
                if best == len || keys[j] > keys[best] {
                    best = j;
                }
            }
            j = j + 1;
        }
        assert(best < len);
        let ghost old_r = r@;
        taken.set(best, true);
        r.push(best);
        proof {
            assert(r@ == old_r.push(best));
            assert forall|k: int| 0 <= k < len implies (#[trigger] taken@[k] <==> r@.contains(
                k as usize,
            )) by {
                if k == best {
                    assert(r@[r@.len() - 1] == best);
                } else {
                    if r@.contains(k as usize) {
                        let w = choose|w: int| 0 <= w < r@.len() && r@[w] == k as usize;
                        assert(w < old_r.len());
                        assert(old_r[w] == k as usize);
                        assert(old_r.contains(k as usize));
                    }
                    if old_r.contains(k as usize) {
                        let w = choose|w: int| 0 <= w < old_r.len() && old_r[w] == k as usize;
                        assert(r@[w] == k as usize);
                    }
                }
            }
            assert forall|i: int, jj: int| 0 <= i < jj < r.len() implies ranks_before(
                keys@,
                #[trigger] r@[i] as int,
                #[trigger] r@[jj] as int,
            ) by {
                if jj == r.len() - 1 {
                    assert(r@[i] == old_r[i]);
                } else {
                    assert(r@[i] == old_r[i]);
                    assert(r@[jj] == old_r[jj]);
                }
            }
            assert forall|i: int, k: int|
                0 <= i < r.len() && 0 <= k < len && !taken@[k] implies #[trigger] ranks_before(keys@, r@[i] as int, k) by {
                if i == r.len() - 1 {
                    assert(k != best);
                } else {
                    assert(r@[i] == old_r[i]);
                }
            }
        }
    }
    proof {
        assert forall|i: int, k: int|
            0 <= i < r.len() && 0 <= k < keys.len() && !r@.contains(k as usize) implies #[trigger] ranks_before(keys@, r@[i] as int, k) by {
            assert(!taken@[k]);
        }
    }
    r
}

/// A list in which every position below `len` occurs has at least `len` entries.
proof fn lemma_all_taken_means_full(r: Seq<usize>, len: int)
    requires
        0 <= len <= usize::MAX,
        forall|k: int| 0 <= k < len ==> #[trigger] r.contains(k as usize),
    ensures
        r.len() >= len,
{
    let s = Set::new(|k: usize| (k as int) < len);
    let rs = r.to_set();
    assert(s.subset_of(rs)) by {
        assert forall|k: usize| s.contains(k) implies rs.contains(k) by {
            assert(r.contains(k as int as usize));
        }
    }
    lemma_range_set_len(len);
    vstd::set_lib::lemma_len_subset(s, rs);
    r.lemma_cardinality_of_set();
}

/// The set of positions below `len` has `len` elements.
proof fn lemma_range_set_len(len: int)
    requires
        0 <= len <= usize::MAX,
    ensures
        Set::new(|k: usize| (k as int) < len).finite(),
        Set::new(|k: usize| (k as int) < len).len() == len,
    decreases len,
{
    let s = Set::new(|k: usize| (k as int) < len);
    if len == 0 {
        assert(s =~= Set::empty());
    } else {
        lemma_range_set_len(len - 1);
        let s0 = Set::new(|k: usize| (k as int) < len - 1);
        assert(!s0.contains((len - 1) as usize));
        assert(s =~= s0.insert((len - 1) as usize));
    }
}

/// The positions whose key is strictly above `threshold`, in input order.
pub fn indices_above(keys: &Vec<Option<i64>>, threshold: Option<i64>) -> (r: Vec<usize>)
    ensures
        forall|i: int, j: int| 0 <= i < j < r.len() ==> r@[i] < r@[j],
        forall|i: int| 0 <= i < r.len() ==> #[trigger] r@[i] < keys.len(),
        forall|k: int|
            0 <= k < keys.len() ==> (r@.contains(k as usize) <==> exceeds(
                #[trigger] keys@[k],
                threshold,
            )),
{
    let mut r: Vec<usize> = Vec::new();
    let mut k: usize = 0;
    while k < keys.len()
        invariant
            k <= keys.len(),
            forall|i: int, j: int| 0 <= i < j < r.len() ==> r@[i] < r@[j],
            forall|i: int| 0 <= i < r.len() ==> #[trigger] r@[i] < k,
            forall|q: int|
                0 <= q < k ==> (r@.contains(q as usize) <==> exceeds(#[trigger] keys@[q], threshold)),
        decreases keys.len() - k,
    {
        let ghost old_r = r@;
        let above = match (keys[k], threshold) {
            (Some(x), Some(y)) => x > y,
            _ => false,
        };
        if above {
            r.push(k);
        }
        proof {
            assert forall|q: int|
                0 <= q < k + 1 implies (r@.contains(q as usize) <==> exceeds(
                #[trigger] keys@[q],
                threshold,
            )) by {
                if q < k {
                    if r@.contains(q as usize) {
                        let w = choose|w: int| 0 <= w < r@.len() && r@[w] == q as usize;
                        if above && w == r@.len() - 1 {
                            assert(r@[w] == k);
                        } else {
                            assert(old_r[w] == q as usize);
                        }
                    }
                    if old_r.contains(q as usize) {
                        let w = choose|w: int| 0 <= w < old_r.len() && old_r[w] == q as usize;
                        assert(r@[w] == q as usize);
                    }
                } else {
                    if above {
                        assert(r@[r@.len() - 1] == k);
                    } else {
                        if r@.contains(q as usize) {
                            let w = choose|w: int| 0 <= w < r@.len() && r@[w] == q as usize;
                            assert(old_r[w] < k);
                        }
                    }
                }
            }
        }
        k = k + 1;
    }
    r
}

} // verus!
