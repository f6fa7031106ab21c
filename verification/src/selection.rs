//! Picking the strongest and the weakest of a list of measured values.
//!
//! A measured value is given by its order key: `Some(k)` for a value that
//! orders as `k` does among the others, `None` for a value that compares with
//! nothing (such a value is neither above nor below any other).

use vstd::prelude::*;

use crate::dimension::{dimension_order, Dimension, DIMENSION_COUNT};

verus! {

/// `a` is strictly above `b`; false when either compares with nothing.
pub open spec fn exceeds(a: Option<i64>, b: Option<i64>) -> bool {
    match (a, b) {
        (Some(x), Some(y)) => x > y,
        _ => false,
    }
}

/// Position kept by a left-to-right scan that moves on to each later value
/// unless the value it holds is strictly above it.
pub open spec fn scan_max(keys: Seq<Option<i64>>) -> int
    decreases keys.len(),
{
    if keys.len() <= 1 {
        0
    } else {
        let held = scan_max(keys.drop_last());
        if exceeds(keys[held], keys.last()) {
            held
        } else {
            keys.len() - 1
        }
    }
}

/// Position kept by a left-to-right scan that moves on to a later value only
/// when the value it holds is strictly above it.
pub open spec fn scan_min(keys: Seq<Option<i64>>) -> int
    decreases keys.len(),
{
    if keys.len() <= 1 {
        0
    } else {
        let held = scan_min(keys.drop_last());
        if exceeds(keys[held], keys.last()) {
            keys.len() - 1
        } else {
            held
        }
    }
}

/// Every value is comparable.
pub open spec fn all_known(keys: Seq<Option<i64>>) -> bool {
    forall|i: int| 0 <= i < keys.len() ==> (#[trigger] keys[i]).is_some()
}

/// Both scans stay within the list.
pub proof fn lemma_scan_in_range(keys: Seq<Option<i64>>)
    requires
        keys.len() >= 1,
    ensures
        0 <= scan_max(keys) < keys.len(),
        0 <= scan_min(keys) < keys.len(),
    decreases keys.len(),
{
    if keys.len() > 1 {
        lemma_scan_in_range(keys.drop_last());
    }
}

/// When every value is comparable, the max scan ends on the last position
/// holding the largest value.
pub proof fn lemma_scan_max_is_last_maximum(keys: Seq<Option<i64>>)
    requires
        keys.len() >= 1,
        all_known(keys),
    ensures
        0 <= scan_max(keys) < keys.len(),
        forall|j: int| 0 <= j < keys.len() ==> (#[trigger] keys[j])->0 <= keys[scan_max(keys)]->0,
        forall|j: int| scan_max(keys) < j < keys.len() ==> (#[trigger] keys[j])->0 < keys[scan_max(keys)]->0,
    decreases keys.len(),
{
    lemma_scan_in_range(keys);
    if keys.len() > 1 {
        let pre = keys.drop_last();
        assert(all_known(pre)) by {
            assert forall|i: int| 0 <= i < pre.len() implies (#[trigger] pre[i]).is_some() by {
                assert(pre[i] == keys[i]);
            }
        }
        lemma_scan_max_is_last_maximum(pre);
        let h = scan_max(pre);
        assert(keys[h] == pre[h]);
        assert(keys.last() == keys[keys.len() - 1]);
        assert(keys[keys.len() - 1].is_some());
        assert forall|j: int| 0 <= j < keys.len() implies (#[trigger] keys[j])->0 <= keys[scan_max(keys)]->0 by {
            if j < keys.len() - 1 {
                assert(keys[j] == pre[j]);
            }
        }
        assert forall|j: int| scan_max(keys) < j < keys.len() implies (#[trigger] keys[j])->0 < keys[scan_max(
            keys,
        )]->0 by {
            if j < keys.len() - 1 {
                assert(keys[j] == pre[j]);
            }
        }
    }
}

/// When every value is comparable, the min scan ends on the first position
/// holding the smallest value.
pub proof fn lemma_scan_min_is_first_minimum(keys: Seq<Option<i64>>)
    requires
        keys.len() >= 1,
        all_known(keys),
    ensures
        0 <= scan_min(keys) < keys.len(),
        forall|j: int| 0 <= j < keys.len() ==> keys[scan_min(keys)]->0 <= (#[trigger] keys[j])->0,
        forall|j: int| 0 <= j < scan_min(keys) ==> keys[scan_min(keys)]->0 < (#[trigger] keys[j])->0,
    decreases keys.len(),
{
    lemma_scan_in_range(keys);
    if keys.len() > 1 {
        let pre = keys.drop_last();
        assert(all_known(pre)) by {
            assert forall|i: int| 0 <= i < pre.len() implies (#[trigger] pre[i]).is_some() by {
                assert(pre[i] == keys[i]);
            }
        }
        lemma_scan_min_is_first_minimum(pre);
        let h = scan_min(pre);
        assert(keys[h] == pre[h]);
        assert(keys.last() == keys[keys.len() - 1]);
        assert(keys[keys.len() - 1].is_some());
        assert forall|j: int| 0 <= j < keys.len() implies keys[scan_min(keys)]->0 <= (#[trigger] keys[j])->0 by {
            if j < keys.len() - 1 {
                assert(keys[j] == pre[j]);
            }
        }
        assert forall|j: int| 0 <= j < scan_min(keys) implies keys[scan_min(keys)]->0 < (#[trigger] keys[j])->0 by {
            if j < keys.len() - 1 {
                assert(keys[j] == pre[j]);
            }
        }
    }
}

fn exceeds_exec(a: Option<i64>, b: Option<i64>) -> (r: bool)
    ensures
        r == exceeds(a, b),
{
    match (a, b) {
        (Some(x), Some(y)) => x > y,
        _ => false,
    }
}

/// Position of the strongest value: the scan keeps what it holds only when it
/// is strictly above the next value, so among equal largest values the last wins.
pub fn last_max_index(keys: &Vec<Option<i64>>) -> (i: usize)
    requires
        keys.len() >= 1,
    ensures
        i == scan_max(keys@),
        i < keys.len(),
        all_known(keys@) ==> forall|j: int|
            0 <= j < keys.len() ==> (#[trigger] keys@[j])->0 <= keys@[i as int]->0,
        all_known(keys@) ==> forall|j: int|
            i < j < keys.len() ==> (#[trigger] keys@[j])->0 < keys@[i as int]->0,
{
    let mut held: usize = 0;
    let mut k: usize = 1;
    while k < keys.len()
        invariant
            1 <= k <= keys.len(),
            held == scan_max(keys@.take(k as int)),
            held < k,
        decreases keys.len() - k,
    {
        proof {
            assert(keys@.take(k + 1).drop_last() =~= keys@.take(k as int));
            assert(keys@.take(k + 1)[held as int] == keys@[held as int]);
        }
        if !exceeds_exec(keys[held], keys[k]) {
            held = k;
        }
        k = k + 1;
    }
    proof {
        assert(keys@.take(keys.len() as int) =~= keys@);
        if all_known(keys@) {
            lemma_scan_max_is_last_maximum(keys@);
        }
    }
    held
}

/// Position of the weakest value: the scan moves on only when what it holds
/// is strictly above the next value, so among equal smallest values the first wins.
pub fn first_min_index(keys: &Vec<Option<i64>>) -> (i: usize)
    requires
        keys.len() >= 1,
    ensures
        i == scan_min(keys@),
        i < keys.len(),
        all_known(keys@) ==> forall|j: int|
            0 <= j < keys.len() ==> keys@[i as int]->0 <= (#[trigger] keys@[j])->0,
        all_known(keys@) ==> forall|j: int| 0 <= j < i ==> keys@[i as int]->0 < (#[trigger] keys@[j])->0,
{
    let mut held: usize = 0;
    let mut k: usize = 1;
    while k < keys.len()
        invariant
            1 <= k <= keys.len(),
            held == scan_min(keys@.take(k as int)),
            held < k,
        decreases keys.len() - k,
    {
        proof {
            assert(keys@.take(k + 1).drop_last() =~= keys@.take(k as int));
            assert(keys@.take(k + 1)[held as int] == keys@[held as int]);
        }
        if exceeds_exec(keys[held], keys[k]) {
            held = k;
        }
        k = k + 1;
    }
    proof {
        assert(keys@.take(keys.len() as int) =~= keys@);
        if all_known(keys@) {
            lemma_scan_min_is_first_minimum(keys@);
        }
    }
    held
}

/// The dimension with the strongest value, given one order key per dimension
/// in canonical order (ties go to the later dimension).
pub fn strongest_dimension(keys: &Vec<Option<i64>>) -> (d: Dimension)
    requires
        keys.len() == DIMENSION_COUNT,
    ensures
        d == dimension_order()[scan_max(keys@)],
        all_known(keys@) ==> forall|j: int|
            0 <= j < DIMENSION_COUNT ==> (#[trigger] keys@[j])->0 <= keys@[d.position()]->0,
{
    let i = last_max_index(keys);
    Dimension::from_index(i)
}

/// The dimension with the weakest value, given one order key per dimension
/// in canonical order (ties go to the earlier dimension).
pub fn weakest_dimension(keys: &Vec<Option<i64>>) -> (d: Dimension)
    requires
        keys.len() == DIMENSION_COUNT,
    ensures
        d == dimension_order()[scan_min(keys@)],
        all_known(keys@) ==> forall|j: int|
            0 <= j < DIMENSION_COUNT ==> keys@[d.position()]->0 <= (#[trigger] keys@[j])->0,
{
    let i = first_min_index(keys);
    Dimension::from_index(i)
}

} // verus!
