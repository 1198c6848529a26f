//! Ranking of vocabulary entries by probability.
//!
//! Probabilities arrive as `f32`; the caller maps each to its total-order key
//! (the integer whose signed order is the order of `f32::total_cmp`), and
//! the ranking is computed on those keys.
use itertools::Itertools;
use std::cmp::Ordering;
use vstd::prelude::*;

verus! {

/// How many entries are ranked: the first `limit` keys, or all of them when
/// there are fewer.
pub open spec fn ranked_len(num_keys: nat, limit: nat) -> nat {
    if num_keys < limit {
        num_keys
    } else {
        limit
    }
}

/// The order that puts the pair with the larger key first.
fn by_key_descending(a: &(usize, i32), b: &(usize, i32)) -> (o: Ordering)
    ensures
        o == (if a.1 > b.1 {
            Ordering::Less
        } else if a.1 < b.1 {
            Ordering::Greater
        } else {
            Ordering::Equal
        }),
{
    if a.1 > b.1 {
        Ordering::Less
    } else if a.1 < b.1 {
        Ordering::Greater
    } else {
        Ordering::Equal
    }
}

/// `Itertools::sorted_unstable_by` with the order `by_key_descending`. The
/// crate collects the items into a vector and sorts it with
/// `slice::sort_unstable_by`, which std documents as a permutation of its
/// input that is sorted by the given total order, the relative order of
/// equal items being unspecified. Stated: the result has the same items,
/// keys non-increasing.
#[verifier::external_body]
fn sorted_by_key_descending(pairs: Vec<(usize, i32)>) -> (r: Vec<(usize, i32)>)
    ensures
        r@.to_multiset() == pairs@.to_multiset(),
        forall|i: int, j: int| 0 <= i < j < r.len() ==> (#[trigger] r[i]).1 >= (#[trigger] r[j]).1,
{
    pairs.into_iter().sorted_unstable_by(|a, b| by_key_descending(a, b)).collect()
}

/// The indices of the first `limit` keys (all keys when there are fewer),
/// ordered from the largest key to the smallest; equal keys come in an
/// unspecified order.
pub fn rank_descending(keys: &[i32], limit: usize) -> (ids: Vec<usize>)
    ensures
        ids.len() == ranked_len(keys.len() as nat, limit as nat),
        ids@.no_duplicates(),
        forall|k: int| 0 <= k < ids.len() ==> (#[trigger] ids[k] as nat) < ranked_len(
            keys.len() as nat,
            limit as nat,
        ),
        forall|a: int, b: int|
            0 <= a < b < ids.len() ==> keys[#[trigger] ids[a] as int] >= keys[#[trigger] ids[b] as int],
{
    broadcast use vstd::seq_lib::group_to_multiset_ensures;

    let n: usize = if keys.len() < limit {
        keys.len()
    } else {
        limit
    };
    let mut pairs: Vec<(usize, i32)> = Vec::new();
    let mut i: usize = 0;
    while i < n
        invariant
            n <= keys.len(),
            i <= n,
            pairs.len() == i,
            forall|j: int| 0 <= j < i ==> #[trigger] pairs[j] == (j as usize, keys[j]),
        decreases n - i,
    {
        pairs.push((i, keys[i]));
        i = i + 1;
    }
    let ghost ps = pairs@;
    proof {
        assert(ps.no_duplicates());
        ps.lemma_multiset_has_no_duplicates();
    }
    let sorted = sorted_by_key_descending(pairs);
    let ghost ss = sorted@;
    proof {
        assert forall|k: int| 0 <= k < ss.len() implies (#[trigger] ss[k]).0 < n && ss[k].1
            == keys[ss[k].0 as int] by {
            assert(ss.to_multiset().count(ss[k]) > 0);
            assert(ps.contains(ss[k]));
            let j = choose|j: int| 0 <= j < ps.len() && ps[j] == ss[k];
        }
        assert forall|x: (usize, i32)| ss.to_multiset().contains(x) implies ss.to_multiset().count(x)
            == 1 by {}
        ss.lemma_multiset_has_no_duplicates_conv();
        assert(ss.to_multiset().len() == ss.len());
        assert(ps.to_multiset().len() == ps.len());
    }
    let mut ids: Vec<usize> = Vec::new();
    let mut k: usize = 0;
    while k < sorted.len()
        invariant
            ss == sorted@,
            ss.len() == n,
            k <= sorted.len(),
            ids.len() == k,
            forall|j: int| 0 <= j < k ==> #[trigger] ids[j] == ss[j].0,
        decreases sorted.len() - k,
    {
        ids.push(sorted[k].0);
        k = k + 1;
    }
    proof {
        assert forall|a: int, b: int| 0 <= a < ids.len() && 0 <= b < ids.len() && a != b implies ids[a]
            != ids[b] by {
            if ids[a] == ids[b] {
                assert(ss[a] == ss[b]);
            }
        }
    }
    ids
}

} // verus!
