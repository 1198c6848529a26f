//! Choosing the next token from the model's output distribution.
//!
//! Probabilities are `f32` values; here each is represented by its
//! total-order key, the `i32` whose signed order is the order that
//! `f32::total_cmp` gives the probabilities. Arithmetic on the probabilities
//! themselves (cumulative sums, temperature) is done by the caller.
use itertools::Itertools;
use vstd::prelude::*;

use crate::model::ModelInfo;
use crate::rank::ranked_len;

verus! {

/// Whether position `i` holds the largest key, and no later position holds a
/// key as large: the element that `Iterator::max_by` returns.
pub open spec fn is_last_max(keys: Seq<i32>, i: int) -> bool {
    &&& 0 <= i < keys.len()
    &&& forall|j: int| 0 <= j < keys.len() ==> #[trigger] keys[j] <= keys[i]
    &&& forall|j: int| i < j < keys.len() ==> #[trigger] keys[j] < keys[i]
}

/// The position of the largest key among the first `limit` keys (all keys
/// when there are fewer), the last such position when the largest key
/// occurs more than once; `None` when no key is considered.
pub fn last_max_index(keys: &[i32], limit: usize) -> (r: Option<usize>)
    ensures
        match r {
            Some(i) => is_last_max(keys@.take(ranked_len(keys.len() as nat, limit as nat) as int), i as int),
            None => ranked_len(keys.len() as nat, limit as nat) == 0,
        },
{
    let n: usize = if keys.len() < limit {
        keys.len()
    } else {
        limit
    };
    if n == 0 {
        return None;
    }
    let ghost ks = keys@.take(n as int);
    let mut best: usize = 0;
    let mut i: usize = 1;
    while i < n
        invariant
            n <= keys.len(),
            ks == keys@.take(n as int),
            1 <= i <= n,
            is_last_max(ks.take(i as int), best as int),
        decreases n - i,
    {
        if keys[i] >= keys[best] {
            best = i;
        }
        assert forall|j: int| 0 <= j <= i implies #[trigger] ks.take(i + 1)[j] == keys[j] by {}
        assert forall|j: int| 0 <= j < i implies #[trigger] ks.take(i as int)[j] == keys[j] by {}
        i = i + 1;
    }
    assert(ks.take(n as int) =~= ks);
    Some(best)
}

/// The largest key's position is unique, so the postcondition of
/// [`last_max_index`] determines its result.
pub proof fn law_last_max_is_unique(keys: Seq<i32>, i: int, j: int)
    requires
        is_last_max(keys, i),
        is_last_max(keys, j),
    ensures
        i == j,
{
    if i < j {
        assert(keys[j] < keys[i]);
    } else if j < i {
        assert(keys[i] < keys[j]);
    }
}

/// A sampler that always takes the most probable token.
#[derive(Debug, Clone, Copy)]
pub struct SimpleSampler {
    info: ModelInfo,
}

impl SimpleSampler {
    /// The model description the sampler was made with.
    pub closed spec fn info_view(&self) -> ModelInfo {
        self.info
    }

    /// A sampler for a model of the given description.
    pub fn new(info: ModelInfo) -> (r: Self)
        ensures
            r.info_view() == info,
    {
        SimpleSampler { info }
    }

    /// The token whose probability is largest among the first `num_vocab`
    /// entries (the last one on a tie), given the total-order keys of the
    /// probabilities; token 0 when there is none. The index is truncated to
    /// `u16`.
    pub fn sample(&self, keys: &[i32]) -> (token: u16)
        ensures
            ({
                let n = ranked_len(keys.len() as nat, self.info_view().num_vocab as nat);
                &&& n == 0 ==> token == 0
                &&& n > 0 ==> exists|i: int|
                    is_last_max(keys@.take(n as int), i) && token == #[trigger] (i as u16)
            }),
    {
        match last_max_index(keys, self.info.num_vocab) {
            Some(i) => {
                let token = i as u16;
                assert(token == (i as int) as u16);
                token
            },
            None => 0,
        }
    }
}

/// The candidate to take when the candidates are tried in order: the first
/// one whose `hit` flag is set, or else the first candidate.
pub open spec fn picked(candidates: Seq<(usize, bool)>, p: (usize, bool)) -> bool {
    ||| exists|j: int|
        0 <= j < candidates.len() && (#[trigger] candidates[j]).1 && (forall|k: int|
            0 <= k < j ==> !(#[trigger] candidates[k]).1) && p == candidates[j]
    ||| (forall|j: int| 0 <= j < candidates.len() ==> !(#[trigger] candidates[j]).1) && candidates.len()
        > 0 && p == candidates[0]
}

/// `Itertools::find_or_first` with the predicate "the flag is set": its
/// source takes the first item, returns it if the predicate holds, and else
/// returns the first later item for which it holds, or the first item; it
/// returns `None` for an empty input.
#[verifier::external_body]
fn find_hit_or_first(candidates: Vec<(usize, bool)>) -> (r: Option<(usize, bool)>)
    ensures
        match r {
            Some(p) => picked(candidates@, p),
            None => candidates.len() == 0,
        },
{
    candidates.into_iter().find_or_first(|c| c.1)
}

/// The token a sampling step ends with. `candidates` are the kept tokens,
/// most probable first, each with a flag telling whether the random draw
/// falls at or below the token's cumulative probability; the token taken is
/// the first flagged one, or the first candidate when none is flagged, or
/// token 0 when there is no candidate. The id is truncated to `u16`.
pub fn pick_token(candidates: Vec<(usize, bool)>) -> (token: u16)
    ensures
        candidates.len() == 0 ==> token == 0,
        candidates.len() > 0 ==> exists|p: (usize, bool)|
            picked(candidates@, p) && token == #[trigger] (p.0 as u16),
        forall|j: int|
            0 <= j < candidates.len() && (#[trigger] candidates@[j]).1 && (forall|k: int|
                0 <= k < j ==> !(#[trigger] candidates@[k]).1) ==> token == (candidates@[j].0 as u16),
        candidates.len() > 0 && (forall|j: int|
            0 <= j < candidates.len() ==> !(#[trigger] candidates@[j]).1) ==> token == (
        candidates@[0].0 as u16),
{
    let ghost cs = candidates@;
    match find_hit_or_first(candidates) {
        Some(p) => {
            let token = p.0 as u16;
            assert(picked(cs, p) && token == (p.0 as u16));
            proof {
                assert forall|j: int|
                    0 <= j < cs.len() && (#[trigger] cs[j]).1 && (forall|k: int|
                        0 <= k < j ==> !(#[trigger] cs[k]).1) implies token == (cs[j].0 as u16) by {
                    law_first_flagged_is_picked(cs, j);
                    law_pick_is_unique(cs, p, cs[j]);
                }
                if cs.len() > 0 && (forall|j: int| 0 <= j < cs.len() ==> !(#[trigger] cs[j]).1) {
                    assert(picked(cs, cs[0]));
                    law_pick_is_unique(cs, p, cs[0]);
                }
            }
            token
        },
        None => 0,
    }
}

/// The first flagged candidate is the one taken, wherever it stands, the
/// last position included.
pub proof fn law_first_flagged_is_picked(candidates: Seq<(usize, bool)>, j: int)
    requires
        0 <= j < candidates.len(),
        candidates[j].1,
        forall|k: int| 0 <= k < j ==> !(#[trigger] candidates[k]).1,
    ensures
        picked(candidates, candidates[j]),
{
}

/// When only the last candidate is flagged, the last candidate is taken
/// (and not the first, unless the list has one element).
pub proof fn law_last_flagged_is_picked(candidates: Seq<(usize, bool)>)
    requires
        candidates.len() > 0,
        candidates.last().1,
        forall|k: int| 0 <= k < candidates.len() - 1 ==> !(#[trigger] candidates[k]).1,
    ensures
        picked(candidates, candidates.last()),
        forall|p: (usize, bool)| picked(candidates, p) ==> p == candidates.last(),
{
    law_first_flagged_is_picked(candidates, candidates.len() - 1);
    assert forall|p: (usize, bool)| picked(candidates, p) implies p == candidates.last() by {
        law_pick_is_unique(candidates, p, candidates.last());
    }
}

/// Without a flagged candidate the first candidate is taken.
pub proof fn law_unflagged_takes_first(candidates: Seq<(usize, bool)>)
    requires
        candidates.len() > 0,
        forall|j: int| 0 <= j < candidates.len() ==> !(#[trigger] candidates[j]).1,
    ensures
        picked(candidates, candidates[0]),
{
}

/// The pick is determined: at most one candidate satisfies [`picked`].
pub proof fn law_pick_is_unique(candidates: Seq<(usize, bool)>, p: (usize, bool), q: (usize, bool))
    requires
        picked(candidates, p),
        picked(candidates, q),
    ensures
        p == q,
{
    if exists|j: int|
        0 <= j < candidates.len() && (#[trigger] candidates[j]).1 && (forall|k: int|
            0 <= k < j ==> !(#[trigger] candidates[k]).1) && p == candidates[j] {
        let j = choose|j: int|
            0 <= j < candidates.len() && (#[trigger] candidates[j]).1 && (forall|k: int|
                0 <= k < j ==> !(#[trigger] candidates[k]).1) && p == candidates[j];
        if exists|j2: int|
            0 <= j2 < candidates.len() && (#[trigger] candidates[j2]).1 && (forall|k: int|
                0 <= k < j2 ==> !(#[trigger] candidates[k]).1) && q == candidates[j2] {
            let j2 = choose|j2: int|
                0 <= j2 < candidates.len() && (#[trigger] candidates[j2]).1 && (forall|k: int|
                    0 <= k < j2 ==> !(#[trigger] candidates[k]).1) && q == candidates[j2];
            if j < j2 {
                assert(!candidates[j].1);
            } else if j2 < j {
                assert(!candidates[j2].1);
            }
        } else {
            assert(!candidates[j].1);
        }
    } else if exists|j2: int|
        0 <= j2 < candidates.len() && (#[trigger] candidates[j2]).1 && (forall|k: int|
            0 <= k < j2 ==> !(#[trigger] candidates[k]).1) && q == candidates[j2] {
        let j2 = choose|j2: int|
            0 <= j2 < candidates.len() && (#[trigger] candidates[j2]).1 && (forall|k: int|
                0 <= k < j2 ==> !(#[trigger] candidates[k]).1) && q == candidates[j2];
        assert(!candidates[j2].1);
    }
}

} // verus!
