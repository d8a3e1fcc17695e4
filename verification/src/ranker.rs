//! Candidate ranker: given one (candidate byte, score) pair per charset
//! member, selects the candidate with the maximal score. Ties break towards
//! the earliest candidate in charset order, so selection is a function of the
//! score sequence alone.

use vstd::prelude::*;

verus! {

/// The scores of a sequence of (candidate, score) pairs, in order.
pub open spec fn scores_of(results: Seq<(u8, u128)>) -> Seq<u128> {
    results.map_values(|p: (u8, u128)| p.1)
}

/// `k` indexes the first maximal score: nothing is larger, and everything
/// before `k` is strictly smaller.
pub open spec fn is_first_max(scores: Seq<u128>, k: int) -> bool {
    &&& 0 <= k < scores.len()
    &&& forall|i: int| 0 <= i < scores.len() ==> scores[i] <= scores[k]
    &&& forall|i: int| 0 <= i < k ==> scores[i] < scores[k]
}

/// Tie-break determinism: for a given score sequence there is exactly one
/// index the selection rule can yield, so candidates with equal scores are
/// resolved the same way on every run over the same charset order.
pub proof fn lemma_first_max_unique(scores: Seq<u128>, k1: int, k2: int)
    requires
        is_first_max(scores, k1),
        is_first_max(scores, k2),
    ensures
        k1 == k2,
{
    if k1 < k2 {
        assert(scores[k1] < scores[k2]);
        assert(scores[k2] <= scores[k1]);
    }
    if k2 < k1 {
        assert(scores[k2] < scores[k1]);
        assert(scores[k1] <= scores[k2]);
    }
}

/// A candidate whose score is strictly greater than every other candidate's
/// is the one selected.
pub proof fn lemma_unique_max_wins(scores: Seq<u128>, k: int)
    requires
        0 <= k < scores.len(),
        forall|i: int| 0 <= i < scores.len() && i != k ==> scores[i] < scores[k],
    ensures
        is_first_max(scores, k),
{
}

/// Selects the index of the first maximal score among the ranked candidates.
pub fn select_best(results: &Vec<(u8, u128)>) -> (k: usize)
    requires
        results@.len() > 0,
    ensures
        is_first_max(scores_of(results@), k as int),
        k < results@.len(),
{
    let mut best: usize = 0;
    let mut i: usize = 1;
    while i < results.len()
        invariant
            0 < i <= results@.len(),
            best < i,
            forall|j: int| 0 <= j < i ==> scores_of(results@)[j] <= scores_of(results@)[best as int],
            forall|j: int| 0 <= j < best ==> scores_of(results@)[j] < scores_of(results@)[
                best as int
            ],
        decreases results@.len() - i,
    {
        assert(scores_of(results@)[i as int] == results@[i as int].1);
        if results[i].1 > results[best].1 {
            best = i;
        }
        i = i + 1;
    }
    best
}

} // verus!
