//! Choosing the nearest candidate from a list of scores.

use vstd::prelude::*;

verus! {

/// Whether position `i` holds the least score and no earlier position holds
/// one as small: among equal scores the first one met wins.
pub open spec fn is_first_min(scores: Seq<u128>, i: int) -> bool {
    &&& 0 <= i < scores.len()
    &&& forall|j: int| 0 <= j < scores.len() ==> scores[i] <= #[trigger] scores[j]
    &&& forall|j: int| 0 <= j < i ==> #[trigger] scores[j] > scores[i]
}

/// The position of the first least score.
pub open spec fn first_min(scores: Seq<u128>) -> int {
    choose|i: int| is_first_min(scores, i)
}

/// At most one position is the first least one.
pub proof fn lemma_first_min_unique(scores: Seq<u128>, i: int, j: int)
    requires
        is_first_min(scores, i),
        is_first_min(scores, j),
    ensures
        i == j,
{
    if i < j {
        assert(scores[i] > scores[j]);
    } else if j < i {
        assert(scores[j] > scores[i]);
    }
}

/// A position that is the first least one is the one `first_min` names.
pub proof fn lemma_first_min_is(scores: Seq<u128>, i: int)
    requires
        is_first_min(scores, i),
    ensures
        first_min(scores) == i,
{
    lemma_first_min_unique(scores, i, first_min(scores));
}

/// Finds the candidate with the least score, the first of them where several
/// are equally near. An empty list has no nearest candidate.
pub fn nearest(scores: &Vec<u128>) -> (best: Option<usize>)
    ensures
        scores@.len() == 0 ==> best is None,
        scores@.len() > 0 ==> best == Some(first_min(scores@) as usize) && is_first_min(
            scores@,
            first_min(scores@),
        ),
{
    if scores.len() == 0 {
        return None;
    }
    let mut best: usize = 0;
    let mut i: usize = 1;
    while i < scores.len()
        invariant
            1 <= i <= scores.len(),
            is_first_min(scores@.subrange(0, i as int), best as int),
        decreases scores.len() - i,
    {
        let ghost before = scores@.subrange(0, i as int);
        let ghost after = scores@.subrange(0, i + 1);
        if scores[i] < scores[best] {
            proof {
                assert forall|j: int| 0 <= j < after.len() implies after[i as int] <= #[trigger] after[j] by {
                    if j < i {
                        assert(before[j] == after[j]);
                        assert(before[best as int] <= before[j]);
                    }
                }
                assert forall|j: int| 0 <= j < i implies #[trigger] after[j] > after[i as int] by {
                    assert(before[j] == after[j]);
                    assert(before[best as int] <= before[j]);
                }
            }
            best = i;
        } else {
            proof {
                assert forall|j: int| 0 <= j < after.len() implies after[best as int] <= #[trigger] after[j] by {
                    if j < i {
                        assert(before[j] == after[j]);
                    }
                }
                assert forall|j: int| 0 <= j < best implies #[trigger] after[j] > after[best as int] by {
                    assert(before[j] == after[j]);
                }
            }
        }
        i = i + 1;
    }
    proof {
        assert(scores@.subrange(0, i as int) =~= scores@);
        lemma_first_min_is(scores@, best as int);
    }
    Some(best)
}

} // verus!
