//! The order of the rows that match a query.

use vstd::prelude::*;

verus! {

/// `order` holds the places whose score is not `None`, each once, the highest
/// score first; of two equal scores the one further up in the list comes
/// first.
pub open spec fn is_ranking(scores: Seq<Option<i32>>, order: Seq<usize>) -> bool {
    &&& forall|k: int|
        0 <= k < order.len() ==> (#[trigger] order[k]) < scores.len() && scores[order[k] as int]
            is Some
    &&& forall|i: int|
        0 <= i < scores.len() && #[trigger] scores[i] is Some ==> order.contains(i as usize)
    &&& forall|j: int, k: int|
        0 <= j < k < order.len() ==> ranks_before(
            scores,
            #[trigger] order[j],
            #[trigger] order[k],
        )
}

/// The row at `a` comes before the row at `b`.
pub open spec fn ranks_before(scores: Seq<Option<i32>>, a: usize, b: usize) -> bool {
    let (x, y) = (scores[a as int]->0, scores[b as int]->0);
    x > y || (x == y && a < b)
}

/// The first place in `order` whose score is below `score`.
fn place_for(scores: &Vec<Option<i32>>, order: &Vec<usize>, score: i32) -> (at: usize)
    requires
        forall|k: int|
            0 <= k < order@.len() ==> (#[trigger] order@[k]) < scores@.len()
                && scores@[order@[k] as int] is Some,
        forall|j: int, k: int|
            0 <= j < k < order@.len() ==> ranks_before(
                scores@,
                #[trigger] order@[j],
                #[trigger] order@[k],
            ),
    ensures
        at <= order@.len(),
        forall|k: int| 0 <= k < at ==> scores@[(#[trigger] order@[k]) as int]->0 >= score,
        forall|k: int|
            at <= k < order@.len() ==> scores@[(#[trigger] order@[k]) as int]->0 < score,
{
    let mut low: usize = 0;
    let mut high: usize = order.len();
    while low < high
        invariant
            low <= high <= order@.len(),
            forall|k: int|
                0 <= k < order@.len() ==> (#[trigger] order@[k]) < scores@.len()
                    && scores@[order@[k] as int] is Some,
            forall|j: int, k: int|
                0 <= j < k < order@.len() ==> ranks_before(
                    scores@,
                    #[trigger] order@[j],
                    #[trigger] order@[k],
                ),
            forall|k: int| 0 <= k < low ==> scores@[(#[trigger] order@[k]) as int]->0 >= score,
            forall|k: int|
                high <= k < order@.len() ==> scores@[(#[trigger] order@[k]) as int]->0 < score,
        decreases high - low,
    {
        let mid: usize = low + (high - low) / 2;
        let row: usize = order[mid];
        let own: i32 = match scores[row] {
            Some(own) => own,
            None => score,
        };
        if own >= score {
            proof {
                assert forall|k: int| 0 <= k <= mid implies scores@[(
                #[trigger] order@[k]) as int]->0 >= score by {
                    if k < mid {
                        assert(ranks_before(scores@, order@[k], order@[mid as int]));
                    }
                }
            }
            low = mid + 1;
        } else {
            proof {
                assert forall|k: int| mid <= k < order@.len() implies scores@[(
                #[trigger] order@[k]) as int]->0 < score by {
                    if mid < k {
                        assert(ranks_before(scores@, order@[mid as int], order@[k]));
                    }
                }
            }
            high = mid;
        }
    }
    low
}

/// The places of the rows that match, in the order to show them: by score, and
/// among equal scores as they came, which keeps the list from reshuffling
/// under the cursor as the query grows.
pub fn rank(scores: &Vec<Option<i32>>) -> (order: Vec<usize>)
    ensures
        is_ranking(scores@, order@),
{
    let mut order: Vec<usize> = Vec::new();
    let mut i: usize = 0;
    while i < scores.len()
        invariant
            i <= scores@.len(),
            forall|k: int|
                0 <= k < order@.len() ==> (#[trigger] order@[k]) < i && scores@[order@[k] as int]
                    is Some,
            forall|r: int|
                0 <= r < i && #[trigger] scores@[r] is Some ==> order@.contains(r as usize),
            forall|j: int, k: int|
                0 <= j < k < order@.len() ==> ranks_before(
                    scores@,
                    #[trigger] order@[j],
                    #[trigger] order@[k],
                ),
        decreases scores@.len() - i,
    {
        if let Some(score) = scores[i] {
            let at: usize = place_for(scores, &order, score);
            let ghost before = order@;
            order.insert(at, i);
            proof {
                assert(order@ == before.insert(at as int, i));
                assert forall|r: int|
                    0 <= r < i + 1 && #[trigger] scores@[r] is Some implies order@.contains(
                    r as usize,
                ) by {
                    if r < i {
                        let k = choose|k: int| 0 <= k < before.len() && before[k] == r as usize;
                        if k < at {
                            assert(order@[k] == r as usize);
                        } else {
                            assert(order@[k + 1] == r as usize);
                        }
                    } else {
                        assert(order@[at as int] == i);
                    }
                }
                assert forall|j: int, k: int| 0 <= j < k < order@.len() implies ranks_before(
                    scores@,
                    #[trigger] order@[j],
                    #[trigger] order@[k],
                ) by {
                    let j0 = if j < at {
                        j
                    } else {
                        j - 1
                    };
                    let k0 = if k < at {
                        k
                    } else {
                        k - 1
                    };
                    if j == at {
                        assert(before[k0] == order@[k]);
                    } else if k == at {
                        assert(before[j0] == order@[j]);
                    } else {
                        assert(ranks_before(scores@, before[j0], before[k0]));
                    }
                }
            }
        }
        i += 1;
    }
    order
}

proof fn lemma_rankings_agree_at(scores: Seq<Option<i32>>, a: Seq<usize>, b: Seq<usize>, i: int)
    requires
        is_ranking(scores, a),
        is_ranking(scores, b),
        0 <= i < a.len(),
        i <= b.len(),
        forall|j: int| 0 <= j < i ==> a[j] == b[j],
    ensures
        i < b.len() && (a[i] == b[i] || ranks_before(scores, b[i], a[i])),
{
    assert(scores[a[i] as int] is Some);
    assert(b.contains(a[i]));
    let k = choose|k: int| 0 <= k < b.len() && b[k] == a[i];
    if k < i {
        assert(ranks_before(scores, a[k], a[i]));
    } else if i < k {
        assert(ranks_before(scores, b[i], b[k]));
    }
}

proof fn lemma_rankings_agree(scores: Seq<Option<i32>>, a: Seq<usize>, b: Seq<usize>, n: int)
    requires
        is_ranking(scores, a),
        is_ranking(scores, b),
        0 <= n <= a.len(),
        n <= b.len(),
    ensures
        forall|j: int| 0 <= j < n ==> a[j] == b[j],
    decreases n,
{
    if n > 0 {
        lemma_rankings_agree(scores, a, b, n - 1);
        lemma_rankings_agree_at(scores, a, b, n - 1);
        lemma_rankings_agree_at(scores, b, a, n - 1);
    }
}

/// Scores have one ranking.
pub proof fn scores_have_one_ranking(scores: Seq<Option<i32>>, a: Seq<usize>, b: Seq<usize>)
    requires
        is_ranking(scores, a),
        is_ranking(scores, b),
    ensures
        a == b,
{
    let n = if a.len() < b.len() {
        a.len() as int
    } else {
        b.len() as int
    };
    lemma_rankings_agree(scores, a, b, n);
    if a.len() > n {
        lemma_rankings_agree_at(scores, a, b, n);
    }
    if b.len() > n {
        lemma_rankings_agree_at(scores, b, a, n);
    }
    assert(a =~= b);
}

} // verus!
