use vstd::prelude::*;

verus! {

/// Picks the clustering run with the lowest score, the first one among equals;
/// `None` when there is no run. Scores are order keys: a lower key is a better
/// run.
pub fn best_run(scores: &Vec<u32>) -> (r: Option<usize>)
    ensures
        r is None <==> scores@.len() == 0,
        r matches Some(i) ==> {
            &&& i < scores@.len()
            &&& forall|j: int| 0 <= j < scores@.len() ==> scores@[i as int] <= #[trigger] scores@[j]
            &&& forall|j: int| 0 <= j < i ==> #[trigger] scores@[j] > scores@[i as int]
        },
{
    if scores.len() == 0 {
        return None;
    }
    let mut best: usize = 0;
    let mut k: usize = 1;
    while k < scores.len()
        invariant
            0 <= best < k <= scores@.len(),
            forall|j: int| 0 <= j < k ==> scores@[best as int] <= #[trigger] scores@[j],
            forall|j: int| 0 <= j < best ==> #[trigger] scores@[j] > scores@[best as int],
        decreases scores@.len() - k,
    {
        if scores[k] < scores[best] {
            best = k;
        }
        k = k + 1;
    }
    Some(best)
}

} // verus!
