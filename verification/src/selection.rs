//! Lists of indices: which items of a sequence a rule picks, in order.
use vstd::prelude::*;

use crate::geometry::{all_in_reach, in_reach, is_related, related, Pos, Relation};

verus! {

/// `idx` lists, in increasing order and each once, exactly the indices below
/// `n` that satisfy `pred`.
pub open spec fn selects(idx: Seq<usize>, n: int, pred: spec_fn(int) -> bool) -> bool {
    &&& forall|k: int| 0 <= k < idx.len() ==> #[trigger] idx[k] < n && pred(idx[k] as int)
    &&& forall|k: int, l: int| 0 <= k < l < idx.len() ==> #[trigger] idx[k] < #[trigger] idx[l]
    &&& forall|j: int| 0 <= j < n && #[trigger] pred(j) ==> idx.contains(j as usize)
}

/// A selection of indices below `n` holds at most `n` indices.
pub proof fn lemma_selection_bounded(idx: Seq<usize>, n: int, pred: spec_fn(int) -> bool)
    requires
        selects(idx, n, pred),
    ensures
        idx.len() <= if n < 0 { 0 } else { n },
{
    if idx.len() > 0 {
        assert forall|k: int| 0 <= k < idx.len() implies #[trigger] idx[k] >= k by {
            lemma_increasing_from(idx, k);
        }
        assert(idx[idx.len() - 1] < n);
    }
}

/// A selection by one test is a selection by any test that agrees with it
/// on every index below `n`.
pub proof fn lemma_selects_same_test(
    idx: Seq<usize>,
    n: int,
    pred: spec_fn(int) -> bool,
    same: spec_fn(int) -> bool,
)
    requires
        selects(idx, n, pred),
        forall|j: int| 0 <= j < n ==> #[trigger] pred(j) == same(j),
    ensures
        selects(idx, n, same),
{
    assert forall|k: int| 0 <= k < idx.len() implies #[trigger] idx[k] < n && same(idx[k] as int) by {
        assert(pred(idx[k] as int));
    }
    assert forall|j: int| 0 <= j < n && #[trigger] same(j) implies idx.contains(j as usize) by {
        assert(pred(j));
    }
}

/// In a strictly increasing list of indices, the index at position `k` is at least `k`.
proof fn lemma_increasing_from(idx: Seq<usize>, k: int)
    requires
        0 <= k < idx.len(),
        forall|a: int, b: int| 0 <= a < b < idx.len() ==> #[trigger] idx[a] < #[trigger] idx[b],
    ensures
        idx[k] >= k,
    decreases k,
{
    if k > 0 {
        lemma_increasing_from(idx, k - 1);
        assert(idx[k - 1] < idx[k]);
    }
}

/// The indices of the positions of `s` that stand in relation `rel` to `p`.
pub fn related_indices(rel: Relation, p: &Pos, s: &Vec<Pos>) -> (r: Vec<usize>)
    requires
        in_reach(*p),
        all_in_reach(s@),
    ensures
        selects(r@, s@.len() as int, |j: int| related(rel, *p, s@[j])),
{
    let ghost pred = |j: int| related(rel, *p, s@[j]);
    let n: usize = s.len();
    let mut r: Vec<usize> = Vec::new();
    let mut i: usize = 0;
    while i < n
        invariant
            n == s@.len(),
            i <= n,
            in_reach(*p),
            all_in_reach(s@),
            pred == (|j: int| related(rel, *p, s@[j])),
            forall|k: int| 0 <= k < r@.len() ==> #[trigger] r@[k] < i && pred(r@[k] as int),
            forall|k: int, l: int| 0 <= k < l < r@.len() ==> #[trigger] r@[k] < #[trigger] r@[l],
            forall|j: int| 0 <= j < i && #[trigger] pred(j) ==> r@.contains(j as usize),
        decreases n - i,
    {
        if is_related(rel, p, &s[i]) {
            let ghost old_r = r@;
            r.push(i);
            assert forall|j: int| 0 <= j < i + 1 && #[trigger] pred(j) implies r@.contains(
                j as usize,
            ) by {
                if j < i {
                    let k = choose|k: int| 0 <= k < old_r.len() && old_r[k] == j as usize;
                    assert(r@[k] == j as usize);
                } else {
                    assert(r@[r@.len() - 1] == j as usize);
                }
            }
        } else {
            assert forall|j: int| 0 <= j < i + 1 && #[trigger] pred(j) implies r@.contains(
                j as usize,
            ) by {
                if j == i {
                    assert(pred(i as int) == related(rel, *p, s@[i as int]));
                }
            }
        }
        i = i + 1;
    }
    r
}

} // verus!
