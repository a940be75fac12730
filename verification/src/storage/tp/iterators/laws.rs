//! What holds of a whole walk through the neighbours of a vertex.

use vstd::prelude::*;

#[allow(unused_imports)]
use super::adjacency_iterator::AdjacencyIterator;
#[allow(unused_imports)]
use crate::collections::skip::{neighbor_before, NeighborKey};

verus! {

/// Whether an iterator went through all neighbours: it starts before the first, gives one neighbour
/// after the other, and then nothing more.
pub open spec fn is_walk<'a, F: Fn(&NeighborKey) -> bool>(
    iters: Seq<AdjacencyIterator<'a, F>>,
    given: Seq<NeighborKey>,
) -> bool {
    &&& iters.len() == given.len() + 2
    &&& forall|k: NeighborKey|
        iters[0].neighbors().contains(k) ==> !(#[trigger] iters[0].passed(k))
    &&& forall|i: int|
        0 <= i < given.len() ==> iters[i].gives(iters[i + 1], #[trigger] given[i])
    &&& iters[given.len() as int].ends(iters.last())
}

/// Whether no neighbour is both accepted and refused: each filter has one answer.
pub open spec fn filters_decide<'a, F: Fn(&NeighborKey) -> bool>(
    iter: AdjacencyIterator<'a, F>,
) -> bool {
    forall|k: NeighborKey| #[trigger]
        iter.neighbors().contains(k) ==> !(iter.acceptable(k) && iter.refusable(k))
}

proof fn lemma_walk<'a, F: Fn(&NeighborKey) -> bool>(
    iters: Seq<AdjacencyIterator<'a, F>>,
    given: Seq<NeighborKey>,
    i: int,
)
    requires
        is_walk(iters, given),
        0 <= i <= given.len(),
    ensures
        iters[i].same_walk(iters[0]),
        forall|k: NeighborKey| #[trigger]
            iters[0].neighbors().contains(k) ==> iters[i].passed(k) == (i > 0 && !neighbor_before(
                given[i - 1],
                k,
            )),
        forall|k: NeighborKey| #[trigger]
            iters[0].neighbors().contains(k) && iters[i].passed(k) ==> iters[0].refusable(k)
                || given.take(i).contains(k),
        forall|j: int, m: int|
            0 <= j < m < i ==> neighbor_before(#[trigger] given[j], #[trigger] given[m]),
        forall|j: int|
            0 <= j < i ==> iters[0].neighbors().contains(#[trigger] given[j])
                && iters[0].acceptable(given[j]),
    decreases i,
{
    if i > 0 {
        lemma_walk(iters, given, i - 1);
        let last = given[i - 1];
        let before = iters[i - 1];
        let after = iters[i];
        assert(before.gives(after, last));
        assert(iters[0].neighbors().contains(last));
        assert(i > 1 ==> neighbor_before(given[i - 2], last));
        assert forall|k: NeighborKey| #[trigger]
            iters[0].neighbors().contains(k) implies after.passed(k) == !neighbor_before(
            last,
            k,
        ) by {
            assert(after.passed(k) == (before.passed(k) || !neighbor_before(last, k)));
        }
        assert forall|k: NeighborKey| #[trigger]
            iters[0].neighbors().contains(k) && after.passed(k) implies iters[0].refusable(k)
            || given.take(i).contains(k) by {
            if before.passed(k) {
                let earlier = given.take(i - 1);
                if earlier.contains(k) {
                    let j = choose|j: int| 0 <= j < earlier.len() && earlier[j] == k;
                    assert(given.take(i)[j] == k);
                }
            } else if k == last {
                assert(given.take(i)[i - 1] == k);
            } else {
                assert(neighbor_before(k, last));
                assert(before.neighbors().contains(k));
                assert(before.refusable(k));
            }
        }
        assert forall|j: int, m: int| 0 <= j < m < i implies neighbor_before(
            #[trigger] given[j],
            #[trigger] given[m],
        ) by {
            if m == i - 1 && j < i - 2 {
                assert(neighbor_before(given[j], given[i - 2]));
            }
        }
    }
}

/// A walk through the neighbours of a vertex gives each neighbour at most once, in the order of
/// label, neighbour and edge, whatever the batches in which they are fetched. It gives only
/// neighbours that the transaction sees and the filters accept, and passes over only those that
/// it does not see or a filter refuses.
pub proof fn law_walk_complete<'a, F: Fn(&NeighborKey) -> bool>(
    iters: Seq<AdjacencyIterator<'a, F>>,
    given: Seq<NeighborKey>,
)
    requires
        is_walk(iters, given),
    ensures
        forall|i: int, j: int|
            0 <= i < j < given.len() ==> neighbor_before(#[trigger] given[i], #[trigger] given[j]),
        forall|i: int|
            0 <= i < given.len() ==> iters[0].neighbors().contains(#[trigger] given[i])
                && iters[0].acceptable(given[i]),
        forall|k: NeighborKey| #[trigger]
            iters[0].neighbors().contains(k) ==> given.contains(k) || iters[0].refusable(k),
        filters_decide(iters[0]) ==> forall|k: NeighborKey| #[trigger]
            iters[0].neighbors().contains(k) ==> (given.contains(k) <==> iters[0].acceptable(k)),
{
    let n = given.len() as int;
    lemma_walk(iters, given, n);
    assert(given.take(n) =~= given);
    let end = iters[n];
    assert forall|k: NeighborKey| #[trigger] iters[0].neighbors().contains(k) implies given.contains(
        k,
    ) || iters[0].refusable(k) by {
        assert(end.neighbors().contains(k));
        assert(end.passed(k) || end.refusable(k));
    }
    assert forall|k: NeighborKey|
        filters_decide(iters[0]) && #[trigger] iters[0].neighbors().contains(
            k,
        ) implies (given.contains(k) <==> iters[0].acceptable(k)) by {
        if given.contains(k) {
            let i = choose|i: int| 0 <= i < given.len() && given[i] == k;
            assert(iters[0].acceptable(given[i]));
        }
    }
}

} // verus!
