//! What is gone through by a walk through vertices or neighbours, and what is given of it.

use vstd::prelude::*;

#[allow(unused_imports)]
use super::adjacency_iterator::{neighbors_in, AdjacencyIterator, Direction};
#[allow(unused_imports)]
use super::vertex_iterator::VertexIterator;
#[allow(unused_imports)]
use crate::collections::skip::{neighbor_before, NeighborKey};
#[allow(unused_imports)]
use crate::common::types::VertexId;
#[allow(unused_imports)]
use crate::storage::tp::memory_graph::neighbors_of;
#[allow(unused_imports)]
use crate::storage::tp::model::{Adjacency, StoreView, Vertex};
#[allow(unused_imports)]
use crate::storage::tp::transaction::TxnView;
#[allow(unused_imports)]
use crate::storage::tp::write_laws::{comes_from, leads_to};

verus! {

/// The neighbours of a vertex in a direction are those along the edges that start at it, those along
/// the edges that lead to it, or both; a vertex that is not known has none.
pub proof fn law_neighbors_by_direction(
    adjacency: Map<VertexId, Adjacency>,
    vid: VertexId,
    key: NeighborKey,
)
    ensures
        neighbors_in(neighbors_of(adjacency, vid), Direction::Outgoing).contains(key) <==> leads_to(
            adjacency,
            vid,
            key,
        ),
        neighbors_in(neighbors_of(adjacency, vid), Direction::Incoming).contains(key)
            <==> comes_from(adjacency, vid, key),
        neighbors_in(neighbors_of(adjacency, vid), Direction::Both).contains(key) <==> leads_to(
            adjacency,
            vid,
            key,
        ) || comes_from(adjacency, vid, key),
{
}

/// Neighbours stand by their label, under one label by the other vertex, and between the same two
/// vertices by the edge: of two different ones exactly one comes first.
pub proof fn law_neighbor_order(a: NeighborKey, b: NeighborKey, c: NeighborKey)
    ensures
        neighbor_before(a, b) <==> a.0 < b.0 || (a.0 == b.0 && (a.1 < b.1 || (a.1 == b.1 && a.2
            < b.2))),
        a != b ==> (neighbor_before(a, b) <==> !neighbor_before(b, a)),
        !neighbor_before(a, a),
        neighbor_before(a, b) && neighbor_before(b, c) ==> neighbor_before(a, c),
{
}

/// A neighbour is given only where the transaction sees the edge and no filter says otherwise;
/// without filters every neighbour is given whose edge it sees, and no other.
pub proof fn law_neighbor_accepted<'a, F: Fn(&NeighborKey) -> bool>(
    iter: AdjacencyIterator<'a, F>,
    key: NeighborKey,
)
    ensures
        iter.acceptable(key) ==> iter.graph()@.edge_visible(key.2, iter.reader()@),
        iter.acceptable(key) ==> forall|i: int|
            0 <= i < iter.predicates().len() ==> call_ensures(
                #[trigger] iter.predicates()[i],
                (&key,),
                true,
            ),
        !iter.graph()@.edge_visible(key.2, iter.reader()@) ==> iter.refusable(key),
        iter.predicates().len() == 0 ==> (iter.acceptable(key) <==> iter.graph()@.edge_visible(
            key.2,
            iter.reader()@,
        )) && (iter.refusable(key) <==> !iter.graph()@.edge_visible(key.2, iter.reader()@)),
{
}

/// A vertex is given only where the transaction sees it and no filter says otherwise; without
/// filters every vertex is given that it sees.
pub proof fn law_vertex_accepted<'a, F: Fn(&Vertex) -> bool>(
    iter: VertexIterator<'a, F>,
    vid: VertexId,
    txn: TxnView,
)
    ensures
        iter.acceptable(vid, txn) ==> iter.graph()@.vertex_visible(vid, txn),
        !iter.graph()@.vertex_visible(vid, txn) ==> iter.refusable(vid, txn),
        iter.predicates().len() == 0 ==> (iter.refusable(vid, txn)
            <==> !iter.graph()@.vertex_visible(vid, txn)),
{
}

proof fn lemma_visible_alike(store: StoreView, vid: VertexId, a: TxnView, b: TxnView)
    requires
        a.txn_id == b.txn_id,
        a.start_ts == b.start_ts,
    ensures
        store.vertex_visible(vid, a) == store.vertex_visible(vid, b),
        store.vertex_seen(vid, a) == store.vertex_seen(vid, b),
{
    assert(store.vertex_way(vid, a) == store.vertex_way(vid, b));
}

/// Whether an iterator without filters went through all vertices: it starts before the first, gives
/// the vertices at some places, one after the other, and then nothing more.
pub open spec fn is_vertex_walk<'a, F: Fn(&Vertex) -> bool>(
    iters: Seq<VertexIterator<'a, F>>,
    txns: Seq<TxnView>,
    places: Seq<int>,
) -> bool {
    &&& iters.len() == places.len() + 1
    &&& txns.len() == iters.len()
    &&& iters[0].passed() == 0
    &&& forall|i: int|
        0 <= i < iters.len() ==> (#[trigger] iters[i]).graph() == iters[0].graph()
            && iters[i].predicates().len() == 0
    &&& forall|i: int|
        0 <= i < txns.len() ==> (#[trigger] txns[i]).txn_id == txns[0].txn_id && txns[i].start_ts
            == txns[0].start_ts
    &&& forall|i: int|
        0 <= i < places.len() ==> {
            &&& iters[i].passed() <= #[trigger] places[i] < iters[0].keys().len()
            &&& iters[i + 1].passed() == places[i] + 1
            &&& iters[i].acceptable(iters[0].keys()[places[i]], txns[i])
            &&& forall|k: int|
                iters[i].passed() <= k < places[i] ==> iters[i].refusable(
                    #[trigger] iters[0].keys()[k],
                    txns[i],
                )
        }
    &&& forall|k: int|
        iters.last().passed() <= k < iters[0].keys().len() ==> iters.last().refusable(
            #[trigger] iters[0].keys()[k],
            txns.last(),
        )
}

proof fn lemma_vertex_walk<'a, F: Fn(&Vertex) -> bool>(
    iters: Seq<VertexIterator<'a, F>>,
    txns: Seq<TxnView>,
    places: Seq<int>,
    i: int,
)
    requires
        is_vertex_walk(iters, txns, places),
        0 <= i <= places.len(),
    ensures
        iters[i].passed() >= 0,
        forall|k: int|
            0 <= k < iters[i].passed() && k < iters[0].keys().len() ==> (
            iters[0].graph()@.vertex_visible(#[trigger] iters[0].keys()[k], txns[0])
                <==> places.take(i).contains(k)),
        forall|m: int| 0 <= m < i ==> 0 <= #[trigger] places[m] < iters[i].passed(),
        forall|m: int, n: int| 0 <= m < n < i ==> #[trigger] places[m] < #[trigger] places[n],
    decreases i,
{
    if i > 0 {
        lemma_vertex_walk(iters, txns, places, i - 1);
        let at = places[i - 1];
        let before = iters[i - 1];
        assert(iters[i].passed() == at + 1);
        assert(before.graph() == iters[0].graph());
        assert(txns[i - 1].txn_id == txns[0].txn_id);
        assert forall|k: int|
            0 <= k < iters[i].passed() && k < iters[0].keys().len() implies (
        iters[0].graph()@.vertex_visible(#[trigger] iters[0].keys()[k], txns[0])
            <==> places.take(i).contains(k)) by {
            let vid = iters[0].keys()[k];
            let all = places.take(i);
            lemma_visible_alike(iters[0].graph()@, vid, txns[i - 1], txns[0]);
            if k < before.passed() {
                let earlier = places.take(i - 1);
                if earlier.contains(k) {
                    let m = choose|m: int| 0 <= m < earlier.len() && earlier[m] == k;
                    assert(places.take(i)[m] == k);
                }
                if all.contains(k) {
                    let m = choose|m: int| 0 <= m < all.len() && all[m] == k;
                    if m < i - 1 {
                        assert(earlier[m] == k);
                    }
                }
            } else if k < at {
                assert(before.refusable(vid, txns[i - 1]));
                law_vertex_accepted(before, vid, txns[i - 1]);
                if all.contains(k) {
                    let m = choose|m: int| 0 <= m < all.len() && all[m] == k;
                    if m < i - 1 {
                        assert(places[m] < before.passed());
                    }
                }
            } else {
                assert(k == at);
                assert(places.take(i)[i - 1] == k);
                law_vertex_accepted(before, vid, txns[i - 1]);
            }
        }
        assert forall|m: int, n: int| 0 <= m < n < i implies #[trigger] places[m]
            < #[trigger] places[n] by {
            if n == i - 1 {
                assert(places[m] < before.passed());
            }
        }
    }
}

/// A walk through the vertices without filters gives exactly the vertices that the transaction
/// sees, each once.
pub proof fn law_vertex_walk_complete<'a, F: Fn(&Vertex) -> bool>(
    iters: Seq<VertexIterator<'a, F>>,
    txns: Seq<TxnView>,
    places: Seq<int>,
)
    requires
        is_vertex_walk(iters, txns, places),
        iters[0].graph().wf(),
    ensures
        forall|m: int, n: int|
            0 <= m < n < places.len() ==> iters[0].keys()[#[trigger] places[m]]
                != iters[0].keys()[#[trigger] places[n]],
        forall|vid: VertexId| #[trigger]
            iters[0].graph()@.vertex_visible(vid, txns[0]) <==> exists|m: int|
                0 <= m < places.len() && iters[0].keys()[#[trigger] places[m]] == vid,
{
    let n = places.len() as int;
    let store = iters[0].graph();
    let keys = iters[0].keys();
    lemma_vertex_walk(iters, txns, places, n);
    assert(places.take(n) =~= places);
    store.vertices.lemma_key_seq();
    assert forall|m: int, l: int| 0 <= m < l < places.len() implies keys[#[trigger] places[m]]
        != keys[#[trigger] places[l]] by {
        assert(places[m] < places[l]);
    }
    assert forall|vid: VertexId| #[trigger] store@.vertex_visible(vid, txns[0]) <==> exists|m: int|
        0 <= m < places.len() && keys[#[trigger] places[m]] == vid by {
        if store@.vertex_visible(vid, txns[0]) {
            assert(keys.contains(vid));
            let k = choose|k: int| 0 <= k < keys.len() && keys[k] == vid;
            if k < iters[n].passed() {
                assert(places.contains(k));
                let m = choose|m: int| 0 <= m < places.len() && places[m] == k;
                assert(keys[places[m]] == vid);
            } else {
                assert(iters[n].refusable(keys[k], txns[n]));
                law_vertex_accepted(iters[n], vid, txns[n]);
                assert(txns[n].txn_id == txns[0].txn_id);
                lemma_visible_alike(store@, vid, txns[n], txns[0]);
            }
        }
        if exists|m: int| 0 <= m < places.len() && keys[#[trigger] places[m]] == vid {
            let m = choose|m: int| 0 <= m < places.len() && keys[#[trigger] places[m]] == vid;
            assert(iters[m].acceptable(keys[places[m]], txns[m]));
            law_vertex_accepted(iters[m], vid, txns[m]);
            assert(txns[m].txn_id == txns[0].txn_id);
            assert(iters[m].graph() == iters[0].graph());
            lemma_visible_alike(store@, vid, txns[m], txns[0]);
        }
    }
}

} // verus!
