//! What the operations of the analytical storage do to each slot and each value.

#[allow(unused_imports)]
use vstd::arithmetic::power2::{lemma2_to64, lemma_pow2_unfold, pow2};
use vstd::prelude::*;
#[allow(unused_imports)]
use vstd::std_specs::bits::{axiom_u64_leading_zeros, u64_leading_zeros};

#[allow(unused_imports)]
use super::compress::{bits_needed, compressed_block, compressed_values, max_delta};
#[allow(unused_imports)]
use super::iterators::{gapless, has_value, slot_values, slot_with, EdgeView};
#[allow(unused_imports)]
use super::laws::{on_chain, positions_ok, sources_ok};
#[allow(unused_imports)]
use super::model::{
    block_ok, edge_before, empty_slot, label_before, BlockView, OlapEdge, OlapStorageEdge,
    OlapVertex, OlapView, BLOCK_CAPACITY, NO_BLOCK,
};
#[allow(unused_imports)]
use super::olap_graph::{
    block_with, fresh_block, insert_position, lemma_block_with, lemma_fresh_block,
};
#[allow(unused_imports)]
use super::update::{block_without, buried, first_vertex, lemma_block_without, pairs,
    with_properties, with_slot_values};
#[allow(unused_imports)]
use crate::common::types::{LabelId, VertexId};
#[allow(unused_imports)]
use crate::common::value::ScalarValue;

verus! {

/// The value that a column holds for a slot, missing where the column does not reach it.
pub open spec fn stored(
    columns: Seq<Seq<Seq<Option<ScalarValue>>>>,
    c: int,
    b: int,
    o: int,
) -> Option<ScalarValue> {
    if 0 <= c < columns.len() && 0 <= b < columns[c].len() && 0 <= o < columns[c][b].len() {
        columns[c][b][o]
    } else {
        None
    }
}

/// The place of a label in the order of labels: having none comes first.
pub open spec fn label_rank(label: Option<LabelId>) -> int {
    match label {
        None => -1,
        Some(label) => label as int,
    }
}

/// Whether the first edges of a block stand by destination, and under one destination by label.
pub open spec fn stands_sorted(block: BlockView) -> bool {
    forall|i: int, j: int|
        0 <= i < j < block.count ==> (#[trigger] block.edges[i]).dst_id < (
        #[trigger] block.edges[j]).dst_id || (block.edges[i].dst_id == block.edges[j].dst_id
            && label_rank(block.edges[i].label_id) <= label_rank(block.edges[j].label_id))
}

/// Whether the bounds of a block enclose its edges.
pub open spec fn bounds_hold(block: BlockView) -> bool {
    forall|i: int|
        0 <= i < block.count ==> {
            &&& block.min_dst <= (#[trigger] block.edges[i]).dst_id <= block.max_dst
            &&& label_rank(block.min_label) <= label_rank(block.edges[i].label_id) <= label_rank(
                block.max_label,
            )
        }
}

/// Whether the bounds of every block enclose its edges.
pub open spec fn all_bounds_hold(view: OlapView) -> bool {
    forall|i: int| 0 <= i < view.blocks.len() ==> bounds_hold(#[trigger] view.blocks[i])
}

/// The slot of an edge after another edge went in at `at`.
pub open spec fn slot_after(at: int, o: int) -> int {
    if o < at {
        o
    } else {
        o + 1
    }
}

/// The slot of an edge after the edge at `at` went out.
pub open spec fn slot_without(at: int, o: int) -> int {
    if o < at {
        o
    } else {
        o - 1
    }
}

proof fn lemma_insert_bounds(
    edges: Seq<OlapStorageEdge>,
    count: nat,
    edge: OlapStorageEdge,
    i: nat,
)
    requires
        i <= count,
    ensures
        i <= insert_position(edges, count, edge, i) <= count,
    decreases count - i,
{
    if i < count {
        lemma_insert_bounds(edges, count, edge, i + 1);
    }
}

proof fn lemma_stands_sorted(block: BlockView)
    requires
        block_ok(block),
    ensures
        stands_sorted(block),
{
    assert forall|i: int, j: int| 0 <= i < j < block.count implies (
    #[trigger] block.edges[i]).dst_id < (#[trigger] block.edges[j]).dst_id || (
    block.edges[i].dst_id == block.edges[j].dst_id && label_rank(block.edges[i].label_id)
        <= label_rank(block.edges[j].label_id)) by {
        assert(!edge_before(block.edges[j], block.edges[i]));
    }
}

/// An edge that was created stands in the last block of its source, with its label and its
/// destination, and its properties are the values of its slot: each column has the property of
/// that number, and a missing value where the edge has none. A source without a block, or with a
/// full one, gets another block, which is chained to the one before. The other edges of the block
/// keep their order, and each keeps its value in every column; the other blocks, their values and
/// the other vertices stay as they are.
pub proof fn law_created_edge_stands(view: OlapView, edge: OlapEdge) -> (at: int)
    requires
        view.wf(),
        view.blocks.len() + 1 < NO_BLOCK,
        view.columns_reach(edge),
        view.with_edge(edge) is Ok,
    ensures
        ({
            let after = view.with_edge(edge)->Ok_0;
            let position = view.dense[edge.src_id] as int;
            let before = view.vertices[position].block_offset;
            let b = after.vertices[position].block_offset as int;
            let another = before == NO_BLOCK || view.blocks[before as int].count >= 256;
            &&& view.dense.contains_key(edge.src_id) && position < view.vertices.len()
            &&& b < after.blocks.len() && 0 <= at < after.blocks[b].count
            &&& after.blocks[b].edges[at].label_id == edge.label_id
            &&& after.blocks[b].edges[at].dst_id == edge.dst_id
            &&& after.columns.len() == view.columns.len()
            &&& forall|c: int|
                #![trigger after.columns[c]]
                0 <= c < after.columns.len() ==> {
                    &&& b < after.columns[c].len() && at < after.columns[c][b].len()
                    &&& after.columns[c][b][at] == if c < edge.properties@.len() {
                        edge.properties@[c]
                    } else {
                        None
                    }
                }
            &&& if another {
                &&& b == view.blocks.len() && after.blocks.len() == view.blocks.len() + 1
                &&& after.blocks[b].count == 1
                &&& after.blocks[b].src == edge.src_id
                &&& !after.blocks[b].tombstone
                &&& after.blocks[b].cur == b
                &&& after.blocks[b].pre == if before == NO_BLOCK {
                    None
                } else {
                    Some(before)
                }
            } else {
                &&& b == before && after.blocks.len() == view.blocks.len()
                &&& after.blocks[b].count == view.blocks[b].count + 1
                &&& after.blocks[b].src == view.blocks[b].src
                &&& after.blocks[b].tombstone == view.blocks[b].tombstone
                &&& after.blocks[b].cur == view.blocks[b].cur
                &&& after.blocks[b].pre == view.blocks[b].pre
                &&& forall|o: int|
                    0 <= o < view.blocks[b].count ==> after.blocks[b].edges[slot_after(at, o)]
                        == #[trigger] view.blocks[b].edges[o]
                &&& forall|c: int, o: int|
                    0 <= c < view.columns.len() && 0 <= o < view.blocks[b].count ==> stored(
                        after.columns,
                        c,
                        b,
                        slot_after(at, o),
                    ) == #[trigger] stored(view.columns, c, b, o)
            }
            &&& forall|i: int|
                0 <= i < view.blocks.len() && i != b ==> #[trigger] after.blocks[i]
                    == view.blocks[i]
            &&& forall|c: int, i: int, o: int|
                0 <= i < view.blocks.len() && i != b ==> #[trigger] stored(after.columns, c, i, o)
                    == stored(view.columns, c, i, o)
            &&& after.vertices.len() == view.vertices.len()
            &&& forall|i: int|
                0 <= i < view.vertices.len() && i != position ==> #[trigger] after.vertices[i]
                    == view.vertices[i]
            &&& after.vertices[position].vid == view.vertices[position].vid
            &&& after.vertices[position].properties == view.vertices[position].properties
            &&& after.dense == view.dense && after.counter == view.counter
            &&& after.edges_compressed == view.edges_compressed && after.compressed
                == view.compressed
            &&& after.properties_compressed == view.properties_compressed
                && after.compressed_columns == view.compressed_columns
            &&& stands_sorted(after.blocks[b])
            &&& all_bounds_hold(view) ==> all_bounds_hold(after)
        }),
{
    let after = view.with_edge(edge)->Ok_0;
    let position = view.position(edge.src_id)->0;
    let room = view.with_room(position, edge.src_id)->Ok_0;
    let b = room.vertices[position].block_offset as int;
    let block = room.blocks[b];
    let edge_in = OlapStorageEdge { label_id: edge.label_id, dst_id: edge.dst_id };
    let at = insert_position(block.edges, block.count as nat, edge_in, 0) as int;
    lemma_insert_bounds(block.edges, block.count as nat, edge_in, 0);
    if b == view.blocks.len() {
        lemma_fresh_block(block.pre, block.cur, edge.src_id);
    } else {
        assert(block_ok(view.blocks[b]));
    }
    assert(block_ok(block));
    lemma_block_with(block, edge_in);
    assert(after.blocks[b] == block_with(block, edge_in));
    lemma_stands_sorted(after.blocks[b]);
    assert forall|c: int|
        #![trigger after.columns[c]]
        0 <= c < after.columns.len() implies {
        &&& b < after.columns[c].len() && at < after.columns[c][b].len()
        &&& after.columns[c][b][at] == if c < edge.properties@.len() {
            edge.properties@[c]
        } else {
            None
        }
    } by {
        assert(b <= view.columns[c].len());
        if b < view.columns[c].len() {
            assert(view.columns[c][b].len() == BLOCK_CAPACITY);
        }
    }
    if b < view.blocks.len() {
        assert forall|c: int, o: int|
            0 <= c < view.columns.len() && 0 <= o < view.blocks[b].count implies stored(
            after.columns,
            c,
            b,
            slot_after(at, o),
        ) == #[trigger] stored(view.columns, c, b, o) by {
            assert(b <= view.columns[c].len());
            if b < view.columns[c].len() {
                assert(view.columns[c][b].len() == BLOCK_CAPACITY);
            }
        }
    }
    assert forall|c: int, i: int, o: int| 0 <= i < view.blocks.len() && i != b implies
        #[trigger] stored(after.columns, c, i, o) == stored(view.columns, c, i, o) by {
        if 0 <= c < view.columns.len() {
            assert(b <= view.columns[c].len());
        }
    }
    if all_bounds_hold(view) {
        assert forall|i: int| 0 <= i < after.blocks.len() implies bounds_hold(
            #[trigger] after.blocks[i],
        ) by {
            if i < view.blocks.len() {
                assert(bounds_hold(view.blocks[i]));
            }
            if i == b {
                assert forall|o: int| 0 <= o < after.blocks[b].count implies {
                    &&& after.blocks[b].min_dst <= (#[trigger] after.blocks[b].edges[o]).dst_id
                        <= after.blocks[b].max_dst
                    &&& label_rank(after.blocks[b].min_label) <= label_rank(
                        after.blocks[b].edges[o].label_id,
                    ) <= label_rank(after.blocks[b].max_label)
                } by {
                    if o != at {
                        let old_o = if o < at {
                            o
                        } else {
                            o - 1
                        };
                        assert(block.edges[old_o] == after.blocks[b].edges[o]);
                    }
                }
            }
        }
    }
    at
}

proof fn lemma_slot_values(
    columns: Seq<Seq<Seq<Option<ScalarValue>>>>,
    b: int,
    o: int,
    reach: nat,
    n: nat,
)
    requires
        reach <= n <= columns.len(),
        forall|c: int|
            0 <= c < reach ==> b < (#[trigger] columns[c]).len() && o < columns[c][b].len(),
        forall|c: int|
            reach <= c < n ==> b >= (#[trigger] columns[c]).len() || o >= columns[c][b].len(),
    ensures
        slot_values(columns, b, o, n).len() == reach,
        forall|c: int|
            0 <= c < reach ==> #[trigger] slot_values(columns, b, o, n)[c] == columns[c][b][o],
    decreases n,
{
    if n > reach {
        lemma_slot_values(columns, b, o, reach, (n - 1) as nat);
        assert(!has_value(columns[n - 1], b, o));
    } else if n > 0 {
        lemma_slot_values(columns, b, o, (reach - 1) as nat, (n - 1) as nat);
        assert(has_value(columns[n - 1], b, o));
    }
}

/// The edge that is read from a slot has the label and the destination of the slot, the source of
/// its block, and as its properties the values that the columns hold for the slot, in the order of
/// the columns: those of the first `reach` columns, where only these reach the slot.
pub proof fn law_edge_read(view: OlapView, b: int, o: int, reach: nat)
    requires
        reach <= view.columns.len(),
        forall|c: int|
            0 <= c < reach ==> b < (#[trigger] view.columns[c]).len() && o
                < view.columns[c][b].len(),
        forall|c: int|
            reach <= c < view.columns.len() ==> b >= (#[trigger] view.columns[c]).len() || o
                >= view.columns[c][b].len(),
    ensures
        view.edge_at(b, o).label == view.blocks[b].edges[o].label_id,
        view.edge_at(b, o).dst == view.blocks[b].edges[o].dst_id,
        view.edge_at(b, o).src == view.blocks[b].src,
        view.edge_at(b, o).properties.len() == reach,
        forall|c: int|
            0 <= c < reach ==> #[trigger] view.edge_at(b, o).properties[c]
                == view.columns[c][b][o],
        gapless(view.columns, b, o),
{
    lemma_slot_values(view.columns, b, o, reach, view.columns.len());
}

/// An edge that was created is read back as it was created: its label, its source, its
/// destination, and in every column the property of that number.
pub proof fn law_created_edge_read(view: OlapView, edge: OlapEdge) -> (slot: (int, int))
    requires
        view.wf(),
        positions_ok(view),
        sources_ok(view),
        view.blocks.len() + 1 < NO_BLOCK,
        view.columns_reach(edge),
        view.with_edge(edge) is Ok,
    ensures
        ({
            let after = view.with_edge(edge)->Ok_0;
            let read = after.edge_at(slot.0, slot.1);
            &&& slot.0 == after.vertices[view.dense[edge.src_id] as int].block_offset
            &&& 0 <= slot.0 < after.blocks.len() && 0 <= slot.1 < after.blocks[slot.0].count
            &&& read.label == edge.label_id
            &&& read.src == edge.src_id
            &&& read.dst == edge.dst_id
            &&& read.properties.len() == view.columns.len()
            &&& forall|c: int|
                0 <= c < edge.properties@.len() && c < read.properties.len()
                    ==> #[trigger] read.properties[c] == edge.properties@[c]
            &&& forall|c: int|
                edge.properties@.len() <= c < read.properties.len()
                    ==> #[trigger] read.properties[c] is None
            &&& edge.properties@.len() == view.columns.len() ==> read.properties
                == edge.properties@
        }),
{
    let after = view.with_edge(edge)->Ok_0;
    let at = law_created_edge_stands(view, edge);
    let position = view.dense[edge.src_id] as int;
    let b = after.vertices[position].block_offset as int;
    assert(view.vertices[position].vid == edge.src_id);
    assert forall|c: int| 0 <= c < after.columns.len() implies b < (
    #[trigger] after.columns[c]).len() && at < after.columns[c][b].len() by {}
    law_edge_read(after, b, at, after.columns.len());
    let read = after.edge_at(b, at);
    if edge.properties@.len() == view.columns.len() {
        assert(read.properties =~= edge.properties@);
    }
    (b, at)
}

/// An edge is refused exactly where its source is not among the vertices, or the last block of the
/// source is not there.
pub proof fn law_edge_refused(view: OlapView, edge: OlapEdge)
    ensures
        ({
            let known = view.dense.contains_key(edge.src_id) && view.dense[edge.src_id]
                < view.vertices.len();
            let offset = view.vertices[view.dense[edge.src_id] as int].block_offset;
            view.with_edge(edge) is Ok <==> known && (offset == NO_BLOCK || offset
                < view.blocks.len())
        }),
{
}

/// Deleting the edge in a slot takes that edge and its values out. The edges of the block behind
/// it move up by one slot, with their values in every column, and the block is marked as deleted
/// exactly where it has no other edge. The last slot then has no value. All other blocks, their
/// values and the vertices stay.
pub proof fn law_edge_deleted(view: OlapView, b: int, o: int)
    requires
        view.wf(),
        0 <= b < view.blocks.len(),
        0 <= o < view.blocks[b].count,
        view.blocks[b].count == 1 || forall|c: int|
            0 <= c < view.columns.len() ==> b < (#[trigger] view.columns[c]).len(),
    ensures
        ({
            let after = view.without_edge(b, o);
            &&& after.blocks.len() == view.blocks.len()
            &&& after.blocks[b].count == view.blocks[b].count - 1
            &&& after.blocks[b].tombstone == (view.blocks[b].tombstone || view.blocks[b].count
                == 1)
            &&& after.blocks[b].src == view.blocks[b].src
            &&& after.blocks[b].pre == view.blocks[b].pre
            &&& after.blocks[b].cur == view.blocks[b].cur
            &&& after.blocks[b].min_dst == view.blocks[b].min_dst && after.blocks[b].max_dst
                == view.blocks[b].max_dst
            &&& after.blocks[b].min_label == view.blocks[b].min_label && after.blocks[b].max_label
                == view.blocks[b].max_label
            &&& forall|i: int|
                0 <= i < view.blocks[b].count && i != o
                    ==> after.blocks[b].edges[slot_without(o, i)]
                    == #[trigger] view.blocks[b].edges[i]
            &&& forall|c: int, i: int|
                0 <= i < view.blocks[b].count && i != o ==> stored(
                    after.columns,
                    c,
                    b,
                    slot_without(o, i),
                ) == #[trigger] stored(view.columns, c, b, i)
            &&& view.blocks[b].count > 1 ==> forall|c: int, i: int|
                o <= i < BLOCK_CAPACITY ==> #[trigger] stored(after.columns, c, b, i) == stored(
                    view.columns,
                    c,
                    b,
                    i + 1,
                )
            &&& forall|i: int|
                0 <= i < view.blocks.len() && i != b ==> #[trigger] after.blocks[i]
                    == view.blocks[i]
            &&& forall|c: int, i: int, k: int|
                i != b ==> #[trigger] stored(after.columns, c, i, k) == stored(
                    view.columns,
                    c,
                    i,
                    k,
                )
            &&& after.columns.len() == view.columns.len()
            &&& after.vertices == view.vertices && after.dense == view.dense && after.counter
                == view.counter
            &&& stands_sorted(after.blocks[b])
            &&& all_bounds_hold(view) ==> all_bounds_hold(after)
        }),
{
    let after = view.without_edge(b, o);
    assert(block_ok(view.blocks[b]));
    lemma_block_without(view.blocks[b], o);
    lemma_stands_sorted(after.blocks[b]);
    assert forall|c: int, i: int| 0 <= i < view.blocks[b].count && i != o implies stored(
        after.columns,
        c,
        b,
        slot_without(o, i),
    ) == #[trigger] stored(view.columns, c, b, i) by {
        if 0 <= c < view.columns.len() && view.blocks[b].count != 1 {
            assert(b < view.columns[c].len());
            assert(view.columns[c][b].len() == BLOCK_CAPACITY);
        }
    }
    assert forall|c: int, i: int|
        view.blocks[b].count > 1 && o <= i < BLOCK_CAPACITY implies #[trigger] stored(
        after.columns,
        c,
        b,
        i,
    ) == stored(view.columns, c, b, i + 1) by {
        if 0 <= c < view.columns.len() {
            assert(b < view.columns[c].len());
            assert(view.columns[c][b].len() == BLOCK_CAPACITY);
        }
    }
    if all_bounds_hold(view) {
        assert forall|i: int| 0 <= i < after.blocks.len() implies bounds_hold(
            #[trigger] after.blocks[i],
        ) by {
            assert(bounds_hold(view.blocks[i]));
            if i == b {
                assert forall|k: int| 0 <= k < after.blocks[b].count implies {
                    &&& after.blocks[b].min_dst <= (#[trigger] after.blocks[b].edges[k]).dst_id
                        <= after.blocks[b].max_dst
                    &&& label_rank(after.blocks[b].min_label) <= label_rank(
                        after.blocks[b].edges[k].label_id,
                    ) <= label_rank(after.blocks[b].max_label)
                } by {
                    let old_k = if k < o {
                        k
                    } else {
                        k + 1
                    };
                    assert(view.blocks[b].edges[old_k] == after.blocks[b].edges[k]);
                }
            }
        }
    }
}

/// Whether a slot holds an edge that was not deleted.
pub open spec fn holds_edge(view: OlapView, b: int, o: int) -> bool {
    0 <= b < view.blocks.len() && !view.blocks[b].tombstone && 0 <= o < view.blocks[b].count
}

/// Whether no edge looks like an empty slot.
pub open spec fn all_told_apart(view: OlapView) -> bool {
    forall|b: int, o: int| #[trigger]
        holds_edge(view, b, o) ==> view.blocks[b].edges[o].label_id != Some(1u32)
            || view.blocks[b].edges[o].dst_id != 1
}

/// Whether a slot does not stand behind another.
pub open spec fn not_behind(b: int, o: int, b2: int, o2: int) -> bool {
    b < b2 || (b == b2 && o <= o2)
}

proof fn lemma_next_at_most(view: OlapView, b: int, o: int, b2: int, o2: int)
    requires
        view.wf(),
        all_told_apart(view),
        0 <= b,
        0 <= o,
        holds_edge(view, b2, o2),
        not_behind(b, o, b2, o2),
    ensures
        view.next_slot(b, o) matches Some((x, y)) && not_behind(x, y, b2, o2) && not_behind(
            b,
            o,
            x,
            y,
        ),
    decreases view.blocks.len() - b,
{
    assert(block_ok(view.blocks[b]));
    if b == b2 {
        assert(holds_edge(view, b, o));
    } else if !(!view.blocks[b].tombstone && o < BLOCK_CAPACITY && view.blocks[b].edges[o]
        != empty_slot()) {
        lemma_next_at_most(view, b + 1, 0, b2, o2);
    }
}

proof fn lemma_next_holds(view: OlapView, b: int, o: int)
    requires
        view.wf(),
        0 <= b,
        0 <= o,
    ensures
        view.next_slot(b, o) matches Some((x, y)) ==> holds_edge(view, x, y) && not_behind(
            b,
            o,
            x,
            y,
        ) && y < BLOCK_CAPACITY,
    decreases view.blocks.len() - b,
{
    if b < view.blocks.len() {
        assert(block_ok(view.blocks[b]));
        lemma_next_holds(view, b + 1, 0);
    }
}

proof fn lemma_find_at_most(
    view: OlapView,
    label: Option<LabelId>,
    b: int,
    o: int,
    b2: int,
    o2: int,
)
    requires
        view.wf(),
        all_told_apart(view),
        0 <= b,
        0 <= o,
        holds_edge(view, b2, o2),
        view.blocks[b2].edges[o2].label_id == label,
        not_behind(b, o, b2, o2),
    ensures
        view.find_edge(label, b, o) matches Some((x, y)) && not_behind(x, y, b2, o2),
    decreases view.blocks.len() - b, BLOCK_CAPACITY - o,
{
    lemma_next_at_most(view, b, o, b2, o2);
    lemma_next_holds(view, b, o);
    let (x, y) = view.next_slot(b, o)->0;
    if view.blocks[x].edges[y].label_id != label {
        lemma_find_at_most(view, label, x, y + 1, b2, o2);
    }
}

proof fn lemma_find_holds(view: OlapView, label: Option<LabelId>, b: int, o: int)
    requires
        view.wf(),
        0 <= b,
        0 <= o,
    ensures
        view.find_edge(label, b, o) matches Some((x, y)) ==> holds_edge(view, x, y)
            && view.blocks[x].edges[y].label_id == label,
    decreases view.blocks.len() - b, BLOCK_CAPACITY - o,
{
    lemma_next_holds(view, b, o);
    if let Some((x, y)) = view.next_slot(b, o) {
        if view.blocks[x].edges[y].label_id != label {
            lemma_find_holds(view, label, x, y + 1);
        }
    }
}

/// The edge that is deleted or changed by its label is the first that has the label and was not
/// deleted, block by block; where none is found, no edge has it.
pub proof fn law_edge_sought(view: OlapView, label: Option<LabelId>)
    requires
        view.wf(),
        all_told_apart(view),
    ensures
        match view.find_edge(label, 0, 0) {
            Some((b, o)) => {
                &&& holds_edge(view, b, o)
                &&& view.blocks[b].edges[o].label_id == label
                &&& forall|b2: int, o2: int| #[trigger]
                    holds_edge(view, b2, o2) && view.blocks[b2].edges[o2].label_id == label
                        ==> not_behind(b, o, b2, o2)
            },
            None => forall|b2: int, o2: int| #[trigger]
                holds_edge(view, b2, o2) ==> view.blocks[b2].edges[o2].label_id != label,
        },
{
    lemma_find_holds(view, label, 0, 0);
    assert forall|b2: int, o2: int| #[trigger]
        holds_edge(view, b2, o2) && view.blocks[b2].edges[o2].label_id == label implies (
    view.find_edge(label, 0, 0) matches Some((b, o)) && not_behind(b, o, b2, o2)) by {
        lemma_find_at_most(view, label, 0, 0, b2, o2);
    }
}

proof fn lemma_slot_with_is(edges: Seq<OlapStorageEdge>, label: Option<LabelId>, i: int)
    requires
        0 <= i,
    ensures
        match slot_with(edges, label, i) {
            Some(o) => {
                &&& i <= o < edges.len()
                &&& edges[o].label_id == label
                &&& forall|k: int| i <= k < o ==> (#[trigger] edges[k]).label_id != label
            },
            None => forall|k: int| i <= k < edges.len() ==> (#[trigger] edges[k]).label_id != label,
        },
    decreases edges.len() - i,
{
    if i < edges.len() && edges[i].label_id != label {
        lemma_slot_with_is(edges, label, i + 1);
    }
}

proof fn lemma_labelled_is(view: OlapView, label: Option<LabelId>, b: int)
    requires
        view.wf(),
        all_bounds_hold(view),
        0 <= b,
    ensures
        view.labelled(label, b) matches Some((x, y)) ==> {
            &&& b <= x < view.blocks.len()
            &&& !view.blocks[x].tombstone
            &&& 0 <= y < BLOCK_CAPACITY
            &&& view.blocks[x].edges[y].label_id == label
        },
        forall|b2: int, o2: int| #[trigger]
            holds_edge(view, b2, o2) && b2 >= b && view.blocks[b2].edges[o2].label_id == label
                ==> (view.labelled(label, b) matches Some((x, y)) && not_behind(x, y, b2, o2)),
    decreases view.blocks.len() - b,
{
    if b < view.blocks.len() {
        assert(block_ok(view.blocks[b]));
        assert(bounds_hold(view.blocks[b]));
        lemma_slot_with_is(view.blocks[b].edges, label, 0);
        lemma_labelled_is(view, label, b + 1);
        assert forall|b2: int, o2: int| #[trigger]
            holds_edge(view, b2, o2) && b2 >= b && view.blocks[b2].edges[o2].label_id
                == label implies (view.labelled(label, b) matches Some((x, y)) && not_behind(
            x,
            y,
            b2,
            o2,
        )) by {
            if b2 == b {
                assert(label_rank(view.blocks[b].min_label) <= label_rank(
                    view.blocks[b].edges[o2].label_id,
                ) <= label_rank(view.blocks[b].max_label));
            }
        }
    }
}

/// An edge that is looked up by its label is found wherever an edge has the label and was not
/// deleted. What is found has the label, in a block that was not deleted, and no edge with the
/// label stands before it.
pub proof fn law_edge_by_label(view: OlapView, label: Option<LabelId>)
    requires
        view.wf(),
        all_bounds_hold(view),
    ensures
        view.labelled(label, 0) matches Some((b, o)) ==> {
            &&& 0 <= b < view.blocks.len() && 0 <= o < 256
            &&& !view.blocks[b].tombstone
            &&& view.edge_at(b, o).label == label
        },
        forall|b2: int, o2: int| #[trigger]
            holds_edge(view, b2, o2) && view.blocks[b2].edges[o2].label_id == label ==> (
            view.labelled(label, 0) matches Some((b, o)) && not_behind(b, o, b2, o2)),
{
    lemma_labelled_is(view, label, 0);
}

/// Whether an iterator over all edges that starts at the first position is called until it is at
/// its end: the positions it is at, and the slots whose edges it gives.
pub open spec fn is_edge_walk(
    view: OlapView,
    positions: Seq<(int, int)>,
    slots: Seq<(int, int)>,
) -> bool {
    &&& positions.len() == slots.len() + 1
    &&& forall|i: int|
        0 <= i < slots.len() ==> view.next_slot(positions[i].0, positions[i].1) == Some(
            #[trigger] slots[i],
        ) && positions[i + 1] == (slots[i].0, slots[i].1 + 1)
    &&& view.next_slot(positions.last().0, positions.last().1) is None
}

proof fn lemma_edge_walk(view: OlapView, positions: Seq<(int, int)>, slots: Seq<(int, int)>)
    requires
        view.wf(),
        all_told_apart(view),
        is_edge_walk(view, positions, slots),
        0 <= positions[0].0,
        0 <= positions[0].1,
    ensures
        forall|b: int, o: int| #[trigger]
            slots.contains((b, o)) <==> holds_edge(view, b, o) && not_behind(
                positions[0].0,
                positions[0].1,
                b,
                o,
            ),
        forall|i: int, j: int|
            0 <= i < j < slots.len() ==> (#[trigger] slots[i]).0 < (#[trigger] slots[j]).0 || (
            slots[i].0 == slots[j].0 && slots[i].1 < slots[j].1),
    decreases slots.len(),
{
    let (b0, o0) = positions[0];
    lemma_next_holds(view, b0, o0);
    if slots.len() == 0 {
        assert forall|b: int, o: int| holds_edge(view, b, o) && not_behind(
            b0,
            o0,
            b,
            o,
        ) implies false by {
            lemma_next_at_most(view, b0, o0, b, o);
        }
    } else {
        let first = slots[0];
        let rest = slots.drop_first();
        let places = positions.drop_first();
        assert(positions[1] == (first.0, first.1 + 1));
        assert forall|i: int| 0 <= i < rest.len() implies view.next_slot(
            places[i].0,
            places[i].1,
        ) == Some(#[trigger] rest[i]) && places[i + 1] == (rest[i].0, rest[i].1 + 1) by {
            assert(rest[i] == slots[i + 1]);
        }
        assert(is_edge_walk(view, places, rest));
        lemma_edge_walk(view, places, rest);
        assert forall|i: int| 0 <= i < rest.len() implies not_behind(
            first.0,
            first.1 + 1,
            (#[trigger] rest[i]).0,
            rest[i].1,
        ) by {
            assert(rest.contains((rest[i].0, rest[i].1)));
        }
        assert forall|i: int, j: int| 0 <= i < j < slots.len() implies (#[trigger] slots[i]).0 < (
        #[trigger] slots[j]).0 || (slots[i].0 == slots[j].0 && slots[i].1 < slots[j].1) by {
            assert(rest[j - 1] == slots[j]);
            if i > 0 {
                assert(rest[i - 1] == slots[i]);
            }
        }
        assert forall|b: int, o: int| #[trigger] slots.contains((b, o)) <==> holds_edge(view, b, o)
            && not_behind(b0, o0, b, o) by {
            if slots.contains((b, o)) {
                let i = choose|i: int| 0 <= i < slots.len() && slots[i] == (b, o);
                if i > 0 {
                    assert(rest[i - 1] == (b, o));
                    assert(rest.contains((b, o)));
                }
            }
            if holds_edge(view, b, o) && not_behind(b0, o0, b, o) {
                lemma_next_at_most(view, b0, o0, b, o);
                if (b, o) != first {
                    assert(rest.contains((b, o)));
                    let i = choose|i: int| 0 <= i < rest.len() && rest[i] == (b, o);
                    assert(slots[i + 1] == (b, o));
                } else {
                    assert(slots[0] == (b, o));
                }
            }
        }
    }
}

/// An iterator over all edges that is called until its end gives every edge that was not deleted,
/// each once, block by block and in each block by slot.
pub proof fn law_edges_complete(
    view: OlapView,
    positions: Seq<(int, int)>,
    slots: Seq<(int, int)>,
)
    requires
        view.wf(),
        all_told_apart(view),
        is_edge_walk(view, positions, slots),
        positions[0] == (0int, 0int),
    ensures
        forall|b: int, o: int| #[trigger] slots.contains((b, o)) <==> holds_edge(view, b, o),
        forall|i: int, j: int|
            0 <= i < j < slots.len() ==> (#[trigger] slots[i]).0 < (#[trigger] slots[j]).0 || (
            slots[i].0 == slots[j].0 && slots[i].1 < slots[j].1),
{
    lemma_edge_walk(view, positions, slots);
}

/// The vertex that is deleted is the first with the identifier; where none is found, no vertex has
/// it.
pub proof fn law_vertex_sought(vertices: Seq<OlapVertex>, vid: VertexId, i: int)
    requires
        0 <= i,
    ensures
        match first_vertex(vertices, vid, i) {
            Some(at) => {
                &&& i <= at < vertices.len()
                &&& vertices[at].vid == vid
                &&& forall|k: int| i <= k < at ==> (#[trigger] vertices[k]).vid != vid
            },
            None => forall|k: int| i <= k < vertices.len() ==> (#[trigger] vertices[k]).vid != vid,
        },
    decreases vertices.len() - i,
{
    if i < vertices.len() && vertices[i].vid != vid {
        law_vertex_sought(vertices, vid, i + 1);
    }
}

proof fn lemma_chain_same(before: OlapView, after: OlapView, b: usize, c: usize)
    requires
        before.blocks.len() == after.blocks.len(),
        forall|i: int|
            0 <= i < before.blocks.len() ==> (#[trigger] before.blocks[i]).pre
                == after.blocks[i].pre,
    ensures
        on_chain(before, b, c) == on_chain(after, b, c),
    decreases b,
{
    if b < before.blocks.len() {
        assert(before.blocks[b as int].pre == after.blocks[b as int].pre);
        if let Some(pre) = before.blocks[b as int].pre {
            if pre < b {
                lemma_chain_same(before, after, pre, c);
            }
        }
    }
}

/// Deleting a vertex marks exactly the blocks of its chain as deleted, and changes nothing else of
/// any block.
pub proof fn law_blocks_buried(view: OlapView, b: usize)
    requires
        view.wf(),
        b < view.blocks.len(),
    ensures
        buried(view.blocks, Some(b)).len() == view.blocks.len(),
        forall|c: usize|
            #![trigger buried(view.blocks, Some(b))[c as int]]
            c < view.blocks.len() ==> buried(view.blocks, Some(b))[c as int] == (BlockView {
                tombstone: view.blocks[c as int].tombstone || on_chain(view, b, c),
                ..view.blocks[c as int]
            }),
    decreases b,
{
    let pre = view.blocks[b as int].pre;
    let marked = view.blocks.update(b as int, BlockView { tombstone: true, ..view.blocks[b as int] });
    let rest = OlapView { blocks: marked, ..view };
    assert(block_ok(view.blocks[b as int]));
    assert forall|i: int| 0 <= i < marked.len() implies block_ok(#[trigger] marked[i]) by {
        assert(block_ok(view.blocks[i]));
    }
    assert forall|i: int| 0 <= i < marked.len() implies ((#[trigger] marked[i]).pre matches Some(p)
        ==> p < i) by {
        assert(view.blocks[i].pre == marked[i].pre);
    }
    assert(rest.wf());
    reveal_with_fuel(buried, 2);
    if let Some(p) = pre {
        law_blocks_buried(rest, p);
        assert(buried(view.blocks, Some(b)) == buried(marked, Some(p)));
    }
    assert forall|c: usize|
        #![trigger buried(view.blocks, Some(b))[c as int]]
        c < view.blocks.len() implies buried(view.blocks, Some(b))[c as int] == (BlockView {
        tombstone: view.blocks[c as int].tombstone || on_chain(view, b, c),
        ..view.blocks[c as int]
    }) by {
        if let Some(p) = pre {
            lemma_chain_same(view, rest, p, c);
            assert(buried(marked, Some(p))[c as int] == (BlockView {
                tombstone: marked[c as int].tombstone || on_chain(rest, p, c),
                ..marked[c as int]
            }));
        } else {
            assert(buried(view.blocks, Some(b)) == marked);
        }
    }
}

/// Setting properties of a vertex gives each given property its value, and keeps the others.
pub proof fn law_vertex_properties_set(
    properties: Seq<ScalarValue>,
    indices: Seq<usize>,
    props: Seq<ScalarValue>,
    n: nat,
)
    requires
        n <= indices.len(),
        n <= props.len(),
        forall|i: int| 0 <= i < n ==> (#[trigger] indices[i]) < properties.len(),
        forall|i: int, j: int|
            0 <= i < j < n ==> #[trigger] indices[i] != #[trigger] indices[j],
    ensures
        with_properties(properties, indices, props, n).len() == properties.len(),
        forall|i: int|
            0 <= i < n ==> with_properties(properties, indices, props, n)[
            #[trigger] indices[i] as int] == props[i],
        forall|k: int|
            0 <= k < properties.len() && (forall|i: int|
                0 <= i < n ==> #[trigger] indices[i] != k) ==> #[trigger] with_properties(
                properties,
                indices,
                props,
                n,
            )[k] == properties[k],
    decreases n,
{
    if n > 0 {
        law_vertex_properties_set(properties, indices, props, (n - 1) as nat);
        let before = with_properties(properties, indices, props, (n - 1) as nat);
        let after = with_properties(properties, indices, props, n);
        assert(after == before.update(indices[n - 1] as int, props[n - 1]));
    }
}

/// As many properties are set as there are both numbers and values.
pub proof fn law_pairs(numbers: nat, values: nat)
    ensures
        pairs(numbers, values) <= numbers,
        pairs(numbers, values) <= values,
        pairs(numbers, values) == numbers || pairs(numbers, values) == values,
{
}

/// Setting properties of an edge gives its slot the given value in each given column, and keeps
/// every other value of every slot.
pub proof fn law_edge_properties_set(
    columns: Seq<Seq<Seq<Option<ScalarValue>>>>,
    b: int,
    o: int,
    indices: Seq<usize>,
    props: Seq<ScalarValue>,
    n: nat,
)
    requires
        n <= indices.len(),
        n <= props.len(),
        0 <= b,
        0 <= o,
        forall|i: int|
            0 <= i < n ==> (#[trigger] indices[i]) < columns.len() && b
                < columns[indices[i] as int].len() && o < columns[indices[i] as int][b].len(),
        forall|i: int, j: int|
            0 <= i < j < n ==> #[trigger] indices[i] != #[trigger] indices[j],
    ensures
        ({
            let after = with_slot_values(columns, b, o, indices, props, n);
            &&& after.len() == columns.len()
            &&& forall|i: int|
                0 <= i < n ==> stored(after, (#[trigger] indices[i]) as int, b, o) == Some(
                    props[i],
                )
            &&& forall|c: int, b2: int, o2: int|
                (b2 != b || o2 != o || forall|i: int| 0 <= i < n ==> #[trigger] indices[i] != c)
                    ==> #[trigger] stored(after, c, b2, o2) == stored(columns, c, b2, o2)
            &&& forall|c: int|
                0 <= c < columns.len() ==> (#[trigger] after[c]).len() == columns[c].len()
            &&& forall|c: int, b2: int|
                0 <= c < columns.len() && 0 <= b2 < columns[c].len() ==> (
                #[trigger] after[c][b2]).len() == columns[c][b2].len()
        }),
    decreases n,
{
    if n > 0 {
        law_edge_properties_set(columns, b, o, indices, props, (n - 1) as nat);
        let before = with_slot_values(columns, b, o, indices, props, (n - 1) as nat);
        let after = with_slot_values(columns, b, o, indices, props, n);
        let k = indices[n - 1] as int;
        assert(before[k].len() == columns[k].len());
        assert(before[k][b].len() == columns[k][b].len());
        assert(after == before.update(
            k,
            before[k].update(b, before[k][b].update(o, Some(props[n - 1]))),
        ));
        assert forall|i: int| 0 <= i < n implies stored(after, (#[trigger] indices[i]) as int, b, o)
            == Some(props[i]) by {
            if i < n - 1 {
                assert(stored(before, indices[i] as int, b, o) == Some(props[i]));
                assert(indices[i] != indices[n - 1]);
            }
        }
        assert forall|c: int, b2: int, o2: int|
            (b2 != b || o2 != o || forall|i: int| 0 <= i < n ==> #[trigger] indices[i]
                != c) implies #[trigger] stored(after, c, b2, o2) == stored(columns, c, b2, o2) by {
            assert(stored(before, c, b2, o2) == stored(columns, c, b2, o2));
            if c == k {
                assert(b2 != b || o2 != o);
            }
        }
    }
}

/// A compressed storage has for each block, in the same place, a compressed block with its source,
/// its place in the chain, its bounds and its number of edges; the blocks themselves are gone.
pub proof fn law_blocks_compressed(view: OlapView, i: int)
    requires
        !view.edges_compressed,
        view.compressed.len() == 0,
        view.wf(),
        0 <= i < view.blocks.len(),
    ensures
        ({
            let after = view.with_compressed_edges();
            let packed = after.compressed[i];
            &&& after.edges_compressed
            &&& after.blocks.len() == 0
            &&& after.compressed.len() == view.blocks.len()
            &&& packed == compressed_block(view.blocks[i], i as usize)
            &&& packed.cur == i
            &&& packed.src == view.blocks[i].src
            &&& packed.pre == view.blocks[i].pre
            &&& packed.count == view.blocks[i].count
            &&& packed.min_dst == view.blocks[i].min_dst && packed.max_dst
                == view.blocks[i].max_dst
            &&& packed.min_label == view.blocks[i].min_label && packed.max_label
                == view.blocks[i].max_label
            &&& after.with_compressed_edges() == after
            &&& after.columns == view.columns && after.vertices == view.vertices
        }),
{
}

/// A storage with compressed properties has for each block of each column, in the same place, the
/// compressed values of that block; the columns themselves are gone.
pub proof fn law_columns_compressed(view: OlapView, c: int, b: int)
    requires
        !view.properties_compressed,
        view.compressed_columns.len() == 0,
        0 <= c < view.columns.len(),
        0 <= b < view.columns[c].len(),
    ensures
        ({
            let after = view.with_compressed_properties();
            &&& after.properties_compressed
            &&& after.columns.len() == 0
            &&& after.compressed_columns.len() == view.columns.len()
            &&& after.compressed_columns[c].len() == view.columns[c].len()
            &&& after.compressed_columns[c][b] == compressed_values(view.columns[c][b])
            &&& after.with_compressed_properties() == after
            &&& after.blocks == view.blocks && after.vertices == view.vertices
        }),
{
}

/// The bounds of a block with one more edge are those of the block, moved just as far as the edge
/// needs.
pub proof fn law_bounds_moved(block: BlockView, edge: OlapStorageEdge)
    ensures
        ({
            let after = block_with(block, edge);
            &&& after.min_dst <= block.min_dst && after.min_dst <= edge.dst_id
            &&& after.min_dst == block.min_dst || after.min_dst == edge.dst_id
            &&& after.max_dst >= block.max_dst && after.max_dst >= edge.dst_id
            &&& after.max_dst == block.max_dst || after.max_dst == edge.dst_id
            &&& label_rank(after.min_label) <= label_rank(block.min_label)
            &&& label_rank(after.min_label) <= label_rank(edge.label_id)
            &&& after.min_label == block.min_label || after.min_label == edge.label_id
            &&& label_rank(after.max_label) >= label_rank(block.max_label)
            &&& label_rank(after.max_label) >= label_rank(edge.label_id)
            &&& after.max_label == block.max_label || after.max_label == edge.label_id
        }),
{
}

proof fn lemma_greatest_difference(
    edges: Seq<OlapStorageEdge>,
    i: int,
    least: u64,
) -> (k: int)
    requires
        1 <= i,
        forall|j: int| 1 <= j < edges.len() ==> (#[trigger] edges[j]).dst_id
            >= edges[j - 1].dst_id || edges[j].dst_id == 1,
    ensures
        max_delta(edges, i, least) == least || (i <= k < edges.len() && max_delta(edges, i, least)
            == edges[k].dst_id - edges[k - 1].dst_id),
    decreases edges.len() - i,
{
    if i >= edges.len() || edges[i].dst_id == 1 {
        i
    } else {
        let delta = (edges[i].dst_id - edges[i - 1].dst_id) as u64;
        assert(edges[i].dst_id >= edges[i - 1].dst_id);
        let next = if delta >= least {
            delta
        } else {
            least
        };
        let k = lemma_greatest_difference(edges, i + 1, next);
        if max_delta(edges, i + 1, next) == delta {
            i
        } else {
            k
        }
    }
}

proof fn lemma_leading_zeros(n: u64)
    requires
        n != 0,
    ensures
        0 <= u64_leading_zeros(n) < 64,
        pow2((63 - u64_leading_zeros(n)) as nat) <= n < pow2((64 - u64_leading_zeros(n)) as nat),
    decreases n,
{
    reveal(u64_leading_zeros);
    axiom_u64_leading_zeros(n);
    lemma2_to64();
    if n == 1 {
        assert(u64_leading_zeros(0) == 64);
        assert(n / 2 == 0);
    } else {
        lemma_leading_zeros(n / 2);
        let half = u64_leading_zeros(n / 2);
        assert(half == u64_leading_zeros(n) + 1);
        lemma_pow2_unfold((64 - half) as nat);
        lemma_pow2_unfold((65 - half) as nat);
    }
}

/// The differences of a compressed block take no more bits than the greatest of them needs: with one
/// bit less it would not fit, unless one bit is all there is.
pub proof fn law_width_least(n: u64)
    ensures
        1 <= bits_needed(n) <= 64,
        (n as nat) < pow2(bits_needed(n) as nat),
        bits_needed(n) > 1 ==> n >= pow2((bits_needed(n) - 1) as nat),
{
    lemma2_to64();
    if n != 0 {
        lemma_leading_zeros(n);
    }
}

/// The width of a compressed block is that of a difference between two neighbouring destinations of
/// the block, or one bit where there is none but zero.
pub proof fn law_width_from_differences(block: BlockView, index: usize) -> (k: int)
    requires
        block_ok(block),
        block.count >= 1,
        forall|j: int| 1 <= j < block.count ==> (#[trigger] block.edges[j]).dst_id != 1,
    ensures
        compressed_block(block, index).width == 1 || (1 <= k < BLOCK_CAPACITY && compressed_block(
            block,
            index,
        ).width == bits_needed((block.edges[k].dst_id - block.edges[k - 1].dst_id) as u64)),
{
    assert forall|j: int| 1 <= j < block.edges.len() implies (#[trigger] block.edges[j]).dst_id
        >= block.edges[j - 1].dst_id || block.edges[j].dst_id == 1 by {
        if j < block.count {
            assert(!edge_before(block.edges[j], block.edges[j - 1]));
        } else {
            assert(block.edges[j] == empty_slot());
        }
    }
    lemma_greatest_difference(block.edges, 1, 0)
}

/// The bounds of a block with one edge are the destination and the label of that edge; only the
/// upper bound of the labels is never below that of the lowest label that counts, which is one. The
/// block has no edge before it, belongs to its source and is not deleted.
pub proof fn law_bounds_of_first_edge(
    pre: Option<usize>,
    index: usize,
    src: VertexId,
    edge: OlapStorageEdge,
)
    ensures
        ({
            let block = block_with(fresh_block(pre, index, src), edge);
            &&& block.count == 1
            &&& block.edges[0] == edge
            &&& block.pre == pre && block.cur == index && block.src == src && !block.tombstone
            &&& block.min_dst == edge.dst_id && block.max_dst == edge.dst_id
            &&& block.min_label == edge.label_id
            &&& label_rank(edge.label_id) >= 1 ==> block.max_label == edge.label_id
            &&& label_rank(edge.label_id) < 1 ==> block.max_label == Some(1u32)
        }),
{
    lemma_fresh_block(pre, index, src);
}

/// A compressed block has the label of each of its edges, and the label of an empty slot where it
/// has none.
pub proof fn law_compressed_labels(block: BlockView, index: usize)
    requires
        block_ok(block),
        block.count >= 1,
    ensures
        compressed_block(block, index).labels.len() == BLOCK_CAPACITY,
        compressed_block(block, index).first_dst == block.edges[0].dst_id,
        forall|i: int|
            0 <= i < BLOCK_CAPACITY ==> #[trigger] compressed_block(block, index).labels[i]
                == block.edges[i].label_id,
{
    assert forall|i: int| 0 <= i < BLOCK_CAPACITY implies #[trigger] compressed_block(
        block,
        index,
    ).labels[i] == block.edges[i].label_id by {
        if i >= block.count {
            assert(block.edges[i] == empty_slot());
        }
    }
}

} // verus!
