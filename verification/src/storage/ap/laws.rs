//! What holds of every analytical storage.

use vstd::prelude::*;

#[allow(unused_imports)]
use super::compress::{
    bits_needed, compressed_block, compressed_values, delta_at, delta_bits, low_bits, max_delta,
    ones, present_values,
};
#[allow(unused_imports)]
use super::iterators::slot_with;
#[allow(unused_imports)]
use super::model::{
    block_ok, edge_before, empty_slot, label_before, BlockView, CompressedValues, CompressedView,
    OlapEdge, OlapStorageEdge, OlapVertex, OlapView, BLOCK_CAPACITY, NO_BLOCK,
};
#[allow(unused_imports)]
use super::olap_graph::{block_with, insert_position, shifted_in};
#[allow(unused_imports)]
use super::update::block_without;
#[allow(unused_imports)]
use crate::common::types::{LabelId, VertexId};
#[allow(unused_imports)]
use crate::common::value::ScalarValue;

verus! {

/// Whether every vertex is found where it is: the next position is behind all vertices, and each
/// identifier leads to the vertex that has it.
pub open spec fn positions_ok(view: OlapView) -> bool {
    &&& view.counter == view.vertices.len()
    &&& forall|vid: VertexId| #[trigger]
        view.dense.contains_key(vid) ==> view.dense[vid] < view.vertices.len()
            && view.vertices[view.dense[vid] as int].vid == vid
    &&& forall|i: int|
        0 <= i < view.vertices.len() ==> view.dense.contains_key((#[trigger] view.vertices[i]).vid)
            && view.dense[view.vertices[i].vid] == i
}

/// Whether the blocks of a vertex are blocks of that vertex.
pub open spec fn sources_ok(view: OlapView) -> bool {
    &&& forall|i: int|
        0 <= i < view.blocks.len() ==> ((#[trigger] view.blocks[i]).pre matches Some(pre) ==> pre
            < i && view.blocks[pre as int].src == view.blocks[i].src)
    &&& forall|i: int|
        0 <= i < view.vertices.len() ==> ((#[trigger] view.vertices[i]).block_offset != NO_BLOCK
            ==> view.vertices[i].block_offset < view.blocks.len()
            && view.blocks[view.vertices[i].block_offset as int].src == view.vertices[i].vid)
}

/// A vertex that was created is found, with its properties and without edges, and so is every
/// vertex that was there before.
pub proof fn law_created_vertex_found(view: OlapView, vertex: OlapVertex)
    requires
        positions_ok(view),
        !view.dense.contains_key(vertex.vid),
        view.vertices.len() < u64::MAX,
    ensures
        positions_ok(view.with_vertex(vertex)),
        view.with_vertex(vertex).position(vertex.vid) == Some(view.vertices.len() as int),
        view.with_vertex(vertex).vertices[view.vertices.len() as int] == (OlapVertex {
            block_offset: NO_BLOCK,
            ..vertex
        }),
        forall|vid: VertexId|
            view.dense.contains_key(vid) ==> #[trigger] view.with_vertex(vertex).position(vid)
                == view.position(vid) && view.with_vertex(vertex).vertices[view.position(vid)->0]
                == view.vertices[view.position(vid)->0],
        sources_ok(view) ==> sources_ok(view.with_vertex(vertex)),
{
    let after = view.with_vertex(vertex);
    assert(after.vertices =~= view.vertices.push(
        OlapVertex { block_offset: NO_BLOCK, ..vertex },
    ));
}

/// Creating an edge keeps vertices where they are found, and the blocks of a vertex its own.
pub proof fn law_create_edge_keeps(view: OlapView, edge: OlapEdge)
    requires
        positions_ok(view),
        sources_ok(view),
        view.wf(),
        view.blocks.len() + 1 < NO_BLOCK,
    ensures
        view.with_edge(edge) matches Ok(after) ==> positions_ok(after) && sources_ok(after),
{
    if let Ok(after) = view.with_edge(edge) {
        let position = view.position(edge.src_id)->0;
        let room = view.with_room(position, edge.src_id)->Ok_0;
        assert(view.vertices[position].vid == edge.src_id);
        assert(sources_ok(room)) by {
            assert forall|i: int| 0 <= i < room.vertices.len() implies ((
            #[trigger] room.vertices[i]).block_offset != NO_BLOCK ==> room.vertices[i].block_offset
                < room.blocks.len() && room.blocks[room.vertices[i].block_offset as int].src
                == room.vertices[i].vid) by {
                assert(view.vertices[i].vid == room.vertices[i].vid);
            }
        }
        assert(positions_ok(room)) by {
            assert forall|vid: VertexId| #[trigger]
                room.dense.contains_key(vid) implies room.dense[vid] < room.vertices.len()
                && room.vertices[room.dense[vid] as int].vid == vid by {
                assert(view.dense.contains_key(vid));
            }
            assert forall|i: int| 0 <= i < room.vertices.len() implies room.dense.contains_key(
                (#[trigger] room.vertices[i]).vid,
            ) && room.dense[room.vertices[i].vid] == i by {
                assert(view.vertices[i].vid == room.vertices[i].vid);
            }
        }
        assert(after.vertices == room.vertices);
        assert forall|i: int| 0 <= i < after.blocks.len() implies (#[trigger] after.blocks[i]).src
            == room.blocks[i].src && after.blocks[i].pre == room.blocks[i].pre by {}
        assert forall|i: int| 0 <= i < after.blocks.len() implies ((
        #[trigger] after.blocks[i]).pre matches Some(pre) ==> pre < i && after.blocks[pre as int].src
            == after.blocks[i].src) by {
            assert(room.blocks[i].pre == after.blocks[i].pre);
        }
        assert forall|i: int| 0 <= i < after.vertices.len() implies ((
        #[trigger] after.vertices[i]).block_offset != NO_BLOCK ==> after.vertices[i].block_offset
            < after.blocks.len() && after.blocks[after.vertices[i].block_offset as int].src
            == after.vertices[i].vid) by {
            assert(room.vertices[i] == after.vertices[i]);
        }
    }
}

/// Every edge that an iteration over a vertex gives starts at that vertex.
pub proof fn law_adjacency_source(view: OlapView, b: usize, o: usize)
    requires
        sources_ok(view),
        b < view.blocks.len(),
        view.blocks.len() < NO_BLOCK,
    ensures
        view.next_adjacent(b, o).0 ==> {
            let found = view.next_adjacent(b, o);
            &&& found.1 <= b
            &&& view.edge_at(found.1 as int, found.2 as int).src == view.blocks[b as int].src
            &&& !view.blocks[found.1 as int].tombstone
            &&& view.blocks[found.1 as int].edges[found.2 as int] != empty_slot()
        },
    decreases b,
{
    let block = view.blocks[b as int];
    if let Some(pre) = block.pre {
        if block.tombstone {
            law_adjacency_source(view, pre, o);
        } else {
            law_adjacency_source(view, pre, 0);
            law_adjacency_source(view, pre, o);
        }
    }
}

/// Whether a block is among those of a chain, from its last block `b` on.
pub open spec fn on_chain(view: OlapView, b: usize, c: usize) -> bool
    decreases b,
{
    b < view.blocks.len() && (c == b || (view.blocks[b as int].pre matches Some(pre) && pre < b
        && on_chain(view, pre, c)))
}

/// Whether no edge in the blocks of a chain, from its last block `b` on, looks like an empty slot.
pub open spec fn edges_told_apart(view: OlapView, b: usize) -> bool {
    forall|c: usize, o: int|
        #![trigger on_chain(view, b, c), view.blocks[c as int].edges[o]]
        on_chain(view, b, c) && !view.blocks[c as int].tombstone && 0 <= o
            < view.blocks[c as int].count ==> view.blocks[c as int].edges[o] != empty_slot()
}

/// The slots of a chain of blocks that hold an edge: those of block `b` from the `o`th on, and
/// then those of each block before it. Deleted blocks hold none.
pub open spec fn slots_from(view: OlapView, b: usize, o: usize) -> Seq<(usize, usize)>
    decreases b,
{
    if b >= view.blocks.len() {
        Seq::empty()
    } else {
        let block = view.blocks[b as int];
        let own = if block.tombstone || o > block.count {
            Seq::empty()
        } else {
            Seq::new((block.count - o) as nat, |i: int| (b, (o + i) as usize))
        };
        match block.pre {
            Some(pre) => if pre < b {
                own + slots_from(view, pre, 0)
            } else {
                own
            },
            None => own,
        }
    }
}

/// Whether an iterator over the edges of a vertex that starts at the first position is called
/// until it is at its end: the positions it is at, and the slots whose edges it gives.
pub open spec fn is_adjacency_walk(
    view: OlapView,
    positions: Seq<(usize, usize)>,
    slots: Seq<(usize, usize)>,
) -> bool {
    &&& positions.len() == slots.len() + 1
    &&& forall|i: int|
        0 <= i < slots.len() ==> view.next_adjacent(positions[i].0, positions[i].1) == (
            true,
            (#[trigger] slots[i]).0,
            slots[i].1,
        ) && positions[i + 1].0 == slots[i].0 && positions[i + 1].1 == slots[i].1 + 1
    &&& !view.next_adjacent(positions.last().0, positions.last().1).0
}

spec fn is_position(view: OlapView, b: usize, o: usize) -> bool {
    b < view.blocks.len() ==> {
        let block = view.blocks[b as int];
        if block.tombstone {
            o == 0
        } else {
            o <= block.count
        }
    }
}

proof fn lemma_chain_further(view: OlapView, start: usize, b: usize)
    requires
        view.wf(),
        on_chain(view, start, b),
        view.blocks[b as int].pre is Some,
    ensures
        on_chain(view, start, view.blocks[b as int].pre->0),
    decreases start,
{
    lemma_on_chain(view, start, b);
    if start != b {
        lemma_chain_further(view, view.blocks[start as int].pre->0, b);
    } else {
        let pre = view.blocks[b as int].pre->0;
        assert(on_chain(view, pre, pre));
    }
}

proof fn lemma_next_slot_from(view: OlapView, start: usize, b: usize, o: usize)
    requires
        view.wf(),
        edges_told_apart(view, start),
        is_position(view, b, o),
        b < view.blocks.len() ==> on_chain(view, start, b),
    ensures
        ({
            let found = view.next_adjacent(b, o);
            let rest = slots_from(view, b, o);
            &&& found.0 == (rest.len() > 0)
            &&& found.0 ==> {
                &&& rest[0] == (found.1, found.2)
                &&& found.2 < BLOCK_CAPACITY
                &&& on_chain(view, start, found.1)
                &&& is_position(view, found.1, (found.2 + 1) as usize)
                &&& slots_from(view, found.1, (found.2 + 1) as usize) == rest.drop_first()
            }
        }),
    decreases b,
{
    if b < view.blocks.len() {
        let block = view.blocks[b as int];
        assert(block_ok(block));
        if block.tombstone || o == block.count {
            if !block.tombstone && o < BLOCK_CAPACITY {
                assert(block.edges[o as int] == empty_slot());
            }
            if let Some(pre) = block.pre {
                lemma_chain_further(view, start, b);
                lemma_next_slot_from(view, start, pre, 0);
                assert(slots_from(view, b, o) =~= slots_from(view, pre, 0));
            }
        } else {
            assert(block.edges[o as int] != empty_slot());
            assert(view.next_adjacent(b, o) == (true, b, o));
            assert(slots_from(view, b, (o + 1) as usize) =~= slots_from(view, b, o).drop_first());
        }
    }
}

proof fn lemma_adjacency_walk(
    view: OlapView,
    start: usize,
    positions: Seq<(usize, usize)>,
    slots: Seq<(usize, usize)>,
)
    requires
        view.wf(),
        edges_told_apart(view, start),
        is_adjacency_walk(view, positions, slots),
        is_position(view, positions[0].0, positions[0].1),
        positions[0].0 < view.blocks.len() ==> on_chain(view, start, positions[0].0),
    ensures
        slots == slots_from(view, positions[0].0, positions[0].1),
    decreases slots.len(),
{
    let rest = slots_from(view, positions[0].0, positions[0].1);
    lemma_next_slot_from(view, start, positions[0].0, positions[0].1);
    if slots.len() > 0 {
        let next = slots[0];
        assert(positions[1].0 == next.0 && positions[1].1 == next.1 + 1);
        assert forall|i: int| 0 <= i < slots.drop_first().len() implies view.next_adjacent(
            positions.drop_first()[i].0,
            positions.drop_first()[i].1,
        ) == (true, (#[trigger] slots.drop_first()[i]).0, slots.drop_first()[i].1)
            && positions.drop_first()[i + 1].0 == slots.drop_first()[i].0
            && positions.drop_first()[i + 1].1 == slots.drop_first()[i].1 + 1 by {
            assert(slots.drop_first()[i] == slots[i + 1]);
        }
        lemma_adjacency_walk(view, start, positions.drop_first(), slots.drop_first());
        assert(slots =~= seq![next] + slots.drop_first());
        assert(rest =~= seq![rest[0]] + rest.drop_first());
    } else {
        assert(slots =~= rest);
    }
}

/// An iterator over the edges of a vertex that is called until its end gives the edge of every
/// slot of the blocks of the vertex that holds one and was not deleted, each once: the blocks from
/// the last to the first, and in each block the edges in their order.
pub proof fn law_adjacency_complete(
    view: OlapView,
    positions: Seq<(usize, usize)>,
    slots: Seq<(usize, usize)>,
)
    requires
        view.wf(),
        edges_told_apart(view, positions[0].0),
        is_adjacency_walk(view, positions, slots),
        positions[0].1 == 0,
    ensures
        forall|c: usize, o: usize| #[trigger]
            slots.contains((c, o)) <==> on_chain(view, positions[0].0, c)
                && !view.blocks[c as int].tombstone && o < view.blocks[c as int].count,
        slots.no_duplicates(),
        forall|i: int, j: int|
            0 <= i < j < slots.len() ==> (#[trigger] slots[j]).0 < (#[trigger] slots[i]).0 || (
            slots[j].0 == slots[i].0 && slots[i].1 < slots[j].1 && !edge_before(
                view.blocks[slots[i].0 as int].edges[slots[j].1 as int],
                view.blocks[slots[i].0 as int].edges[slots[i].1 as int],
            )),
{
    lemma_adjacency_walk(view, positions[0].0, positions, slots);
    lemma_slots_from(view, positions[0].0);
    assert forall|i: int, j: int| 0 <= i < j < slots.len() implies (#[trigger] slots[j]).0 < (
    #[trigger] slots[i]).0 || (slots[j].0 == slots[i].0 && slots[i].1 < slots[j].1 && !edge_before(
        view.blocks[slots[i].0 as int].edges[slots[j].1 as int],
        view.blocks[slots[i].0 as int].edges[slots[i].1 as int],
    )) by {
        assert(slots.contains((slots[i].0, slots[i].1)));
        assert(slots.contains((slots[j].0, slots[j].1)));
        assert(slots[i].0 < view.blocks.len()) by {
            lemma_on_chain(view, positions[0].0, slots[i].0);
        }
        assert(block_ok(view.blocks[slots[i].0 as int]));
    }
}

proof fn lemma_on_chain(view: OlapView, b: usize, c: usize)
    requires
        on_chain(view, b, c),
    ensures
        c <= b < view.blocks.len(),
    decreases b,
{
    if c != b {
        lemma_on_chain(view, view.blocks[b as int].pre->0, c);
    }
}

proof fn lemma_slots_from(view: OlapView, b: usize)
    requires
        view.wf(),
    ensures
        forall|c: usize, o: usize| #[trigger]
            slots_from(view, b, 0).contains((c, o)) <==> on_chain(view, b, c)
                && !view.blocks[c as int].tombstone && o < view.blocks[c as int].count,
        forall|i: int, j: int|
            0 <= i < j < slots_from(view, b, 0).len() ==> (#[trigger] slots_from(view, b, 0)[j]).0
                < (#[trigger] slots_from(view, b, 0)[i]).0 || (slots_from(view, b, 0)[j].0
                == slots_from(view, b, 0)[i].0 && slots_from(view, b, 0)[i].1 < slots_from(
                view,
                b,
                0,
            )[j].1),
    decreases b,
{
    let slots = slots_from(view, b, 0);
    if b < view.blocks.len() {
        let block = view.blocks[b as int];
        assert(block_ok(block));
        let own: Seq<(usize, usize)> = if block.tombstone {
            Seq::empty()
        } else {
            Seq::new(block.count as nat, |i: int| (b, i as usize))
        };
        let before = match block.pre {
            Some(pre) => slots_from(view, pre, 0),
            None => Seq::empty(),
        };
        if let Some(pre) = block.pre {
            lemma_slots_from(view, pre);
        }
        assert(slots =~= own + before);
        assert forall|c: usize, o: usize| before.contains((c, o)) implies c < b by {
            lemma_on_chain(view, block.pre->0, c);
        }
        assert forall|c: usize, o: usize| #[trigger] slots.contains((c, o)) <==> on_chain(view, b, c)
            && !view.blocks[c as int].tombstone && o < view.blocks[c as int].count by {
            if slots.contains((c, o)) {
                let i = choose|i: int| 0 <= i < slots.len() && slots[i] == (c, o);
                if i >= own.len() {
                    assert(before[i - own.len()] == (c, o));
                    assert(before.contains((c, o)));
                }
            }
            if on_chain(view, b, c) && !view.blocks[c as int].tombstone && o
                < view.blocks[c as int].count {
                if c == b {
                    assert(slots[o as int] == (c, o));
                } else {
                    assert(before.contains((c, o)));
                    let i = choose|i: int| 0 <= i < before.len() && before[i] == (c, o);
                    assert(slots[own.len() + i] == (c, o));
                }
            }
        }
        assert forall|i: int, j: int| 0 <= i < j < slots.len() implies (#[trigger] slots[j]).0 < (
        #[trigger] slots[i]).0 || (slots[j].0 == slots[i].0 && slots[i].1 < slots[j].1) by {
            if j >= own.len() {
                let later = before[j - own.len()];
                assert(before.contains((later.0, later.1)));
                if i >= own.len() {
                    let earlier = before[i - own.len()];
                    assert(before.contains((earlier.0, earlier.1)));
                }
            }
        }
    }
}

proof fn lemma_position_bounds(
    edges: Seq<OlapStorageEdge>,
    count: nat,
    edge: OlapStorageEdge,
    i: nat,
)
    requires
        i <= count,
    ensures
        i <= insert_position(edges, count, edge, i) <= count,
    decreases count - i,
{
    if i < count {
        lemma_position_bounds(edges, count, edge, i + 1);
    }
}

/// A block with one more edge holds the edges that it held, in the same order, and the new one.
pub proof fn law_edge_inserted(block: BlockView, edge: OlapStorageEdge)
    requires
        block_ok(block),
        block.count < BLOCK_CAPACITY,
    ensures
        ({
            let at = insert_position(block.edges, block.count as nat, edge, 0);
            let after = block_with(block, edge);
            &&& at <= block.count
            &&& after.count == block.count + 1
            &&& after.edges.take(after.count as int) == block.edges.take(block.count as int).insert(
                at as int,
                edge,
            )
        }),
{
    lemma_position_bounds(block.edges, block.count as nat, edge, 0);
    let at = insert_position(block.edges, block.count as nat, edge, 0);
    let after = block_with(block, edge);
    assert(after.edges.take(after.count as int) =~= block.edges.take(block.count as int).insert(
        at as int,
        edge,
    ));
}

/// Removing the edge that was just inserted gives the edges back that were there before.
pub proof fn law_insert_then_remove(block: BlockView, edge: OlapStorageEdge)
    requires
        block_ok(block),
        0 < block.count < BLOCK_CAPACITY,
    ensures
        ({
            let at = insert_position(block.edges, block.count as nat, edge, 0);
            let after = block_without(block_with(block, edge), at as int);
            after.edges == block.edges && after.count == block.count && after.tombstone
                == block.tombstone
        }),
{
    lemma_position_bounds(block.edges, block.count as nat, edge, 0);
    let at = insert_position(block.edges, block.count as nat, edge, 0);
    let after = block_without(block_with(block, edge), at as int);
    assert(after.edges =~= block.edges);
}

proof fn lemma_slot_with(edges: Seq<OlapStorageEdge>, label: Option<LabelId>, i: int, at: int)
    requires
        0 <= i <= at < edges.len(),
        edges[at].label_id == label,
    ensures
        slot_with(edges, label, i) is Some,
    decreases at - i,
{
    if i < at && edges[i].label_id != label {
        lemma_slot_with(edges, label, i + 1, at);
    }
}

proof fn lemma_labelled(view: OlapView, label: Option<LabelId>, b: int, at: int)
    requires
        0 <= b <= at < view.blocks.len(),
        !view.blocks[at].tombstone,
        !label_before(label, view.blocks[at].min_label),
        !label_before(view.blocks[at].max_label, label),
        slot_with(view.blocks[at].edges, label, 0) is Some,
    ensures
        view.labelled(label, b) is Some,
    decreases at - b,
{
    if b < at {
        lemma_labelled(view, label, b + 1, at);
    }
}

/// An edge that was created in a block that is not deleted is found by its label.
pub proof fn law_created_edge_found(view: OlapView, edge: OlapEdge)
    requires
        view.wf(),
        view.blocks.len() + 1 < NO_BLOCK,
        view.with_edge(edge) is Ok,
        ({
            let position = view.position(edge.src_id)->0;
            let room = view.with_room(position, edge.src_id)->Ok_0;
            !room.blocks[room.vertices[position].block_offset as int].tombstone
        }),
    ensures
        view.with_edge(edge)->Ok_0.labelled(edge.label_id, 0) is Some,
{
    let position = view.position(edge.src_id)->0;
    let room = view.with_room(position, edge.src_id)->Ok_0;
    let at = room.vertices[position].block_offset as int;
    let block = room.blocks[at];
    let stored = OlapStorageEdge { label_id: edge.label_id, dst_id: edge.dst_id };
    let after = view.with_edge(edge)->Ok_0;
    assert(after.blocks[at] == block_with(block, stored));
    lemma_position_bounds(block.edges, block.count as nat, stored, 0);
    let slot = insert_position(block.edges, block.count as nat, stored, 0);
    assert(after.blocks[at].edges[slot as int] == stored);
    lemma_slot_with(after.blocks[at].edges, edge.label_id, 0, slot as int);
    lemma_labelled(after, edge.label_id, 0, at);
}

/// The number whose bits are given, lowest first.
pub open spec fn number(bits: Seq<bool>) -> nat
    decreases bits.len(),
{
    if bits.len() == 0 {
        0
    } else {
        (if bits[0] {
            1nat
        } else {
            0
        }) + 2 * number(bits.drop_first())
    }
}

/// The destination of an edge of a compressed block: the first, and the differences up to it.
pub open spec fn unpacked_dst(block: CompressedView, i: nat) -> int
    decreases i,
{
    if i == 0 {
        block.first_dst as int
    } else {
        unpacked_dst(block, (i - 1) as nat) + number(
            block.bits.subrange((i - 1) * block.width, i * block.width),
        )
    }
}

proof fn lemma_number_of_low_bits(n: nat, width: nat)
    requires
        n < vstd::arithmetic::power2::pow2(width),
    ensures
        number(low_bits(n, width)) == n,
        low_bits(n, width).len() == width,
    decreases width,
{
    vstd::arithmetic::power2::lemma2_to64();
    if width > 0 {
        vstd::arithmetic::power2::lemma_pow2_unfold(width);
        lemma_number_of_low_bits(n / 2, (width - 1) as nat);
        assert(low_bits(n, width).drop_first() =~= low_bits(n / 2, (width - 1) as nat));
    }
}

proof fn lemma_bits_needed(n: u64, m: u64)
    requires
        m <= n,
    ensures
        1 <= bits_needed(n) <= 64,
        (m as nat) < vstd::arithmetic::power2::pow2(bits_needed(n) as nat),
{
    vstd::std_specs::bits::axiom_u64_leading_zeros(n);
    vstd::arithmetic::power2::lemma2_to64();
    vstd::arithmetic::power2::lemma2_to64_rest();
    let width = bits_needed(n);
    if n != 0 && width < 64 {
        let shift = width as u64;
        vstd::bits::lemma_u64_shr_is_div(n, shift);
        vstd::arithmetic::power2::lemma_pow2_pos(width as nat);
        let p = vstd::arithmetic::power2::pow2(width as nat);
        assert((n as nat) < p) by (nonlinear_arith)
            requires
                n as nat / p == 0,
                p > 0,
        ;
    }
}

proof fn lemma_max_delta(edges: Seq<OlapStorageEdge>, i: int, least: u64, count: int, k: int)
    requires
        1 <= i,
        count <= edges.len(),
        forall|j: int| 1 <= j < count ==> (#[trigger] edges[j]).dst_id != 1,
        forall|j: int| 1 <= j < count ==> (#[trigger] edges[j]).dst_id >= edges[j - 1].dst_id,
        1 <= k < count,
    ensures
        max_delta(edges, i, least) >= least,
        i <= k ==> max_delta(edges, i, least) >= delta_at(edges, k),
    decreases edges.len() - i,
{
    if i < edges.len() && edges[i].dst_id != 1 {
        let delta = (edges[i].dst_id - edges[i - 1].dst_id) as u64;
        let next = if delta >= least {
            delta
        } else {
            least
        };
        lemma_max_delta(edges, i + 1, next, count, k);
    }
}

proof fn lemma_delta_bits_at(edges: Seq<OlapStorageEdge>, width: nat, n: nat, k: nat)
    requires
        1 <= k <= n,
    ensures
        delta_bits(edges, width, n).len() == n * width,
        0 <= (k - 1) * width <= k * width <= n * width,
        delta_bits(edges, width, n).subrange((k - 1) * width, (k * width) as int) == low_bits(
            delta_at(edges, k as int),
            width,
        ),
    decreases n,
{
    lemma_bits_len(edges, width, n);
    lemma_bits_len(edges, width, (n - 1) as nat);
    lemma_low_len(delta_at(edges, n as int), width);
    assert(0 <= (k - 1) * width <= k * width <= n * width) by (nonlinear_arith)
        requires
            1 <= k <= n,
    ;
    let front = delta_bits(edges, width, (n - 1) as nat);
    if k < n {
        lemma_delta_bits_at(edges, width, (n - 1) as nat, k);
        assert(delta_bits(edges, width, n).subrange((k - 1) * width, (k * width) as int)
            =~= front.subrange((k - 1) * width, (k * width) as int));
    } else {
        assert(n * width == (n - 1) * width + width) by (nonlinear_arith);
        assert(delta_bits(edges, width, n).subrange((k - 1) * width, (k * width) as int) =~= low_bits(
            delta_at(edges, n as int),
            width,
        ));
    }
}

proof fn lemma_low_len(n: nat, width: nat)
    ensures
        low_bits(n, width).len() == width,
    decreases width,
{
    if width > 0 {
        lemma_low_len(n / 2, (width - 1) as nat);
    }
}

proof fn lemma_bits_len(edges: Seq<OlapStorageEdge>, width: nat, n: nat)
    ensures
        delta_bits(edges, width, n).len() == n * width,
    decreases n,
{
    if n > 0 {
        lemma_bits_len(edges, width, (n - 1) as nat);
        lemma_low_len(delta_at(edges, n as int), width);
        assert(n * width == (n - 1) * width + width) by (nonlinear_arith);
    } else {
        assert(0 * width == 0) by (nonlinear_arith);
    }
}

/// A compressed block still tells every edge: the destinations are the first one and the sums of
/// the differences, and the labels are there. Left out are blocks in which an edge behind the
/// first leads to the vertex whose number marks an empty slot.
pub proof fn law_compressed_edges(block: BlockView, index: usize, i: nat)
    requires
        block_ok(block),
        i < block.count,
        forall|j: int| 1 <= j < block.count ==> (#[trigger] block.edges[j]).dst_id != 1,
    ensures
        unpacked_dst(compressed_block(block, index), i) == block.edges[i as int].dst_id,
        compressed_block(block, index).labels[i as int] == block.edges[i as int].label_id,
    decreases i,
{
    if i > 0 {
        law_compressed_edges(block, index, (i - 1) as nat);
        let packed = compressed_block(block, index);
        let count = block.count as int;
        let width = packed.width as nat;
        assert forall|j: int| 1 <= j < count implies (#[trigger] block.edges[j]).dst_id
            >= block.edges[j - 1].dst_id by {
            assert(!edge_before(block.edges[j], block.edges[j - 1]));
        }
        lemma_max_delta(block.edges, 1, 0, count, i as int);
        let greatest = max_delta(block.edges, 1, 0);
        let delta = delta_at(block.edges, i as int);
        lemma_bits_needed(greatest, delta as u64);
        lemma_number_of_low_bits(delta, width);
        lemma_delta_bits_at(block.edges, width, (block.count - 1) as nat, i);
    }
}

/// The values that a compressed block of property values tells, read by its bitmap.
pub open spec fn unpacked_value(block: CompressedValues, i: int) -> Option<ScalarValue> {
    if block.bitmap[i] {
        Some(block.values[ones(block.bitmap, 0, i) as int])
    } else {
        None
    }
}

proof fn lemma_present_values(values: Seq<Option<ScalarValue>>, n: int, i: int)
    requires
        0 <= i < n <= values.len() <= BLOCK_CAPACITY,
        values[i] is Some,
    ensures
        ones(compressed_values(values).bitmap, 0, i) < present_values(values, n).len(),
        present_values(values, n)[ones(compressed_values(values).bitmap, 0, i) as int]
            == values[i]->0,
    decreases n,
{
    lemma_present_len(values, n - 1);
    if i < n - 1 {
        lemma_present_values(values, n - 1, i);
    }
}

proof fn lemma_present_len(values: Seq<Option<ScalarValue>>, n: int)
    requires
        0 <= n <= values.len() <= BLOCK_CAPACITY,
    ensures
        present_values(values, n).len() == ones(compressed_values(values).bitmap, 0, n),
    decreases n,
{
    if n > 0 {
        lemma_present_len(values, n - 1);
    }
}

/// A compressed block of property values still tells every value, and the missing ones.
pub proof fn law_compressed_values(values: Seq<Option<ScalarValue>>, i: int)
    requires
        values.len() <= BLOCK_CAPACITY,
        0 <= i < values.len(),
    ensures
        unpacked_value(compressed_values(values), i) == values[i],
{
    if values[i] is Some {
        lemma_present_values(values, values.len() as int, i);
    }
}

proof fn lemma_ones_split(bitmap: Seq<bool>, start: int, middle: int, end: int)
    requires
        start <= middle <= end,
    ensures
        ones(bitmap, start, end) == ones(bitmap, start, middle) + ones(bitmap, middle, end),
    decreases end - middle,
{
    if middle < end {
        lemma_ones_split(bitmap, start, middle, end - 1);
    }
}

/// The sum of the first `n` entries.
pub open spec fn offset_sum(offsets: Seq<u8>, n: int) -> nat
    decreases n,
{
    if n <= 0 {
        0
    } else {
        offset_sum(offsets, n - 1) + offsets[n - 1] as nat
    }
}

/// The offsets of a compressed block of property values tell how many values stand before each
/// run of sixteen.
pub proof fn law_compressed_offsets(values: Seq<Option<ScalarValue>>, run: int)
    requires
        values.len() <= BLOCK_CAPACITY,
        0 <= run <= 16,
    ensures
        offset_sum(compressed_values(values).offsets, run) == ones(
            compressed_values(values).bitmap,
            0,
            run * 16,
        ),
    decreases run,
{
    if run > 0 {
        law_compressed_offsets(values, run - 1);
        let bitmap = compressed_values(values).bitmap;
        lemma_ones_split(bitmap, 0, (run - 1) * 16, run * 16);
        lemma_ones_small(bitmap, (run - 1) * 16, run * 16);
    }
}

proof fn lemma_ones_small(bitmap: Seq<bool>, start: int, end: int)
    requires
        start <= end,
    ensures
        ones(bitmap, start, end) <= end - start,
    decreases end - start,
{
    if start < end {
        lemma_ones_small(bitmap, start, end - 1);
    }
}

} // verus!
