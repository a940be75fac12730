//! The operations of the analytical storage that delete or change vertices and edges.

use vstd::prelude::*;

use super::model::{
    EdgeBlock, OlapStorage, OlapStorageEdge, OlapVertex, OlapView, PropertyColumn, BLOCK_CAPACITY,
};
#[allow(unused_imports)]
use super::model::{
    block_ok, blocks_view, columns_view, edge_before, empty_slot, in_order, BlockView,
};
use crate::collections::dash::dash_map_get;
use crate::common::text::with_number;
#[allow(unused_imports)]
use crate::common::text::digits;
use crate::common::types::{LabelId, VertexId};
use crate::common::value::ScalarValue;
#[allow(unused_imports)]
use crate::storage::error::ErrorView;
use crate::storage::error::{edge_not_found, vertex_not_found, StorageResult};

verus! {

/// The position of the first vertex with an identifier from the `i`th on.
pub open spec fn first_vertex(vertices: Seq<OlapVertex>, vid: VertexId, i: int) -> Option<int>
    decreases vertices.len() - i,
{
    if i < 0 || i >= vertices.len() {
        None
    } else if vertices[i].vid == vid {
        Some(i)
    } else {
        first_vertex(vertices, vid, i + 1)
    }
}

/// Marks a block as deleted, and with it all blocks before it in its chain.
pub open spec fn buried(blocks: Seq<BlockView>, at: Option<usize>) -> Seq<BlockView>
    decreases
            match at {
                Some(b) => b + 1,
                None => 0,
            },
{
    match at {
        None => blocks,
        Some(b) => {
            let pre = blocks[b as int].pre;
            let marked = blocks.update(b as int, BlockView { tombstone: true, ..blocks[b as int] });
            if pre matches Some(p) && p >= b {
                marked
            } else {
                buried(marked, pre)
            }
        },
    }
}

/// The block without the edge in a slot. The last edge only leaves the count; the block is then
/// marked as deleted.
pub open spec fn block_without(block: BlockView, offset: int) -> BlockView {
    let count = block.count - 1;
    if count == 0 {
        BlockView { count: 0, tombstone: true, ..block }
    } else {
        BlockView {
            count: count as usize,
            edges: Seq::new(
                block.edges.len(),
                |i: int|
                    if offset <= i < count {
                        block.edges[i + 1]
                    } else if i == count {
                        empty_slot()
                    } else {
                        block.edges[i]
                    },
            ),
            ..block
        }
    }
}

/// The column without the value of a slot: the values behind it move down, and a missing value
/// goes last.
pub open spec fn column_without(
    column: Seq<Seq<Option<ScalarValue>>>,
    block: int,
    offset: int,
) -> Seq<Seq<Option<ScalarValue>>> {
    column.update(block, column[block].remove(offset).push(None))
}

/// The properties after the first `n` of the given values were set.
pub open spec fn with_properties(
    properties: Seq<ScalarValue>,
    indices: Seq<usize>,
    props: Seq<ScalarValue>,
    n: nat,
) -> Seq<ScalarValue>
    decreases n,
{
    if n == 0 {
        properties
    } else {
        with_properties(properties, indices, props, (n - 1) as nat).update(
            indices[n - 1] as int,
            props[n - 1],
        )
    }
}

/// The columns after the first `n` of the given values were set for a slot.
pub open spec fn with_slot_values(
    columns: Seq<Seq<Seq<Option<ScalarValue>>>>,
    block: int,
    offset: int,
    indices: Seq<usize>,
    props: Seq<ScalarValue>,
    n: nat,
) -> Seq<Seq<Seq<Option<ScalarValue>>>>
    decreases n,
{
    if n == 0 {
        columns
    } else {
        let before = with_slot_values(columns, block, offset, indices, props, (n - 1) as nat);
        let column = before[indices[n - 1] as int];
        before.update(
            indices[n - 1] as int,
            column.update(block, column[block].update(offset, Some(props[n - 1]))),
        )
    }
}

/// The number of pairs of two sequences.
pub open spec fn pairs(a: nat, b: nat) -> nat {
    if a <= b {
        a
    } else {
        b
    }
}

impl OlapView {
    /// The first slot with a label, in the order of iteration, at or behind a position.
    pub open spec fn find_edge(self, label: Option<LabelId>, b: int, o: int) -> Option<(int, int)>
        decreases self.blocks.len() - b, BLOCK_CAPACITY - o,
    {
        if !(0 <= b && 0 <= o) {
            None
        } else {
            match self.next_slot(b, o) {
                None => None,
                Some((b2, o2)) => if b2 < b || b2 >= self.blocks.len() || o2 >= BLOCK_CAPACITY || (
                b2 == b && o2 < o) {
                    None
                } else if self.blocks[b2].edges[o2].label_id == label {
                    Some((b2, o2))
                } else {
                    self.find_edge(label, b2, o2 + 1)
                },
            }
        }
    }

    /// The storage without the edge in a slot.
    pub open spec fn without_edge(self, b: int, o: int) -> OlapView {
        if self.blocks[b].count == 1 {
            OlapView { blocks: self.blocks.update(b, block_without(self.blocks[b], o)), ..self }
        } else {
            OlapView {
                blocks: self.blocks.update(b, block_without(self.blocks[b], o)),
                columns: self.columns.map_values(
                    |column: Seq<Seq<Option<ScalarValue>>>| column_without(column, b, o),
                ),
                ..self
            }
        }
    }
}

proof fn lemma_next_slot(view: OlapView, b: int, o: int)
    requires
        0 <= b,
        0 <= o,
    ensures
        view.next_slot(b, o) matches Some((b2, o2)) ==> {
            &&& b <= b2 < view.blocks.len()
            &&& 0 <= o2 < BLOCK_CAPACITY
            &&& b2 == b ==> o2 == o
            &&& !view.blocks[b2].tombstone
            &&& view.blocks[b2].edges[o2] != empty_slot()
        },
    decreases view.blocks.len() - b,
{
    if b < view.blocks.len() {
        lemma_next_slot(view, b + 1, 0);
    }
}

proof fn lemma_find_edge(view: OlapView, label: Option<LabelId>, b: int, o: int)
    requires
        0 <= b,
        0 <= o,
    ensures
        view.find_edge(label, b, o) matches Some((b2, o2)) ==> {
            &&& b <= b2 < view.blocks.len()
            &&& 0 <= o2 < BLOCK_CAPACITY
            &&& !view.blocks[b2].tombstone
            &&& view.blocks[b2].edges[o2] != empty_slot()
            &&& view.blocks[b2].edges[o2].label_id == label
        },
    decreases view.blocks.len() - b, BLOCK_CAPACITY - o,
{
    lemma_next_slot(view, b, o);
    if let Some((b2, o2)) = view.next_slot(b, o) {
        if view.blocks[b2].edges[o2].label_id != label {
            lemma_find_edge(view, label, b2, o2 + 1);
        }
    }
}

/// A well formed block is well formed without one of its edges.
pub proof fn lemma_block_without(block: BlockView, offset: int)
    requires
        block_ok(block),
        0 <= offset < block.count,
    ensures
        block_ok(block_without(block, offset)),
{
    let after = block_without(block, offset);
    assert forall|i: int, j: int| 0 <= i <= j < after.count implies !edge_before(
        #[trigger] after.edges[j],
        #[trigger] after.edges[i],
    ) by {
        let old_j = if j >= offset {
            j + 1
        } else {
            j
        };
        let old_i = if i >= offset {
            i + 1
        } else {
            i
        };
        assert(!edge_before(block.edges[old_j], block.edges[old_i]));
    }
}

proof fn lemma_buried(blocks: Seq<BlockView>, at: Option<usize>)
    requires
        at matches Some(b) ==> b < blocks.len(),
        forall|i: int| 0 <= i < blocks.len() ==> block_ok(#[trigger] blocks[i]),
        forall|i: int|
            0 <= i < blocks.len() ==> ((#[trigger] blocks[i]).pre matches Some(pre) ==> pre < i),
    ensures
        buried(blocks, at).len() == blocks.len(),
        forall|i: int| 0 <= i < blocks.len() ==> block_ok(#[trigger] buried(blocks, at)[i]),
        forall|i: int|
            0 <= i < blocks.len() ==> (#[trigger] buried(blocks, at)[i]).pre == blocks[i].pre,
    decreases
            match at {
                Some(b) => b + 1,
                None => 0,
            },
{
    if let Some(b) = at {
        assert(block_ok(blocks[b as int]));
        let marked = blocks.update(b as int, BlockView { tombstone: true, ..blocks[b as int] });
        lemma_buried(marked, blocks[b as int].pre);
    }
}

impl EdgeBlock {
    /// Removes the edge in a slot.
    fn remove(&mut self, offset: usize)
        requires
            old(self)@.edges.len() == BLOCK_CAPACITY,
            offset < old(self)@.count <= BLOCK_CAPACITY,
        ensures
            final(self)@ == block_without(old(self)@, offset as int),
    {
        let count: usize = self.edge_counter - 1;
        self.edge_counter = count;
        if count == 0 {
            self.is_tombstone = true;
            return;
        }
        let mut i: usize = offset;
        while i < count
            invariant
                offset <= i <= count < BLOCK_CAPACITY,
                old(self)@.edges.len() == BLOCK_CAPACITY,
                self@ == (BlockView { edges: self@.edges, count, ..old(self)@ }),
                self@.edges.len() == BLOCK_CAPACITY,
                forall|j: int|
                    0 <= j < BLOCK_CAPACITY ==> #[trigger] self@.edges[j] == if offset <= j < i {
                        old(self)@.edges[j + 1]
                    } else {
                        old(self)@.edges[j]
                    },
            decreases count - i,
        {
            let moved = self.edges[i + 1];
            self.edges[i] = moved;
            i = i + 1;
        }
        let slot = OlapStorageEdge::default();
        self.edges[count] = slot;
        assert(self@.edges =~= block_without(old(self)@, offset as int).edges);
    }
}

impl OlapStorage {
    /// The first slot with a label, in the order of iteration.
    fn seek_edge(&self, eid: Option<LabelId>) -> (slot: Option<(usize, usize)>)
        ensures
            match self@.find_edge(eid, 0, 0) {
                Some((b, o)) => slot matches Some(found) && found.0 == b && found.1 == o,
                None => slot is None,
            },
    {
        let mut b: usize = 0;
        let mut o: usize = 0;
        loop
            invariant
                o <= BLOCK_CAPACITY,
                self@.find_edge(eid, 0, 0) == self@.find_edge(eid, b as int, o as int),
            decreases self@.blocks.len() - b, BLOCK_CAPACITY - o,
        {
            proof {
                lemma_next_slot(self@, b as int, o as int);
            }
            match self.find_slot(b, o) {
                None => {
                    return None;
                },
                Some((b2, o2)) => {
                    assert(self@.blocks[b2 as int] == self.edges@[b2 as int]@);
                    if self.edges[b2].edges[o2].label_id == eid {
                        return Some((b2, o2));
                    }
                    b = b2;
                    o = o2 + 1;
                },
            }
        }
    }

    /// Deletes a vertex and marks its blocks as deleted.
    ///
    /// The positions that other vertices are found at are left as they are.
    pub fn delete_vertex(&mut self, _txn: &(), vid: VertexId) -> (result: StorageResult<()>)
        requires
            old(self)@.wf(),
            first_vertex(old(self)@.vertices, vid, 0) matches Some(i)
                ==> old(self)@.vertices[i].block_offset < old(self)@.blocks.len(),
        ensures
            final(self)@.wf(),
            match first_vertex(old(self)@.vertices, vid, 0) {
                Some(i) => {
                    &&& result is Ok
                    &&& final(self)@ == (OlapView {
                        vertices: old(self)@.vertices.remove(i),
                        blocks: buried(
                            old(self)@.blocks,
                            Some(old(self)@.vertices[i].block_offset),
                        ),
                        ..old(self)@
                    })
                },
                None => {
                    &&& result matches Err(error) && error@ == ErrorView::VertexNotFound(
                        "Vertex "@ + digits(vid as nat) + " not found"@,
                    )
                    &&& final(self)@ == old(self)@
                },
            },
    {
        let mut i: usize = 0;
        while i < self.vertices.len() && self.vertices[i].vid != vid
            invariant
                i <= self.vertices@.len(),
                first_vertex(self@.vertices, vid, 0) == first_vertex(self@.vertices, vid, i as int),
            decreases self.vertices@.len() - i,
        {
            i = i + 1;
        }
        if i >= self.vertices.len() {
            return Err(vertex_not_found(with_number("Vertex ", vid, " not found")));
        }
        let vertex = self.vertices.remove(i);
        let ghost removed = self@;
        let mut current: Option<usize> = Some(vertex.block_offset);
        proof {
            lemma_buried(self@.blocks, current);
        }
        loop
            invariant
                self@ == (OlapView { blocks: self@.blocks, ..removed }),
                self@.blocks.len() == removed.blocks.len(),
                current matches Some(b) ==> b < self@.blocks.len(),
                forall|j: int|
                    0 <= j < self@.blocks.len() ==> ((#[trigger] self@.blocks[j]).pre matches Some(
                        pre,
                    ) ==> pre < j),
                buried(removed.blocks, Some(vertex.block_offset)) == buried(self@.blocks, current),
            ensures
                self@ == (OlapView {
                    blocks: buried(removed.blocks, Some(vertex.block_offset)),
                    ..removed
                }),
            decreases
                    match current {
                        Some(b) => b + 1,
                        None => 0,
                    },
        {
            match current {
                None => {
                    break;
                },
                Some(b) => {
                    let ghost before = self@;
                    assert(self@.blocks[b as int] == self.edges@[b as int]@);
                    self.edges[b].is_tombstone = true;
                    current = self.edges[b].pre_block_index;
                    assert(self@.blocks =~= before.blocks.update(
                        b as int,
                        BlockView { tombstone: true, ..before.blocks[b as int] },
                    ));
                    assert(before.blocks[b as int].pre == current);
                    assert forall|j: int| 0 <= j < self@.blocks.len() implies ((
                    #[trigger] self@.blocks[j]).pre matches Some(pre) ==> pre < j) by {
                        assert(before.blocks[j].pre == self@.blocks[j].pre);
                    }
                },
            }
        }
        Ok(())
    }

    /// Deletes the first edge with a label, and its properties.
    pub fn delete_edge(&mut self, _txn: &(), eid: Option<LabelId>) -> (result: StorageResult<()>)
        requires
            old(self)@.wf(),
            old(self)@.find_edge(eid, 0, 0) is None ==> eid is Some,
            old(self)@.find_edge(eid, 0, 0) matches Some((b, o)) ==> old(self)@.blocks[b].count
                == 1 || forall|c: int|
                0 <= c < old(self)@.columns.len() ==> b < (#[trigger] old(self)@.columns[c]).len(),
        ensures
            final(self)@.wf(),
            match old(self)@.find_edge(eid, 0, 0) {
                Some((b, o)) => result is Ok && final(self)@ == old(self)@.without_edge(b, o),
                None => {
                    &&& result matches Err(error) && error@ == ErrorView::EdgeNotFound(
                        "Edge "@ + digits(eid->0 as nat) + " not found"@,
                    )
                    &&& final(self)@ == old(self)@
                },
            },
    {
        proof {
            lemma_find_edge(self@, eid, 0, 0);
        }
        let (b, o) = match self.seek_edge(eid) {
            Some(slot) => slot,
            None => {
                let label: u64 = match eid {
                    Some(label) => label as u64,
                    None => 0,
                };
                return Err(edge_not_found(with_number("Edge ", label, " not found")));
            },
        };
        let ghost start = self@;
        proof {
            assert(block_ok(start.blocks[b as int]));
            lemma_block_without(start.blocks[b as int], o as int);
            assert(start.blocks[b as int] == self.edges@[b as int]@);
        }
        self.edges[b].remove(o);
        assert(self@.blocks =~= start.blocks.update(
            b as int,
            block_without(start.blocks[b as int], o as int),
        ));
        if self.edges[b].edge_counter == 0 {
            proof {
                assert(self@.columns == start.columns);
                assert forall|i: int| 0 <= i < self@.blocks.len() implies block_ok(
                    #[trigger] self@.blocks[i],
                ) by {
                    assert(block_ok(start.blocks[i]));
                }
                assert forall|i: int| 0 <= i < self@.blocks.len() implies ((
                #[trigger] self@.blocks[i]).pre matches Some(pre) ==> pre < i) by {
                    assert(self@.blocks[i].pre == start.blocks[i].pre);
                }
            }
            return Ok(());
        }
        let ghost expected = start.without_edge(b as int, o as int);
        let columns: usize = self.property_columns.len();
        for i in 0..columns
            invariant
                columns == self.property_columns@.len(),
                start.columns.len() == columns,
                self@ == (OlapView { columns: self@.columns, ..expected }),
                start.blocks[b as int].count != 1,
                expected == start.without_edge(b as int, o as int),
                o < BLOCK_CAPACITY,
                forall|c: int, k: int|
                    0 <= c < start.columns.len() && 0 <= k < start.columns[c].len() ==> (
                    #[trigger] start.columns[c][k]).len() == BLOCK_CAPACITY,
                forall|c: int|
                    0 <= c < start.columns.len() ==> b < (#[trigger] start.columns[c]).len(),
                forall|c: int|
                    0 <= c < start.columns.len() ==> #[trigger] self@.columns[c] == if c < i {
                        expected.columns[c]
                    } else {
                        start.columns[c]
                    },
        {
            let ghost before = self@;
            assert(self@.columns[i as int] == self.property_columns@[i as int]@);
            assert(b < start.columns[i as int].len());
            assert(start.columns[i as int][b as int].len() == BLOCK_CAPACITY);
            self.property_columns[i].remove(b, o);
            assert(self@.columns =~= before.columns.update(i as int, expected.columns[i as int]));
        }
        assert(self@.columns =~= expected.columns);
        proof {
            assert forall|c: int, k: int|
                0 <= c < self@.columns.len() && 0 <= k < self@.columns[c].len() implies (
            #[trigger] self@.columns[c][k]).len() == BLOCK_CAPACITY by {
                assert(start.columns[c][k].len() == BLOCK_CAPACITY);
            }
        }
        Ok(())
    }

    /// Sets properties of a vertex.
    pub fn set_vertex_property(
        &mut self,
        _txn: &(),
        vid: VertexId,
        indices: Vec<usize>,
        props: Vec<ScalarValue>,
    ) -> (result: StorageResult<()>)
        requires
            old(self)@.dense.contains_key(vid) ==> {
                &&& old(self)@.dense[vid] < old(self)@.vertices.len()
                &&& forall|i: int|
                    0 <= i < pairs(indices@.len(), props@.len()) ==> (#[trigger] indices@[i])
                        < old(self)@.vertices[old(self)@.dense[vid] as int].properties@.len()
            },
        ensures
            if old(self)@.dense.contains_key(vid) {
                let at = old(self)@.dense[vid] as int;
                &&& result is Ok
                &&& final(self)@ == (OlapView { vertices: final(self)@.vertices, ..old(self)@ })
                &&& final(self)@.vertices == old(self)@.vertices.update(
                    at,
                    final(self)@.vertices[at],
                )
                &&& final(self)@.vertices[at] == (OlapVertex {
                    properties: final(self)@.vertices[at].properties,
                    ..old(self)@.vertices[at]
                })
                &&& final(self)@.vertices[at].properties@ == with_properties(
                    old(self)@.vertices[at].properties@,
                    indices@,
                    props@,
                    pairs(indices@.len(), props@.len()),
                )
            } else {
                &&& result matches Err(error) && error@ == ErrorView::VertexNotFound(
                    "Vertex ID "@ + digits(vid as nat) + " not found"@,
                )
                &&& final(self)@ == old(self)@
            },
    {
        let position: u64 = match dash_map_get(&self.dense_id_map, vid) {
            Some(position) => position,
            None => {
                return Err(vertex_not_found(with_number("Vertex ID ", vid, " not found")));
            },
        };
        assert(position < self.vertices.len());
        let at: usize = position as usize;
        let count: usize = if indices.len() <= props.len() {
            indices.len()
        } else {
            props.len()
        };
        let ghost start = self@;
        let mut properties = self.vertices[at].properties.duplicate();
        let ghost before = properties@;
        for i in 0..count
            invariant
                count <= indices@.len(),
                count <= props@.len(),
                properties@.len() == before.len(),
                forall|k: int| 0 <= k < count ==> (#[trigger] indices@[k]) < before.len(),
                properties@ == with_properties(before, indices@, props@, i as nat),
        {
            assert(indices@[i as int] < before.len());
            properties.set_prop(indices[i], props[i].duplicate());
        }
        self.vertices[at].properties = properties;
        assert(self@.vertices =~= start.vertices.update(at as int, self@.vertices[at as int]));
        Ok(())
    }

    /// Sets properties of the first edge with a label.
    pub fn set_edge_property(
        &mut self,
        _txn: &(),
        eid: Option<LabelId>,
        indices: Vec<usize>,
        props: Vec<ScalarValue>,
    ) -> (result: StorageResult<()>)
        requires
            old(self)@.wf(),
            old(self)@.find_edge(eid, 0, 0) is None ==> eid is Some,
            old(self)@.find_edge(eid, 0, 0) matches Some((b, o)) ==> forall|i: int|
                0 <= i < pairs(indices@.len(), props@.len()) ==> (#[trigger] indices@[i])
                    < old(self)@.columns.len() && b < old(self)@.columns[indices@[i] as int].len(),
        ensures
            match old(self)@.find_edge(eid, 0, 0) {
                Some((b, o)) => {
                    &&& result is Ok
                    &&& final(self)@ == (OlapView {
                        columns: with_slot_values(
                            old(self)@.columns,
                            b,
                            o,
                            indices@,
                            props@,
                            pairs(indices@.len(), props@.len()),
                        ),
                        ..old(self)@
                    })
                },
                None => {
                    &&& result matches Err(error) && error@ == ErrorView::EdgeNotFound(
                        "Edge "@ + digits(eid->0 as nat) + " not found"@,
                    )
                    &&& final(self)@ == old(self)@
                },
            },
    {
        proof {
            lemma_find_edge(self@, eid, 0, 0);
        }
        let (b, o) = match self.seek_edge(eid) {
            Some(slot) => slot,
            None => {
                let label: u64 = match eid {
                    Some(label) => label as u64,
                    None => 0,
                };
                return Err(edge_not_found(with_number("Edge ", label, " not found")));
            },
        };
        let ghost start = self@;
        let count: usize = if indices.len() <= props.len() {
            indices.len()
        } else {
            props.len()
        };
        for i in 0..count
            invariant
                count <= indices@.len(),
                count <= props@.len(),
                o < BLOCK_CAPACITY,
                self@ == (OlapView {
                    columns: with_slot_values(
                        start.columns,
                        b as int,
                        o as int,
                        indices@,
                        props@,
                        i as nat,
                    ),
                    ..start
                }),
                self@.columns.len() == start.columns.len(),
                forall|c: int|
                    0 <= c < start.columns.len() ==> (#[trigger] self@.columns[c]).len()
                        == start.columns[c].len(),
                forall|c: int, k: int|
                    0 <= c < start.columns.len() && 0 <= k < start.columns[c].len() ==> (
                    #[trigger] self@.columns[c][k]).len() == BLOCK_CAPACITY,
                forall|k: int|
                    0 <= k < count ==> (#[trigger] indices@[k]) < start.columns.len() && b
                        < start.columns[indices@[k] as int].len(),
        {
            let column: usize = indices[i];
            let ghost before = self@;
            assert(indices@[i as int] < start.columns.len());
            assert(self@.columns[column as int] == self.property_columns@[column as int]@);
            assert(self@.columns[column as int][b as int].len() == BLOCK_CAPACITY);
            self.property_columns[column].set(b, o, Some(props[i].duplicate()));
            assert(self@.columns =~= before.columns.update(
                column as int,
                before.columns[column as int].update(
                    b as int,
                    before.columns[column as int][b as int].update(
                        o as int,
                        Some(props@[i as int]),
                    ),
                ),
            ));
            assert forall|c: int, k: int|
                0 <= c < start.columns.len() && 0 <= k < start.columns[c].len() implies (
            #[trigger] self@.columns[c][k]).len() == BLOCK_CAPACITY by {
                assert(before.columns[c][k].len() == BLOCK_CAPACITY);
            }
        }
        Ok(())
    }
}

impl PropertyColumn {
    /// Removes the value of a slot.
    fn remove(&mut self, block: usize, offset: usize)
        requires
            block < old(self)@.len(),
            offset < old(self)@[block as int].len(),
        ensures
            final(self)@ == column_without(old(self)@, block as int, offset as int),
    {
        let ghost before = self@;
        assert(before[block as int] == self.blocks@[block as int].values@);
        self.blocks[block].values.remove(offset);
        self.blocks[block].values.push(None);
        assert(self@ =~= column_without(before, block as int, offset as int));
    }

    /// Replaces the value of a slot.
    fn set(&mut self, block: usize, offset: usize, value: Option<ScalarValue>)
        requires
            block < old(self)@.len(),
            offset < old(self)@[block as int].len(),
        ensures
            final(self)@ == old(self)@.update(
                block as int,
                old(self)@[block as int].update(offset as int, value),
            ),
    {
        let ghost before = self@;
        assert(before[block as int] == self.blocks@[block as int].values@);
        self.blocks[block].values.set(offset, value);
        assert(self@ =~= before.update(
            block as int,
            before[block as int].update(offset as int, value),
        ));
    }
}

} // verus!
