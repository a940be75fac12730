//! Iteration over the analytical storage.

use vstd::prelude::*;

use super::model::{
    duplicate_option, OlapEdge, OlapPropertyStore, OlapStorage, OlapStorageEdge, OlapVertex,
    OlapView, BLOCK_CAPACITY, NO_BLOCK, TOMBSTONE_DST_ID, TOMBSTONE_LABEL_ID,
};
#[allow(unused_imports)]
use super::model::{blocks_view, columns_view, empty_slot, BlockView};
use crate::common::text::with_number;
#[allow(unused_imports)]
use crate::common::text::digits;
use crate::common::types::{LabelId, VertexId};
use crate::common::value::ScalarValue;
#[allow(unused_imports)]
use crate::storage::error::ErrorView;
use crate::storage::error::{edge_not_found, StorageResult};

verus! {

/// What an edge is.
pub struct EdgeView {
    /// The label.
    pub label: Option<LabelId>,
    /// The source.
    pub src: VertexId,
    /// The destination.
    pub dst: VertexId,
    /// The properties.
    pub properties: Seq<Option<ScalarValue>>,
}

impl View for OlapEdge {
    type V = EdgeView;

    open spec fn view(&self) -> EdgeView {
        EdgeView {
            label: self.label_id,
            src: self.src_id,
            dst: self.dst_id,
            properties: self.properties@,
        }
    }
}

/// Whether a column has a value for a slot.
pub open spec fn has_value(
    column: Seq<Seq<Option<ScalarValue>>>,
    block: int,
    offset: int,
) -> bool {
    block < column.len() && offset < column[block].len()
}

/// The values that the first `n` columns have for a slot.
pub open spec fn slot_values(
    columns: Seq<Seq<Seq<Option<ScalarValue>>>>,
    block: int,
    offset: int,
    n: nat,
) -> Seq<Option<ScalarValue>>
    decreases n,
{
    if n == 0 {
        Seq::empty()
    } else if has_value(columns[n - 1], block, offset) {
        slot_values(columns, block, offset, (n - 1) as nat).push(columns[n - 1][block][offset])
    } else {
        slot_values(columns, block, offset, (n - 1) as nat)
    }
}

/// Whether no column without a value for a slot stands before one that has a value.
pub open spec fn gapless(
    columns: Seq<Seq<Seq<Option<ScalarValue>>>>,
    block: int,
    offset: int,
) -> bool {
    forall|c: int, d: int|
        0 <= c < d < columns.len() && has_value(#[trigger] columns[d], block, offset) ==> has_value(
            #[trigger] columns[c],
            block,
            offset,
        )
}

/// The first slot with a label from the `i`th on.
pub open spec fn slot_with(edges: Seq<OlapStorageEdge>, label: Option<LabelId>, i: int) -> Option<
    int,
>
    decreases edges.len() - i,
{
    if i < 0 || i >= edges.len() {
        None
    } else if edges[i].label_id == label {
        Some(i)
    } else {
        slot_with(edges, label, i + 1)
    }
}

impl OlapView {
    /// The edge in a slot, with its properties.
    pub open spec fn edge_at(self, block: int, offset: int) -> EdgeView {
        EdgeView {
            label: self.blocks[block].edges[offset].label_id,
            src: self.blocks[block].src,
            dst: self.blocks[block].edges[offset].dst_id,
            properties: slot_values(self.columns, block, offset, self.columns.len()),
        }
    }

    /// The first slot with a label, in the blocks from the `b`th on that were not deleted and
    /// whose range of labels has it.
    pub open spec fn labelled(self, label: Option<LabelId>, b: int) -> Option<(int, int)>
        decreases self.blocks.len() - b,
    {
        if b < 0 || b >= self.blocks.len() {
            None
        } else {
            let block = self.blocks[b];
            if block.tombstone || super::model::label_before(label, block.min_label)
                || super::model::label_before(block.max_label, label) {
                self.labelled(label, b + 1)
            } else {
                match slot_with(block.edges, label, 0) {
                    Some(offset) => Some((b, offset)),
                    None => self.labelled(label, b + 1),
                }
            }
        }
    }

    /// The next slot that holds an edge, at or behind a position. A block ends at its first empty
    /// slot; deleted blocks are passed over.
    pub open spec fn next_slot(self, b: int, o: int) -> Option<(int, int)>
        decreases self.blocks.len() - b,
    {
        if b < 0 || b >= self.blocks.len() {
            None
        } else if !self.blocks[b].tombstone && o < BLOCK_CAPACITY && self.blocks[b].edges[o]
            != empty_slot() {
            Some((b, o))
        } else {
            self.next_slot(b + 1, 0)
        }
    }

    /// The next slot of the chain of blocks that a position is in, and whether there is one. When
    /// there is none, the position that the search ended at.
    ///
    /// A block ends at its first empty slot, and the search goes on at the start of the previous
    /// block of the chain. A deleted block is passed over, and the offset is kept.
    pub open spec fn next_adjacent(self, b: usize, o: usize) -> (bool, usize, usize)
        decreases b,
    {
        if b == NO_BLOCK || b >= self.blocks.len() {
            (false, b, o)
        } else {
            let block = self.blocks[b as int];
            let pre = match block.pre {
                Some(pre) => pre,
                None => NO_BLOCK,
            };
            if block.tombstone {
                if block.pre is None {
                    (false, NO_BLOCK, o)
                } else if pre < b {
                    self.next_adjacent(pre, o)
                } else {
                    (false, pre, o)
                }
            } else if o < BLOCK_CAPACITY && block.edges[o as int] != empty_slot() {
                (true, b, o)
            } else {
                let start = if o <= BLOCK_CAPACITY {
                    0
                } else {
                    o
                };
                if pre < b {
                    self.next_adjacent(pre, start)
                } else {
                    (false, pre, start)
                }
            }
        }
    }
}

impl OlapStorage {
    /// The properties of the edge in a slot.
    pub fn slot_properties(&self, block: usize, offset: usize) -> (store: OlapPropertyStore)
        requires
            gapless(self@.columns, block as int, offset as int),
        ensures
            store@ == slot_values(
                self@.columns,
                block as int,
                offset as int,
                self@.columns.len(),
            ),
    {
        let mut store = OlapPropertyStore::new(Vec::new());
        for c in 0..self.property_columns.len()
            invariant
                gapless(self@.columns, block as int, offset as int),
                store@ == slot_values(self@.columns, block as int, offset as int, c as nat),
                store@.len() <= c,
                (forall|d: int|
                    0 <= d < c ==> has_value(
                        #[trigger] self@.columns[d],
                        block as int,
                        offset as int,
                    )) ==> store@.len() == c,
        {
            let column = &self.property_columns[c];
            assert(self@.columns[c as int] == column@);
            if block < column.blocks.len() && offset < column.blocks[block].values.len() {
                assert(has_value(self@.columns[c as int], block as int, offset as int));
                let value = duplicate_option(&column.blocks[block].values[offset]);
                let ghost before = store@;
                store.set_prop(c, value);
                assert(store@ =~= before.push(value));
            } else {
                assert(!has_value(self@.columns[c as int], block as int, offset as int));
            }
        }
        store
    }

    /// The edge in a slot, with its properties.
    fn edge_in(&self, block: usize, offset: usize) -> (edge: OlapEdge)
        requires
            block < self@.blocks.len(),
            offset < BLOCK_CAPACITY,
            gapless(self@.columns, block as int, offset as int),
        ensures
            edge@ == self@.edge_at(block as int, offset as int),
    {
        let raw = self.edges[block].edges[offset];
        OlapEdge {
            label_id: raw.label_id,
            src_id: self.edges[block].src_id,
            dst_id: raw.dst_id,
            properties: self.slot_properties(block, offset),
        }
    }

    /// The first edge with a label.
    pub fn get_edge(&self, _txn: &(), eid: Option<LabelId>) -> (result: StorageResult<OlapEdge>)
        requires
            self@.labelled(eid, 0) is None ==> eid is Some,
            self@.labelled(eid, 0) matches Some((b, o)) ==> gapless(self@.columns, b, o),
        ensures
            match self@.labelled(eid, 0) {
                Some((b, o)) => result matches Ok(edge) && edge@ == self@.edge_at(b, o),
                None => result matches Err(error) && error@ == ErrorView::EdgeNotFound(
                    "Edge "@ + digits(eid->0 as nat) + " not found"@,
                ),
            },
    {
        for b in 0..self.edges.len()
            invariant
                self@.labelled(eid, 0) == self@.labelled(eid, b as int),
                self@.labelled(eid, 0) matches Some((b, o)) ==> gapless(self@.columns, b, o),
        {
            let block = &self.edges[b];
            assert(self@.blocks[b as int] == block@);
            if !block.is_tombstone && !super::model::label_less(eid, block.min_label_id)
                && !super::model::label_less(block.max_label_id, eid) {
                let mut o: usize = 0;
                while o < BLOCK_CAPACITY
                    invariant
                        o <= BLOCK_CAPACITY,
                        block@.edges.len() == BLOCK_CAPACITY,
                        b < self@.blocks.len(),
                        self@.blocks[b as int] == block@,
                        *block == self.edges@[b as int],
                        slot_with(block@.edges, eid, 0) == slot_with(block@.edges, eid, o as int),
                        !block@.tombstone,
                        !super::model::label_before(eid, block@.min_label),
                        !super::model::label_before(block@.max_label, eid),
                        self@.labelled(eid, 0) == self@.labelled(eid, b as int),
                        self@.labelled(eid, 0) matches Some((b, o)) ==> gapless(
                            self@.columns,
                            b,
                            o,
                        ),
                    decreases BLOCK_CAPACITY - o,
                {
                    if block.edges[o].label_id == eid {
                        return Ok(self.edge_in(b, o));
                    }
                    o = o + 1;
                }
            }
        }
        let label: u64 = match eid {
            Some(label) => label as u64,
            None => 0,
        };
        Err(edge_not_found(with_number("Edge ", label, " not found")))
    }

    /// An iterator over the vertices.
    pub fn iter_vertices(&self, _txn: &()) -> (result: StorageResult<VertexIter<'_>>)
        ensures
            result matches Ok(iter) && iter.storage == self && iter.idx == 0,
    {
        Ok(VertexIter { storage: self, idx: 0 })
    }

    /// An iterator over the edges.
    pub fn iter_edges(&self, _txn: &()) -> (result: StorageResult<EdgeIter<'_>>)
        ensures
            result matches Ok(iter) && iter.storage == self && iter.block_idx == 0 && iter.offset
                == 0,
    {
        Ok(EdgeIter { storage: self, block_idx: 0, offset: 0 })
    }

    /// An iterator over the edges of a vertex.
    pub fn iter_adjacency(&self, _txn: &(), vid: VertexId) -> (result: StorageResult<
        AdjacencyIterator<'_>,
    >)
        ensures
            match result {
                Ok(iter) => {
                    &&& self@.position(vid) matches Some(position)
                        && iter.block_idx == self@.vertices[position].block_offset
                    &&& iter.storage == self
                    &&& iter.vertex_id == vid
                    &&& iter.offset == 0
                },
                Err(error) => {
                    &&& self@.position(vid) is None
                    &&& error@ == if self@.dense.contains_key(vid) {
                        ErrorView::EdgeNotFound("Edge "@ + digits(vid as nat) + " not found"@)
                    } else {
                        ErrorView::VertexNotFound("Vertex "@ + digits(vid as nat) + " not found"@)
                    }
                },
            },
    {
        match self.get_vertex(_txn, vid) {
            Ok(vertex) => Ok(
                AdjacencyIterator {
                    storage: self,
                    vertex_id: vid,
                    block_idx: vertex.block_offset,
                    offset: 0,
                },
            ),
            Err(error) => Err(error),
        }
    }

    /// The next slot that holds an edge, at or behind a position.
    pub fn find_slot(&self, block: usize, offset: usize) -> (slot: Option<(usize, usize)>)
        ensures
            match self@.next_slot(block as int, offset as int) {
                Some((b, o)) => slot matches Some(found) && found.0 == b && found.1 == o
                    && block <= b < self@.blocks.len() && 0 <= o < BLOCK_CAPACITY
                    && (b == block ==> o == offset),
                None => slot is None,
            },
    {
        let mut b: usize = block;
        let mut o: usize = offset;
        while b < self.edges.len()
            invariant
                block <= b,
                b == block ==> o == offset,
                self@.next_slot(block as int, offset as int) == self@.next_slot(
                    b as int,
                    o as int,
                ),
            decreases self.edges@.len() - b,
        {
            assert(self@.blocks[b as int] == self.edges@[b as int]@);
            if !self.edges[b].is_tombstone && o < BLOCK_CAPACITY {
                let raw = self.edges[b].edges[o];
                if !(raw.label_id == Some(TOMBSTONE_LABEL_ID) && raw.dst_id == TOMBSTONE_DST_ID) {
                    return Some((b, o));
                }
            }
            b = b + 1;
            o = 0;
        }
        None
    }
}

/// An iterator over the vertices.
pub struct VertexIter<'a> {
    /// The storage.
    pub storage: &'a OlapStorage,
    /// The position of the next vertex.
    pub idx: usize,
}

impl<'a> VertexIter<'a> {
    /// The next vertex.
    pub fn next(&mut self) -> (next: Option<StorageResult<OlapVertex>>)
        ensures
            final(self).storage == old(self).storage,
            if old(self).idx < old(self).storage@.vertices.len() {
                &&& next matches Some(Ok(vertex)) && vertex
                    == old(self).storage@.vertices[old(self).idx as int]
                &&& final(self).idx == old(self).idx + 1
            } else {
                &&& next is None
                &&& final(self).idx == old(self).idx
            },
    {
        if self.idx >= self.storage.vertices.len() {
            return None;
        }
        let vertex = self.storage.vertices[self.idx].duplicate();
        self.idx = self.idx + 1;
        Some(Ok(vertex))
    }
}

/// An iterator over the edges, block by block.
pub struct EdgeIter<'a> {
    /// The storage.
    pub storage: &'a OlapStorage,
    /// The position of the current block.
    pub block_idx: usize,
    /// The position of the next slot in the block.
    pub offset: usize,
}

impl<'a> EdgeIter<'a> {
    /// The next edge.
    pub fn next(&mut self) -> (next: Option<StorageResult<OlapEdge>>)
        requires
            old(self).storage@.next_slot(
                old(self).block_idx as int,
                old(self).offset as int,
            ) matches Some((b, o)) ==> gapless(old(self).storage@.columns, b, o),
        ensures
            final(self).storage == old(self).storage,
            match old(self).storage@.next_slot(
                old(self).block_idx as int,
                old(self).offset as int,
            ) {
                Some((b, o)) => {
                    &&& next matches Some(Ok(edge)) && edge@ == old(self).storage@.edge_at(b, o)
                    &&& final(self).block_idx == b
                    &&& final(self).offset == o + 1
                },
                None => next is None && *final(self) == *old(self),
            },
    {
        match self.storage.find_slot(self.block_idx, self.offset) {
            Some((b, o)) => {
                let edge = self.storage.edge_in(b, o);
                self.block_idx = b;
                self.offset = o + 1;
                Some(Ok(edge))
            },
            None => None,
        }
    }
}

/// An iterator over the edges of a vertex, from its last block to its first.
pub struct AdjacencyIterator<'a> {
    /// The storage.
    pub storage: &'a OlapStorage,
    /// The vertex.
    pub vertex_id: VertexId,
    /// The position of the current block.
    pub block_idx: usize,
    /// The position of the next slot in the block.
    pub offset: usize,
}

impl<'a> AdjacencyIterator<'a> {
    /// The next edge.
    pub fn next(&mut self) -> (next: Option<StorageResult<OlapEdge>>)
        requires
            old(self).storage@.wf(),
            ({
                let found = old(self).storage@.next_adjacent(
                    old(self).block_idx,
                    old(self).offset,
                );
                found.0 ==> gapless(old(self).storage@.columns, found.1 as int, found.2 as int)
            }),
        ensures
            final(self).storage == old(self).storage,
            final(self).vertex_id == old(self).vertex_id,
            ({
                let found = old(self).storage@.next_adjacent(
                    old(self).block_idx,
                    old(self).offset,
                );
                &&& final(self).block_idx == found.1
                &&& if found.0 {
                    &&& next matches Some(Ok(edge)) && edge@ == old(self).storage@.edge_at(
                        found.1 as int,
                        found.2 as int,
                    )
                    &&& final(self).offset == found.2 + 1
                } else {
                    &&& next is None
                    &&& final(self).offset == found.2
                }
            }),
    {
        let ghost storage = self.storage@;
        while self.block_idx != NO_BLOCK
            invariant
                self.storage == old(self).storage,
                self.vertex_id == old(self).vertex_id,
                storage == self.storage@,
                storage.wf(),
                storage.next_adjacent(old(self).block_idx, old(self).offset)
                    == storage.next_adjacent(self.block_idx, self.offset),
                ({
                    let found = storage.next_adjacent(old(self).block_idx, old(self).offset);
                    found.0 ==> gapless(storage.columns, found.1 as int, found.2 as int)
                }),
            decreases
                    if self.block_idx == NO_BLOCK {
                        0
                    } else {
                        self.block_idx + 1
                    },
        {
            if self.block_idx >= self.storage.edges.len() {
                return None;
            }
            let block = &self.storage.edges[self.block_idx];
            assert(storage.blocks[self.block_idx as int] == block@);
            if block.is_tombstone {
                match block.pre_block_index {
                    None => {
                        self.block_idx = NO_BLOCK;
                        return None;
                    },
                    Some(pre) => {
                        self.block_idx = pre;
                    },
                }
            } else {
                if self.offset < BLOCK_CAPACITY {
                    let raw = block.edges[self.offset];
                    if !(raw.label_id == Some(TOMBSTONE_LABEL_ID) && raw.dst_id
                        == TOMBSTONE_DST_ID) {
                        let edge = self.storage.edge_in(self.block_idx, self.offset);
                        self.offset = self.offset + 1;
                        return Some(Ok(edge));
                    }
                }
                if self.offset <= BLOCK_CAPACITY {
                    self.offset = 0;
                }
                match block.pre_block_index {
                    None => {
                        self.block_idx = NO_BLOCK;
                    },
                    Some(pre) => {
                        self.block_idx = pre;
                    },
                }
            }
        }
        None
    }
}

} // verus!
