//! The operations of the analytical storage that read or add a single vertex or edge.

use vstd::prelude::*;

use super::model::{
    duplicate_option, edge_less, label_less, EdgeBlock, OlapEdge, OlapPropertyStore, OlapStorage,
    OlapStorageEdge, OlapVertex, OlapView, PropertyBlock, PropertyColumn, BLOCK_CAPACITY, NO_BLOCK,
};
#[allow(unused_imports)]
use super::model::{
    block_ok, blocks_view, columns_view, edge_before, empty_slot, in_order, label_before, BlockView,
};
use crate::collections::dash::{dash_map_get, dash_map_insert};
use crate::common::text::with_number;
#[allow(unused_imports)]
use crate::common::text::digits;
use crate::common::types::{LabelId, VertexId};
use crate::common::value::ScalarValue;
#[allow(unused_imports)]
use crate::storage::error::ErrorView;
use crate::storage::error::{edge_not_found, vertex_not_found, StorageResult};

verus! {

/// The position of the first slot below `count`, from the `i`th on, that does not come before an
/// edge, or `count`.
pub open spec fn insert_position(
    edges: Seq<OlapStorageEdge>,
    count: nat,
    edge: OlapStorageEdge,
    i: nat,
) -> nat
    decreases count - i,
{
    if i >= count {
        count
    } else if edge_before(edges[i as int], edge) {
        insert_position(edges, count, edge, i + 1)
    } else {
        i
    }
}

/// Puts a value at a position, and moves the values from there up to `count` up by one.
pub open spec fn shifted_in<T>(values: Seq<T>, count: nat, at: nat, value: T) -> Seq<T> {
    Seq::new(
        values.len(),
        |i: int|
            if i < at || i > count {
                values[i]
            } else if i == at {
                value
            } else {
                values[i - 1]
            },
    )
}

/// A block without edges.
pub open spec fn fresh_block(pre: Option<usize>, index: usize, src: VertexId) -> BlockView {
    BlockView {
        pre,
        cur: index,
        tombstone: false,
        max_label: Some(1),
        min_label: Some(u32::MAX),
        max_dst: 0,
        min_dst: u64::MAX,
        src,
        count: 0,
        edges: Seq::new(BLOCK_CAPACITY as nat, |i: int| empty_slot()),
    }
}

/// The block with one more edge.
pub open spec fn block_with(block: BlockView, edge: OlapStorageEdge) -> BlockView {
    let at = insert_position(block.edges, block.count as nat, edge, 0);
    BlockView {
        count: (block.count + 1) as usize,
        edges: shifted_in(block.edges, block.count as nat, at, edge),
        min_dst: if edge.dst_id <= block.min_dst {
            edge.dst_id
        } else {
            block.min_dst
        },
        max_dst: if edge.dst_id >= block.max_dst {
            edge.dst_id
        } else {
            block.max_dst
        },
        max_label: if label_before(edge.label_id, block.max_label) {
            block.max_label
        } else {
            edge.label_id
        },
        min_label: if label_before(block.min_label, edge.label_id) {
            block.min_label
        } else {
            edge.label_id
        },
        ..block
    }
}

/// The column with a value for one more edge of a block.
pub open spec fn column_with(
    column: Seq<Seq<Option<ScalarValue>>>,
    block: int,
    count: nat,
    at: nat,
    value: Option<ScalarValue>,
) -> Seq<Seq<Option<ScalarValue>>> {
    let blocks = if block < column.len() {
        column
    } else {
        column.insert(block, Seq::new(BLOCK_CAPACITY as nat, |i: int| None))
    };
    blocks.update(block, shifted_in(blocks[block], count, at, value))
}

/// The value at a position, if there is one.
pub open spec fn value_at(values: Seq<Option<ScalarValue>>, i: int) -> Option<ScalarValue> {
    if 0 <= i < values.len() {
        values[i]
    } else {
        None
    }
}

/// Replaces the block offset of a vertex.
pub open spec fn moved(vertices: Seq<OlapVertex>, position: int, offset: usize) -> Seq<OlapVertex> {
    vertices.update(position, OlapVertex { block_offset: offset, ..vertices[position] })
}

impl OlapView {
    /// The position of a vertex in the array, if it has one there.
    pub open spec fn position(self, vid: VertexId) -> Option<int> {
        if self.dense.contains_key(vid) && self.dense[vid] < self.vertices.len() {
            Some(self.dense[vid] as int)
        } else {
            None
        }
    }

    /// The storage with one more block for the vertex at a position.
    pub open spec fn with_block(self, position: int, pre: Option<usize>, src: VertexId) -> OlapView {
        let index = self.blocks.len() as usize;
        OlapView {
            blocks: self.blocks.push(fresh_block(pre, index, src)),
            vertices: moved(self.vertices, position, index),
            ..self
        }
    }

    /// The storage with room for one more edge in the last block of the vertex at a position: a
    /// vertex without a block gets one, and one with a full block gets another.
    pub open spec fn with_room(self, position: int, src: VertexId) -> Result<OlapView, ErrorView> {
        let vertex = self.vertices[position];
        if vertex.block_offset == NO_BLOCK {
            Ok(self.with_block(position, None, src))
        } else if vertex.block_offset >= self.blocks.len() {
            Err(ErrorView::EdgeNotFound("Vertex "@ + digits(vertex.vid as nat) + " not found"@))
        } else if self.blocks[vertex.block_offset as int].count >= BLOCK_CAPACITY {
            Ok(self.with_block(position, Some(vertex.block_offset), src))
        } else {
            Ok(self)
        }
    }

    /// The storage with an edge in the last block of the vertex at a position, which has room.
    pub open spec fn with_edge_in(self, position: int, edge: OlapEdge) -> OlapView {
        let index = self.vertices[position].block_offset as int;
        let block = self.blocks[index];
        let stored = OlapStorageEdge { label_id: edge.label_id, dst_id: edge.dst_id };
        let at = insert_position(block.edges, block.count as nat, stored, 0);
        OlapView {
            blocks: self.blocks.update(index, block_with(block, stored)),
            columns: Seq::new(
                self.columns.len(),
                |c: int|
                    column_with(
                        self.columns[c],
                        index,
                        block.count as nat,
                        at,
                        value_at(edge.properties@, c),
                    ),
            ),
            ..self
        }
    }

    /// The storage with one more edge, or why there is none.
    pub open spec fn with_edge(self, edge: OlapEdge) -> Result<OlapView, ErrorView> {
        match self.position(edge.src_id) {
            None => Err(
                ErrorView::VertexNotFound(
                    "Source vertex "@ + digits(edge.src_id as nat) + " not found"@,
                ),
            ),
            Some(position) => match self.with_room(position, edge.src_id) {
                Err(error) => Err(error),
                Ok(room) => Ok(room.with_edge_in(position, edge)),
            },
        }
    }

    /// Whether each column of properties reaches up to the block that an edge goes to.
    pub open spec fn columns_reach(self, edge: OlapEdge) -> bool {
        self.position(edge.src_id) matches Some(position) ==> (self.with_room(
            position,
            edge.src_id,
        ) matches Ok(room) ==> forall|c: int|
            0 <= c < self.columns.len() ==> room.vertices[position].block_offset <= (
            #[trigger] self.columns[c]).len())
    }

    /// The storage with one more vertex.
    pub open spec fn with_vertex(self, vertex: OlapVertex) -> OlapView {
        OlapView {
            counter: self.counter.wrapping_add(1),
            dense: self.dense.insert(vertex.vid, self.counter),
            vertices: self.vertices.insert(
                self.counter as int,
                OlapVertex { block_offset: NO_BLOCK, ..vertex },
            ),
            ..self
        }
    }
}

proof fn lemma_insert_position(
    edges: Seq<OlapStorageEdge>,
    count: nat,
    edge: OlapStorageEdge,
    i: nat,
)
    requires
        i <= count,
    ensures
        i <= insert_position(edges, count, edge, i) <= count,
        forall|j: int|
            i <= j < insert_position(edges, count, edge, i) ==> edge_before(
                #[trigger] edges[j],
                edge,
            ),
        insert_position(edges, count, edge, i) < count ==> !edge_before(
            edges[insert_position(edges, count, edge, i) as int],
            edge,
        ),
    decreases count - i,
{
    if i < count && edge_before(edges[i as int], edge) {
        lemma_insert_position(edges, count, edge, i + 1);
    }
}

/// A block that is well formed and has room is well formed with one more edge.
pub proof fn lemma_block_with(block: BlockView, edge: OlapStorageEdge)
    requires
        block_ok(block),
        block.count < BLOCK_CAPACITY,
    ensures
        block_ok(block_with(block, edge)),
{
    let count = block.count as nat;
    lemma_insert_position(block.edges, count, edge, 0);
    let at = insert_position(block.edges, count, edge, 0);
    let after = block_with(block, edge);
    assert forall|i: int, j: int| 0 <= i <= j < after.count implies !edge_before(
        #[trigger] after.edges[j],
        #[trigger] after.edges[i],
    ) by {
        let old_j = if j > at {
            j - 1
        } else {
            j
        };
        let old_i = if i > at {
            i - 1
        } else {
            i
        };
        if j == at && i < at {
            assert(edge_before(block.edges[i], edge));
        } else if i == at && j > at {
            assert(!edge_before(block.edges[at as int], edge));
            assert(!edge_before(block.edges[old_j], block.edges[at as int]));
        } else if i != at && j != at {
            assert(!edge_before(block.edges[old_j], block.edges[old_i]));
        }
    }
}

/// A fresh block is well formed.
pub proof fn lemma_fresh_block(pre: Option<usize>, index: usize, src: VertexId)
    ensures
        block_ok(fresh_block(pre, index, src)),
{
}

impl EdgeBlock {
    /// A block without edges.
    fn fresh(pre: Option<usize>, index: usize, src: VertexId) -> (block: EdgeBlock)
        ensures
            block@ == fresh_block(pre, index, src),
    {
        let slot = OlapStorageEdge::default();
        let block = EdgeBlock {
            pre_block_index: pre,
            cur_block_index: index,
            is_tombstone: false,
            max_label_id: Some(1),
            min_label_id: Some(u32::MAX),
            max_dst_id: 0,
            min_dst_id: u64::MAX,
            src_id: src,
            edge_counter: 0,
            edges: [slot;BLOCK_CAPACITY],
        };
        assert(block@.edges =~= fresh_block(pre, index, src).edges);
        block
    }

    /// The position at which an edge goes, by binary search.
    fn find_position(&self, edge: OlapStorageEdge) -> (at: usize)
        requires
            block_ok(self@),
        ensures
            at == insert_position(self@.edges, self@.count as nat, edge, 0),
            at <= self@.count,
    {
        let mut low: usize = 0;
        let mut high: usize = self.edge_counter;
        proof {
            lemma_insert_position(self@.edges, self@.count as nat, edge, 0);
        }
        let ghost at = insert_position(self@.edges, self@.count as nat, edge, 0);
        while low < high
            invariant
                block_ok(self@),
                low <= at <= high <= self@.count,
                at == insert_position(self@.edges, self@.count as nat, edge, 0),
                forall|j: int| 0 <= j < at ==> edge_before(#[trigger] self@.edges[j], edge),
                at < self@.count ==> !edge_before(self@.edges[at as int], edge),
            decreases high - low,
        {
            let mid: usize = low + (high - low) / 2;
            if edge_less(self.edges[mid], edge) {
                proof {
                    if at <= mid {
                        assert(!edge_before(self@.edges[mid as int], self@.edges[at as int]));
                    }
                }
                low = mid + 1;
            } else {
                proof {
                    if mid < at {
                        assert(edge_before(self@.edges[mid as int], edge));
                    }
                }
                high = mid;
            }
        }
        low
    }

    /// Adds an edge at its position.
    fn insert(&mut self, edge: OlapStorageEdge) -> (at: usize)
        requires
            block_ok(old(self)@),
            old(self)@.count < BLOCK_CAPACITY,
        ensures
            at == insert_position(old(self)@.edges, old(self)@.count as nat, edge, 0),
            at <= old(self)@.count,
            final(self)@ == block_with(old(self)@, edge),
    {
        let at: usize = self.find_position(edge);
        let count: usize = self.edge_counter;
        let mut i: usize = count;
        while i > at
            invariant
                at <= i <= count < BLOCK_CAPACITY,
                old(self)@.edges.len() == BLOCK_CAPACITY,
                self@ == (BlockView { edges: self@.edges, ..old(self)@ }),
                self@.edges.len() == BLOCK_CAPACITY,
                forall|j: int|
                    0 <= j < BLOCK_CAPACITY ==> #[trigger] self@.edges[j] == if i < j <= count {
                        old(self)@.edges[j - 1]
                    } else {
                        old(self)@.edges[j]
                    },
            decreases i,
        {
            let moved = self.edges[i - 1];
            self.edges[i] = moved;
            i = i - 1;
        }
        self.edges[at] = edge;
        self.edge_counter = count + 1;
        if edge.dst_id <= self.min_dst_id {
            self.min_dst_id = edge.dst_id;
        }
        if edge.dst_id >= self.max_dst_id {
            self.max_dst_id = edge.dst_id;
        }
        if !label_less(edge.label_id, self.max_label_id) {
            self.max_label_id = edge.label_id;
        }
        if !label_less(self.min_label_id, edge.label_id) {
            self.min_label_id = edge.label_id;
        }
        assert(self@.edges =~= block_with(old(self)@, edge).edges);
        at
    }
}

/// A block of missing values.
fn missing_values() -> (values: Vec<Option<ScalarValue>>)
    ensures
        values@ == Seq::new(BLOCK_CAPACITY as nat, |i: int| None::<ScalarValue>),
{
    let mut values: Vec<Option<ScalarValue>> = Vec::new();
    for i in 0..BLOCK_CAPACITY
        invariant
            values@ == Seq::new(i as nat, |j: int| None::<ScalarValue>),
    {
        values.push(None);
        assert(values@ =~= Seq::new((i + 1) as nat, |j: int| None::<ScalarValue>));
    }
    values
}

/// Puts a value at a position, and moves the values from there up to `count` up by one.
fn shift_in(values: &mut Vec<Option<ScalarValue>>, count: usize, at: usize, value: Option<
    ScalarValue,
>)
    requires
        at <= count < old(values)@.len(),
    ensures
        final(values)@ == shifted_in(old(values)@, count as nat, at as nat, value),
{
    let mut i: usize = count;
    while i > at
        invariant
            at <= i <= count < old(values)@.len(),
            values@.len() == old(values)@.len(),
            forall|j: int|
                0 <= j < values@.len() ==> #[trigger] values@[j] == if i < j <= count {
                    old(values)@[j - 1]
                } else {
                    old(values)@[j]
                },
        decreases i,
    {
        let moved = duplicate_option(&values[i - 1]);
        values.set(i, moved);
        i = i - 1;
    }
    values.set(at, value);
    assert(values@ =~= shifted_in(old(values)@, count as nat, at as nat, value));
}

impl PropertyColumn {
    /// Adds a value for one more edge of a block.
    fn insert(&mut self, block: usize, count: usize, at: usize, value: Option<ScalarValue>)
        requires
            block <= old(self)@.len(),
            at <= count < BLOCK_CAPACITY,
            forall|b: int|
                0 <= b < old(self)@.len() ==> (#[trigger] old(self)@[b]).len() == BLOCK_CAPACITY,
        ensures
            final(self)@ == column_with(
                old(self)@,
                block as int,
                count as nat,
                at as nat,
                value,
            ),
    {
        if block >= self.blocks.len() {
            let values = missing_values();
            self.blocks.insert(block, PropertyBlock { values });
            assert(self@ =~= old(self)@.insert(
                block as int,
                Seq::new(BLOCK_CAPACITY as nat, |i: int| None),
            ));
        }
        let ghost blocks = self@;
        assert(blocks[block as int].len() == BLOCK_CAPACITY);
        shift_in(&mut self.blocks[block].values, count, at, value);
        assert(self@ =~= column_with(old(self)@, block as int, count as nat, at as nat, value));
    }
}

impl OlapStorage {
    /// The vertex with an identifier.
    pub fn get_vertex(&self, _txn: &(), id: VertexId) -> (result: StorageResult<OlapVertex>)
        ensures
            match result {
                Ok(vertex) => self@.position(id) matches Some(position) && vertex
                    == self@.vertices[position],
                Err(error) => {
                    &&& self@.position(id) is None
                    &&& !self@.dense.contains_key(id) ==> error@ == ErrorView::VertexNotFound(
                        "Vertex "@ + digits(id as nat) + " not found"@,
                    )
                    &&& self@.dense.contains_key(id) ==> error@ == ErrorView::EdgeNotFound(
                        "Edge "@ + digits(id as nat) + " not found"@,
                    )
                },
            },
    {
        match dash_map_get(&self.dense_id_map, id) {
            Some(position) => if position < self.vertices.len() as u64 {
                Ok(self.vertices[position as usize].duplicate())
            } else {
                Err(edge_not_found(with_number("Edge ", id, " not found")))
            },
            None => Err(vertex_not_found(with_number("Vertex ", id, " not found"))),
        }
    }

    /// Adds a vertex without edges.
    pub fn create_vertex(&mut self, _txn: &(), vertex: OlapVertex) -> (result: StorageResult<
        VertexId,
    >)
        requires
            !old(self)@.dense.contains_key(vertex.vid) ==> old(self)@.counter
                <= old(self)@.vertices.len(),
        ensures
            match result {
                Ok(vid) => {
                    &&& !old(self)@.dense.contains_key(vertex.vid)
                    &&& vid == vertex.vid
                    &&& final(self)@ == old(self)@.with_vertex(vertex)
                },
                Err(error) => {
                    &&& old(self)@.dense.contains_key(vertex.vid)
                    &&& error@ == ErrorView::VertexNotFound(
                        "Vertex "@ + digits(vertex.vid as nat) + " is existed"@,
                    )
                    &&& final(self)@ == old(self)@
                },
            },
    {
        let vid = vertex.vid;
        if dash_map_get(&self.dense_id_map, vid).is_some() {
            return Err(vertex_not_found(with_number("Vertex ", vid, " is existed")));
        }
        let index: u64 = self.logic_id_counter;
        self.logic_id_counter = index.wrapping_add(1);
        dash_map_insert(&mut self.dense_id_map, vid, index);
        assert(index <= self.vertices.len());
        self.vertices.insert(
            index as usize,
            OlapVertex { vid, properties: vertex.properties, block_offset: NO_BLOCK },
        );
        Ok(vid)
    }

    /// Appends a block for the vertex at a position.
    fn add_block(&mut self, position: usize, pre: Option<usize>, src: VertexId)
        requires
            position < old(self)@.vertices.len(),
        ensures
            final(self)@ == old(self)@.with_block(position as int, pre, src),
    {
        let index: usize = self.edges.len();
        let block = EdgeBlock::fresh(pre, index, src);
        self.edges.push(block);
        self.vertices[position].block_offset = index;
        assert(self@.blocks =~= old(self)@.with_block(position as int, pre, src).blocks);
        assert(self@.vertices =~= old(self)@.with_block(position as int, pre, src).vertices);
    }

    /// Adds an edge to the last block of its source, in order, and its properties to the columns.
    pub fn create_edge(&mut self, _txn: &(), edge: OlapEdge) -> (result: StorageResult<
        Option<LabelId>,
    >)
        requires
            old(self)@.wf(),
            old(self)@.blocks.len() + 1 < NO_BLOCK,
            old(self)@.columns_reach(edge),
        ensures
            final(self)@.wf(),
            match result {
                Ok(label) => {
                    &&& label == edge.label_id
                    &&& old(self)@.with_edge(edge) == Ok::<OlapView, ErrorView>(final(self)@)
                },
                Err(error) => {
                    &&& old(self)@.with_edge(edge) == Err::<OlapView, ErrorView>(error@)
                    &&& final(self)@ == old(self)@
                },
            },
    {
        let position: u64 = match dash_map_get(&self.dense_id_map, edge.src_id) {
            Some(position) => position,
            None => u64::MAX,
        };
        if position >= self.vertices.len() as u64 {
            return Err(vertex_not_found(with_number("Source vertex ", edge.src_id, " not found")));
        }
        let position: usize = position as usize;
        let offset: usize = self.vertices[position].block_offset;
        if offset == NO_BLOCK {
            self.add_block(position, None, edge.src_id);
        } else {
            if offset >= self.edges.len() {
                let vid = self.vertices[position].vid;
                return Err(edge_not_found(with_number("Vertex ", vid, " not found")));
            }
            if self.edges[offset].edge_counter >= BLOCK_CAPACITY {
                self.add_block(position, Some(offset), edge.src_id);
            }
        }
        let ghost room = self@;
        let offset: usize = self.vertices[position].block_offset;
        proof {
            lemma_fresh_block(None, old(self)@.blocks.len() as usize, edge.src_id);
            lemma_fresh_block(
                Some(old(self)@.vertices[position as int].block_offset),
                old(self)@.blocks.len() as usize,
                edge.src_id,
            );
            assert(old(self)@.with_room(position as int, edge.src_id) == Ok::<OlapView, ErrorView>(
                room,
            ));
            assert(room.wf());
            assert(block_ok(room.blocks[offset as int]));
        }
        let stored = OlapStorageEdge { label_id: edge.label_id, dst_id: edge.dst_id };
        let count: usize = self.edges[offset].edge_counter;
        let at: usize = self.edges[offset].insert(stored);
        proof {
            lemma_block_with(room.blocks[offset as int], stored);
            assert(self@.blocks =~= room.blocks.update(
                offset as int,
                block_with(room.blocks[offset as int], stored),
            ));
        }
        let ghost expected = room.with_edge_in(position as int, edge);
        let columns: usize = self.property_columns.len();
        for i in 0..columns
            invariant
                columns == self.property_columns@.len(),
                self@ == (OlapView { columns: self@.columns, ..expected }),
                self@.columns.len() == room.columns.len(),
                room.columns.len() == self.property_columns@.len(),
                expected == room.with_edge_in(position as int, edge),
                at <= count < BLOCK_CAPACITY,
                offset == room.vertices[position as int].block_offset,
                count == room.blocks[offset as int].count,
                at == insert_position(room.blocks[offset as int].edges, count as nat, stored, 0),
                stored == (OlapStorageEdge { label_id: edge.label_id, dst_id: edge.dst_id }),
                forall|c: int|
                    0 <= c < room.columns.len() ==> offset <= (#[trigger] room.columns[c]).len(),
                forall|c: int, b: int|
                    0 <= c < room.columns.len() && 0 <= b < room.columns[c].len() ==> (
                    #[trigger] room.columns[c][b]).len() == BLOCK_CAPACITY,
                forall|c: int|
                    0 <= c < room.columns.len() ==> #[trigger] self@.columns[c] == if c < i {
                        expected.columns[c]
                    } else {
                        room.columns[c]
                    },
        {
            let value = edge.properties.get(i);
            let ghost before = self@;
            assert(self@.columns[i as int] == self.property_columns@[i as int]@);
            assert(offset <= room.columns[i as int].len());
            self.property_columns[i].insert(offset, count, at, value);
            assert(self@.columns =~= before.columns.update(
                i as int,
                column_with(
                    room.columns[i as int],
                    offset as int,
                    count as nat,
                    at as nat,
                    value,
                ),
            ));
        }
        assert(self@.columns =~= expected.columns);
        proof {
            assert forall|c: int, b: int|
                0 <= c < self@.columns.len() && 0 <= b < self@.columns[c].len() implies (
            #[trigger] self@.columns[c][b]).len() == BLOCK_CAPACITY by {
                let before = room.columns[c];
                if b < before.len() {
                    assert(room.columns[c][b].len() == BLOCK_CAPACITY);
                }
            }
        }
        Ok(edge.label_id)
    }
}

} // verus!
