//! The data of the analytical storage.

use std::collections::hash_map::RandomState;

use dashmap::DashMap;
use vstd::prelude::*;

use super::bits::{ShortBits, WordBits};
#[allow(unused_imports)]
use crate::collections::dash::dash_map_contents;
use crate::common::types::{LabelId, VertexId};
use crate::common::value::ScalarValue;
use crate::storage::properties::PropertyRecord;

verus! {

/// The number of edges that a block can hold.
pub const BLOCK_CAPACITY: usize = 256;

/// The label of a slot that holds no edge.
pub const TOMBSTONE_LABEL_ID: u32 = 1;

/// The destination of a slot that holds no edge.
pub const TOMBSTONE_DST_ID: u64 = 1;

/// The block offset of a vertex that has no block.
pub const NO_BLOCK: usize = usize::MAX;

/// A vertex.
#[derive(Debug)]
pub struct OlapVertex {
    /// The identifier.
    pub vid: VertexId,
    /// The properties.
    pub properties: PropertyRecord,
    /// The position of the vertex's last block, or `NO_BLOCK`.
    pub block_offset: usize,
}

impl PartialEq for OlapVertex {
    /// Vertices are equal when their identifiers are.
    fn eq(&self, other: &OlapVertex) -> (equal: bool) {
        self.vid == other.vid
    }
}

impl vstd::std_specs::cmp::PartialEqSpecImpl for OlapVertex {
    open spec fn obeys_eq_spec() -> bool {
        true
    }

    open spec fn eq_spec(&self, other: &OlapVertex) -> bool {
        self.vid == other.vid
    }
}

impl Eq for OlapVertex {

}

/// An edge as it is stored in a block.
#[derive(Debug, Clone, Copy, PartialEq, Eq, Structural)]
pub struct OlapStorageEdge {
    /// The label.
    pub label_id: Option<LabelId>,
    /// The destination.
    pub dst_id: VertexId,
}

/// The properties of an edge: each may be missing.
#[derive(Debug)]
pub struct OlapPropertyStore {
    properties: Vec<Option<ScalarValue>>,
}

/// An edge with its properties.
#[derive(Debug)]
pub struct OlapEdge {
    /// The label.
    pub label_id: Option<LabelId>,
    /// The source.
    pub src_id: VertexId,
    /// The destination.
    pub dst_id: VertexId,
    /// The properties.
    pub properties: OlapPropertyStore,
}

/// A block of edges of one source.
#[derive(Debug)]
pub struct EdgeBlock {
    /// The position of the previous block of the same source.
    pub pre_block_index: Option<usize>,
    /// The position of this block.
    pub cur_block_index: usize,
    /// Whether the block was deleted.
    pub is_tombstone: bool,
    /// The greatest label.
    pub max_label_id: Option<LabelId>,
    /// The least label.
    pub min_label_id: Option<LabelId>,
    /// The greatest destination.
    pub max_dst_id: VertexId,
    /// The least destination.
    pub min_dst_id: VertexId,
    /// The source.
    pub src_id: VertexId,
    /// The number of edges.
    pub edge_counter: usize,
    /// The edges, in the order of destination and label, and empty slots behind them.
    pub edges: [OlapStorageEdge; BLOCK_CAPACITY],
}

/// A block of edges with the differences between destinations packed into as few bits as the
/// greatest of them needs.
#[derive(Debug)]
pub struct CompressedEdgeBlock {
    /// The position of the previous block of the same source.
    pub pre_block_index: Option<usize>,
    /// The position of this block.
    pub cur_block_index: usize,
    /// The greatest label.
    pub max_label_id: Option<LabelId>,
    /// The least label.
    pub min_label_id: Option<LabelId>,
    /// The greatest destination.
    pub max_dst_id: VertexId,
    /// The least destination.
    pub min_dst_id: VertexId,
    /// The source.
    pub src_id: VertexId,
    /// The number of edges.
    pub edge_counter: usize,
    /// The number of bits of a difference.
    pub delta_bit_width: u8,
    /// The destination of the first edge.
    pub first_dst_id: VertexId,
    /// The differences between the destinations, low bit first.
    pub compressed_dst_ids: WordBits,
    /// The labels.
    pub label_ids: [Option<LabelId>; BLOCK_CAPACITY],
}

/// The values of a property for the edges of a block.
#[derive(Debug)]
pub struct PropertyBlock {
    /// The values.
    pub values: Vec<Option<ScalarValue>>,
}

/// The values of a property, block by block.
#[derive(Debug)]
pub struct PropertyColumn {
    /// The blocks.
    pub blocks: Vec<PropertyBlock>,
}

/// The values of a property for the edges of a block, without the missing ones.
#[derive(Debug)]
pub struct CompressedPropertyBlock {
    /// Which values are there.
    pub bitmap: ShortBits,
    /// The number of values in each run of sixteen.
    pub offsets: [u8; 16],
    /// The values that are there.
    pub values: Vec<ScalarValue>,
}

/// The values of a property, block by block, without the missing ones.
#[derive(Debug)]
pub struct CompressedPropertyColumn {
    /// The blocks.
    pub blocks: Vec<CompressedPropertyBlock>,
}

/// The analytical storage of a graph.
pub struct OlapStorage {
    /// The position that the next vertex gets.
    pub logic_id_counter: u64,
    /// The position of each vertex.
    pub dense_id_map: DashMap<u64, u64, RandomState>,
    /// The vertices.
    pub vertices: Vec<OlapVertex>,
    /// The blocks of edges.
    pub edges: Vec<EdgeBlock>,
    /// The properties of the edges.
    pub property_columns: Vec<PropertyColumn>,
    /// Whether the blocks of edges have been compressed.
    pub is_edge_compressed: bool,
    /// The compressed blocks of edges.
    pub compressed_edges: Vec<CompressedEdgeBlock>,
    /// Whether the properties have been compressed.
    pub is_property_compressed: bool,
    /// The compressed properties.
    pub compressed_properties: Vec<CompressedPropertyColumn>,
}

/// What a block of edges is.
pub struct BlockView {
    /// The position of the previous block of the same source.
    pub pre: Option<usize>,
    /// The position of this block.
    pub cur: usize,
    /// Whether the block was deleted.
    pub tombstone: bool,
    /// The greatest label.
    pub max_label: Option<LabelId>,
    /// The least label.
    pub min_label: Option<LabelId>,
    /// The greatest destination.
    pub max_dst: VertexId,
    /// The least destination.
    pub min_dst: VertexId,
    /// The source.
    pub src: VertexId,
    /// The number of edges.
    pub count: usize,
    /// The slots.
    pub edges: Seq<OlapStorageEdge>,
}

/// What a compressed block of edges is.
pub struct CompressedView {
    /// The position of the previous block of the same source.
    pub pre: Option<usize>,
    /// The position of this block.
    pub cur: usize,
    /// The greatest label.
    pub max_label: Option<LabelId>,
    /// The least label.
    pub min_label: Option<LabelId>,
    /// The greatest destination.
    pub max_dst: VertexId,
    /// The least destination.
    pub min_dst: VertexId,
    /// The source.
    pub src: VertexId,
    /// The number of edges.
    pub count: usize,
    /// The number of bits of a difference.
    pub width: u8,
    /// The destination of the first edge.
    pub first_dst: VertexId,
    /// The bits of the differences.
    pub bits: Seq<bool>,
    /// The labels.
    pub labels: Seq<Option<LabelId>>,
}

/// What a compressed block of property values is.
pub struct CompressedValues {
    /// Which values are there.
    pub bitmap: Seq<bool>,
    /// The number of values in each run of sixteen.
    pub offsets: Seq<u8>,
    /// The values that are there.
    pub values: Seq<ScalarValue>,
}

/// What the storage is.
pub struct OlapView {
    /// The position that the next vertex gets.
    pub counter: u64,
    /// The position of each vertex.
    pub dense: Map<u64, u64>,
    /// The vertices.
    pub vertices: Seq<OlapVertex>,
    /// The blocks of edges.
    pub blocks: Seq<BlockView>,
    /// The properties of the edges: column, block, position.
    pub columns: Seq<Seq<Seq<Option<ScalarValue>>>>,
    /// Whether the blocks of edges have been compressed.
    pub edges_compressed: bool,
    /// The compressed blocks of edges.
    pub compressed: Seq<CompressedView>,
    /// Whether the properties have been compressed.
    pub properties_compressed: bool,
    /// The compressed properties: column, block.
    pub compressed_columns: Seq<Seq<CompressedValues>>,
}

impl View for OlapPropertyStore {
    type V = Seq<Option<ScalarValue>>;

    closed spec fn view(&self) -> Seq<Option<ScalarValue>> {
        self.properties@
    }
}

impl View for EdgeBlock {
    type V = BlockView;

    open spec fn view(&self) -> BlockView {
        BlockView {
            pre: self.pre_block_index,
            cur: self.cur_block_index,
            tombstone: self.is_tombstone,
            max_label: self.max_label_id,
            min_label: self.min_label_id,
            max_dst: self.max_dst_id,
            min_dst: self.min_dst_id,
            src: self.src_id,
            count: self.edge_counter,
            edges: self.edges@,
        }
    }
}

impl View for CompressedEdgeBlock {
    type V = CompressedView;

    open spec fn view(&self) -> CompressedView {
        CompressedView {
            pre: self.pre_block_index,
            cur: self.cur_block_index,
            max_label: self.max_label_id,
            min_label: self.min_label_id,
            max_dst: self.max_dst_id,
            min_dst: self.min_dst_id,
            src: self.src_id,
            count: self.edge_counter,
            width: self.delta_bit_width,
            first_dst: self.first_dst_id,
            bits: self.compressed_dst_ids@,
            labels: self.label_ids@,
        }
    }
}

impl View for PropertyColumn {
    type V = Seq<Seq<Option<ScalarValue>>>;

    open spec fn view(&self) -> Seq<Seq<Option<ScalarValue>>> {
        self.blocks@.map_values(|block: PropertyBlock| block.values@)
    }
}

impl View for CompressedPropertyBlock {
    type V = CompressedValues;

    open spec fn view(&self) -> CompressedValues {
        CompressedValues {
            bitmap: self.bitmap@,
            offsets: self.offsets@,
            values: self.values@,
        }
    }
}

impl View for CompressedPropertyColumn {
    type V = Seq<CompressedValues>;

    open spec fn view(&self) -> Seq<CompressedValues> {
        self.blocks@.map_values(|block: CompressedPropertyBlock| block@)
    }
}

/// What blocks of edges are.
pub open spec fn blocks_view(blocks: Seq<EdgeBlock>) -> Seq<BlockView> {
    blocks.map_values(|block: EdgeBlock| block@)
}

/// What columns of properties are.
pub open spec fn columns_view(columns: Seq<PropertyColumn>) -> Seq<Seq<Seq<Option<ScalarValue>>>> {
    columns.map_values(|column: PropertyColumn| column@)
}

impl View for OlapStorage {
    type V = OlapView;

    open spec fn view(&self) -> OlapView {
        OlapView {
            counter: self.logic_id_counter,
            dense: dash_map_contents(self.dense_id_map),
            vertices: self.vertices@,
            blocks: blocks_view(self.edges@),
            columns: columns_view(self.property_columns@),
            edges_compressed: self.is_edge_compressed,
            compressed: self.compressed_edges@.map_values(|block: CompressedEdgeBlock| block@),
            properties_compressed: self.is_property_compressed,
            compressed_columns: self.compressed_properties@.map_values(
                |column: CompressedPropertyColumn| column@,
            ),
        }
    }
}

/// A slot that holds no edge.
pub open spec fn empty_slot() -> OlapStorageEdge {
    OlapStorageEdge { label_id: Some(TOMBSTONE_LABEL_ID), dst_id: TOMBSTONE_DST_ID }
}

/// The order of labels: no label comes before every label.
pub open spec fn label_before(a: Option<LabelId>, b: Option<LabelId>) -> bool {
    match (a, b) {
        (None, Some(_)) => true,
        (Some(x), Some(y)) => x < y,
        _ => false,
    }
}

/// The order of edges within a block: by destination, then by label.
pub open spec fn edge_before(a: OlapStorageEdge, b: OlapStorageEdge) -> bool {
    a.dst_id < b.dst_id || (a.dst_id == b.dst_id && label_before(a.label_id, b.label_id))
}

/// Whether the first edges of a block are in order.
pub open spec fn in_order(edges: Seq<OlapStorageEdge>, count: nat) -> bool {
    forall|i: int, j: int|
        0 <= i <= j < count ==> !edge_before(#[trigger] edges[j], #[trigger] edges[i])
}

/// Whether a block is as the storage keeps it: edges in order, empty slots behind them. Only a
/// block whose last edge was deleted still shows that edge.
pub open spec fn block_ok(block: BlockView) -> bool {
    &&& block.edges.len() == BLOCK_CAPACITY
    &&& block.count <= BLOCK_CAPACITY
    &&& in_order(block.edges, block.count as nat)
    &&& forall|i: int|
        block.count <= i < BLOCK_CAPACITY && !(block.tombstone && block.count == 0 && i == 0)
            ==> #[trigger] block.edges[i] == empty_slot()
}

impl OlapView {
    /// Whether the storage is well formed: every block is, the blocks of a source are chained
    /// backwards, and every block of property values has a value for each slot.
    pub open spec fn wf(self) -> bool {
        &&& forall|i: int| 0 <= i < self.blocks.len() ==> block_ok(#[trigger] self.blocks[i])
        &&& forall|i: int|
            0 <= i < self.blocks.len() ==> ((#[trigger] self.blocks[i]).pre matches Some(pre)
                ==> pre < i)
        &&& forall|c: int, b: int|
            0 <= c < self.columns.len() && 0 <= b < self.columns[c].len() ==> (
            #[trigger] self.columns[c][b]).len() == BLOCK_CAPACITY
        &&& self.blocks.len() < NO_BLOCK
    }
}

impl OlapStorageEdge {
    /// A slot that holds no edge.
    pub fn default() -> (slot: OlapStorageEdge)
        ensures
            slot == empty_slot(),
    {
        OlapStorageEdge { label_id: Some(TOMBSTONE_LABEL_ID), dst_id: TOMBSTONE_DST_ID }
    }
}

/// A copy of a value that may be missing.
pub fn duplicate_option(value: &Option<ScalarValue>) -> (copy: Option<ScalarValue>)
    ensures
        copy == *value,
{
    match value {
        Some(v) => Some(v.duplicate()),
        None => None,
    }
}

/// The order of labels.
pub fn label_less(a: Option<LabelId>, b: Option<LabelId>) -> (less: bool)
    ensures
        less == label_before(a, b),
{
    match (a, b) {
        (None, Some(_)) => true,
        (Some(x), Some(y)) => x < y,
        _ => false,
    }
}

/// The order of edges within a block.
pub fn edge_less(a: OlapStorageEdge, b: OlapStorageEdge) -> (less: bool)
    ensures
        less == edge_before(a, b),
{
    a.dst_id < b.dst_id || (a.dst_id == b.dst_id && label_less(a.label_id, b.label_id))
}

impl OlapPropertyStore {
    /// A store of the given values.
    pub fn new(properties: Vec<Option<ScalarValue>>) -> (store: OlapPropertyStore)
        ensures
            store@ == properties@,
    {
        OlapPropertyStore { properties }
    }

    /// Puts a value at a position, and moves the values from there on up by one.
    pub fn set_prop(&mut self, index: usize, prop: Option<ScalarValue>)
        requires
            index <= old(self)@.len(),
        ensures
            final(self)@ == old(self)@.insert(index as int, prop),
    {
        self.properties.insert(index, prop);
    }

    /// The value at a position, if there is one.
    pub fn get(&self, index: usize) -> (value: Option<ScalarValue>)
        ensures
            value == (if index < self@.len() {
                self@[index as int]
            } else {
                None
            }),
    {
        if index < self.properties.len() {
            duplicate_option(&self.properties[index])
        } else {
            None
        }
    }
}

impl OlapVertex {
    /// A copy.
    pub fn duplicate(&self) -> (copy: OlapVertex)
        ensures
            copy == *self,
    {
        OlapVertex {
            vid: self.vid,
            properties: self.properties.duplicate(),
            block_offset: self.block_offset,
        }
    }
}

} // verus!
