//! Compression of the analytical storage.

use vstd::prelude::*;

use super::bits::{ShortBits, WordBits};
use super::model::{
    CompressedEdgeBlock, CompressedPropertyBlock, CompressedPropertyColumn, EdgeBlock,
    OlapStorage, OlapStorageEdge, OlapView, PropertyBlock, PropertyColumn, BLOCK_CAPACITY,
};
#[allow(unused_imports)]
use super::model::{
    block_ok, blocks_view, columns_view, edge_before, empty_slot, in_order, BlockView,
    CompressedValues, CompressedView,
};
use crate::common::types::LabelId;
use crate::common::value::ScalarValue;

verus! {

/// The greatest difference between neighbouring destinations from the `i`th edge on, and `least`.
/// The search ends at the first destination that an empty slot would have.
pub open spec fn max_delta(edges: Seq<OlapStorageEdge>, i: int, least: u64) -> u64
    decreases edges.len() - i,
{
    if i < 1 || i >= edges.len() || edges[i].dst_id == 1 {
        least
    } else {
        let delta = (edges[i].dst_id - edges[i - 1].dst_id) as u64;
        max_delta(
            edges,
            i + 1,
            if delta >= least {
                delta
            } else {
                least
            },
        )
    }
}

/// The number of bits that a number needs, at least one.
pub open spec fn bits_needed(n: u64) -> u8 {
    if n == 0 {
        1
    } else {
        (64 - vstd::std_specs::bits::u64_leading_zeros(n)) as u8
    }
}

/// The lowest bits of a number, lowest first.
pub open spec fn low_bits(n: nat, width: nat) -> Seq<bool>
    decreases width,
{
    if width == 0 {
        Seq::empty()
    } else {
        seq![n % 2 == 1] + low_bits(n / 2, (width - 1) as nat)
    }
}

/// The difference between the destination of an edge and that of the edge before it.
pub open spec fn delta_at(edges: Seq<OlapStorageEdge>, i: int) -> nat {
    (edges[i].dst_id - edges[i - 1].dst_id) as nat
}

/// The bits of the first `n` differences.
pub open spec fn delta_bits(edges: Seq<OlapStorageEdge>, width: nat, n: nat) -> Seq<bool>
    decreases n,
{
    if n == 0 {
        Seq::empty()
    } else {
        delta_bits(edges, width, (n - 1) as nat) + low_bits(delta_at(edges, n as int), width)
    }
}

/// A block after compression.
pub open spec fn compressed_block(block: BlockView, index: usize) -> CompressedView {
    let width = bits_needed(max_delta(block.edges, 1, 0));
    CompressedView {
        pre: block.pre,
        cur: index,
        max_label: block.max_label,
        min_label: block.min_label,
        max_dst: block.max_dst,
        min_dst: block.min_dst,
        src: block.src,
        count: block.count,
        width,
        first_dst: block.edges[0].dst_id,
        bits: delta_bits(block.edges, width as nat, (block.count - 1) as nat),
        labels: Seq::new(
            BLOCK_CAPACITY as nat,
            |i: int|
                if i == 0 || i < block.count {
                    block.edges[i].label_id
                } else {
                    Some(1)
                },
        ),
    }
}

/// The number of bits that are set from `start` on, up to `end`.
pub open spec fn ones(bitmap: Seq<bool>, start: int, end: int) -> nat
    decreases end - start,
{
    if start >= end {
        0
    } else {
        ones(bitmap, start, end - 1) + if bitmap[end - 1] {
            1nat
        } else {
            0
        }
    }
}

/// The values among the first `n` that are not missing.
pub open spec fn present_values(values: Seq<Option<ScalarValue>>, n: int) -> Seq<ScalarValue>
    decreases n,
{
    if n <= 0 {
        Seq::empty()
    } else {
        match values[n - 1] {
            Some(value) => present_values(values, n - 1).push(value),
            None => present_values(values, n - 1),
        }
    }
}

/// A block of property values after compression.
pub open spec fn compressed_values(values: Seq<Option<ScalarValue>>) -> CompressedValues {
    let bitmap = Seq::new(
        BLOCK_CAPACITY as nat,
        |i: int| i < values.len() && values[i] is Some,
    );
    CompressedValues {
        bitmap,
        offsets: Seq::new(16, |k: int| ones(bitmap, k * 16, k * 16 + 16) as u8),
        values: present_values(values, values.len() as int),
    }
}

/// A column of property values after compression.
pub open spec fn compressed_column(column: Seq<Seq<Option<ScalarValue>>>) -> Seq<CompressedValues> {
    column.map_values(|values: Seq<Option<ScalarValue>>| compressed_values(values))
}

impl OlapView {
    /// The storage with its edges compressed.
    pub open spec fn with_compressed_edges(self) -> OlapView {
        if self.edges_compressed {
            self
        } else {
            OlapView {
                edges_compressed: true,
                compressed: Seq::new(
                    self.blocks.len(),
                    |i: int| compressed_block(self.blocks[i], i as usize),
                ) + self.compressed,
                blocks: Seq::empty(),
                ..self
            }
        }
    }

    /// The storage with its properties compressed.
    pub open spec fn with_compressed_properties(self) -> OlapView {
        if self.properties_compressed {
            self
        } else {
            OlapView {
                properties_compressed: true,
                compressed_columns: self.columns.map_values(
                    |column: Seq<Seq<Option<ScalarValue>>>| compressed_column(column),
                ) + self.compressed_columns,
                columns: Seq::empty(),
                ..self
            }
        }
    }
}

proof fn lemma_low_bits_len(n: nat, width: nat)
    ensures
        low_bits(n, width).len() == width,
    decreases width,
{
    if width > 0 {
        lemma_low_bits_len(n / 2, (width - 1) as nat);
    }
}

proof fn lemma_low_bit(n: nat, width: nat, j: nat)
    requires
        j < width,
    ensures
        low_bits(n, width).len() == width,
        low_bits(n, width)[j as int] == ((n / vstd::arithmetic::power2::pow2(j)) % 2 == 1),
    decreases width,
{
    lemma_low_bits_len(n, width);
    lemma_low_bits_len(n / 2, (width - 1) as nat);
    vstd::arithmetic::power2::lemma2_to64();
    if j > 0 {
        lemma_low_bit(n / 2, (width - 1) as nat, (j - 1) as nat);
        vstd::arithmetic::power2::lemma_pow2_unfold(j);
        vstd::arithmetic::power2::lemma_pow2_pos((j - 1) as nat);
        vstd::arithmetic::div_mod::lemma_div_denominator(
            n as int,
            2,
            vstd::arithmetic::power2::pow2((j - 1) as nat) as int,
        );
        assert(low_bits(n, width)[j as int] == low_bits(n / 2, (width - 1) as nat)[j - 1]);
        assert((n / 2) / vstd::arithmetic::power2::pow2((j - 1) as nat) == n
            / vstd::arithmetic::power2::pow2(j));
    } else {
        assert(n / 1 == n);
    }
}

proof fn lemma_delta_bits_len(edges: Seq<OlapStorageEdge>, width: nat, n: nat)
    ensures
        delta_bits(edges, width, n).len() == n * width,
    decreases n,
{
    if n > 0 {
        lemma_delta_bits_len(edges, width, (n - 1) as nat);
        lemma_low_bits_len(delta_at(edges, n as int), width);
        assert(n * width == (n - 1) * width + width) by (nonlinear_arith)
            requires
                n > 0,
        ;
    } else {
        assert(0 * width == 0) by (nonlinear_arith);
    }
}

/// A bit of a number, as the executable code takes it.
fn bit_of(n: u64, j: usize) -> (bit: bool)
    requires
        j < 64,
    ensures
        bit == ((n as nat / vstd::arithmetic::power2::pow2(j as nat)) % 2 == 1),
{
    let shift: u64 = j as u64;
    let shifted: u64 = n >> shift;
    proof {
        vstd::bits::lemma_u64_shr_is_div(n, shift);
        assert(shifted & 1 == shifted % 2) by (bit_vector);
    }
    shifted & 1 == 1
}

/// The number of bits that a number needs.
fn width_of(n: u64) -> (width: u8)
    ensures
        width == bits_needed(n),
        1 <= width <= 64,
{
    proof {
        vstd::std_specs::bits::axiom_u64_leading_zeros(n);
    }
    if n == 0 {
        1
    } else {
        (64 - n.leading_zeros()) as u8
    }
}

impl EdgeBlock {
    /// The greatest difference between neighbouring destinations.
    fn greatest_delta(&self) -> (delta: u64)
        requires
            block_ok(self@),
            self@.count >= 1,
        ensures
            delta == max_delta(self@.edges, 1, 0),
    {
        let mut greatest: u64 = 0;
        let mut i: usize = 1;
        while i < BLOCK_CAPACITY
            invariant
                1 <= i <= BLOCK_CAPACITY,
                i <= self@.count,
                block_ok(self@),
                max_delta(self@.edges, 1, 0) == max_delta(self@.edges, i as int, greatest),
            decreases BLOCK_CAPACITY - i,
        {
            let cur: u64 = self.edges[i].dst_id;
            let pre: u64 = self.edges[i - 1].dst_id;
            if cur == 1 {
                return greatest;
            }
            proof {
                if i >= self@.count {
                    assert(self@.edges[i as int] == empty_slot());
                }
                assert(!edge_before(self@.edges[i as int], self@.edges[i - 1]));
            }
            let delta: u64 = cur - pre;
            if delta >= greatest {
                greatest = delta;
            }
            i = i + 1;
        }
        greatest
    }

    /// The bits of the differences between neighbouring destinations.
    fn packed_deltas(&self, width: u8) -> (bits: WordBits)
        requires
            block_ok(self@),
            self@.count >= 1,
            1 <= width <= 64,
        ensures
            bits@ == delta_bits(self@.edges, width as nat, (self@.count - 1) as nat),
    {
        let count: usize = self.edge_counter;
        let wide: usize = width as usize;
        let ghost edges = self@.edges;
        let ghost w = width as nat;
        assert(wide * (count - 1) <= 64 * 255) by (nonlinear_arith)
            requires
                1 <= wide <= 64,
                1 <= count <= 256,
        ;
        let mut bits = WordBits::zeros(wide * (count - 1));
        let ghost total = bits@.len();
        assert(total == (count - 1) * w) by (nonlinear_arith)
            requires
                total == wide * (count - 1),
                w == wide,
        ;
        assert(bits@.take(0) =~= delta_bits(edges, w, 0));
        assert(0 * w == 0) by (nonlinear_arith);
        for i in 1..count
            invariant
                block_ok(self@),
                edges == self@.edges,
                count == self@.count,
                1 <= wide <= 64,
                w == wide,
                bits@.len() == total,
                total == (count - 1) * w,
                total <= 64 * 255,
                (i - 1) * w <= total,
                bits@.take((i - 1) * w) == delta_bits(edges, w, (i - 1) as nat),
        {
            proof {
                assert(!edge_before(edges[i as int], edges[i - 1]));
                lemma_delta_bits_len(edges, w, (i - 1) as nat);
                assert(i * w == (i - 1) * w + w) by (nonlinear_arith);
                assert(i * w <= (count - 1) * w) by (nonlinear_arith)
                    requires
                        i <= count - 1,
                ;
            }
            let delta: u64 = self.edges[i].dst_id - self.edges[i - 1].dst_id;
            assert((i - 1) * wide <= total) by (nonlinear_arith)
                requires
                    (i - 1) * w <= total,
                    w == wide,
            ;
            let start: usize = (i - 1) * wide;
            proof {
                lemma_low_bits_len(delta as nat, w);
                assert(start == (i - 1) * w) by (nonlinear_arith)
                    requires
                        start == (i - 1) * wide,
                        w == wide,
                ;
                assert(bits@.take(start as int) =~= delta_bits(edges, w, (i - 1) as nat)
                    + low_bits(delta as nat, w).take(0));
            }
            for j in 0..wide
                invariant
                    1 <= wide <= 64,
                    w == wide,
                    start + w <= total,
                    total <= 64 * 255,
                    bits@.len() == total,
                    low_bits(delta as nat, w).len() == w,
                    delta_bits(edges, w, (i - 1) as nat).len() == start,
                    bits@.take(start + j) == delta_bits(edges, w, (i - 1) as nat) + low_bits(
                        delta as nat,
                        w,
                    ).take(j as int),
            {
                let bit = bit_of(delta, j);
                let ghost before = bits@;
                bits.set(start + j, bit);
                proof {
                    lemma_low_bit(delta as nat, w, j as nat);
                    assert(bits@.take(start + j + 1) =~= before.take(start + j).push(bit));
                    assert(low_bits(delta as nat, w).take(j + 1) =~= low_bits(
                        delta as nat,
                        w,
                    ).take(j as int).push(bit));
                    assert(bits@.take(start + j + 1) =~= delta_bits(edges, w, (i - 1) as nat)
                        + low_bits(delta as nat, w).take(j + 1));
                }
            }
            proof {
                assert(low_bits(delta as nat, w).take(w as int) =~= low_bits(delta as nat, w));
                assert(delta_at(edges, i as int) == delta as nat);
                assert(bits@.take(i * w) == delta_bits(edges, w, i as nat));
            }
        }
        assert(bits@.take(total as int) =~= bits@);
        bits
    }

    /// The block after compression.
    fn compress(&self, index: usize) -> (block: CompressedEdgeBlock)
        requires
            block_ok(self@),
            self@.count >= 1,
        ensures
            block@ == compressed_block(self@, index),
    {
        let width: u8 = width_of(self.greatest_delta());
        let compressed_dst_ids = self.packed_deltas(width);
        let mut label_ids: [Option<LabelId>; BLOCK_CAPACITY] = [Some(1);BLOCK_CAPACITY];
        for i in 1..self.edge_counter
            invariant
                self@.count <= BLOCK_CAPACITY,
                self@.count == self.edge_counter,
                forall|j: int|
                    0 <= j < BLOCK_CAPACITY ==> #[trigger] label_ids@[j] == if 1 <= j < i {
                        self@.edges[j].label_id
                    } else {
                        Some(1)
                    },
        {
            label_ids[i] = self.edges[i].label_id;
        }
        label_ids[0] = self.edges[0].label_id;
        assert(label_ids@ =~= compressed_block(self@, index).labels);
        CompressedEdgeBlock {
            pre_block_index: self.pre_block_index,
            cur_block_index: index,
            max_label_id: self.max_label_id,
            min_label_id: self.min_label_id,
            max_dst_id: self.max_dst_id,
            min_dst_id: self.min_dst_id,
            src_id: self.src_id,
            edge_counter: self.edge_counter,
            delta_bit_width: width,
            first_dst_id: self.edges[0].dst_id,
            compressed_dst_ids,
            label_ids,
        }
    }
}

proof fn lemma_ones_bound(bitmap: Seq<bool>, start: int, end: int)
    ensures
        ones(bitmap, start, end) <= if start <= end {
            end - start
        } else {
            0
        },
    decreases end - start,
{
    if start < end {
        lemma_ones_bound(bitmap, start, end - 1);
    }
}

/// The number of bits that are set in a run of sixteen.
fn count_ones(bitmap: &ShortBits, start: usize) -> (count: u8)
    requires
        start + 16 <= bitmap@.len() <= BLOCK_CAPACITY,
    ensures
        count == ones(bitmap@, start as int, start + 16),
{
    let mut count: u8 = 0;
    for i in 0..16usize
        invariant
            start + 16 <= bitmap@.len() <= BLOCK_CAPACITY,
            count == ones(bitmap@, start as int, start + i),
            count <= i,
    {
        if bitmap.get(start + i) {
            count = count + 1;
        }
    }
    count
}

impl PropertyBlock {
    /// The block after compression.
    fn compress(&self) -> (block: CompressedPropertyBlock)
        requires
            self.values@.len() <= BLOCK_CAPACITY,
        ensures
            block@ == compressed_values(self.values@),
    {
        let mut bitmap = ShortBits::zeros(BLOCK_CAPACITY);
        let mut values: Vec<ScalarValue> = Vec::new();
        for i in 0..self.values.len()
            invariant
                self.values@.len() <= BLOCK_CAPACITY,
                bitmap@.len() == BLOCK_CAPACITY,
                forall|j: int|
                    0 <= j < BLOCK_CAPACITY ==> #[trigger] bitmap@[j] == (j < i && self.values@[j]
                        is Some),
                values@ == present_values(self.values@, i as int),
        {
            match &self.values[i] {
                Some(value) => {
                    bitmap.set(i, true);
                    values.push(value.duplicate());
                },
                None => {},
            }
        }
        let ghost expected = compressed_values(self.values@);
        assert(bitmap@ =~= expected.bitmap);
        let mut offsets: [u8; 16] = [0u8;16];
        for k in 0..16usize
            invariant
                bitmap@.len() == BLOCK_CAPACITY,
                expected == compressed_values(self.values@),
                bitmap@ == expected.bitmap,
                forall|j: int| 0 <= j < k ==> #[trigger] offsets@[j] == expected.offsets[j],
        {
            let count: u8 = count_ones(&bitmap, k * 16);
            proof {
                lemma_ones_bound(bitmap@, k * 16, k * 16 + 16);
            }
            offsets[k] = count;
        }
        assert(offsets@ =~= expected.offsets);
        CompressedPropertyBlock { bitmap, offsets, values }
    }
}

impl PropertyColumn {
    /// The column after compression.
    fn compress(&self) -> (column: CompressedPropertyColumn)
        requires
            forall|b: int|
                0 <= b < self@.len() ==> (#[trigger] self@[b]).len() <= BLOCK_CAPACITY,
        ensures
            column@ == compressed_column(self@),
    {
        let mut blocks: Vec<CompressedPropertyBlock> = Vec::new();
        for b in 0..self.blocks.len()
            invariant
                forall|b: int|
                    0 <= b < self@.len() ==> (#[trigger] self@[b]).len() <= BLOCK_CAPACITY,
                blocks@.len() == b,
                forall|j: int|
                    0 <= j < b ==> (#[trigger] blocks@[j])@ == compressed_values(self@[j]),
        {
            assert(self@[b as int].len() <= BLOCK_CAPACITY);
            blocks.push(self.blocks[b].compress());
        }
        let column = CompressedPropertyColumn { blocks };
        assert(column@ =~= compressed_column(self@));
        column
    }
}

impl OlapStorage {
    /// Compresses the blocks of edges, once. Every block must have an edge.
    pub fn compress_edge(&mut self)
        requires
            !old(self)@.edges_compressed ==> old(self)@.wf() && forall|i: int|
                0 <= i < old(self)@.blocks.len() ==> (#[trigger] old(self)@.blocks[i]).count >= 1,
        ensures
            final(self)@ == old(self)@.with_compressed_edges(),
    {
        if self.is_edge_compressed {
            return;
        }
        self.is_edge_compressed = true;
        let ghost start = self@;
        assert(start == (OlapView { edges_compressed: true, ..old(self)@ }));
        assert(start.wf());
        let ghost done = Seq::new(
            start.blocks.len(),
            |i: int| compressed_block(start.blocks[i], i as usize),
        );
        let blocks: usize = self.edges.len();
        assert(done.take(0) + start.compressed =~= start.compressed);
        for index in 0..blocks
            invariant
                blocks == self.edges@.len(),
                blocks == start.blocks.len(),
                self@ == (OlapView { compressed: self@.compressed, ..start }),
                start.wf(),
                forall|i: int|
                    0 <= i < start.blocks.len() ==> (#[trigger] start.blocks[i]).count >= 1,
                done == Seq::new(
                    start.blocks.len(),
                    |i: int| compressed_block(start.blocks[i], i as usize),
                ),
                self@.compressed == done.take(index as int) + start.compressed,
                self.compressed_edges@.len() == index + start.compressed.len(),
        {
            assert(start.blocks[index as int] == self.edges@[index as int]@);
            assert(block_ok(start.blocks[index as int]));
            assert(start.blocks[index as int].count >= 1);
            let ghost before = self@;
            let block = self.edges[index].compress(index);
            self.compressed_edges.insert(index, block);
            assert(self@.compressed =~= before.compressed.insert(index as int, block@));
            assert(done.take(index + 1) =~= done.take(index as int).push(block@));
            assert(self@.compressed =~= done.take(index + 1) + start.compressed);
        }
        assert(done.take(done.len() as int) =~= done);
        self.edges = Vec::new();
        assert(self@.blocks =~= Seq::empty());
    }

    /// Compresses the properties, once.
    pub fn compress_property(&mut self)
        requires
            !old(self)@.properties_compressed ==> forall|c: int, b: int|
                0 <= c < old(self)@.columns.len() && 0 <= b < old(self)@.columns[c].len() ==> (
                #[trigger] old(self)@.columns[c][b]).len() <= BLOCK_CAPACITY,
        ensures
            final(self)@ == old(self)@.with_compressed_properties(),
    {
        if self.is_property_compressed {
            return;
        }
        self.is_property_compressed = true;
        let ghost start = self@;
        assert(start == (OlapView { properties_compressed: true, ..old(self)@ }));
        let ghost done = start.columns.map_values(
            |column: Seq<Seq<Option<ScalarValue>>>| compressed_column(column),
        );
        let columns: usize = self.property_columns.len();
        assert(done.take(0) + start.compressed_columns =~= start.compressed_columns);
        for index in 0..columns
            invariant
                columns == self.property_columns@.len(),
                columns == start.columns.len(),
                self@ == (OlapView { compressed_columns: self@.compressed_columns, ..start }),
                forall|c: int, b: int|
                    0 <= c < start.columns.len() && 0 <= b < start.columns[c].len() ==> (
                    #[trigger] start.columns[c][b]).len() <= BLOCK_CAPACITY,
                done == start.columns.map_values(
                    |column: Seq<Seq<Option<ScalarValue>>>| compressed_column(column),
                ),
                self@.compressed_columns == done.take(index as int) + start.compressed_columns,
                self.compressed_properties@.len() == index + start.compressed_columns.len(),
        {
            assert(start.columns[index as int] == self.property_columns@[index as int]@);
            assert forall|b: int| 0 <= b < start.columns[index as int].len() implies (
            #[trigger] self.property_columns@[index as int]@[b]).len() <= BLOCK_CAPACITY by {
                assert(start.columns[index as int][b].len() <= BLOCK_CAPACITY);
            }
            let ghost before = self@;
            let column = self.property_columns[index].compress();
            self.compressed_properties.insert(index, column);
            assert(self@.compressed_columns =~= before.compressed_columns.insert(
                index as int,
                column@,
            ));
            assert(done.take(index + 1) =~= done.take(index as int).push(column@));
            assert(self@.compressed_columns =~= done.take(index + 1) + start.compressed_columns);
        }
        assert(done.take(done.len() as int) =~= done);
        self.property_columns = Vec::new();
        assert(self@.columns =~= Seq::empty());
    }
}

} // verus!
