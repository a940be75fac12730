//! Chunks of rows, held column by column.

use vstd::prelude::*;

#[allow(unused_imports)]
use super::array::{array_cells, array_type, Column};
use super::array::ArrayRef;

verus! {

/// A chunk of rows: the columns of a table, or of a part of it.
#[derive(Debug)]
pub struct DataChunk {
    columns: Vec<ArrayRef>,
}

impl View for DataChunk {
    type V = Seq<Column>;

    closed spec fn view(&self) -> Seq<Column> {
        self.columns@.map_values(|column: ArrayRef| column@)
    }
}

/// The columns that a sequence of arrays stands for.
pub open spec fn columns_of(arrays: Seq<ArrayRef>) -> Seq<Column> {
    arrays.map_values(|array: ArrayRef| array@)
}

/// The number of rows: the length of the first column.
pub open spec fn row_count(columns: Seq<Column>) -> nat {
    if columns.len() == 0 {
        0
    } else {
        columns[0].cells.len()
    }
}

/// Whether all columns have the same number of rows.
pub open spec fn rectangular(columns: Seq<Column>) -> bool {
    forall|i: int|
        0 <= i < columns.len() ==> (#[trigger] columns[i]).cells.len() == row_count(columns)
}

/// The columns of the chunk that holds a single row.
pub open spec fn row_of(columns: Seq<Column>, row: int) -> Seq<Column> {
    columns.map_values(
        |column: Column|
            Column {
                array_type: column.array_type,
                cells: column.cells.subrange(row, row + 1),
            },
    )
}

impl DataChunk {
    /// A chunk of the given columns.
    pub fn new(columns: Vec<ArrayRef>) -> (chunk: Self)
        ensures
            chunk@ == columns_of(columns@),
    {
        DataChunk { columns }
    }

    /// The columns.
    pub fn columns(&self) -> (columns: &Vec<ArrayRef>)
        ensures
            columns_of(columns@) == self@,
    {
        &self.columns
    }

    /// The number of rows.
    pub fn len(&self) -> (len: usize)
        ensures
            len == row_count(self@),
    {
        if self.columns.len() == 0 {
            0
        } else {
            self.columns[0].len()
        }
    }

    /// Whether there is no row.
    pub fn is_empty(&self) -> (empty: bool)
        ensures
            empty == (row_count(self@) == 0),
    {
        self.len() == 0
    }

    /// The chunk that holds a single row of this one.
    pub fn row(&self, row: usize) -> (chunk: DataChunk)
        requires
            rectangular(self@),
            row < row_count(self@),
        ensures
            chunk@ == row_of(self@, row as int),
    {
        let mut columns: Vec<ArrayRef> = Vec::new();
        for i in 0..self.columns.len()
            invariant
                rectangular(self@),
                row < row_count(self@),
                columns@.len() == i,
                forall|j: int|
                    0 <= j < i ==> (#[trigger] columns@[j])@ == row_of(self@, row as int)[j],
        {
            assert(self@[i as int].cells.len() == row_count(self@));
            columns.push(self.columns[i].slice(row, 1));
        }
        assert(columns_of(columns@) =~= row_of(self@, row as int));
        DataChunk { columns }
    }

    /// A chunk of the same columns.
    pub fn duplicate(&self) -> (copy: DataChunk)
        ensures
            copy@ == self@,
    {
        let columns = duplicate_arrays(&self.columns);
        DataChunk { columns }
    }
}

/// Further handles on the same arrays.
pub fn duplicate_arrays(arrays: &Vec<ArrayRef>) -> (copy: Vec<ArrayRef>)
    ensures
        copy@ == arrays@,
{
    let mut copy: Vec<ArrayRef> = Vec::new();
    for i in 0..arrays.len()
        invariant
            copy@ == arrays@.take(i as int),
    {
        copy.push(arrays[i].duplicate());
        assert(arrays@.take(i + 1) =~= arrays@.take(i as int).push(arrays@[i as int]));
    }
    assert(arrays@.take(arrays@.len() as int) =~= arrays@);
    copy
}

/// The number of rows of chunks.
pub open spec fn total_rows(chunks: Seq<DataChunk>) -> nat
    decreases chunks.len(),
{
    if chunks.len() == 0 {
        0
    } else {
        total_rows(chunks.drop_last()) + row_count(chunks.last()@)
    }
}

proof fn lemma_total_rows(chunks: Seq<DataChunk>, n: int)
    requires
        0 <= n <= chunks.len(),
    ensures
        total_rows(chunks.take(n)) <= total_rows(chunks),
    decreases chunks.len() - n,
{
    if n < chunks.len() {
        lemma_total_rows(chunks, n + 1);
        assert(chunks.take(n + 1).drop_last() =~= chunks.take(n));
    } else {
        assert(chunks.take(n) =~= chunks);
    }
}

/// Counts the rows of chunks.
pub fn count_rows(chunks: &Vec<DataChunk>) -> (rows: usize)
    requires
        total_rows(chunks@) <= usize::MAX,
    ensures
        rows == total_rows(chunks@),
{
    let mut rows: usize = 0;
    for i in 0..chunks.len()
        invariant
            total_rows(chunks@) <= usize::MAX,
            rows == total_rows(chunks@.take(i as int)),
    {
        proof {
            lemma_total_rows(chunks@, i + 1);
            assert(chunks@.take(i + 1).drop_last() =~= chunks@.take(i as int));
            assert(chunks@.take(i + 1).last() == chunks@[i as int]);
        }
        rows = rows + chunks[i].len();
    }
    assert(chunks@.take(chunks@.len() as int) =~= chunks@);
    rows
}

} // verus!
