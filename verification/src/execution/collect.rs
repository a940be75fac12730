//! Columns made of loose values.

use vstd::prelude::*;

#[allow(unused_imports)]
use crate::common::array::{
    lemma_total_text_bound, missing_cell, text_size, text_view, total_text,
};
use crate::common::array::{
    boolean_array, float32_array, float64_array, int16_array, int32_array, int64_array,
    int8_array, string_array, uint16_array, uint32_array, uint64_array, uint8_array, ArrayRef,
    ArrayType, Cell, Column,
};
use crate::common::value::{ScalarValue, F32, F64};
#[allow(unused_imports)]
use crate::execution::state::cells_of;
use crate::execution::state::is_null_value;

verus! {

/// The position of the first value that is not null from the `i`th on, or the number of values.
pub open spec fn first_present(cells: Seq<Cell>, i: int) -> int
    decreases cells.len() - i,
{
    if i < 0 || i >= cells.len() {
        cells.len() as int
    } else if !cells[i].missing() {
        i
    } else {
        first_present(cells, i + 1)
    }
}

/// The type that a column of the given values should have: that of the first value that is not
/// null, or else of the first value.
pub open spec fn sample_type(cells: Seq<Cell>) -> ArrayType {
    let at = first_present(cells, 0);
    if at < cells.len() {
        cells[at].array_type()
    } else {
        cells[0].array_type()
    }
}

/// The cell as an element of an array of the given type: null where the cell's type is another.
pub open spec fn conform(cell: Cell, array_type: ArrayType) -> Cell {
    if cell.array_type() == array_type {
        cell
    } else {
        missing_cell(array_type)
    }
}

/// The column made of the given values. Values without a type of their own, and values that no
/// array holds, become nulls of type `Int64`.
pub open spec fn collected(cells: Seq<Cell>) -> Column {
    let sample = sample_type(cells);
    if cells.len() == 0 || sample == ArrayType::Null || sample == ArrayType::Other {
        Column {
            array_type: ArrayType::Int64,
            cells: cells.map_values(|cell: Cell| Cell::Int64(None)),
        }
    } else {
        Column {
            array_type: sample,
            cells: cells.map_values(|cell: Cell| conform(cell, sample)),
        }
    }
}

/// The values of type `Boolean`, with null in the place of every other value.
fn boolean_values(values: &Vec<ScalarValue>) -> (typed: Vec<Option<bool>>)
    ensures
        typed@.len() == values@.len(),
        forall|i: int|
            0 <= i < values@.len() ==> Cell::Boolean(#[trigger] typed@[i]) == conform(
                values@[i].cell(),
                ArrayType::Boolean,
            ),
{
    let mut typed: Vec<Option<bool>> = Vec::new();
    for i in 0..values.len()
        invariant
            typed@.len() == i,
            forall|j: int|
                0 <= j < i ==> Cell::Boolean(#[trigger] typed@[j]) == conform(
                    values@[j].cell(),
                    ArrayType::Boolean,
                ),
    {
        typed.push(
            match &values[i] {
                ScalarValue::Boolean(value) => *value,
                _ => None,
            },
        );
    }
    typed
}

/// The values of type `Int8`, with null in the place of every other value.
fn int8_values(values: &Vec<ScalarValue>) -> (typed: Vec<Option<i8>>)
    ensures
        typed@.len() == values@.len(),
        forall|i: int|
            0 <= i < values@.len() ==> Cell::Int8(#[trigger] typed@[i]) == conform(
                values@[i].cell(),
                ArrayType::Int8,
            ),
{
    let mut typed: Vec<Option<i8>> = Vec::new();
    for i in 0..values.len()
        invariant
            typed@.len() == i,
            forall|j: int|
                0 <= j < i ==> Cell::Int8(#[trigger] typed@[j]) == conform(
                    values@[j].cell(),
                    ArrayType::Int8,
                ),
    {
        typed.push(
            match &values[i] {
                ScalarValue::Int8(value) => *value,
                _ => None,
            },
        );
    }
    typed
}

/// The values of type `Int16`, with null in the place of every other value.
fn int16_values(values: &Vec<ScalarValue>) -> (typed: Vec<Option<i16>>)
    ensures
        typed@.len() == values@.len(),
        forall|i: int|
            0 <= i < values@.len() ==> Cell::Int16(#[trigger] typed@[i]) == conform(
                values@[i].cell(),
                ArrayType::Int16,
            ),
{
    let mut typed: Vec<Option<i16>> = Vec::new();
    for i in 0..values.len()
        invariant
            typed@.len() == i,
            forall|j: int|
                0 <= j < i ==> Cell::Int16(#[trigger] typed@[j]) == conform(
                    values@[j].cell(),
                    ArrayType::Int16,
                ),
    {
        typed.push(
            match &values[i] {
                ScalarValue::Int16(value) => *value,
                _ => None,
            },
        );
    }
    typed
}

/// The values of type `Int32`, with null in the place of every other value.
fn int32_values(values: &Vec<ScalarValue>) -> (typed: Vec<Option<i32>>)
    ensures
        typed@.len() == values@.len(),
        forall|i: int|
            0 <= i < values@.len() ==> Cell::Int32(#[trigger] typed@[i]) == conform(
                values@[i].cell(),
                ArrayType::Int32,
            ),
{
    let mut typed: Vec<Option<i32>> = Vec::new();
    for i in 0..values.len()
        invariant
            typed@.len() == i,
            forall|j: int|
                0 <= j < i ==> Cell::Int32(#[trigger] typed@[j]) == conform(
                    values@[j].cell(),
                    ArrayType::Int32,
                ),
    {
        typed.push(
            match &values[i] {
                ScalarValue::Int32(value) => *value,
                _ => None,
            },
        );
    }
    typed
}

/// The values of type `Int64`, with null in the place of every other value.
fn int64_values(values: &Vec<ScalarValue>) -> (typed: Vec<Option<i64>>)
    ensures
        typed@.len() == values@.len(),
        forall|i: int|
            0 <= i < values@.len() ==> Cell::Int64(#[trigger] typed@[i]) == conform(
                values@[i].cell(),
                ArrayType::Int64,
            ),
{
    let mut typed: Vec<Option<i64>> = Vec::new();
    for i in 0..values.len()
        invariant
            typed@.len() == i,
            forall|j: int|
                0 <= j < i ==> Cell::Int64(#[trigger] typed@[j]) == conform(
                    values@[j].cell(),
                    ArrayType::Int64,
                ),
    {
        typed.push(
            match &values[i] {
                ScalarValue::Int64(value) => *value,
                _ => None,
            },
        );
    }
    typed
}

/// The values of type `UInt8`, with null in the place of every other value.
fn uint8_values(values: &Vec<ScalarValue>) -> (typed: Vec<Option<u8>>)
    ensures
        typed@.len() == values@.len(),
        forall|i: int|
            0 <= i < values@.len() ==> Cell::UInt8(#[trigger] typed@[i]) == conform(
                values@[i].cell(),
                ArrayType::UInt8,
            ),
{
    let mut typed: Vec<Option<u8>> = Vec::new();
    for i in 0..values.len()
        invariant
            typed@.len() == i,
            forall|j: int|
                0 <= j < i ==> Cell::UInt8(#[trigger] typed@[j]) == conform(
                    values@[j].cell(),
                    ArrayType::UInt8,
                ),
    {
        typed.push(
            match &values[i] {
                ScalarValue::UInt8(value) => *value,
                _ => None,
            },
        );
    }
    typed
}

/// The values of type `UInt16`, with null in the place of every other value.
fn uint16_values(values: &Vec<ScalarValue>) -> (typed: Vec<Option<u16>>)
    ensures
        typed@.len() == values@.len(),
        forall|i: int|
            0 <= i < values@.len() ==> Cell::UInt16(#[trigger] typed@[i]) == conform(
                values@[i].cell(),
                ArrayType::UInt16,
            ),
{
    let mut typed: Vec<Option<u16>> = Vec::new();
    for i in 0..values.len()
        invariant
            typed@.len() == i,
            forall|j: int|
                0 <= j < i ==> Cell::UInt16(#[trigger] typed@[j]) == conform(
                    values@[j].cell(),
                    ArrayType::UInt16,
                ),
    {
        typed.push(
            match &values[i] {
                ScalarValue::UInt16(value) => *value,
                _ => None,
            },
        );
    }
    typed
}

/// The values of type `UInt32`, with null in the place of every other value.
fn uint32_values(values: &Vec<ScalarValue>) -> (typed: Vec<Option<u32>>)
    ensures
        typed@.len() == values@.len(),
        forall|i: int|
            0 <= i < values@.len() ==> Cell::UInt32(#[trigger] typed@[i]) == conform(
                values@[i].cell(),
                ArrayType::UInt32,
            ),
{
    let mut typed: Vec<Option<u32>> = Vec::new();
    for i in 0..values.len()
        invariant
            typed@.len() == i,
            forall|j: int|
                0 <= j < i ==> Cell::UInt32(#[trigger] typed@[j]) == conform(
                    values@[j].cell(),
                    ArrayType::UInt32,
                ),
    {
        typed.push(
            match &values[i] {
                ScalarValue::UInt32(value) => *value,
                _ => None,
            },
        );
    }
    typed
}

/// The values of type `UInt64`, with null in the place of every other value.
fn uint64_values(values: &Vec<ScalarValue>) -> (typed: Vec<Option<u64>>)
    ensures
        typed@.len() == values@.len(),
        forall|i: int|
            0 <= i < values@.len() ==> Cell::UInt64(#[trigger] typed@[i]) == conform(
                values@[i].cell(),
                ArrayType::UInt64,
            ),
{
    let mut typed: Vec<Option<u64>> = Vec::new();
    for i in 0..values.len()
        invariant
            typed@.len() == i,
            forall|j: int|
                0 <= j < i ==> Cell::UInt64(#[trigger] typed@[j]) == conform(
                    values@[j].cell(),
                    ArrayType::UInt64,
                ),
    {
        typed.push(
            match &values[i] {
                ScalarValue::UInt64(value) => *value,
                _ => None,
            },
        );
    }
    typed
}

/// The values of type `Float32`, with null in the place of every other value.
fn float32_values(values: &Vec<ScalarValue>) -> (typed: Vec<Option<F32>>)
    ensures
        typed@.len() == values@.len(),
        forall|i: int|
            0 <= i < values@.len() ==> Cell::Float32(#[trigger] typed@[i]) == conform(
                values@[i].cell(),
                ArrayType::Float32,
            ),
{
    let mut typed: Vec<Option<F32>> = Vec::new();
    for i in 0..values.len()
        invariant
            typed@.len() == i,
            forall|j: int|
                0 <= j < i ==> Cell::Float32(#[trigger] typed@[j]) == conform(
                    values@[j].cell(),
                    ArrayType::Float32,
                ),
    {
        typed.push(
            match &values[i] {
                ScalarValue::Float32(value) => *value,
                _ => None,
            },
        );
    }
    typed
}

/// The values of type `Float64`, with null in the place of every other value.
fn float64_values(values: &Vec<ScalarValue>) -> (typed: Vec<Option<F64>>)
    ensures
        typed@.len() == values@.len(),
        forall|i: int|
            0 <= i < values@.len() ==> Cell::Float64(#[trigger] typed@[i]) == conform(
                values@[i].cell(),
                ArrayType::Float64,
            ),
{
    let mut typed: Vec<Option<F64>> = Vec::new();
    for i in 0..values.len()
        invariant
            typed@.len() == i,
            forall|j: int|
                0 <= j < i ==> Cell::Float64(#[trigger] typed@[j]) == conform(
                    values@[j].cell(),
                    ArrayType::Float64,
                ),
    {
        typed.push(
            match &values[i] {
                ScalarValue::Float64(value) => *value,
                _ => None,
            },
        );
    }
    typed
}

/// The values of type `String`, with null in the place of every other value.
fn string_values(values: &Vec<ScalarValue>) -> (typed: Vec<Option<String>>)
    ensures
        typed@.len() == values@.len(),
        forall|i: int|
            0 <= i < values@.len() ==> Cell::String(text_view(#[trigger] typed@[i])) == conform(
                values@[i].cell(),
                ArrayType::String,
            ),
{
    let mut typed: Vec<Option<String>> = Vec::new();
    for i in 0..values.len()
        invariant
            typed@.len() == i,
            forall|j: int|
                0 <= j < i ==> Cell::String(text_view(#[trigger] typed@[j])) == conform(
                    values@[j].cell(),
                    ArrayType::String,
                ),
    {
        typed.push(
            match &values[i] {
                ScalarValue::String(Some(value)) => Some(value.clone()),
                _ => None,
            },
        );
    }
    typed
}

/// The type of a value.
fn type_of(value: &ScalarValue) -> (array_type: ArrayType)
    ensures
        array_type == value.cell().array_type(),
{
    match value {
        ScalarValue::Null => ArrayType::Null,
        ScalarValue::Boolean(_) => ArrayType::Boolean,
        ScalarValue::Int8(_) => ArrayType::Int8,
        ScalarValue::Int16(_) => ArrayType::Int16,
        ScalarValue::Int32(_) => ArrayType::Int32,
        ScalarValue::Int64(_) => ArrayType::Int64,
        ScalarValue::UInt8(_) => ArrayType::UInt8,
        ScalarValue::UInt16(_) => ArrayType::UInt16,
        ScalarValue::UInt32(_) => ArrayType::UInt32,
        ScalarValue::UInt64(_) => ArrayType::UInt64,
        ScalarValue::Float32(_) => ArrayType::Float32,
        ScalarValue::Float64(_) => ArrayType::Float64,
        ScalarValue::String(_) => ArrayType::String,
        ScalarValue::Vertex(_) => ArrayType::Other,
        ScalarValue::Edge(_) => ArrayType::Other,
    }
}

/// An array of as many missing integers as there are values.
fn untyped_array(values: &Vec<ScalarValue>) -> (array: ArrayRef)
    ensures
        array@.array_type == ArrayType::Int64,
        array@.cells == cells_of(values@).map_values(|cell: Cell| Cell::Int64(None)),
{
    let mut missing: Vec<Option<i64>> = Vec::new();
    for i in 0..values.len()
        invariant
            missing@.len() == i,
            forall|j: int| 0 <= j < i ==> #[trigger] missing@[j] == None::<i64>,
    {
        missing.push(None);
    }
    let array = int64_array(missing);
    assert(array@.cells =~= cells_of(values@).map_values(|cell: Cell| Cell::Int64(None)));
    array
}

/// Makes a column of values. The text of a column has to fit in 32 bits.
pub fn scalar_values_to_array(values: Vec<ScalarValue>) -> (array: ArrayRef)
    requires
        total_text(cells_of(values@)) <= i32::MAX,
    ensures
        array@ == collected(cells_of(values@)),
{
    let ghost cells = cells_of(values@);
    if values.len() == 0 {
        return untyped_array(&values);
    }
    let mut at: usize = 0;
    while at < values.len() && is_null_value(&values[at])
        invariant
            at <= values@.len(),
            cells == cells_of(values@),
            first_present(cells, 0) == first_present(cells, at as int),
        decreases values@.len() - at,
    {
        at = at + 1;
    }
    let sample = if at < values.len() {
        type_of(&values[at])
    } else {
        type_of(&values[0])
    };
    assert(sample == sample_type(cells));
    let array = match sample {
        ArrayType::Null => untyped_array(&values),
        ArrayType::Boolean => boolean_array(boolean_values(&values)),
        ArrayType::Int8 => int8_array(int8_values(&values)),
        ArrayType::Int16 => int16_array(int16_values(&values)),
        ArrayType::Int32 => int32_array(int32_values(&values)),
        ArrayType::Int64 => int64_array(int64_values(&values)),
        ArrayType::UInt8 => uint8_array(uint8_values(&values)),
        ArrayType::UInt16 => uint16_array(uint16_values(&values)),
        ArrayType::UInt32 => uint32_array(uint32_values(&values)),
        ArrayType::UInt64 => uint64_array(uint64_values(&values)),
        ArrayType::Float32 => float32_array(float32_values(&values)),
        ArrayType::Float64 => float64_array(float64_values(&values)),
        ArrayType::String => {
            let typed = string_values(&values);
            proof {
                let texts = Seq::new(
                    typed@.len(),
                    |i: int| Cell::String(text_view(typed@[i])),
                );
                assert forall|i: int| 0 <= i < texts.len() implies text_size(#[trigger] texts[i])
                    <= text_size(cells[i]) by {
                    assert(Cell::String(text_view(typed@[i])) == conform(
                        values@[i].cell(),
                        ArrayType::String,
                    ));
                }
                lemma_total_text_bound(texts, cells);
            }
            string_array(typed)
        },
        ArrayType::Other => untyped_array(&values),
    };
    assert(array@.cells =~= collected(cells).cells);
    array
}

} // verus!
