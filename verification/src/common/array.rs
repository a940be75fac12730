//! Columns of values: arrays of the `arrow` crate, behind an opaque type.
//!
//! An array is described by its type and by the cells that it holds. Every array has a fixed
//! length and never changes, so a copy of the handle stands for the same array.

use std::sync::Arc;

use arrow::array::{
    Array, ArrowPrimitiveType, AsArray, BooleanArray, Float32Array, Float64Array, Int16Array,
    Int32Array, Int64Array, Int8Array, NullArray, StringArray, UInt16Array, UInt32Array,
    UInt64Array, UInt8Array,
};
use arrow::datatypes::{
    DataType, Float32Type, Float64Type, Int16Type, Int32Type, Int64Type, Int8Type, UInt16Type,
    UInt32Type, UInt64Type, UInt8Type,
};
use vstd::prelude::*;
#[allow(unused_imports)]
use vstd::utf8::encode_utf8;

#[allow(unused_imports)]
use super::value::{lemma_matches_self, scalar_matches};
use super::value::{EdgeValue, Nullable, ScalarValue, VertexValue, F32, F64};

verus! {

/// The type of an array's elements.
#[derive(Debug, Clone, Copy, PartialEq, Eq, Structural)]
pub enum ArrayType {
    /// Elements of type `Null`.
    Null,
    /// Elements of type `Boolean`.
    Boolean,
    /// Elements of type `Int8`.
    Int8,
    /// Elements of type `Int16`.
    Int16,
    /// Elements of type `Int32`.
    Int32,
    /// Elements of type `Int64`.
    Int64,
    /// Elements of type `UInt8`.
    UInt8,
    /// Elements of type `UInt16`.
    UInt16,
    /// Elements of type `UInt32`.
    UInt32,
    /// Elements of type `UInt64`.
    UInt64,
    /// Elements of type `Float32`.
    Float32,
    /// Elements of type `Float64`.
    Float64,
    /// Elements of type `String`.
    String,
    /// Elements of a type that has no scalar value.
    Other,
}

/// What one position of an array holds: a nullable value of the array's type.
pub enum Cell {
    /// A position of an array of nulls.
    Null,
    /// A nullable truth value.
    Boolean(Option<bool>),
    /// A nullable `i8`.
    Int8(Option<i8>),
    /// A nullable `i16`.
    Int16(Option<i16>),
    /// A nullable `i32`.
    Int32(Option<i32>),
    /// A nullable `i64`.
    Int64(Option<i64>),
    /// A nullable `u8`.
    UInt8(Option<u8>),
    /// A nullable `u16`.
    UInt16(Option<u16>),
    /// A nullable `u32`.
    UInt32(Option<u32>),
    /// A nullable `u64`.
    UInt64(Option<u64>),
    /// A nullable single-precision number.
    Float32(Option<F32>),
    /// A nullable double-precision number.
    Float64(Option<F64>),
    /// A nullable string.
    String(Option<Seq<char>>),
    /// A nullable vertex, which no array holds.
    Vertex(Option<VertexValue>),
    /// A nullable edge, which no array holds.
    Edge(Option<EdgeValue>),
    /// An element without a scalar value.
    Other,
}

impl Cell {
    /// Whether there is no value.
    pub open spec fn missing(self) -> bool {
        match self {
            Cell::Null => true,
            Cell::Boolean(value) => value is None,
            Cell::Int8(value) => value is None,
            Cell::Int16(value) => value is None,
            Cell::Int32(value) => value is None,
            Cell::Int64(value) => value is None,
            Cell::UInt8(value) => value is None,
            Cell::UInt16(value) => value is None,
            Cell::UInt32(value) => value is None,
            Cell::UInt64(value) => value is None,
            Cell::Float32(value) => value is None,
            Cell::Float64(value) => value is None,
            Cell::String(value) => value is None,
            Cell::Vertex(value) => value is None,
            Cell::Edge(value) => value is None,
            Cell::Other => false,
        }
    }

    /// The type of the array that holds this cell.
    pub open spec fn array_type(self) -> ArrayType {
        match self {
            Cell::Null => ArrayType::Null,
            Cell::Boolean(value) => ArrayType::Boolean,
            Cell::Int8(value) => ArrayType::Int8,
            Cell::Int16(value) => ArrayType::Int16,
            Cell::Int32(value) => ArrayType::Int32,
            Cell::Int64(value) => ArrayType::Int64,
            Cell::UInt8(value) => ArrayType::UInt8,
            Cell::UInt16(value) => ArrayType::UInt16,
            Cell::UInt32(value) => ArrayType::UInt32,
            Cell::UInt64(value) => ArrayType::UInt64,
            Cell::Float32(value) => ArrayType::Float32,
            Cell::Float64(value) => ArrayType::Float64,
            Cell::String(value) => ArrayType::String,
            Cell::Vertex(value) => ArrayType::Other,
            Cell::Edge(value) => ArrayType::Other,
            Cell::Other => ArrayType::Other,
        }
    }

    /// Whether two cells hold equal values, with floating point numbers compared as `written`
    /// says.
    pub open spec fn matches(self, other: Cell, written: bool) -> bool {
        match (self, other) {
            (Cell::Null, Cell::Null) => true,
            (Cell::Boolean(x), Cell::Boolean(y)) => x == y,
            (Cell::Int8(x), Cell::Int8(y)) => x == y,
            (Cell::Int16(x), Cell::Int16(y)) => x == y,
            (Cell::Int32(x), Cell::Int32(y)) => x == y,
            (Cell::Int64(x), Cell::Int64(y)) => x == y,
            (Cell::UInt8(x), Cell::UInt8(y)) => x == y,
            (Cell::UInt16(x), Cell::UInt16(y)) => x == y,
            (Cell::UInt32(x), Cell::UInt32(y)) => x == y,
            (Cell::UInt64(x), Cell::UInt64(y)) => x == y,
            (Cell::Float32(x), Cell::Float32(y)) => scalar_matches(
                ScalarValue::Float32(x),
                ScalarValue::Float32(y),
                written,
            ),
            (Cell::Float64(x), Cell::Float64(y)) => scalar_matches(
                ScalarValue::Float64(x),
                ScalarValue::Float64(y),
                written,
            ),
            (Cell::String(x), Cell::String(y)) => x == y,
            (Cell::Vertex(x), Cell::Vertex(y)) => scalar_matches(
                ScalarValue::Vertex(x),
                ScalarValue::Vertex(y),
                written,
            ),
            (Cell::Edge(x), Cell::Edge(y)) => scalar_matches(
                ScalarValue::Edge(x),
                ScalarValue::Edge(y),
                written,
            ),
            _ => false,
        }
    }
}

/// Values are equal when their cells are.
pub proof fn lemma_matching_cells(a: ScalarValue, b: ScalarValue, written: bool)
    ensures
        scalar_matches(a, b, written) == a.cell().matches(b.cell(), written),
{
}

/// Every cell of a type with scalar values is equal to itself.
pub proof fn lemma_cell_matches_self(cell: Cell, written: bool)
    requires
        !(cell is Other),
    ensures
        cell.matches(cell, written),
{
    if let Cell::Float32(x) = cell {
        lemma_matches_self(ScalarValue::Float32(x), written);
    }
    if let Cell::Float64(x) = cell {
        lemma_matches_self(ScalarValue::Float64(x), written);
    }
    if let Cell::Vertex(x) = cell {
        lemma_matches_self(ScalarValue::Vertex(x), written);
    }
    if let Cell::Edge(x) = cell {
        lemma_matches_self(ScalarValue::Edge(x), written);
    }
}

/// The missing value of a type.
pub open spec fn missing_cell(array_type: ArrayType) -> Cell {
    match array_type {
        ArrayType::Null => Cell::Null,
        ArrayType::Boolean => Cell::Boolean(None),
        ArrayType::Int8 => Cell::Int8(None),
        ArrayType::Int16 => Cell::Int16(None),
        ArrayType::Int32 => Cell::Int32(None),
        ArrayType::Int64 => Cell::Int64(None),
        ArrayType::UInt8 => Cell::UInt8(None),
        ArrayType::UInt16 => Cell::UInt16(None),
        ArrayType::UInt32 => Cell::UInt32(None),
        ArrayType::UInt64 => Cell::UInt64(None),
        ArrayType::Float32 => Cell::Float32(None),
        ArrayType::Float64 => Cell::Float64(None),
        ArrayType::String => Cell::String(None),
        ArrayType::Other => Cell::Other,
    }
}

/// The characters of a nullable string.
pub open spec fn text_view(value: Nullable<String>) -> Option<Seq<char>> {
    match value {
        Some(text) => Some(text@),
        None => None,
    }
}

impl ScalarValue {
    /// The cell that holds this value.
    pub open spec fn cell(self) -> Cell {
        match self {
            ScalarValue::Null => Cell::Null,
            ScalarValue::Boolean(value) => Cell::Boolean(value),
            ScalarValue::Int8(value) => Cell::Int8(value),
            ScalarValue::Int16(value) => Cell::Int16(value),
            ScalarValue::Int32(value) => Cell::Int32(value),
            ScalarValue::Int64(value) => Cell::Int64(value),
            ScalarValue::UInt8(value) => Cell::UInt8(value),
            ScalarValue::UInt16(value) => Cell::UInt16(value),
            ScalarValue::UInt32(value) => Cell::UInt32(value),
            ScalarValue::UInt64(value) => Cell::UInt64(value),
            ScalarValue::Float32(value) => Cell::Float32(value),
            ScalarValue::Float64(value) => Cell::Float64(value),
            ScalarValue::String(value) => Cell::String(text_view(value)),
            ScalarValue::Vertex(value) => Cell::Vertex(value),
            ScalarValue::Edge(value) => Cell::Edge(value),
        }
    }
}

/// A handle on an `arrow` array of any type.
#[verifier::external_body]
#[derive(Debug)]
pub struct ArrayRef {
    inner: arrow::array::ArrayRef,
}

/// The cells that an array holds.
pub uninterp spec fn array_cells(array: ArrayRef) -> Seq<Cell>;

/// The type of an array's elements.
pub uninterp spec fn array_type(array: ArrayRef) -> ArrayType;

/// What an array is: the type of its elements, and the elements.
pub struct Column {
    /// The type.
    pub array_type: ArrayType,
    /// The elements.
    pub cells: Seq<Cell>,
}

impl Column {
    /// The element at a position. Every element of an array of nulls is null.
    pub open spec fn cell(self, index: int) -> Cell {
        if self.array_type == ArrayType::Null {
            Cell::Null
        } else {
            self.cells[index]
        }
    }
}

impl View for ArrayRef {
    type V = Column;

    open spec fn view(&self) -> Column {
        Column { array_type: array_type(*self), cells: array_cells(*self) }
    }
}

/// `Array::len`: the number of elements.
#[verifier::external_body]
fn array_len(array: &ArrayRef) -> (len: usize)
    ensures
        len == array_cells(*array).len(),
{
    array.inner.len()
}

/// `Array::data_type`: the type of the elements. Types without a scalar value are not told apart.
#[verifier::external_body]
fn array_data_type(array: &ArrayRef) -> (data_type: ArrayType)
    ensures
        data_type == array_type(*array),
{
    match array.inner.data_type() {
        DataType::Null => ArrayType::Null, DataType::Boolean => ArrayType::Boolean,
        DataType::Int8 => ArrayType::Int8, DataType::Int16 => ArrayType::Int16,
        DataType::Int32 => ArrayType::Int32, DataType::Int64 => ArrayType::Int64,
        DataType::UInt8 => ArrayType::UInt8, DataType::UInt16 => ArrayType::UInt16,
        DataType::UInt32 => ArrayType::UInt32, DataType::UInt64 => ArrayType::UInt64,
        DataType::Float32 => ArrayType::Float32, DataType::Float64 => ArrayType::Float64,
        DataType::Utf8 => ArrayType::String,
        _ => ArrayType::Other,
    }
}

/// `Array::is_valid`: whether a position holds a value. A position without one holds the missing
/// value of the array's type. An array of nulls is left out: it has no mask of valid positions.
#[verifier::external_body]
fn array_is_valid(array: &ArrayRef, index: usize) -> (valid: bool)
    requires
        index < array_cells(*array).len(),
        array_type(*array) != ArrayType::Null,
        array_type(*array) != ArrayType::Other,
    ensures
        valid == !array_cells(*array)[index as int].missing(),
        !valid ==> array_cells(*array)[index as int] == missing_cell(array_type(*array)),
{
    array.inner.is_valid(index)
}

/// `Array::slice`: the array of the positions from `offset` on, `length` of them.
#[verifier::external_body]
fn array_slice(array: &ArrayRef, offset: usize, length: usize) -> (slice: ArrayRef)
    requires
        offset + length <= array_cells(*array).len(),
    ensures
        array_cells(slice) == array_cells(*array).subrange(offset as int, offset + length),
        array_type(slice) == array_type(*array),
{
    ArrayRef { inner: array.inner.slice(offset, length) }
}

/// `Arc::clone` on the handle: the copy is the same array.
#[verifier::external_body]
fn array_clone(array: &ArrayRef) -> (copy: ArrayRef)
    ensures
        copy == *array,
{
    ArrayRef { inner: Arc::clone(&array.inner) }
}

/// `BooleanArray::value`: the value at a position that holds one.
#[verifier::external_body]
fn boolean_value(array: &ArrayRef, index: usize) -> (value: bool)
    requires
        index < array_cells(*array).len(),
        array_type(*array) == ArrayType::Boolean,
        !array_cells(*array)[index as int].missing(),
    ensures
        array_cells(*array)[index as int] == Cell::Boolean(Some(value)),
{
    array.inner.as_boolean().value(index)
}

/// `Int8Array::value`: the value at a position that holds one.
#[verifier::external_body]
fn int8_value(array: &ArrayRef, index: usize) -> (value: i8)
    requires
        index < array_cells(*array).len(),
        array_type(*array) == ArrayType::Int8,
        !array_cells(*array)[index as int].missing(),
    ensures
        array_cells(*array)[index as int] == Cell::Int8(Some(value)),
{
    array.inner.as_primitive::<Int8Type>().value(index)
}

/// `Int16Array::value`: the value at a position that holds one.
#[verifier::external_body]
fn int16_value(array: &ArrayRef, index: usize) -> (value: i16)
    requires
        index < array_cells(*array).len(),
        array_type(*array) == ArrayType::Int16,
        !array_cells(*array)[index as int].missing(),
    ensures
        array_cells(*array)[index as int] == Cell::Int16(Some(value)),
{
    array.inner.as_primitive::<Int16Type>().value(index)
}

/// `Int32Array::value`: the value at a position that holds one.
#[verifier::external_body]
fn int32_value(array: &ArrayRef, index: usize) -> (value: i32)
    requires
        index < array_cells(*array).len(),
        array_type(*array) == ArrayType::Int32,
        !array_cells(*array)[index as int].missing(),
    ensures
        array_cells(*array)[index as int] == Cell::Int32(Some(value)),
{
    array.inner.as_primitive::<Int32Type>().value(index)
}

/// `Int64Array::value`: the value at a position that holds one.
#[verifier::external_body]
fn int64_value(array: &ArrayRef, index: usize) -> (value: i64)
    requires
        index < array_cells(*array).len(),
        array_type(*array) == ArrayType::Int64,
        !array_cells(*array)[index as int].missing(),
    ensures
        array_cells(*array)[index as int] == Cell::Int64(Some(value)),
{
    array.inner.as_primitive::<Int64Type>().value(index)
}

/// `UInt8Array::value`: the value at a position that holds one.
#[verifier::external_body]
fn uint8_value(array: &ArrayRef, index: usize) -> (value: u8)
    requires
        index < array_cells(*array).len(),
        array_type(*array) == ArrayType::UInt8,
        !array_cells(*array)[index as int].missing(),
    ensures
        array_cells(*array)[index as int] == Cell::UInt8(Some(value)),
{
    array.inner.as_primitive::<UInt8Type>().value(index)
}

/// `UInt16Array::value`: the value at a position that holds one.
#[verifier::external_body]
fn uint16_value(array: &ArrayRef, index: usize) -> (value: u16)
    requires
        index < array_cells(*array).len(),
        array_type(*array) == ArrayType::UInt16,
        !array_cells(*array)[index as int].missing(),
    ensures
        array_cells(*array)[index as int] == Cell::UInt16(Some(value)),
{
    array.inner.as_primitive::<UInt16Type>().value(index)
}

/// `UInt32Array::value`: the value at a position that holds one.
#[verifier::external_body]
fn uint32_value(array: &ArrayRef, index: usize) -> (value: u32)
    requires
        index < array_cells(*array).len(),
        array_type(*array) == ArrayType::UInt32,
        !array_cells(*array)[index as int].missing(),
    ensures
        array_cells(*array)[index as int] == Cell::UInt32(Some(value)),
{
    array.inner.as_primitive::<UInt32Type>().value(index)
}

/// `UInt64Array::value`: the value at a position that holds one.
#[verifier::external_body]
fn uint64_value(array: &ArrayRef, index: usize) -> (value: u64)
    requires
        index < array_cells(*array).len(),
        array_type(*array) == ArrayType::UInt64,
        !array_cells(*array)[index as int].missing(),
    ensures
        array_cells(*array)[index as int] == Cell::UInt64(Some(value)),
{
    array.inner.as_primitive::<UInt64Type>().value(index)
}

/// `Float32Array::value`: the value at a position that holds one, as its bit pattern.
#[verifier::external_body]
fn float32_value(array: &ArrayRef, index: usize) -> (value: F32)
    requires
        index < array_cells(*array).len(),
        array_type(*array) == ArrayType::Float32,
        !array_cells(*array)[index as int].missing(),
    ensures
        array_cells(*array)[index as int] == Cell::Float32(Some(value)),
{
    F32 { bits: array.inner.as_primitive::<Float32Type>().value(index).to_bits() }
}

/// `Float64Array::value`: the value at a position that holds one, as its bit pattern.
#[verifier::external_body]
fn float64_value(array: &ArrayRef, index: usize) -> (value: F64)
    requires
        index < array_cells(*array).len(),
        array_type(*array) == ArrayType::Float64,
        !array_cells(*array)[index as int].missing(),
    ensures
        array_cells(*array)[index as int] == Cell::Float64(Some(value)),
{
    F64 { bits: array.inner.as_primitive::<Float64Type>().value(index).to_bits() }
}

/// `StringArray::value`: the value at a position that holds one.
#[verifier::external_body]
fn string_value(array: &ArrayRef, index: usize) -> (value: String)
    requires
        index < array_cells(*array).len(),
        array_type(*array) == ArrayType::String,
        !array_cells(*array)[index as int].missing(),
    ensures
        array_cells(*array)[index as int] == Cell::String(Some(value@)),
{
    array.inner.as_string::<i32>().value(index).to_string()
}

/// `NullArray::new`: an array of nulls.
#[verifier::external_body]
fn null_array(len: usize) -> (array: ArrayRef)
    ensures
        array_type(array) == ArrayType::Null,
        array_cells(array) == Seq::new(len as nat, |i: int| Cell::Null),
{
    ArrayRef { inner: Arc::new(NullArray::new(len)) }
}

/// `BooleanArray::from`: an array of the given values.
#[verifier::external_body]
pub(crate) fn boolean_array(values: Vec<Option<bool>>) -> (array: ArrayRef)
    ensures
        array_type(array) == ArrayType::Boolean,
        array_cells(array) == Seq::new(values@.len(), |i: int| Cell::Boolean(values@[i])),
{
    ArrayRef { inner: Arc::new(BooleanArray::from(values)) }
}

/// `Int8Array::from`: an array of the given values.
#[verifier::external_body]
pub(crate) fn int8_array(values: Vec<Option<i8>>) -> (array: ArrayRef)
    ensures
        array_type(array) == ArrayType::Int8,
        array_cells(array) == Seq::new(values@.len(), |i: int| Cell::Int8(values@[i])),
{
    ArrayRef { inner: Arc::new(Int8Array::from(values)) }
}

/// `Int16Array::from`: an array of the given values.
#[verifier::external_body]
pub(crate) fn int16_array(values: Vec<Option<i16>>) -> (array: ArrayRef)
    ensures
        array_type(array) == ArrayType::Int16,
        array_cells(array) == Seq::new(values@.len(), |i: int| Cell::Int16(values@[i])),
{
    ArrayRef { inner: Arc::new(Int16Array::from(values)) }
}

/// `Int32Array::from`: an array of the given values.
#[verifier::external_body]
pub(crate) fn int32_array(values: Vec<Option<i32>>) -> (array: ArrayRef)
    ensures
        array_type(array) == ArrayType::Int32,
        array_cells(array) == Seq::new(values@.len(), |i: int| Cell::Int32(values@[i])),
{
    ArrayRef { inner: Arc::new(Int32Array::from(values)) }
}

/// `Int64Array::from`: an array of the given values.
#[verifier::external_body]
pub(crate) fn int64_array(values: Vec<Option<i64>>) -> (array: ArrayRef)
    ensures
        array_type(array) == ArrayType::Int64,
        array_cells(array) == Seq::new(values@.len(), |i: int| Cell::Int64(values@[i])),
{
    ArrayRef { inner: Arc::new(Int64Array::from(values)) }
}

/// `UInt8Array::from`: an array of the given values.
#[verifier::external_body]
pub(crate) fn uint8_array(values: Vec<Option<u8>>) -> (array: ArrayRef)
    ensures
        array_type(array) == ArrayType::UInt8,
        array_cells(array) == Seq::new(values@.len(), |i: int| Cell::UInt8(values@[i])),
{
    ArrayRef { inner: Arc::new(UInt8Array::from(values)) }
}

/// `UInt16Array::from`: an array of the given values.
#[verifier::external_body]
pub(crate) fn uint16_array(values: Vec<Option<u16>>) -> (array: ArrayRef)
    ensures
        array_type(array) == ArrayType::UInt16,
        array_cells(array) == Seq::new(values@.len(), |i: int| Cell::UInt16(values@[i])),
{
    ArrayRef { inner: Arc::new(UInt16Array::from(values)) }
}

/// `UInt32Array::from`: an array of the given values.
#[verifier::external_body]
pub(crate) fn uint32_array(values: Vec<Option<u32>>) -> (array: ArrayRef)
    ensures
        array_type(array) == ArrayType::UInt32,
        array_cells(array) == Seq::new(values@.len(), |i: int| Cell::UInt32(values@[i])),
{
    ArrayRef { inner: Arc::new(UInt32Array::from(values)) }
}

/// `UInt64Array::from`: an array of the given values.
#[verifier::external_body]
pub(crate) fn uint64_array(values: Vec<Option<u64>>) -> (array: ArrayRef)
    ensures
        array_type(array) == ArrayType::UInt64,
        array_cells(array) == Seq::new(values@.len(), |i: int| Cell::UInt64(values@[i])),
{
    ArrayRef { inner: Arc::new(UInt64Array::from(values)) }
}

/// `Float32Array::from_iter`: an array of the given values, each made from its bit pattern.
#[verifier::external_body]
pub(crate) fn float32_array(values: Vec<Option<F32>>) -> (array: ArrayRef)
    ensures
        array_type(array) == ArrayType::Float32,
        array_cells(array) == Seq::new(values@.len(), |i: int| Cell::Float32(values@[i])),
{
    let numbers = values.into_iter().map(
        |value| value.map(|v| <Float32Type as ArrowPrimitiveType>::Native::from_bits(v.bits)),
    );
    ArrayRef { inner: Arc::new(Float32Array::from_iter(numbers)) }
}

/// `Float64Array::from_iter`: an array of the given values, each made from its bit pattern.
#[verifier::external_body]
pub(crate) fn float64_array(values: Vec<Option<F64>>) -> (array: ArrayRef)
    ensures
        array_type(array) == ArrayType::Float64,
        array_cells(array) == Seq::new(values@.len(), |i: int| Cell::Float64(values@[i])),
{
    let numbers = values.into_iter().map(
        |value| value.map(|v| <Float64Type as ArrowPrimitiveType>::Native::from_bits(v.bits)),
    );
    ArrayRef { inner: Arc::new(Float64Array::from_iter(numbers)) }
}

/// The number of bytes that a cell holds as text.
pub open spec fn text_size(cell: Cell) -> nat {
    match cell {
        Cell::String(Some(text)) => encode_utf8(text).len(),
        _ => 0,
    }
}

/// The number of bytes that cells hold as text, all together.
pub open spec fn total_text(cells: Seq<Cell>) -> nat
    decreases cells.len(),
{
    if cells.len() == 0 {
        0
    } else {
        total_text(cells.drop_last()) + text_size(cells.last())
    }
}

/// Cells with no more text each hold no more text all together.
pub proof fn lemma_total_text_bound(a: Seq<Cell>, b: Seq<Cell>)
    requires
        a.len() == b.len(),
        forall|i: int| 0 <= i < a.len() ==> text_size(#[trigger] a[i]) <= text_size(b[i]),
    ensures
        total_text(a) <= total_text(b),
    decreases a.len(),
{
    if a.len() > 0 {
        lemma_total_text_bound(a.drop_last(), b.drop_last());
        assert(text_size(a[a.len() - 1]) <= text_size(b[b.len() - 1]));
    }
}

/// `StringArray::from`: an array of the given values. It counts the bytes of the text in 32 bits
/// and panics beyond that.
#[verifier::external_body]
pub(crate) fn string_array(values: Vec<Option<String>>) -> (array: ArrayRef)
    requires
        total_text(Seq::new(values@.len(), |i: int| Cell::String(text_view(values@[i]))))
            <= i32::MAX,
    ensures
        array_type(array) == ArrayType::String,
        array_cells(array) == Seq::new(values@.len(), |i: int| Cell::String(text_view(values@[i]))),
{
    ArrayRef { inner: Arc::new(StringArray::from(values)) }
}

impl ArrayRef {
    /// The number of elements.
    pub fn len(&self) -> (len: usize)
        ensures
            len == array_cells(*self).len(),
    {
        array_len(self)
    }

    /// The type of the elements.
    pub fn data_type(&self) -> (data_type: ArrayType)
        ensures
            data_type == array_type(*self),
    {
        array_data_type(self)
    }

    /// The elements from `offset` on, `length` of them.
    pub fn slice(&self, offset: usize, length: usize) -> (slice: ArrayRef)
        requires
            offset + length <= array_cells(*self).len(),
        ensures
            array_cells(slice) == array_cells(*self).subrange(offset as int, offset + length),
            array_type(slice) == array_type(*self),
    {
        array_slice(self, offset, length)
    }

    /// Another handle on the same array.
    pub fn duplicate(&self) -> (copy: ArrayRef)
        ensures
            copy == *self,
    {
        array_clone(self)
    }
}

/// Access to single elements as scalar values.
pub trait ScalarValueAccessor {
    /// Whether there is a scalar value at a position.
    spec fn readable(&self, index: int) -> bool;

    /// What a position holds.
    spec fn cell_at(&self, index: int) -> Cell;

    /// The value at a position.
    fn index(&self, index: usize) -> (value: ScalarValue)
        requires
            self.readable(index as int),
        ensures
            value.cell() == self.cell_at(index as int),
    ;
}

impl ScalarValueAccessor for ArrayRef {
    open spec fn readable(&self, index: int) -> bool {
        &&& 0 <= index < array_cells(*self).len()
        &&& array_type(*self) != ArrayType::Other
    }

    open spec fn cell_at(&self, index: int) -> Cell {
        self@.cell(index)
    }

    fn index(&self, index: usize) -> (value: ScalarValue) {
        match self.data_type() {
            ArrayType::Null => ScalarValue::Null,
            ArrayType::Boolean => ScalarValue::Boolean(
                if array_is_valid(self, index) {
                    Some(boolean_value(self, index))
                } else {
                    None
                },
            ),
            ArrayType::Int8 => ScalarValue::Int8(
                if array_is_valid(self, index) {
                    Some(int8_value(self, index))
                } else {
                    None
                },
            ),
            ArrayType::Int16 => ScalarValue::Int16(
                if array_is_valid(self, index) {
                    Some(int16_value(self, index))
                } else {
                    None
                },
            ),
            ArrayType::Int32 => ScalarValue::Int32(
                if array_is_valid(self, index) {
                    Some(int32_value(self, index))
                } else {
                    None
                },
            ),
            ArrayType::Int64 => ScalarValue::Int64(
                if array_is_valid(self, index) {
                    Some(int64_value(self, index))
                } else {
                    None
                },
            ),
            ArrayType::UInt8 => ScalarValue::UInt8(
                if array_is_valid(self, index) {
                    Some(uint8_value(self, index))
                } else {
                    None
                },
            ),
            ArrayType::UInt16 => ScalarValue::UInt16(
                if array_is_valid(self, index) {
                    Some(uint16_value(self, index))
                } else {
                    None
                },
            ),
            ArrayType::UInt32 => ScalarValue::UInt32(
                if array_is_valid(self, index) {
                    Some(uint32_value(self, index))
                } else {
                    None
                },
            ),
            ArrayType::UInt64 => ScalarValue::UInt64(
                if array_is_valid(self, index) {
                    Some(uint64_value(self, index))
                } else {
                    None
                },
            ),
            ArrayType::Float32 => ScalarValue::Float32(
                if array_is_valid(self, index) {
                    Some(float32_value(self, index))
                } else {
                    None
                },
            ),
            ArrayType::Float64 => ScalarValue::Float64(
                if array_is_valid(self, index) {
                    Some(float64_value(self, index))
                } else {
                    None
                },
            ),
            ArrayType::String => ScalarValue::String(
                if array_is_valid(self, index) {
                    Some(string_value(self, index))
                } else {
                    None
                },
            ),
            ArrayType::Other => ScalarValue::Null,
        }
    }
}

impl ScalarValue {
    /// An array that holds this value alone. The text of an array has to fit in 32 bits.
    pub fn to_scalar_array(&self) -> (array: ArrayRef)
        requires
            self.cell().array_type() != ArrayType::Other,
            text_size(self.cell()) <= i32::MAX,
        ensures
            array@ == (Column { array_type: self.cell().array_type(), cells: seq![self.cell()] }),
    {
        proof {
            reveal_with_fuel(total_text, 2);
            assert(seq![self.cell()].drop_last() =~= Seq::empty());
        }
        let array = match self {
            ScalarValue::Null => null_array(1),
            ScalarValue::Boolean(value) => boolean_array(vec![*value]),
            ScalarValue::Int8(value) => int8_array(vec![*value]),
            ScalarValue::Int16(value) => int16_array(vec![*value]),
            ScalarValue::Int32(value) => int32_array(vec![*value]),
            ScalarValue::Int64(value) => int64_array(vec![*value]),
            ScalarValue::UInt8(value) => uint8_array(vec![*value]),
            ScalarValue::UInt16(value) => uint16_array(vec![*value]),
            ScalarValue::UInt32(value) => uint32_array(vec![*value]),
            ScalarValue::UInt64(value) => uint64_array(vec![*value]),
            ScalarValue::Float32(value) => float32_array(vec![*value]),
            ScalarValue::Float64(value) => float64_array(vec![*value]),
            ScalarValue::String(text) => {
                let values: Vec<Option<String>> = vec![
                    match text {
                        Some(value) => Some(value.clone()),
                        None => None,
                    },
                ];
                assert(Seq::new(values@.len(), |i: int| Cell::String(text_view(values@[i])))
                    =~= seq![self.cell()]);
                string_array(values)
            },
            ScalarValue::Vertex(_) => null_array(1),
            ScalarValue::Edge(_) => null_array(1),
        };
        assert(array_cells(array) =~= seq![self.cell()]);
        array
    }
}

} // verus!
