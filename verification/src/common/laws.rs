//! What holds of every number, text, value and type.

use vstd::prelude::*;
#[allow(unused_imports)]
use vstd::std_specs::convert::FromSpec;
#[allow(unused_imports)]
use vstd::utf8::encode_utf8;

#[allow(unused_imports)]
use super::array::{missing_cell, ArrayType, Cell};
#[allow(unused_imports)]
use super::chunk::{rectangular, total_rows, DataChunk};
#[allow(unused_imports)]
use super::data_type::{
    arrow_field, arrow_fields_of, arrow_type, field_text, fields_text, type_text, ArrowField, ArrowType, FieldView, TypeView, DST_FIELD_NAME,
    EID_FIELD_NAME, LABEL_FIELD_NAME, SRC_FIELD_NAME, VID_FIELD_NAME,
};
#[allow(unused_imports)]
use super::text::{bytes_before, digit, digits, text_before};
#[allow(unused_imports)]
use super::value::{EdgeValue, ScalarValue, VertexValue, F32, F64};
#[allow(unused_imports)]
use crate::catalog::{has_graph, is_named, ContainerView};

verus! {

/// The number that a text of decimal digits stands for.
pub open spec fn number_read(text: Seq<char>) -> int
    decreases text.len(),
{
    if text.len() == 0 {
        0
    } else {
        10 * number_read(text.drop_last()) + (text.last() as int - '0' as int)
    }
}

/// The decimal text of a number is one of digits only, has no zero at its start unless it is zero
/// itself, and stands for the number.
pub proof fn law_digits(n: nat)
    ensures
        digits(n).len() > 0,
        forall|i: int| 0 <= i < digits(n).len() ==> '0' <= #[trigger] digits(n)[i] <= '9',
        n > 0 ==> digits(n)[0] != '0',
        number_read(digits(n)) == n,
    decreases n,
{
    if n < 10 {
        assert(digits(n).drop_last() =~= Seq::<char>::empty());
        assert(number_read(digits(n).drop_last()) == 0);
    } else {
        law_digits(n / 10);
        let front = digits(n / 10);
        assert(digits(n).drop_last() =~= front);
        assert(digits(n)[0] == front[0]);
        assert forall|i: int| 0 <= i < digits(n).len() implies '0' <= #[trigger] digits(n)[i]
            <= '9' by {
            if i < front.len() {
                assert(digits(n)[i] == front[i]);
            }
        }
    }
}

/// Two numbers with the same decimal text are the same.
pub proof fn law_digits_tell(a: nat, b: nat)
    requires
        digits(a) == digits(b),
    ensures
        a == b,
{
    law_digits(a);
    law_digits(b);
}

/// In the order of byte sequences the first byte that differs decides, and where one sequence is
/// the start of the other the shorter one comes first.
pub proof fn law_dictionary_order(a: Seq<u8>, b: Seq<u8>, k: int)
    requires
        0 <= k <= a.len(),
        k <= b.len(),
        forall|i: int| 0 <= i < k ==> a[i] == b[i],
        k == a.len() || k == b.len() || a[k] != b[k],
    ensures
        bytes_before(a, b) <==> if k < a.len() && k < b.len() {
            a[k] < b[k]
        } else {
            k == a.len() && k < b.len()
        },
    decreases k,
{
    if k > 0 {
        assert(a[0] == b[0]);
        law_dictionary_order(a.drop_first(), b.drop_first(), k - 1);
    }
}

/// Texts stand in the order of their bytes: of two different texts exactly one comes before the
/// other, and none before itself.
pub proof fn law_text_order(a: Seq<char>, b: Seq<char>, k: int)
    requires
        0 <= k <= encode_utf8(a).len(),
        k <= encode_utf8(b).len(),
        forall|i: int| 0 <= i < k ==> encode_utf8(a)[i] == encode_utf8(b)[i],
        k == encode_utf8(a).len() || k == encode_utf8(b).len() || encode_utf8(a)[k]
            != encode_utf8(b)[k],
    ensures
        text_before(a, b) <==> if k < encode_utf8(a).len() && k < encode_utf8(b).len() {
            encode_utf8(a)[k] < encode_utf8(b)[k]
        } else {
            k == encode_utf8(a).len() && k < encode_utf8(b).len()
        },
{
    law_dictionary_order(encode_utf8(a), encode_utf8(b), k);
}

/// Cells that hold neither a floating point number nor a vertex nor an edge are equal exactly where
/// they hold the same value of the same type, missing values included.
pub proof fn law_plain_equality(a: Cell, b: Cell, written: bool)
    requires
        !(a is Float32) && !(a is Float64) && !(a is Vertex) && !(a is Edge) && !(a is Other),
    ensures
        a.matches(b, written) <==> a == b,
{
}

/// Double precision numbers are equal where neither or both are missing, and where both are no
/// number or both stand at the same place among the numbers. As they are written they are equal
/// where their bits are, or where both are no number. Values of other types are never equal to them.
pub proof fn law_float_equality(x: Option<F64>, b: Cell, written: bool)
    ensures
        Cell::Float64(x).matches(b, written) <==> (b matches Cell::Float64(y) && match (x, y) {
            (None, None) => true,
            (Some(p), Some(q)) => (p.nan() && q.nan()) || (!p.nan() && !q.nan() && if written {
                p.bits == q.bits
            } else {
                p.rank() == q.rank()
            }),
            _ => false,
        }),
{
    if let Cell::Float64(Some(q)) = b {
        if let Some(p) = x {
            let u = p.bits;
            let v = q.bits;
            assert(u & 0x7fff_ffff_ffff_ffff == u % 0x8000_0000_0000_0000) by (bit_vector);
            assert(v & 0x7fff_ffff_ffff_ffff == v % 0x8000_0000_0000_0000) by (bit_vector);
        }
    }
}

/// A type of single values has an `arrow` type of its own.
pub proof fn law_arrow_scalars_differ(a: TypeView, b: TypeView)
    requires
        arrow_type(a) == arrow_type(b),
        !(arrow_type(a) is Struct),
    ensures
        a == b,
{
}

/// The `arrow` type of a record has a field for each of its fields, in their order, with the name,
/// the type and the nullability of each.
pub proof fn law_arrow_record(fields: Seq<FieldView>)
    ensures
        arrow_type(TypeView::Record(fields)) matches ArrowType::Struct(all) && {
            &&& all.len() == fields.len()
            &&& forall|i: int|
                0 <= i < fields.len() ==> (#[trigger] all[i]).name == fields[i].name && all[i].ty
                    == arrow_type(fields[i].ty) && all[i].nullable == fields[i].nullable
        },
{
}

/// The `arrow` type of a vertex has its identifier and its label before its properties, and that of
/// an edge its identifier, its label and its two ends, none of them nullable; then come the
/// properties in their order.
pub proof fn law_arrow_graph_elements(fields: Seq<FieldView>)
    ensures
        arrow_type(TypeView::Vertex(fields)) matches ArrowType::Struct(all) && {
            &&& all.len() == fields.len() + 2
            &&& all[0].name == VID_FIELD_NAME@ && all[0].ty == ArrowType::Scalar(ArrayType::UInt64)
            &&& all[1].name == LABEL_FIELD_NAME@ && all[1].ty == ArrowType::Scalar(
                ArrayType::UInt32,
            )
            &&& !all[0].nullable && !all[1].nullable
            &&& forall|i: int|
                2 <= i < all.len() ==> (#[trigger] all[i]).name == fields[i - 2].name && all[i].ty
                    == arrow_type(fields[i - 2].ty) && all[i].nullable == fields[i - 2].nullable
        },
        arrow_type(TypeView::Edge(fields)) matches ArrowType::Struct(all) && {
            &&& all.len() == fields.len() + 4
            &&& all[0].name == EID_FIELD_NAME@ && all[0].ty == ArrowType::Scalar(ArrayType::UInt64)
            &&& all[1].name == LABEL_FIELD_NAME@ && all[1].ty == ArrowType::Scalar(
                ArrayType::UInt32,
            )
            &&& all[2].name == SRC_FIELD_NAME@ && all[2].ty == ArrowType::Scalar(ArrayType::UInt64)
            &&& all[3].name == DST_FIELD_NAME@ && all[3].ty == ArrowType::Scalar(ArrayType::UInt64)
            &&& !all[0].nullable && !all[1].nullable && !all[2].nullable && !all[3].nullable
            &&& forall|i: int|
                4 <= i < all.len() ==> (#[trigger] all[i]).name == fields[i - 4].name && all[i].ty
                    == arrow_type(fields[i - 4].ty) && all[i].nullable == fields[i - 4].nullable
        },
{
}

/// The text of fields is the texts of its fields with a comma between them: that of two lists of
/// fields, one behind the other, is the text of the first, a comma and the text of the second.
pub proof fn law_fields_text(first: Seq<FieldView>, second: Seq<FieldView>)
    requires
        first.len() > 0,
        second.len() > 0,
    ensures
        fields_text(first + second) == fields_text(first) + seq![','] + fields_text(second),
    decreases second.len(),
{
    reveal_strlit(",");
    let all = first + second;
    assert(","@ =~= seq![',']);
    assert(all.last() == second.last());
    if second.len() == 1 {
        assert(all.drop_last() =~= first);
    } else {
        let rest = second.drop_last();
        law_fields_text(first, rest);
        assert(all.drop_last() =~= first + rest);
        assert(fields_text(all) =~= fields_text(first) + seq![','] + fields_text(second));
    }
}

/// The text of one field is its name, two colons and the text of its type, and no fields have no
/// text.
pub proof fn law_field_text(field: FieldView)
    ensures
        fields_text(seq![field]) == field.name + seq![':', ':'] + type_text(field.ty),
        fields_text(Seq::empty()) == Seq::<char>::empty(),
{
    reveal_strlit("::");
    assert("::"@ =~= seq![':', ':']);
    reveal_with_fuel(fields_text, 2);
    reveal_with_fuel(field_text, 2);
    assert(seq![field][0] == field);
}

/// Whether a type is one of numbers, truth values, texts or nulls.
pub open spec fn is_plain(ty: TypeView) -> bool {
    !(ty is Vertex || ty is Edge || ty is Record || ty is Path)
}

/// The texts of different types of numbers, truth values, texts and nulls differ.
#[verifier::spinoff_prover]
pub proof fn law_type_texts_differ(a: TypeView, b: TypeView)
    requires
        is_plain(a),
        is_plain(b),
        type_text(a) == type_text(b),
    ensures
        a == b,
{
    reveal_strlit("int8");
    reveal_strlit("int16");
    reveal_strlit("int32");
    reveal_strlit("int64");
    reveal_strlit("uint8");
    reveal_strlit("uint16");
    reveal_strlit("uint32");
    reveal_strlit("uint64");
    reveal_strlit("float32");
    reveal_strlit("float64");
    reveal_strlit("boolean");
    reveal_strlit("string");
    reveal_strlit("null");
    let text = type_text(a);
    let other = type_text(b);
    assert(text.len() == other.len() && text[0] == other[0] && text[3] == other[3] && text[4]
        == other[4] && text[5] == other[5]);
}

/// The text of an unsigned type is that of the signed type of its size with a `u` before it.
pub proof fn law_unsigned_texts()
    ensures
        type_text(TypeView::UInt8) == seq!['u'] + type_text(TypeView::Int8),
        type_text(TypeView::UInt16) == seq!['u'] + type_text(TypeView::Int16),
        type_text(TypeView::UInt32) == seq!['u'] + type_text(TypeView::Int32),
        type_text(TypeView::UInt64) == seq!['u'] + type_text(TypeView::Int64),
{
    reveal_strlit("int8");
    reveal_strlit("int16");
    reveal_strlit("int32");
    reveal_strlit("int64");
    reveal_strlit("uint8");
    reveal_strlit("uint16");
    reveal_strlit("uint32");
    reveal_strlit("uint64");
    assert("uint8"@ =~= seq!['u'] + "int8"@);
    assert("uint16"@ =~= seq!['u'] + "int16"@);
    assert("uint32"@ =~= seq!['u'] + "int32"@);
    assert("uint64"@ =~= seq!['u'] + "int64"@);
}

/// An `arrow` schema has a field for each field, in their order, with the name, the type and the
/// nullability of each.
pub proof fn law_arrow_schema(fields: Seq<FieldView>)
    ensures
        arrow_fields_of(fields).len() == fields.len(),
        forall|i: int|
            0 <= i < fields.len() ==> {
                let field = #[trigger] arrow_fields_of(fields)[i];
                &&& field.name == fields[i].name
                &&& field.ty == arrow_type(fields[i].ty)
                &&& field.nullable == fields[i].nullable
            },
{
}

/// The rows of some chunks and of further ones are counted together as they are apart, and one chunk
/// counts as many rows as each of its columns has.
pub proof fn law_rows_counted(first: Seq<DataChunk>, second: Seq<DataChunk>, chunk: DataChunk)
    ensures
        total_rows(first + second) == total_rows(first) + total_rows(second),
        rectangular(chunk@) ==> forall|i: int|
            0 <= i < chunk@.len() ==> total_rows(seq![chunk]) == (#[trigger] chunk@[i]).cells.len(),
        chunk@.len() == 0 ==> total_rows(seq![chunk]) == 0,
    decreases second.len(),
{
    reveal_with_fuel(total_rows, 2);
    assert(seq![chunk].drop_last() =~= Seq::<DataChunk>::empty());
    if second.len() == 0 {
        assert(first + second =~= first);
    } else {
        let rest = second.drop_last();
        law_rows_counted(first, rest, chunk);
        assert((first + second).drop_last() =~= first + rest);
    }
}

/// The missing value of a type is missing, and is of the type.
pub proof fn law_missing_value(array_type: ArrayType)
    requires
        array_type != ArrayType::Other,
    ensures
        missing_cell(array_type).missing(),
        missing_cell(array_type).array_type() == array_type,
{
}

/// A schema that was given a graph has one more name, and the graphs that it had before.
pub proof fn law_graph_named(
    graphs: Seq<(Seq<char>, ContainerView)>,
    added: (Seq<char>, ContainerView),
    name: Seq<char>,
)
    ensures
        has_graph(graphs.push(added), name) <==> name == added.0 || has_graph(graphs, name),
        has_graph(graphs, name) <==> exists|i: int|
            0 <= i < graphs.len() && (#[trigger] graphs[i]).0 == name,
{
    let more = graphs.push(added);
    if has_graph(more, name) {
        let i = choose|i: int| is_named(more, i, name);
        if i < graphs.len() {
            assert(is_named(graphs, i, name));
        }
    }
    if name == added.0 {
        assert(is_named(more, graphs.len() as int, name));
    }
    if has_graph(graphs, name) {
        let i = choose|i: int| is_named(graphs, i, name);
        assert(graphs[i].0 == name);
        assert(is_named(more, i, name));
    }
    if exists|i: int| 0 <= i < graphs.len() && (#[trigger] graphs[i]).0 == name {
        let i = choose|i: int| 0 <= i < graphs.len() && (#[trigger] graphs[i]).0 == name;
        assert(is_named(graphs, i, name));
    }
}

/// The value that is made of a truth value, a number, a text, a vertex or an edge holds just that,
/// in the type of what it was made of; that of a missing one holds nothing, in the same type.
pub proof fn law_values_of(
    truth: bool,
    a: i8,
    b: i16,
    c: i32,
    d: i64,
    e: u8,
    f: u16,
    g: u32,
    h: u64,
    x: F32,
    y: F64,
    vertex: VertexValue,
    edge: EdgeValue,
    text: String,
)
    ensures
        <ScalarValue as FromSpec<bool>>::from_spec(truth).cell() == Cell::Boolean(Some(truth)),
        <ScalarValue as FromSpec<Option<bool>>>::from_spec(Some(truth)) == <ScalarValue as FromSpec<bool>>::from_spec(truth),
        <ScalarValue as FromSpec<Option<bool>>>::from_spec(None).cell() == Cell::Boolean(None),
        <ScalarValue as FromSpec<i8>>::from_spec(a).cell() == Cell::Int8(Some(a)),
        <ScalarValue as FromSpec<Option<i8>>>::from_spec(Some(a)) == <ScalarValue as FromSpec<i8>>::from_spec(a),
        <ScalarValue as FromSpec<Option<i8>>>::from_spec(None).cell() == Cell::Int8(None),
        <ScalarValue as FromSpec<i16>>::from_spec(b).cell() == Cell::Int16(Some(b)),
        <ScalarValue as FromSpec<Option<i16>>>::from_spec(Some(b)) == <ScalarValue as FromSpec<i16>>::from_spec(b),
        <ScalarValue as FromSpec<Option<i16>>>::from_spec(None).cell() == Cell::Int16(None),
        <ScalarValue as FromSpec<i32>>::from_spec(c).cell() == Cell::Int32(Some(c)),
        <ScalarValue as FromSpec<Option<i32>>>::from_spec(Some(c)) == <ScalarValue as FromSpec<i32>>::from_spec(c),
        <ScalarValue as FromSpec<Option<i32>>>::from_spec(None).cell() == Cell::Int32(None),
        <ScalarValue as FromSpec<i64>>::from_spec(d).cell() == Cell::Int64(Some(d)),
        <ScalarValue as FromSpec<Option<i64>>>::from_spec(Some(d)) == <ScalarValue as FromSpec<i64>>::from_spec(d),
        <ScalarValue as FromSpec<Option<i64>>>::from_spec(None).cell() == Cell::Int64(None),
        <ScalarValue as FromSpec<u8>>::from_spec(e).cell() == Cell::UInt8(Some(e)),
        <ScalarValue as FromSpec<Option<u8>>>::from_spec(Some(e)) == <ScalarValue as FromSpec<u8>>::from_spec(e),
        <ScalarValue as FromSpec<Option<u8>>>::from_spec(None).cell() == Cell::UInt8(None),
        <ScalarValue as FromSpec<u16>>::from_spec(f).cell() == Cell::UInt16(Some(f)),
        <ScalarValue as FromSpec<Option<u16>>>::from_spec(Some(f)) == <ScalarValue as FromSpec<u16>>::from_spec(f),
        <ScalarValue as FromSpec<Option<u16>>>::from_spec(None).cell() == Cell::UInt16(None),
        <ScalarValue as FromSpec<u32>>::from_spec(g).cell() == Cell::UInt32(Some(g)),
        <ScalarValue as FromSpec<Option<u32>>>::from_spec(Some(g)) == <ScalarValue as FromSpec<u32>>::from_spec(g),
        <ScalarValue as FromSpec<Option<u32>>>::from_spec(None).cell() == Cell::UInt32(None),
        <ScalarValue as FromSpec<u64>>::from_spec(h).cell() == Cell::UInt64(Some(h)),
        <ScalarValue as FromSpec<Option<u64>>>::from_spec(Some(h)) == <ScalarValue as FromSpec<u64>>::from_spec(h),
        <ScalarValue as FromSpec<Option<u64>>>::from_spec(None).cell() == Cell::UInt64(None),
        <ScalarValue as FromSpec<F32>>::from_spec(x).cell() == Cell::Float32(Some(x)),
        <ScalarValue as FromSpec<Option<F32>>>::from_spec(Some(x)) == <ScalarValue as FromSpec<F32>>::from_spec(x),
        <ScalarValue as FromSpec<Option<F32>>>::from_spec(None).cell() == Cell::Float32(None),
        <ScalarValue as FromSpec<F64>>::from_spec(y).cell() == Cell::Float64(Some(y)),
        <ScalarValue as FromSpec<Option<F64>>>::from_spec(Some(y)) == <ScalarValue as FromSpec<F64>>::from_spec(y),
        <ScalarValue as FromSpec<Option<F64>>>::from_spec(None).cell() == Cell::Float64(None),
        <ScalarValue as FromSpec<VertexValue>>::from_spec(vertex).cell() == Cell::Vertex(Some(vertex)),
        <ScalarValue as FromSpec<Option<VertexValue>>>::from_spec(Some(vertex)) == <ScalarValue as FromSpec<VertexValue>>::from_spec(vertex),
        <ScalarValue as FromSpec<Option<VertexValue>>>::from_spec(None).cell() == Cell::Vertex(None),
        <ScalarValue as FromSpec<EdgeValue>>::from_spec(edge).cell() == Cell::Edge(Some(edge)),
        <ScalarValue as FromSpec<Option<EdgeValue>>>::from_spec(Some(edge)) == <ScalarValue as FromSpec<EdgeValue>>::from_spec(edge),
        <ScalarValue as FromSpec<Option<EdgeValue>>>::from_spec(None).cell() == Cell::Edge(None),
        <ScalarValue as FromSpec<String>>::from_spec(text).cell() == Cell::String(Some(text@)),
        <ScalarValue as FromSpec<Option<String>>>::from_spec(Some(text)).cell() == Cell::String(
            Some(text@),
        ),
        <ScalarValue as FromSpec<Option<String>>>::from_spec(None).cell() == Cell::String(None),
{
}

/// A double precision pattern is no number exactly where, the sign left out, it lies above that of
/// infinity. Of two positive numbers the one with the greater pattern is greater, of two negative
/// ones the one with the smaller pattern, and a negative number is never greater than a positive
/// one.
pub proof fn law_number_order(a: F64, b: F64)
    ensures
        a.nan() <==> a.bits % 0x8000_0000_0000_0000 > 0x7ff0_0000_0000_0000,
        a.bits < 0x8000_0000_0000_0000 && b.bits < 0x8000_0000_0000_0000 ==> (a.rank() < b.rank()
            <==> a.bits < b.bits),
        a.bits >= 0x8000_0000_0000_0000 && b.bits >= 0x8000_0000_0000_0000 ==> (a.rank() < b.rank()
            <==> a.bits > b.bits),
        a.bits >= 0x8000_0000_0000_0000 && b.bits < 0x8000_0000_0000_0000 ==> a.rank() <= b.rank(),
        a.bits % 0x8000_0000_0000_0000 == b.bits % 0x8000_0000_0000_0000 && a.bits != b.bits
            ==> a.rank() == -b.rank(),
{
    let x = a.bits;
    let y = b.bits;
    assert(x & 0x7fff_ffff_ffff_ffff == x % 0x8000_0000_0000_0000) by (bit_vector);
    assert(y & 0x7fff_ffff_ffff_ffff == y % 0x8000_0000_0000_0000) by (bit_vector);
}

/// Single precision numbers are equal where neither or both are missing, and where both are no
/// number, or both are a number and have the same pattern or are zeros. As they are written, zeros
/// of different signs differ. Values of other types are never equal to them.
pub proof fn law_single_equality(x: Option<F32>, b: Cell, written: bool)
    ensures
        Cell::Float32(x).matches(b, written) <==> (b matches Cell::Float32(y) && match (x, y) {
            (None, None) => true,
            (Some(p), Some(q)) => {
                let p_nan = p.bits % 0x8000_0000 > 0x7f80_0000;
                let q_nan = q.bits % 0x8000_0000 > 0x7f80_0000;
                (p_nan && q_nan) || (!p_nan && !q_nan && (p.bits == q.bits || (!written && p.bits
                    % 0x8000_0000 == 0 && q.bits % 0x8000_0000 == 0)))
            },
            _ => false,
        }),
{
    if let Cell::Float32(Some(q)) = b {
        if let Some(p) = x {
            let u = p.bits;
            let v = q.bits;
            assert(u & 0x7fff_ffff == u % 0x8000_0000) by (bit_vector);
            assert(v & 0x7fff_ffff == v % 0x8000_0000) by (bit_vector);
        }
    }
}

} // verus!
