//! Nullable scalar values of every supported type.

use std::sync::Arc;

use vstd::prelude::*;

use super::share::share;
use super::text::text_eq;
use super::types::{EdgeId, LabelId, VertexId};

verus! {

/// A value that may be missing.
pub type Nullable<T> = Option<T>;

/// A single-precision number, held as its IEEE 754 bit pattern.
#[derive(Debug, Clone, Copy)]
pub struct F32 {
    /// The bit pattern.
    pub bits: u32,
}

/// A double-precision number, held as its IEEE 754 bit pattern.
#[derive(Debug, Clone, Copy)]
pub struct F64 {
    /// The bit pattern.
    pub bits: u64,
}

impl F32 {
    /// Whether the pattern stands for no number: all exponent bits set, with some fraction bit.
    pub open spec fn nan(self) -> bool {
        self.bits & 0x7fff_ffff > 0x7f80_0000
    }

    /// Whether the pattern stands for zero, of either sign.
    pub open spec fn zero(self) -> bool {
        self.bits & 0x7fff_ffff == 0
    }

    /// Equality under which all NaN patterns are equal, and so are both zeros.
    pub open spec fn same(self, other: F32) -> bool {
        if self.nan() {
            other.nan()
        } else {
            !other.nan() && (self.bits == other.bits || (self.zero() && other.zero()))
        }
    }

    /// Whether both are written alike: all NaN patterns are, zeros of opposite sign are not.
    pub open spec fn written_alike(self, other: F32) -> bool {
        self.bits == other.bits || (self.nan() && other.nan())
    }

    /// Whether this is no number.
    pub fn is_nan(self) -> (nan: bool)
        ensures
            nan == self.nan(),
    {
        self.bits & 0x7fff_ffff > 0x7f80_0000
    }
}

impl F64 {
    /// Whether the pattern stands for no number: all exponent bits set, with some fraction bit.
    pub open spec fn nan(self) -> bool {
        self.bits & 0x7fff_ffff_ffff_ffff > 0x7ff0_0000_0000_0000
    }

    /// Whether the pattern stands for zero, of either sign.
    pub open spec fn zero(self) -> bool {
        self.bits & 0x7fff_ffff_ffff_ffff == 0
    }

    /// Equality under which all NaN patterns are equal, and so are both zeros.
    pub open spec fn same(self, other: F64) -> bool {
        if self.nan() {
            other.nan()
        } else {
            !other.nan() && (self.bits == other.bits || (self.zero() && other.zero()))
        }
    }

    /// Whether both are written alike: all NaN patterns are, zeros of opposite sign are not.
    pub open spec fn written_alike(self, other: F64) -> bool {
        self.bits == other.bits || (self.nan() && other.nan())
    }

    /// Whether this is no number.
    pub fn is_nan(self) -> (nan: bool)
        ensures
            nan == self.nan(),
    {
        self.bits & 0x7fff_ffff_ffff_ffff > 0x7ff0_0000_0000_0000
    }

    /// Where a number stands among all numbers: the order of the ranks is that of the numbers, and
    /// zeros of either sign have the same. The sign is the highest bit; the others grow with the
    /// size of the number.
    pub open spec fn rank(self) -> int {
        let size = (self.bits & 0x7fff_ffff_ffff_ffff) as int;
        if self.bits >= 0x8000_0000_0000_0000 {
            -size
        } else {
            size
        }
    }

    /// The smaller of two numbers, the first where neither is smaller. What is no number is passed
    /// over.
    pub open spec fn lesser(self, other: F64) -> F64 {
        if self.nan() {
            other
        } else if !other.nan() && other.rank() < self.rank() {
            other
        } else {
            self
        }
    }

    /// The larger of two numbers, the first where neither is larger. What is no number is passed
    /// over.
    pub open spec fn greater(self, other: F64) -> F64 {
        if self.nan() {
            other
        } else if !other.nan() && other.rank() > self.rank() {
            other
        } else {
            self
        }
    }

    /// Where a number stands among all numbers.
    fn place(self) -> (place: i64)
        ensures
            place == self.rank(),
    {
        let bits: u64 = self.bits;
        let size: u64 = bits & 0x7fff_ffff_ffff_ffff;
        assert(size <= 0x7fff_ffff_ffff_ffff) by (bit_vector)
            requires
                size == bits & 0x7fff_ffff_ffff_ffff,
        ;
        if bits >= 0x8000_0000_0000_0000 {
            -(size as i64)
        } else {
            size as i64
        }
    }

    /// The smaller of two numbers. What is no number is passed over.
    pub fn min(self, other: F64) -> (lesser: F64)
        ensures
            lesser == self.lesser(other),
    {
        if self.is_nan() {
            other
        } else if !other.is_nan() && other.place() < self.place() {
            other
        } else {
            self
        }
    }

    /// The larger of two numbers. What is no number is passed over.
    pub fn max(self, other: F64) -> (greater: F64)
        ensures
            greater == self.greater(other),
    {
        if self.is_nan() {
            other
        } else if !other.is_nan() && other.place() > self.place() {
            other
        } else {
            self
        }
    }
}

/// Numbers of the same rank are the same, up to the sign of zero.
pub proof fn law_rank_tells(a: F64, b: F64)
    requires
        !a.nan(),
        !b.nan(),
    ensures
        a.rank() == b.rank() <==> a.same(b),
{
    let x = a.bits;
    let y = b.bits;
    let sign: u64 = 0x8000_0000_0000_0000;
    assert((x >= sign) == (y >= sign) && x & 0x7fff_ffff_ffff_ffff == y & 0x7fff_ffff_ffff_ffff ==> x
        == y) by (bit_vector)
        requires
            sign == 0x8000_0000_0000_0000u64,
    ;
}

impl PartialEq for F32 {
    fn eq(&self, other: &F32) -> (equal: bool) {
        if self.is_nan() {
            other.is_nan()
        } else {
            !other.is_nan() && (self.bits == other.bits || (self.bits & 0x7fff_ffff == 0 && other.bits
                & 0x7fff_ffff == 0))
        }
    }
}

impl vstd::std_specs::cmp::PartialEqSpecImpl for F32 {
    open spec fn obeys_eq_spec() -> bool {
        true
    }

    open spec fn eq_spec(&self, other: &F32) -> bool {
        self.same(*other)
    }
}

impl Eq for F32 {

}

impl PartialEq for F64 {
    fn eq(&self, other: &F64) -> (equal: bool) {
        if self.is_nan() {
            other.is_nan()
        } else {
            !other.is_nan() && (self.bits == other.bits || (self.bits & 0x7fff_ffff_ffff_ffff == 0
                && other.bits & 0x7fff_ffff_ffff_ffff == 0))
        }
    }
}

impl vstd::std_specs::cmp::PartialEqSpecImpl for F64 {
    open spec fn obeys_eq_spec() -> bool {
        true
    }

    open spec fn eq_spec(&self, other: &F64) -> bool {
        self.same(*other)
    }
}

impl Eq for F64 {

}

/// A scalar value.
#[derive(Debug, Clone, PartialEq, Eq)]
pub enum ScalarValue {
    /// The untyped null.
    Null,
    /// A nullable value of type `bool`.
    Boolean(Nullable<bool>),
    /// A nullable value of type `i8`.
    Int8(Nullable<i8>),
    /// A nullable value of type `i16`.
    Int16(Nullable<i16>),
    /// A nullable value of type `i32`.
    Int32(Nullable<i32>),
    /// A nullable value of type `i64`.
    Int64(Nullable<i64>),
    /// A nullable value of type `u8`.
    UInt8(Nullable<u8>),
    /// A nullable value of type `u16`.
    UInt16(Nullable<u16>),
    /// A nullable value of type `u32`.
    UInt32(Nullable<u32>),
    /// A nullable value of type `u64`.
    UInt64(Nullable<u64>),
    /// A nullable value of type `F32`.
    Float32(Nullable<F32>),
    /// A nullable value of type `F64`.
    Float64(Nullable<F64>),
    /// A nullable value of type `String`.
    String(Nullable<String>),
    /// A nullable value of type `VertexValue`.
    Vertex(Nullable<VertexValue>),
    /// A nullable value of type `EdgeValue`.
    Edge(Nullable<EdgeValue>),
}

/// A named property of a vertex or an edge.
#[derive(Debug, Clone, PartialEq, Eq)]
pub struct PropertyValue {
    /// The name.
    pub name: String,
    /// The value.
    pub value: ScalarValue,
}

/// A vertex as a value.
#[derive(Debug, Clone, PartialEq, Eq)]
pub struct VertexValue {
    /// The identifier.
    pub id: VertexId,
    /// The label.
    pub label: LabelId,
    /// The properties, which copies share.
    pub properties: Arc<Vec<PropertyValue>>,
}

/// An edge as a value.
#[derive(Debug, Clone, PartialEq, Eq)]
pub struct EdgeValue {
    /// The identifier.
    pub id: EdgeId,
    /// The source.
    pub src: VertexId,
    /// The destination.
    pub dst: VertexId,
    /// The label.
    pub label: LabelId,
    /// The properties, which copies share.
    pub properties: Arc<Vec<PropertyValue>>,
}

impl PropertyValue {
    /// A property of the given name and value.
    pub fn new(name: String, value: ScalarValue) -> (property: Self)
        ensures
            property.spec_name() == name@,
            property.spec_value() == value,
    {
        PropertyValue { name, value }
    }

    /// The name.
    pub closed spec fn spec_name(self) -> Seq<char> {
        self.name@
    }

    /// The value.
    pub closed spec fn spec_value(self) -> ScalarValue {
        self.value
    }
}

impl VertexValue {
    /// A vertex value with the given properties.
    pub fn new(id: VertexId, label: LabelId, properties: Vec<PropertyValue>) -> (vertex: Self)
        ensures
            vertex.parts() == (id, label, properties@),
    {
        VertexValue { id, label, properties: Arc::new(properties) }
    }

    /// The identifier, the label and the properties.
    pub closed spec fn parts(self) -> (VertexId, LabelId, Seq<PropertyValue>) {
        (self.id, self.label, self.properties@)
    }

    /// A copy.
    pub fn duplicate(&self) -> (copy: Self)
        ensures
            copy == *self,
    {
        VertexValue { id: self.id, label: self.label, properties: share(&self.properties) }
    }
}

impl EdgeValue {
    /// An edge value with the given properties.
    pub fn new(
        id: EdgeId,
        src: VertexId,
        dst: VertexId,
        label: LabelId,
        properties: Vec<PropertyValue>,
    ) -> (edge: Self)
        ensures
            edge.parts() == (id, src, dst, label, properties@),
    {
        EdgeValue { id, src, dst, label, properties: Arc::new(properties) }
    }

    /// The identifier, the end points, the label and the properties.
    pub closed spec fn parts(self) -> (EdgeId, VertexId, VertexId, LabelId, Seq<PropertyValue>) {
        (self.id, self.src, self.dst, self.label, self.properties@)
    }

    /// A copy.
    pub fn duplicate(&self) -> (copy: Self)
        ensures
            copy == *self,
    {
        EdgeValue {
            id: self.id,
            src: self.src,
            dst: self.dst,
            label: self.label,
            properties: share(&self.properties),
        }
    }
}

/// Whether two nullable values are both missing or related by `related`.
pub open spec fn nullable_related<T>(
    a: Nullable<T>,
    b: Nullable<T>,
    related: spec_fn(T, T) -> bool,
) -> bool {
    match (a, b) {
        (Some(x), Some(y)) => related(x, y),
        (None, None) => true,
        _ => false,
    }
}

/// Whether two values are equal. Values of different types never are. With `written`, floating
/// point numbers are compared by how they are written, else by the number they stand for.
pub open spec fn scalar_matches(a: ScalarValue, b: ScalarValue, written: bool) -> bool
    decreases a,
{
    match (a, b) {
        (ScalarValue::Null, ScalarValue::Null) => true,
        (ScalarValue::Boolean(x), ScalarValue::Boolean(y)) => x == y,
        (ScalarValue::Int8(x), ScalarValue::Int8(y)) => x == y,
        (ScalarValue::Int16(x), ScalarValue::Int16(y)) => x == y,
        (ScalarValue::Int32(x), ScalarValue::Int32(y)) => x == y,
        (ScalarValue::Int64(x), ScalarValue::Int64(y)) => x == y,
        (ScalarValue::UInt8(x), ScalarValue::UInt8(y)) => x == y,
        (ScalarValue::UInt16(x), ScalarValue::UInt16(y)) => x == y,
        (ScalarValue::UInt32(x), ScalarValue::UInt32(y)) => x == y,
        (ScalarValue::UInt64(x), ScalarValue::UInt64(y)) => x == y,
        (ScalarValue::Float32(x), ScalarValue::Float32(y)) => nullable_related(
            x,
            y,
            |p: F32, q: F32|
                if written {
                    p.written_alike(q)
                } else {
                    p.same(q)
                },
        ),
        (ScalarValue::Float64(x), ScalarValue::Float64(y)) => nullable_related(
            x,
            y,
            |p: F64, q: F64|
                if written {
                    p.written_alike(q)
                } else {
                    p.same(q)
                },
        ),
        (ScalarValue::String(x), ScalarValue::String(y)) => nullable_related(
            x,
            y,
            |p: String, q: String| p@ == q@,
        ),
        (ScalarValue::Vertex(Some(x)), ScalarValue::Vertex(Some(y))) => {
            &&& x.parts().0 == y.parts().0
            &&& x.parts().1 == y.parts().1
            &&& x.parts().2.len() == y.parts().2.len()
            &&& forall|i: int|
                0 <= i < x.parts().2.len() ==> {
                    &&& (#[trigger] x.parts().2[i]).spec_name() == y.parts().2[i].spec_name()
                    &&& scalar_matches(
                        x.parts().2[i].spec_value(),
                        y.parts().2[i].spec_value(),
                        written,
                    )
                }
        },
        (ScalarValue::Vertex(None), ScalarValue::Vertex(None)) => true,
        (ScalarValue::Edge(Some(x)), ScalarValue::Edge(Some(y))) => {
            &&& x.parts().0 == y.parts().0
            &&& x.parts().1 == y.parts().1
            &&& x.parts().2 == y.parts().2
            &&& x.parts().3 == y.parts().3
            &&& x.parts().4.len() == y.parts().4.len()
            &&& forall|i: int|
                0 <= i < x.parts().4.len() ==> {
                    &&& (#[trigger] x.parts().4[i]).spec_name() == y.parts().4[i].spec_name()
                    &&& scalar_matches(
                        x.parts().4[i].spec_value(),
                        y.parts().4[i].spec_value(),
                        written,
                    )
                }
        },
        (ScalarValue::Edge(None), ScalarValue::Edge(None)) => true,
        _ => false,
    }
}

/// Every value is equal to itself.
pub proof fn lemma_matches_self(a: ScalarValue, written: bool)
    ensures
        scalar_matches(a, a, written),
    decreases a,
{
    match a {
        ScalarValue::Vertex(Some(x)) => {
            assert forall|i: int| 0 <= i < x.parts().2.len() implies scalar_matches(
                (#[trigger] x.parts().2[i]).spec_value(),
                x.parts().2[i].spec_value(),
                written,
            ) by {
                lemma_matches_self(x.parts().2[i].spec_value(), written);
            }
        },
        ScalarValue::Edge(Some(x)) => {
            assert forall|i: int| 0 <= i < x.parts().4.len() implies scalar_matches(
                (#[trigger] x.parts().4[i]).spec_value(),
                x.parts().4[i].spec_value(),
                written,
            ) by {
                lemma_matches_self(x.parts().4[i].spec_value(), written);
            }
        },
        _ => {},
    }
}

/// Equality of values goes both ways.
pub proof fn law_equality_symmetric(a: ScalarValue, b: ScalarValue, written: bool)
    ensures
        scalar_matches(a, b, written) == scalar_matches(b, a, written),
    decreases a,
{
    match (a, b) {
        (ScalarValue::Vertex(Some(x)), ScalarValue::Vertex(Some(y))) => {
            if x.parts().2.len() == y.parts().2.len() {
                assert forall|i: int| 0 <= i < x.parts().2.len() implies scalar_matches(
                    (#[trigger] x.parts().2[i]).spec_value(),
                    y.parts().2[i].spec_value(),
                    written,
                ) == scalar_matches(
                    y.parts().2[i].spec_value(),
                    x.parts().2[i].spec_value(),
                    written,
                ) by {
                    law_equality_symmetric(
                        x.parts().2[i].spec_value(),
                        y.parts().2[i].spec_value(),
                        written,
                    );
                }
                assert forall|i: int| 0 <= i < y.parts().2.len() implies scalar_matches(
                    (#[trigger] y.parts().2[i]).spec_value(),
                    x.parts().2[i].spec_value(),
                    written,
                ) == scalar_matches(
                    x.parts().2[i].spec_value(),
                    y.parts().2[i].spec_value(),
                    written,
                ) by {
                    assert(x.parts().2[i].spec_name() == x.parts().2[i].spec_name());
                }
            }
        },
        (ScalarValue::Edge(Some(x)), ScalarValue::Edge(Some(y))) => {
            if x.parts().4.len() == y.parts().4.len() {
                assert forall|i: int| 0 <= i < x.parts().4.len() implies scalar_matches(
                    (#[trigger] x.parts().4[i]).spec_value(),
                    y.parts().4[i].spec_value(),
                    written,
                ) == scalar_matches(
                    y.parts().4[i].spec_value(),
                    x.parts().4[i].spec_value(),
                    written,
                ) by {
                    law_equality_symmetric(
                        x.parts().4[i].spec_value(),
                        y.parts().4[i].spec_value(),
                        written,
                    );
                }
                assert forall|i: int| 0 <= i < y.parts().4.len() implies scalar_matches(
                    (#[trigger] y.parts().4[i]).spec_value(),
                    x.parts().4[i].spec_value(),
                    written,
                ) == scalar_matches(
                    x.parts().4[i].spec_value(),
                    y.parts().4[i].spec_value(),
                    written,
                ) by {
                    assert(x.parts().4[i].spec_name() == x.parts().4[i].spec_name());
                }
            }
        },
        _ => {},
    }
}

/// Two values that are equal to a third are equal to each other.
pub proof fn law_equality_transitive(a: ScalarValue, b: ScalarValue, c: ScalarValue, written: bool)
    requires
        scalar_matches(a, b, written),
        scalar_matches(b, c, written),
    ensures
        scalar_matches(a, c, written),
    decreases a,
{
    match (a, b, c) {
        (
            ScalarValue::Vertex(Some(x)),
            ScalarValue::Vertex(Some(y)),
            ScalarValue::Vertex(Some(z)),
        ) => {
            assert forall|i: int| 0 <= i < x.parts().2.len() implies (
            #[trigger] x.parts().2[i]).spec_name() == z.parts().2[i].spec_name()
                && scalar_matches(
                x.parts().2[i].spec_value(),
                z.parts().2[i].spec_value(),
                written,
            ) by {
                assert(y.parts().2[i].spec_name() == z.parts().2[i].spec_name());
                law_equality_transitive(
                    x.parts().2[i].spec_value(),
                    y.parts().2[i].spec_value(),
                    z.parts().2[i].spec_value(),
                    written,
                );
            }
        },
        (
            ScalarValue::Edge(Some(x)),
            ScalarValue::Edge(Some(y)),
            ScalarValue::Edge(Some(z)),
        ) => {
            assert forall|i: int| 0 <= i < x.parts().4.len() implies (
            #[trigger] x.parts().4[i]).spec_name() == z.parts().4[i].spec_name()
                && scalar_matches(
                x.parts().4[i].spec_value(),
                z.parts().4[i].spec_value(),
                written,
            ) by {
                assert(y.parts().4[i].spec_name() == z.parts().4[i].spec_name());
                law_equality_transitive(
                    x.parts().4[i].spec_value(),
                    y.parts().4[i].spec_value(),
                    z.parts().4[i].spec_value(),
                    written,
                );
            }
        },
        _ => {},
    }
}

/// Vertices are equal exactly where they agree in their identifier, their label and the names and
/// values of all their properties, in their order.
pub proof fn law_vertex_equality(x: VertexValue, y: VertexValue, written: bool)
    ensures
        scalar_matches(
            ScalarValue::Vertex(Some(x)),
            ScalarValue::Vertex(Some(y)),
            written,
        ) <==> {
            &&& x.parts().0 == y.parts().0
            &&& x.parts().1 == y.parts().1
            &&& x.parts().2.len() == y.parts().2.len()
            &&& forall|i: int|
                0 <= i < x.parts().2.len() ==> (#[trigger] x.parts().2[i]).spec_name()
                    == y.parts().2[i].spec_name() && scalar_matches(
                    x.parts().2[i].spec_value(),
                    y.parts().2[i].spec_value(),
                    written,
                )
        },
{
}

/// Edges are equal exactly where they agree in their identifier, their two ends, their label and
/// the names and values of all their properties, in their order.
pub proof fn law_edge_equality(x: EdgeValue, y: EdgeValue, written: bool)
    ensures
        scalar_matches(ScalarValue::Edge(Some(x)), ScalarValue::Edge(Some(y)), written) <==> {
            &&& x.parts().0 == y.parts().0
            &&& x.parts().1 == y.parts().1
            &&& x.parts().2 == y.parts().2
            &&& x.parts().3 == y.parts().3
            &&& x.parts().4.len() == y.parts().4.len()
            &&& forall|i: int|
                0 <= i < x.parts().4.len() ==> (#[trigger] x.parts().4[i]).spec_name()
                    == y.parts().4[i].spec_name() && scalar_matches(
                    x.parts().4[i].spec_value(),
                    y.parts().4[i].spec_value(),
                    written,
                )
        },
{
}

impl ScalarValue {
    /// A copy.
    pub fn duplicate(&self) -> (copy: Self)
        ensures
            copy == *self,
    {
        match self {
            ScalarValue::Null => ScalarValue::Null,
            ScalarValue::Boolean(value) => ScalarValue::Boolean(*value),
            ScalarValue::Int8(value) => ScalarValue::Int8(*value),
            ScalarValue::Int16(value) => ScalarValue::Int16(*value),
            ScalarValue::Int32(value) => ScalarValue::Int32(*value),
            ScalarValue::Int64(value) => ScalarValue::Int64(*value),
            ScalarValue::UInt8(value) => ScalarValue::UInt8(*value),
            ScalarValue::UInt16(value) => ScalarValue::UInt16(*value),
            ScalarValue::UInt32(value) => ScalarValue::UInt32(*value),
            ScalarValue::UInt64(value) => ScalarValue::UInt64(*value),
            ScalarValue::Float32(value) => ScalarValue::Float32(*value),
            ScalarValue::Float64(value) => ScalarValue::Float64(*value),
            ScalarValue::String(Some(value)) => ScalarValue::String(Some(value.clone())),
            ScalarValue::String(None) => ScalarValue::String(None),
            ScalarValue::Vertex(Some(value)) => ScalarValue::Vertex(Some(value.duplicate())),
            ScalarValue::Vertex(None) => ScalarValue::Vertex(None),
            ScalarValue::Edge(Some(value)) => ScalarValue::Edge(Some(value.duplicate())),
            ScalarValue::Edge(None) => ScalarValue::Edge(None),
        }
    }

    /// Whether two values are equal, with floating point numbers compared as `written` says.
    pub fn matches(&self, other: &ScalarValue, written: bool) -> (equal: bool)
        ensures
            equal == scalar_matches(*self, *other, written),
        decreases *self,
    {
        match (self, other) {
            (ScalarValue::Null, ScalarValue::Null) => true,
            (ScalarValue::Boolean(x), ScalarValue::Boolean(y)) => *x == *y,
            (ScalarValue::Int8(x), ScalarValue::Int8(y)) => *x == *y,
            (ScalarValue::Int16(x), ScalarValue::Int16(y)) => *x == *y,
            (ScalarValue::Int32(x), ScalarValue::Int32(y)) => *x == *y,
            (ScalarValue::Int64(x), ScalarValue::Int64(y)) => *x == *y,
            (ScalarValue::UInt8(x), ScalarValue::UInt8(y)) => *x == *y,
            (ScalarValue::UInt16(x), ScalarValue::UInt16(y)) => *x == *y,
            (ScalarValue::UInt32(x), ScalarValue::UInt32(y)) => *x == *y,
            (ScalarValue::UInt64(x), ScalarValue::UInt64(y)) => *x == *y,
            (ScalarValue::Float32(Some(x)), ScalarValue::Float32(Some(y))) => if written {
                x.bits == y.bits || (x.is_nan() && y.is_nan())
            } else {
                *x == *y
            },
            (ScalarValue::Float32(None), ScalarValue::Float32(None)) => true,
            (ScalarValue::Float64(Some(x)), ScalarValue::Float64(Some(y))) => if written {
                x.bits == y.bits || (x.is_nan() && y.is_nan())
            } else {
                *x == *y
            },
            (ScalarValue::Float64(None), ScalarValue::Float64(None)) => true,
            (ScalarValue::String(Some(x)), ScalarValue::String(Some(y))) => text_eq(
                x.as_str(),
                y.as_str(),
            ),
            (ScalarValue::String(None), ScalarValue::String(None)) => true,
            (ScalarValue::Vertex(Some(x)), ScalarValue::Vertex(Some(y))) => {
                x.id == y.id && x.label == y.label && properties_match(
                    &x.properties,
                    &y.properties,
                    written,
                )
            },
            (ScalarValue::Vertex(None), ScalarValue::Vertex(None)) => true,
            (ScalarValue::Edge(Some(x)), ScalarValue::Edge(Some(y))) => {
                x.id == y.id && x.src == y.src && x.dst == y.dst && x.label == y.label
                    && properties_match(&x.properties, &y.properties, written)
            },
            (ScalarValue::Edge(None), ScalarValue::Edge(None)) => true,
            _ => false,
        }
    }
}

fn properties_match(a: &Vec<PropertyValue>, b: &Vec<PropertyValue>, written: bool) -> (equal: bool)
    ensures
        equal == {
            &&& a@.len() == b@.len()
            &&& forall|i: int|
                0 <= i < a@.len() ==> {
                    &&& (#[trigger] a@[i]).spec_name() == b@[i].spec_name()
                    &&& scalar_matches(a@[i].spec_value(), b@[i].spec_value(), written)
                }
        },
    decreases a@,
{
    if a.len() != b.len() {
        return false;
    }
    for i in 0..a.len()
        invariant
            a@.len() == b@.len(),
            forall|j: int|
                0 <= j < i ==> {
                    &&& (#[trigger] a@[j]).spec_name() == b@[j].spec_name()
                    &&& scalar_matches(a@[j].spec_value(), b@[j].spec_value(), written)
                },
    {
        if !text_eq(a[i].name.as_str(), b[i].name.as_str()) || !a[i].value.matches(
            &b[i].value,
            written,
        ) {
            assert(a@[i as int].spec_name() != b@[i as int].spec_name() || !scalar_matches(
                a@[i as int].spec_value(),
                b@[i as int].spec_value(),
                written,
            ));
            return false;
        }
    }
    true
}

impl vstd::std_specs::convert::FromSpecImpl<&str> for ScalarValue {
    open spec fn obeys_from_spec() -> bool {
        false
    }

    open spec fn from_spec(value: &str) -> Self {
        ScalarValue::Null
    }
}

impl From<&str> for ScalarValue {
    fn from(value: &str) -> (scalar: Self)
        ensures
            scalar matches ScalarValue::String(Some(text)) && text@ == value@,
    {
        ScalarValue::String(Some(value.to_owned()))
    }
}

impl vstd::std_specs::convert::FromSpecImpl<Nullable<&str>> for ScalarValue {
    open spec fn obeys_from_spec() -> bool {
        false
    }

    open spec fn from_spec(value: Nullable<&str>) -> Self {
        ScalarValue::Null
    }
}

impl From<Nullable<&str>> for ScalarValue {
    fn from(value: Nullable<&str>) -> (scalar: Self)
        ensures
            match value {
                Some(v) => scalar matches ScalarValue::String(Some(text)) && text@ == v@,
                None => scalar == ScalarValue::String(None),
            },
    {
        match value {
            Some(text) => ScalarValue::String(Some(text.to_owned())),
            None => ScalarValue::String(None),
        }
    }
}

impl ScalarValue {
    /// Borrows the nullable `bool` of a value of that type; `None` for a value of another type.
    pub fn try_as_boolean(&self) -> (value: Option<&Nullable<bool>>)
        ensures
            value == (match *self {
                ScalarValue::Boolean(v) => Some(&v),
                _ => None,
            }),
    {
        match self {
            ScalarValue::Boolean(value) => Some(value),
            _ => None,
        }
    }

    /// Takes the nullable `bool` of a value of that type; `None` for a value of another type.
    pub fn into_boolean(self) -> (value: Option<Nullable<bool>>)
        ensures
            value == (match self {
                ScalarValue::Boolean(v) => Some(v),
                _ => None,
            }),
    {
        match self {
            ScalarValue::Boolean(value) => Some(value),
            _ => None,
        }
    }

    /// Borrows the nullable `i8` of a value of that type; `None` for a value of another type.
    pub fn try_as_int8(&self) -> (value: Option<&Nullable<i8>>)
        ensures
            value == (match *self {
                ScalarValue::Int8(v) => Some(&v),
                _ => None,
            }),
    {
        match self {
            ScalarValue::Int8(value) => Some(value),
            _ => None,
        }
    }

    /// Takes the nullable `i8` of a value of that type; `None` for a value of another type.
    pub fn into_int8(self) -> (value: Option<Nullable<i8>>)
        ensures
            value == (match self {
                ScalarValue::Int8(v) => Some(v),
                _ => None,
            }),
    {
        match self {
            ScalarValue::Int8(value) => Some(value),
            _ => None,
        }
    }

    /// Borrows the nullable `i16` of a value of that type; `None` for a value of another type.
    pub fn try_as_int16(&self) -> (value: Option<&Nullable<i16>>)
        ensures
            value == (match *self {
                ScalarValue::Int16(v) => Some(&v),
                _ => None,
            }),
    {
        match self {
            ScalarValue::Int16(value) => Some(value),
            _ => None,
        }
    }

    /// Takes the nullable `i16` of a value of that type; `None` for a value of another type.
    pub fn into_int16(self) -> (value: Option<Nullable<i16>>)
        ensures
            value == (match self {
                ScalarValue::Int16(v) => Some(v),
                _ => None,
            }),
    {
        match self {
            ScalarValue::Int16(value) => Some(value),
            _ => None,
        }
    }

    /// Borrows the nullable `i32` of a value of that type; `None` for a value of another type.
    pub fn try_as_int32(&self) -> (value: Option<&Nullable<i32>>)
        ensures
            value == (match *self {
                ScalarValue::Int32(v) => Some(&v),
                _ => None,
            }),
    {
        match self {
            ScalarValue::Int32(value) => Some(value),
            _ => None,
        }
    }

    /// Takes the nullable `i32` of a value of that type; `None` for a value of another type.
    pub fn into_int32(self) -> (value: Option<Nullable<i32>>)
        ensures
            value == (match self {
                ScalarValue::Int32(v) => Some(v),
                _ => None,
            }),
    {
        match self {
            ScalarValue::Int32(value) => Some(value),
            _ => None,
        }
    }

    /// Borrows the nullable `i64` of a value of that type; `None` for a value of another type.
    pub fn try_as_int64(&self) -> (value: Option<&Nullable<i64>>)
        ensures
            value == (match *self {
                ScalarValue::Int64(v) => Some(&v),
                _ => None,
            }),
    {
        match self {
            ScalarValue::Int64(value) => Some(value),
            _ => None,
        }
    }

    /// Takes the nullable `i64` of a value of that type; `None` for a value of another type.
    pub fn into_int64(self) -> (value: Option<Nullable<i64>>)
        ensures
            value == (match self {
                ScalarValue::Int64(v) => Some(v),
                _ => None,
            }),
    {
        match self {
            ScalarValue::Int64(value) => Some(value),
            _ => None,
        }
    }

    /// Borrows the nullable `u8` of a value of that type; `None` for a value of another type.
    pub fn try_as_uint8(&self) -> (value: Option<&Nullable<u8>>)
        ensures
            value == (match *self {
                ScalarValue::UInt8(v) => Some(&v),
                _ => None,
            }),
    {
        match self {
            ScalarValue::UInt8(value) => Some(value),
            _ => None,
        }
    }

    /// Takes the nullable `u8` of a value of that type; `None` for a value of another type.
    pub fn into_uint8(self) -> (value: Option<Nullable<u8>>)
        ensures
            value == (match self {
                ScalarValue::UInt8(v) => Some(v),
                _ => None,
            }),
    {
        match self {
            ScalarValue::UInt8(value) => Some(value),
            _ => None,
        }
    }

    /// Borrows the nullable `u16` of a value of that type; `None` for a value of another type.
    pub fn try_as_uint16(&self) -> (value: Option<&Nullable<u16>>)
        ensures
            value == (match *self {
                ScalarValue::UInt16(v) => Some(&v),
                _ => None,
            }),
    {
        match self {
            ScalarValue::UInt16(value) => Some(value),
            _ => None,
        }
    }

    /// Takes the nullable `u16` of a value of that type; `None` for a value of another type.
    pub fn into_uint16(self) -> (value: Option<Nullable<u16>>)
        ensures
            value == (match self {
                ScalarValue::UInt16(v) => Some(v),
                _ => None,
            }),
    {
        match self {
            ScalarValue::UInt16(value) => Some(value),
            _ => None,
        }
    }

    /// Borrows the nullable `u32` of a value of that type; `None` for a value of another type.
    pub fn try_as_uint32(&self) -> (value: Option<&Nullable<u32>>)
        ensures
            value == (match *self {
                ScalarValue::UInt32(v) => Some(&v),
                _ => None,
            }),
    {
        match self {
            ScalarValue::UInt32(value) => Some(value),
            _ => None,
        }
    }

    /// Takes the nullable `u32` of a value of that type; `None` for a value of another type.
    pub fn into_uint32(self) -> (value: Option<Nullable<u32>>)
        ensures
            value == (match self {
                ScalarValue::UInt32(v) => Some(v),
                _ => None,
            }),
    {
        match self {
            ScalarValue::UInt32(value) => Some(value),
            _ => None,
        }
    }

    /// Borrows the nullable `u64` of a value of that type; `None` for a value of another type.
    pub fn try_as_uint64(&self) -> (value: Option<&Nullable<u64>>)
        ensures
            value == (match *self {
                ScalarValue::UInt64(v) => Some(&v),
                _ => None,
            }),
    {
        match self {
            ScalarValue::UInt64(value) => Some(value),
            _ => None,
        }
    }

    /// Takes the nullable `u64` of a value of that type; `None` for a value of another type.
    pub fn into_uint64(self) -> (value: Option<Nullable<u64>>)
        ensures
            value == (match self {
                ScalarValue::UInt64(v) => Some(v),
                _ => None,
            }),
    {
        match self {
            ScalarValue::UInt64(value) => Some(value),
            _ => None,
        }
    }

    /// Borrows the nullable `F32` of a value of that type; `None` for a value of another type.
    pub fn try_as_float32(&self) -> (value: Option<&Nullable<F32>>)
        ensures
            value == (match *self {
                ScalarValue::Float32(v) => Some(&v),
                _ => None,
            }),
    {
        match self {
            ScalarValue::Float32(value) => Some(value),
            _ => None,
        }
    }

    /// Takes the nullable `F32` of a value of that type; `None` for a value of another type.
    pub fn into_float32(self) -> (value: Option<Nullable<F32>>)
        ensures
            value == (match self {
                ScalarValue::Float32(v) => Some(v),
                _ => None,
            }),
    {
        match self {
            ScalarValue::Float32(value) => Some(value),
            _ => None,
        }
    }

    /// Borrows the nullable `F64` of a value of that type; `None` for a value of another type.
    pub fn try_as_float64(&self) -> (value: Option<&Nullable<F64>>)
        ensures
            value == (match *self {
                ScalarValue::Float64(v) => Some(&v),
                _ => None,
            }),
    {
        match self {
            ScalarValue::Float64(value) => Some(value),
            _ => None,
        }
    }

    /// Takes the nullable `F64` of a value of that type; `None` for a value of another type.
    pub fn into_float64(self) -> (value: Option<Nullable<F64>>)
        ensures
            value == (match self {
                ScalarValue::Float64(v) => Some(v),
                _ => None,
            }),
    {
        match self {
            ScalarValue::Float64(value) => Some(value),
            _ => None,
        }
    }

    /// Borrows the nullable `String` of a value of that type; `None` for a value of another type.
    pub fn try_as_string(&self) -> (value: Option<&Nullable<String>>)
        ensures
            value == (match *self {
                ScalarValue::String(v) => Some(&v),
                _ => None,
            }),
    {
        match self {
            ScalarValue::String(value) => Some(value),
            _ => None,
        }
    }

    /// Takes the nullable `String` of a value of that type; `None` for a value of another type.
    pub fn into_string(self) -> (value: Option<Nullable<String>>)
        ensures
            value == (match self {
                ScalarValue::String(v) => Some(v),
                _ => None,
            }),
    {
        match self {
            ScalarValue::String(value) => Some(value),
            _ => None,
        }
    }

    /// Borrows the nullable `VertexValue` of a value of that type; `None` for a value of another type.
    pub fn try_as_vertex_value(&self) -> (value: Option<&Nullable<VertexValue>>)
        ensures
            value == (match *self {
                ScalarValue::Vertex(v) => Some(&v),
                _ => None,
            }),
    {
        match self {
            ScalarValue::Vertex(value) => Some(value),
            _ => None,
        }
    }

    /// Takes the nullable `VertexValue` of a value of that type; `None` for a value of another type.
    pub fn into_vertex_value(self) -> (value: Option<Nullable<VertexValue>>)
        ensures
            value == (match self {
                ScalarValue::Vertex(v) => Some(v),
                _ => None,
            }),
    {
        match self {
            ScalarValue::Vertex(value) => Some(value),
            _ => None,
        }
    }

    /// Borrows the nullable `EdgeValue` of a value of that type; `None` for a value of another type.
    pub fn try_as_edge_value(&self) -> (value: Option<&Nullable<EdgeValue>>)
        ensures
            value == (match *self {
                ScalarValue::Edge(v) => Some(&v),
                _ => None,
            }),
    {
        match self {
            ScalarValue::Edge(value) => Some(value),
            _ => None,
        }
    }

    /// Takes the nullable `EdgeValue` of a value of that type; `None` for a value of another type.
    pub fn into_edge_value(self) -> (value: Option<Nullable<EdgeValue>>)
        ensures
            value == (match self {
                ScalarValue::Edge(v) => Some(v),
                _ => None,
            }),
    {
        match self {
            ScalarValue::Edge(value) => Some(value),
            _ => None,
        }
    }

}

impl From<bool> for ScalarValue {
    fn from(value: bool) -> (scalar: Self) {
        ScalarValue::Boolean(Some(value))
    }
}

impl vstd::std_specs::convert::FromSpecImpl<bool> for ScalarValue {
    open spec fn obeys_from_spec() -> bool {
        true
    }

    open spec fn from_spec(value: bool) -> Self {
        ScalarValue::Boolean(Some(value))
    }
}

impl From<Nullable<bool>> for ScalarValue {
    fn from(value: Nullable<bool>) -> (scalar: Self) {
        ScalarValue::Boolean(value)
    }
}

impl vstd::std_specs::convert::FromSpecImpl<Nullable<bool>> for ScalarValue {
    open spec fn obeys_from_spec() -> bool {
        true
    }

    open spec fn from_spec(value: Nullable<bool>) -> Self {
        ScalarValue::Boolean(value)
    }
}

impl From<i8> for ScalarValue {
    fn from(value: i8) -> (scalar: Self) {
        ScalarValue::Int8(Some(value))
    }
}

impl vstd::std_specs::convert::FromSpecImpl<i8> for ScalarValue {
    open spec fn obeys_from_spec() -> bool {
        true
    }

    open spec fn from_spec(value: i8) -> Self {
        ScalarValue::Int8(Some(value))
    }
}

impl From<Nullable<i8>> for ScalarValue {
    fn from(value: Nullable<i8>) -> (scalar: Self) {
        ScalarValue::Int8(value)
    }
}

impl vstd::std_specs::convert::FromSpecImpl<Nullable<i8>> for ScalarValue {
    open spec fn obeys_from_spec() -> bool {
        true
    }

    open spec fn from_spec(value: Nullable<i8>) -> Self {
        ScalarValue::Int8(value)
    }
}

impl From<i16> for ScalarValue {
    fn from(value: i16) -> (scalar: Self) {
        ScalarValue::Int16(Some(value))
    }
}

impl vstd::std_specs::convert::FromSpecImpl<i16> for ScalarValue {
    open spec fn obeys_from_spec() -> bool {
        true
    }

    open spec fn from_spec(value: i16) -> Self {
        ScalarValue::Int16(Some(value))
    }
}

impl From<Nullable<i16>> for ScalarValue {
    fn from(value: Nullable<i16>) -> (scalar: Self) {
        ScalarValue::Int16(value)
    }
}

impl vstd::std_specs::convert::FromSpecImpl<Nullable<i16>> for ScalarValue {
    open spec fn obeys_from_spec() -> bool {
        true
    }

    open spec fn from_spec(value: Nullable<i16>) -> Self {
        ScalarValue::Int16(value)
    }
}

impl From<i32> for ScalarValue {
    fn from(value: i32) -> (scalar: Self) {
        ScalarValue::Int32(Some(value))
    }
}

impl vstd::std_specs::convert::FromSpecImpl<i32> for ScalarValue {
    open spec fn obeys_from_spec() -> bool {
        true
    }

    open spec fn from_spec(value: i32) -> Self {
        ScalarValue::Int32(Some(value))
    }
}

impl From<Nullable<i32>> for ScalarValue {
    fn from(value: Nullable<i32>) -> (scalar: Self) {
        ScalarValue::Int32(value)
    }
}

impl vstd::std_specs::convert::FromSpecImpl<Nullable<i32>> for ScalarValue {
    open spec fn obeys_from_spec() -> bool {
        true
    }

    open spec fn from_spec(value: Nullable<i32>) -> Self {
        ScalarValue::Int32(value)
    }
}

impl From<i64> for ScalarValue {
    fn from(value: i64) -> (scalar: Self) {
        ScalarValue::Int64(Some(value))
    }
}

impl vstd::std_specs::convert::FromSpecImpl<i64> for ScalarValue {
    open spec fn obeys_from_spec() -> bool {
        true
    }

    open spec fn from_spec(value: i64) -> Self {
        ScalarValue::Int64(Some(value))
    }
}

impl From<Nullable<i64>> for ScalarValue {
    fn from(value: Nullable<i64>) -> (scalar: Self) {
        ScalarValue::Int64(value)
    }
}

impl vstd::std_specs::convert::FromSpecImpl<Nullable<i64>> for ScalarValue {
    open spec fn obeys_from_spec() -> bool {
        true
    }

    open spec fn from_spec(value: Nullable<i64>) -> Self {
        ScalarValue::Int64(value)
    }
}

impl From<u8> for ScalarValue {
    fn from(value: u8) -> (scalar: Self) {
        ScalarValue::UInt8(Some(value))
    }
}

impl vstd::std_specs::convert::FromSpecImpl<u8> for ScalarValue {
    open spec fn obeys_from_spec() -> bool {
        true
    }

    open spec fn from_spec(value: u8) -> Self {
        ScalarValue::UInt8(Some(value))
    }
}

impl From<Nullable<u8>> for ScalarValue {
    fn from(value: Nullable<u8>) -> (scalar: Self) {
        ScalarValue::UInt8(value)
    }
}

impl vstd::std_specs::convert::FromSpecImpl<Nullable<u8>> for ScalarValue {
    open spec fn obeys_from_spec() -> bool {
        true
    }

    open spec fn from_spec(value: Nullable<u8>) -> Self {
        ScalarValue::UInt8(value)
    }
}

impl From<u16> for ScalarValue {
    fn from(value: u16) -> (scalar: Self) {
        ScalarValue::UInt16(Some(value))
    }
}

impl vstd::std_specs::convert::FromSpecImpl<u16> for ScalarValue {
    open spec fn obeys_from_spec() -> bool {
        true
    }

    open spec fn from_spec(value: u16) -> Self {
        ScalarValue::UInt16(Some(value))
    }
}

impl From<Nullable<u16>> for ScalarValue {
    fn from(value: Nullable<u16>) -> (scalar: Self) {
        ScalarValue::UInt16(value)
    }
}

impl vstd::std_specs::convert::FromSpecImpl<Nullable<u16>> for ScalarValue {
    open spec fn obeys_from_spec() -> bool {
        true
    }

    open spec fn from_spec(value: Nullable<u16>) -> Self {
        ScalarValue::UInt16(value)
    }
}

impl From<u32> for ScalarValue {
    fn from(value: u32) -> (scalar: Self) {
        ScalarValue::UInt32(Some(value))
    }
}

impl vstd::std_specs::convert::FromSpecImpl<u32> for ScalarValue {
    open spec fn obeys_from_spec() -> bool {
        true
    }

    open spec fn from_spec(value: u32) -> Self {
        ScalarValue::UInt32(Some(value))
    }
}

impl From<Nullable<u32>> for ScalarValue {
    fn from(value: Nullable<u32>) -> (scalar: Self) {
        ScalarValue::UInt32(value)
    }
}

impl vstd::std_specs::convert::FromSpecImpl<Nullable<u32>> for ScalarValue {
    open spec fn obeys_from_spec() -> bool {
        true
    }

    open spec fn from_spec(value: Nullable<u32>) -> Self {
        ScalarValue::UInt32(value)
    }
}

impl From<u64> for ScalarValue {
    fn from(value: u64) -> (scalar: Self) {
        ScalarValue::UInt64(Some(value))
    }
}

impl vstd::std_specs::convert::FromSpecImpl<u64> for ScalarValue {
    open spec fn obeys_from_spec() -> bool {
        true
    }

    open spec fn from_spec(value: u64) -> Self {
        ScalarValue::UInt64(Some(value))
    }
}

impl From<Nullable<u64>> for ScalarValue {
    fn from(value: Nullable<u64>) -> (scalar: Self) {
        ScalarValue::UInt64(value)
    }
}

impl vstd::std_specs::convert::FromSpecImpl<Nullable<u64>> for ScalarValue {
    open spec fn obeys_from_spec() -> bool {
        true
    }

    open spec fn from_spec(value: Nullable<u64>) -> Self {
        ScalarValue::UInt64(value)
    }
}

impl From<F32> for ScalarValue {
    fn from(value: F32) -> (scalar: Self) {
        ScalarValue::Float32(Some(value))
    }
}

impl vstd::std_specs::convert::FromSpecImpl<F32> for ScalarValue {
    open spec fn obeys_from_spec() -> bool {
        true
    }

    open spec fn from_spec(value: F32) -> Self {
        ScalarValue::Float32(Some(value))
    }
}

impl From<Nullable<F32>> for ScalarValue {
    fn from(value: Nullable<F32>) -> (scalar: Self) {
        ScalarValue::Float32(value)
    }
}

impl vstd::std_specs::convert::FromSpecImpl<Nullable<F32>> for ScalarValue {
    open spec fn obeys_from_spec() -> bool {
        true
    }

    open spec fn from_spec(value: Nullable<F32>) -> Self {
        ScalarValue::Float32(value)
    }
}

impl From<F64> for ScalarValue {
    fn from(value: F64) -> (scalar: Self) {
        ScalarValue::Float64(Some(value))
    }
}

impl vstd::std_specs::convert::FromSpecImpl<F64> for ScalarValue {
    open spec fn obeys_from_spec() -> bool {
        true
    }

    open spec fn from_spec(value: F64) -> Self {
        ScalarValue::Float64(Some(value))
    }
}

impl From<Nullable<F64>> for ScalarValue {
    fn from(value: Nullable<F64>) -> (scalar: Self) {
        ScalarValue::Float64(value)
    }
}

impl vstd::std_specs::convert::FromSpecImpl<Nullable<F64>> for ScalarValue {
    open spec fn obeys_from_spec() -> bool {
        true
    }

    open spec fn from_spec(value: Nullable<F64>) -> Self {
        ScalarValue::Float64(value)
    }
}

impl From<String> for ScalarValue {
    fn from(value: String) -> (scalar: Self) {
        ScalarValue::String(Some(value))
    }
}

impl vstd::std_specs::convert::FromSpecImpl<String> for ScalarValue {
    open spec fn obeys_from_spec() -> bool {
        true
    }

    open spec fn from_spec(value: String) -> Self {
        ScalarValue::String(Some(value))
    }
}

impl From<Nullable<String>> for ScalarValue {
    fn from(value: Nullable<String>) -> (scalar: Self) {
        ScalarValue::String(value)
    }
}

impl vstd::std_specs::convert::FromSpecImpl<Nullable<String>> for ScalarValue {
    open spec fn obeys_from_spec() -> bool {
        true
    }

    open spec fn from_spec(value: Nullable<String>) -> Self {
        ScalarValue::String(value)
    }
}

impl From<VertexValue> for ScalarValue {
    fn from(value: VertexValue) -> (scalar: Self) {
        ScalarValue::Vertex(Some(value))
    }
}

impl vstd::std_specs::convert::FromSpecImpl<VertexValue> for ScalarValue {
    open spec fn obeys_from_spec() -> bool {
        true
    }

    open spec fn from_spec(value: VertexValue) -> Self {
        ScalarValue::Vertex(Some(value))
    }
}

impl From<Nullable<VertexValue>> for ScalarValue {
    fn from(value: Nullable<VertexValue>) -> (scalar: Self) {
        ScalarValue::Vertex(value)
    }
}

impl vstd::std_specs::convert::FromSpecImpl<Nullable<VertexValue>> for ScalarValue {
    open spec fn obeys_from_spec() -> bool {
        true
    }

    open spec fn from_spec(value: Nullable<VertexValue>) -> Self {
        ScalarValue::Vertex(value)
    }
}

impl From<EdgeValue> for ScalarValue {
    fn from(value: EdgeValue) -> (scalar: Self) {
        ScalarValue::Edge(Some(value))
    }
}

impl vstd::std_specs::convert::FromSpecImpl<EdgeValue> for ScalarValue {
    open spec fn obeys_from_spec() -> bool {
        true
    }

    open spec fn from_spec(value: EdgeValue) -> Self {
        ScalarValue::Edge(Some(value))
    }
}

impl From<Nullable<EdgeValue>> for ScalarValue {
    fn from(value: Nullable<EdgeValue>) -> (scalar: Self) {
        ScalarValue::Edge(value)
    }
}

impl vstd::std_specs::convert::FromSpecImpl<Nullable<EdgeValue>> for ScalarValue {
    open spec fn obeys_from_spec() -> bool {
        true
    }

    open spec fn from_spec(value: Nullable<EdgeValue>) -> Self {
        ScalarValue::Edge(value)
    }
}

} // verus!
