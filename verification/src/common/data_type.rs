//! Types of values, and the schemas of tables.

use std::sync::Arc;

use arrow::datatypes::{DataType, Field, Fields, Schema};
use vstd::prelude::*;

use super::array::ArrayType;
use super::text::text_eq;

verus! {

/// The name of the field that holds the identifier of a vertex.
pub const VID_FIELD_NAME: &'static str = "vid";

/// The name of the field that holds a label.
pub const LABEL_FIELD_NAME: &'static str = "label";

/// The name of the field that holds the identifier of an edge.
pub const EID_FIELD_NAME: &'static str = "eid";

/// The name of the field that holds the source of an edge.
pub const SRC_FIELD_NAME: &'static str = "src";

/// The name of the field that holds the destination of an edge.
pub const DST_FIELD_NAME: &'static str = "dst";

/// The type of a value.
#[derive(Debug, PartialEq, Eq)]
pub enum LogicalType {
    /// `int8`.
    Int8,
    /// `int16`.
    Int16,
    /// `int32`.
    Int32,
    /// `int64`.
    Int64,
    /// `uint8`.
    UInt8,
    /// `uint16`.
    UInt16,
    /// `uint32`.
    UInt32,
    /// `uint64`.
    UInt64,
    /// `float32`.
    Float32,
    /// `float64`.
    Float64,
    /// `boolean`.
    Boolean,
    /// `string`.
    String,
    /// A vertex with the given properties.
    Vertex(Vec<DataField>),
    /// An edge with the given properties.
    Edge(Vec<DataField>),
    /// A path.
    Path,
    /// A record with the given fields.
    Record(Vec<DataField>),
    /// The type of the untyped null.
    Null,
}

/// A named field of a schema or of a composite type.
#[derive(Debug, PartialEq, Eq)]
pub struct DataField {
    name: String,
    ty: LogicalType,
    nullable: bool,
}

/// The fields of a table.
#[derive(Debug, PartialEq, Eq)]
pub struct DataSchema(Vec<DataField>);

/// A schema that several owners share.
pub type DataSchemaRef = Arc<DataSchema>;

/// What a type is.
pub enum TypeView {
    /// `int8`.
    Int8,
    /// `int16`.
    Int16,
    /// `int32`.
    Int32,
    /// `int64`.
    Int64,
    /// `uint8`.
    UInt8,
    /// `uint16`.
    UInt16,
    /// `uint32`.
    UInt32,
    /// `uint64`.
    UInt64,
    /// `float32`.
    Float32,
    /// `float64`.
    Float64,
    /// `boolean`.
    Boolean,
    /// `string`.
    String,
    /// A vertex.
    Vertex(Seq<FieldView>),
    /// An edge.
    Edge(Seq<FieldView>),
    /// A path.
    Path,
    /// A record.
    Record(Seq<FieldView>),
    /// The type of the untyped null.
    Null,
}

/// What a field is.
pub struct FieldView {
    /// The name.
    pub name: Seq<char>,
    /// The type.
    pub ty: TypeView,
    /// Whether the value may be missing.
    pub nullable: bool,
}

impl LogicalType {
    /// What the type is.
    pub open spec fn model(self) -> TypeView
        decreases self,
    {
        match self {
            LogicalType::Int8 => TypeView::Int8,
            LogicalType::Int16 => TypeView::Int16,
            LogicalType::Int32 => TypeView::Int32,
            LogicalType::Int64 => TypeView::Int64,
            LogicalType::UInt8 => TypeView::UInt8,
            LogicalType::UInt16 => TypeView::UInt16,
            LogicalType::UInt32 => TypeView::UInt32,
            LogicalType::UInt64 => TypeView::UInt64,
            LogicalType::Float32 => TypeView::Float32,
            LogicalType::Float64 => TypeView::Float64,
            LogicalType::Boolean => TypeView::Boolean,
            LogicalType::String => TypeView::String,
            LogicalType::Vertex(fields) => TypeView::Vertex(
                Seq::new(
                    fields@.len(),
                    |i: int|
                        if 0 <= i < fields@.len() {
                            fields@[i].model()
                        } else {
                            arbitrary()
                        },
                ),
            ),
            LogicalType::Edge(fields) => TypeView::Edge(
                Seq::new(
                    fields@.len(),
                    |i: int|
                        if 0 <= i < fields@.len() {
                            fields@[i].model()
                        } else {
                            arbitrary()
                        },
                ),
            ),
            LogicalType::Record(fields) => TypeView::Record(
                Seq::new(
                    fields@.len(),
                    |i: int|
                        if 0 <= i < fields@.len() {
                            fields@[i].model()
                        } else {
                            arbitrary()
                        },
                ),
            ),
            LogicalType::Path => TypeView::Path,
            LogicalType::Null => TypeView::Null,
        }
    }
}

impl DataField {
    /// What the field is.
    pub closed spec fn model(self) -> FieldView
        decreases self,
    {
        FieldView { name: self.name@, ty: self.ty.model(), nullable: self.nullable }
    }
}

/// What fields are.
pub open spec fn fields_model(fields: Seq<DataField>) -> Seq<FieldView> {
    fields.map_values(|field: DataField| field.model())
}

impl View for DataSchema {
    type V = Seq<FieldView>;

    closed spec fn view(&self) -> Seq<FieldView> {
        fields_model(self.0@)
    }
}

/// A copy of fields.
pub fn duplicate_fields(fields: &Vec<DataField>) -> (copy: Vec<DataField>)
    ensures
        fields_model(copy@) == fields_model(fields@),
    decreases fields@,
{
    let mut copy: Vec<DataField> = Vec::new();
    for i in 0..fields.len()
        invariant
            copy@.len() == i,
            forall|j: int| 0 <= j < i ==> (#[trigger] copy@[j]).model() == fields@[j].model(),
    {
        copy.push(fields[i].duplicate());
    }
    assert(fields_model(copy@) =~= fields_model(fields@));
    copy
}

proof fn lemma_composite(fields: Vec<DataField>)
    ensures
        LogicalType::Vertex(fields).model() == TypeView::Vertex(fields_model(fields@)),
        LogicalType::Edge(fields).model() == TypeView::Edge(fields_model(fields@)),
        LogicalType::Record(fields).model() == TypeView::Record(fields_model(fields@)),
{
    assert(LogicalType::Vertex(fields).model()->Vertex_0 =~= fields_model(fields@));
    assert(LogicalType::Edge(fields).model()->Edge_0 =~= fields_model(fields@));
    assert(LogicalType::Record(fields).model()->Record_0 =~= fields_model(fields@));
}

impl LogicalType {
    /// A copy.
    pub fn duplicate(&self) -> (copy: Self)
        ensures
            copy.model() == self.model(),
        decreases *self,
    {
        match self {
            LogicalType::Int8 => LogicalType::Int8,
            LogicalType::Int16 => LogicalType::Int16,
            LogicalType::Int32 => LogicalType::Int32,
            LogicalType::Int64 => LogicalType::Int64,
            LogicalType::UInt8 => LogicalType::UInt8,
            LogicalType::UInt16 => LogicalType::UInt16,
            LogicalType::UInt32 => LogicalType::UInt32,
            LogicalType::UInt64 => LogicalType::UInt64,
            LogicalType::Float32 => LogicalType::Float32,
            LogicalType::Float64 => LogicalType::Float64,
            LogicalType::Boolean => LogicalType::Boolean,
            LogicalType::String => LogicalType::String,
            LogicalType::Vertex(fields) => {
                let copy = duplicate_fields(fields);
                proof {
                    lemma_composite(*fields);
                    lemma_composite(copy);
                }
                LogicalType::Vertex(copy)
            },
            LogicalType::Edge(fields) => {
                let copy = duplicate_fields(fields);
                proof {
                    lemma_composite(*fields);
                    lemma_composite(copy);
                }
                LogicalType::Edge(copy)
            },
            LogicalType::Record(fields) => {
                let copy = duplicate_fields(fields);
                proof {
                    lemma_composite(*fields);
                    lemma_composite(copy);
                }
                LogicalType::Record(copy)
            },
            LogicalType::Path => LogicalType::Path,
            LogicalType::Null => LogicalType::Null,
        }
    }
}

impl DataField {
    /// A field.
    pub fn new(name: String, ty: LogicalType, nullable: bool) -> (field: Self)
        ensures
            field.model() == (FieldView { name: name@, ty: ty.model(), nullable }),
    {
        DataField { name, ty, nullable }
    }

    /// The name.
    pub fn name(&self) -> (name: &str)
        ensures
            name@ == self.model().name,
    {
        self.name.as_str()
    }

    /// The type.
    pub fn ty(&self) -> (ty: &LogicalType)
        ensures
            ty.model() == self.model().ty,
    {
        &self.ty
    }

    /// Whether the value may be missing.
    pub fn is_nullable(&self) -> (nullable: bool)
        ensures
            nullable == self.model().nullable,
    {
        self.nullable
    }

    /// A copy.
    pub fn duplicate(&self) -> (copy: Self)
        ensures
            copy.model() == self.model(),
        decreases *self,
    {
        DataField {
            name: self.name.clone(),
            ty: self.ty.duplicate(),
            nullable: self.nullable,
        }
    }
}

/// The position of the first field with a name from the `i`th on, if there is one.
pub open spec fn first_named(fields: Seq<FieldView>, name: Seq<char>, i: int) -> Option<int>
    decreases fields.len() - i,
{
    if i < 0 || i >= fields.len() {
        None
    } else if fields[i].name == name {
        Some(i)
    } else {
        first_named(fields, name, i + 1)
    }
}

impl Default for DataSchema {
    fn default() -> (schema: Self)
        ensures
            schema@ == Seq::<FieldView>::empty(),
    {
        let schema = DataSchema(Vec::new());
        assert(schema@ =~= Seq::<FieldView>::empty());
        schema
    }
}

impl DataSchema {
    /// A schema of the given fields.
    pub fn new(fields: Vec<DataField>) -> (schema: Self)
        ensures
            schema@ == fields_model(fields@),
    {
        DataSchema(fields)
    }

    /// Adds a field behind the others.
    pub fn push(&mut self, field: DataField)
        ensures
            final(self)@ == old(self)@.push(field.model()),
    {
        self.0.push(field);
        assert(self@ =~= old(self)@.push(field.model()));
    }

    /// Adds the fields of another schema behind those of this one.
    pub fn append(&mut self, schema: &DataSchema)
        ensures
            final(self)@ == old(self)@ + schema@,
    {
        let mut more = duplicate_fields(&schema.0);
        let ghost added = more@;
        self.0.append(&mut more);
        assert(fields_model(added) == schema@);
        assert(self@ =~= old(self)@ + fields_model(added));
    }

    /// The first field with a name.
    pub fn get_field_by_name(&self, name: &str) -> (field: Option<&DataField>)
        ensures
            match first_named(self@, name@, 0) {
                Some(i) => field matches Some(f) && f.model() == self@[i],
                None => field is None,
            },
    {
        match self.get_field_index_by_name(name) {
            Some(i) => {
                proof {
                    lemma_first_named(self@, name@, 0);
                }
                Some(&self.0[i])
            },
            None => None,
        }
    }

    /// The position of the first field with a name.
    pub fn get_field_index_by_name(&self, name: &str) -> (index: Option<usize>)
        ensures
            match first_named(self@, name@, 0) {
                Some(i) => index == Some(i as usize) && i <= usize::MAX,
                None => index is None,
            },
    {
        let mut i: usize = 0;
        while i < self.0.len()
            invariant
                i <= self.0@.len(),
                self@.len() == self.0@.len(),
                first_named(self@, name@, 0) == first_named(self@, name@, i as int),
            decreases self.0@.len() - i,
        {
            if text_eq(self.0[i].name.as_str(), name) {
                return Some(i);
            }
            i = i + 1;
        }
        None
    }

    /// The fields.
    pub fn fields(&self) -> (fields: &[DataField])
        ensures
            fields_model(fields@) == self@,
    {
        self.0.as_slice()
    }

    /// A copy.
    pub fn duplicate(&self) -> (copy: Self)
        ensures
            copy@ == self@,
    {
        DataSchema(duplicate_fields(&self.0))
    }
}

/// A name that is found is found at a position that carries it, behind all others that do not.
pub proof fn lemma_first_named(fields: Seq<FieldView>, name: Seq<char>, i: int)
    requires
        0 <= i <= fields.len(),
    ensures
        match first_named(fields, name, i) {
            Some(at) => {
                &&& i <= at < fields.len()
                &&& fields[at].name == name
                &&& forall|j: int| i <= j < at ==> (#[trigger] fields[j]).name != name
            },
            None => forall|j: int| i <= j < fields.len() ==> (#[trigger] fields[j]).name != name,
        },
    decreases fields.len() - i,
{
    if i < fields.len() && fields[i].name != name {
        lemma_first_named(fields, name, i + 1);
    }
}

/// Appending a schema leaves the fields that were there before where they were, so a name that
/// was found is found at the same position.
pub proof fn law_append_keeps_names(fields: Seq<FieldView>, more: Seq<FieldView>, name: Seq<char>)
    ensures
        first_named(fields, name, 0) is Some ==> first_named(fields + more, name, 0)
            == first_named(fields, name, 0),
{
    lemma_append_keeps_names(fields, more, name, 0);
}

proof fn lemma_append_keeps_names(
    fields: Seq<FieldView>,
    more: Seq<FieldView>,
    name: Seq<char>,
    i: int,
)
    requires
        0 <= i,
    ensures
        first_named(fields, name, i) is Some ==> first_named(fields + more, name, i)
            == first_named(fields, name, i),
    decreases fields.len() - i,
{
    if i < fields.len() {
        assert((fields + more)[i] == fields[i]);
        lemma_append_keeps_names(fields, more, name, i + 1);
    }
}

/// The text of fields, with commas between them.
pub open spec fn fields_text(fields: Seq<FieldView>) -> Seq<char>
    decreases fields,
{
    if fields.len() == 0 {
        Seq::empty()
    } else if fields.len() == 1 {
        field_text(fields[0])
    } else {
        fields_text(fields.drop_last()) + ","@ + field_text(fields.last())
    }
}

/// The text of a field: the name, two colons and the type.
pub open spec fn field_text(field: FieldView) -> Seq<char>
    decreases field,
{
    field.name + "::"@ + type_text(field.ty)
}

/// The text of a type.
pub open spec fn type_text(ty: TypeView) -> Seq<char>
    decreases ty,
{
    match ty {
        TypeView::Int8 => "int8"@,
        TypeView::Int16 => "int16"@,
        TypeView::Int32 => "int32"@,
        TypeView::Int64 => "int64"@,
        TypeView::UInt8 => "uint8"@,
        TypeView::UInt16 => "uint16"@,
        TypeView::UInt32 => "uint32"@,
        TypeView::UInt64 => "uint64"@,
        TypeView::Float32 => "float32"@,
        TypeView::Float64 => "float64"@,
        TypeView::Boolean => "boolean"@,
        TypeView::String => "string"@,
        TypeView::Vertex(fields) => "vertex { "@ + fields_text(fields) + " }"@,
        TypeView::Edge(fields) => "edge { "@ + fields_text(fields) + " }"@,
        TypeView::Record(fields) => "record { "@ + fields_text(fields) + " }"@,
        TypeView::Path => Seq::empty(),
        TypeView::Null => "null"@,
    }
}

/// Whether a type has a text and an `arrow` type: whether there is no path in it.
pub open spec fn without_path(ty: TypeView) -> bool
    decreases ty,
{
    match ty {
        TypeView::Vertex(fields) => forall|i: int|
            0 <= i < fields.len() ==> without_path((#[trigger] fields[i]).ty),
        TypeView::Edge(fields) => forall|i: int|
            0 <= i < fields.len() ==> without_path((#[trigger] fields[i]).ty),
        TypeView::Record(fields) => forall|i: int|
            0 <= i < fields.len() ==> without_path((#[trigger] fields[i]).ty),
        TypeView::Path => false,
        _ => true,
    }
}

/// Whether no field has a path in its type.
pub open spec fn fields_without_path(fields: Seq<FieldView>) -> bool {
    forall|i: int| 0 <= i < fields.len() ==> without_path((#[trigger] fields[i]).ty)
}

/// The text of fields, with commas between them.
fn fields_to_text(fields: &Vec<DataField>) -> (text: String)
    requires
        fields_without_path(fields_model(fields@)),
    ensures
        text@ == fields_text(fields_model(fields@)),
    decreases fields@,
{
    let mut text = "".to_string();
    let ghost all = fields_model(fields@);
    proof {
        reveal_strlit("");
        assert(text@ =~= fields_text(all.take(0)));
    }
    for i in 0..fields.len()
        invariant
            all == fields_model(fields@),
            fields_without_path(all),
            text@ == fields_text(all.take(i as int)),
    {
        if i > 0 {
            text.append(",");
        }
        assert(without_path(all[i as int].ty));
        let field = fields[i].to_text();
        text.append(field.as_str());
        proof {
            assert(all.take(i + 1).drop_last() =~= all.take(i as int));
            assert(all.take(i + 1).last() == all[i as int]);
            if i == 0 {
                assert(text@ =~= field_text(all[0]));
            }
        }
    }
    assert(all.take(all.len() as int) =~= all);
    text
}

/// A composite type's text: its name, and its fields in braces.
fn composite_text(name: &str, fields: String) -> (text: String)
    ensures
        text@ == name@ + fields@ + " }"@,
{
    let mut text = name.to_string();
    text.append(fields.as_str());
    text.append(" }");
    text
}

impl LogicalType {
    /// The text of the type. A path has none.
    pub fn to_text(&self) -> (text: String)
        requires
            without_path(self.model()),
        ensures
            text@ == type_text(self.model()),
        decreases *self,
    {
        match self {
            LogicalType::Int8 => "int8".to_string(),
            LogicalType::Int16 => "int16".to_string(),
            LogicalType::Int32 => "int32".to_string(),
            LogicalType::Int64 => "int64".to_string(),
            LogicalType::UInt8 => "uint8".to_string(),
            LogicalType::UInt16 => "uint16".to_string(),
            LogicalType::UInt32 => "uint32".to_string(),
            LogicalType::UInt64 => "uint64".to_string(),
            LogicalType::Float32 => "float32".to_string(),
            LogicalType::Float64 => "float64".to_string(),
            LogicalType::Boolean => "boolean".to_string(),
            LogicalType::String => "string".to_string(),
            LogicalType::Vertex(fields) => {
                proof {
                    lemma_composite(*fields);
                }
                composite_text("vertex { ", fields_to_text(fields))
            },
            LogicalType::Edge(fields) => {
                proof {
                    lemma_composite(*fields);
                }
                composite_text("edge { ", fields_to_text(fields))
            },
            LogicalType::Record(fields) => {
                proof {
                    lemma_composite(*fields);
                }
                composite_text("record { ", fields_to_text(fields))
            },
            LogicalType::Path => "".to_string(),
            LogicalType::Null => "null".to_string(),
        }
    }
}

impl DataField {
    /// The text of the field: the name, two colons and the type.
    pub fn to_text(&self) -> (text: String)
        requires
            without_path(self.model().ty),
        ensures
            text@ == field_text(self.model()),
        decreases *self,
    {
        let mut text = self.name.clone();
        text.append("::");
        let ty = self.ty.to_text();
        text.append(ty.as_str());
        text
    }
}

/// Declares `arrow::datatypes::DataType` as an opaque type.
#[verifier::external_type_specification]
#[verifier::external_body]
pub struct ExDataType(DataType);

/// Declares `arrow::datatypes::Field` as an opaque type.
#[verifier::external_type_specification]
#[verifier::external_body]
pub struct ExField(Field);

/// Declares `arrow::datatypes::Schema` as an opaque type.
#[verifier::external_type_specification]
#[verifier::external_body]
pub struct ExSchema(Schema);

/// What an `arrow` type is, of those that are used here.
pub enum ArrowType {
    /// A type whose values have no parts.
    Scalar(ArrayType),
    /// A type whose values are made of fields.
    Struct(Seq<ArrowField>),
}

/// What an `arrow` field is.
pub struct ArrowField {
    /// The name.
    pub name: Seq<char>,
    /// The type.
    pub ty: ArrowType,
    /// Whether the value may be missing.
    pub nullable: bool,
}

/// What an `arrow` type holds.
pub uninterp spec fn data_type_contents(data_type: DataType) -> ArrowType;

/// What an `arrow` field holds.
pub uninterp spec fn field_contents(field: Field) -> ArrowField;

/// The fields that an `arrow` schema holds.
pub uninterp spec fn schema_contents(schema: Schema) -> Seq<ArrowField>;

/// The fields that a sequence of `arrow` fields holds.
pub open spec fn arrow_fields(fields: Seq<Field>) -> Seq<ArrowField> {
    fields.map_values(|field: Field| field_contents(field))
}

/// The variants of `arrow::datatypes::DataType` without parts, one for each array type.
#[verifier::external_body]
fn scalar_data_type(array_type: ArrayType) -> (data_type: DataType)
    requires
        array_type != ArrayType::Other,
    ensures
        data_type_contents(data_type) == ArrowType::Scalar(array_type),
{
    match array_type {
        ArrayType::Int8 => DataType::Int8,
        ArrayType::Int16 => DataType::Int16,
        ArrayType::Int32 => DataType::Int32,
        ArrayType::Int64 => DataType::Int64,
        ArrayType::UInt8 => DataType::UInt8,
        ArrayType::UInt16 => DataType::UInt16,
        ArrayType::UInt32 => DataType::UInt32,
        ArrayType::UInt64 => DataType::UInt64,
        ArrayType::Float32 => DataType::Float32,
        ArrayType::Float64 => DataType::Float64,
        ArrayType::Boolean => DataType::Boolean,
        ArrayType::String => DataType::Utf8,
        _ => DataType::Null,
    }
}

/// `DataType::Struct`: the type of values made of the given fields.
#[verifier::external_body]
fn struct_data_type(fields: Vec<Field>) -> (data_type: DataType)
    ensures
        data_type_contents(data_type) == ArrowType::Struct(arrow_fields(fields@)),
{
    DataType::Struct(Fields::from(fields))
}

/// `Field::new`: a field of the given name, type and nullability.
#[verifier::external_body]
fn new_field(name: String, data_type: DataType, nullable: bool) -> (field: Field)
    ensures
        field_contents(field) == (ArrowField {
            name: name@,
            ty: data_type_contents(data_type),
            nullable,
        }),
{
    Field::new(name, data_type, nullable)
}

/// `Schema::new`: a schema of the given fields.
#[verifier::external_body]
fn new_schema(fields: Vec<Field>) -> (schema: Schema)
    ensures
        schema_contents(schema) == arrow_fields(fields@),
{
    Schema::new(fields)
}

/// A field that every vertex or edge has.
pub open spec fn predefined(name: Seq<char>, array_type: ArrayType) -> ArrowField {
    ArrowField { name, ty: ArrowType::Scalar(array_type), nullable: false }
}

/// The `arrow` type of a type. A vertex has its identifier and its label before its properties;
/// an edge has its identifier, its label, its source and its destination.
pub open spec fn arrow_type(ty: TypeView) -> ArrowType
    decreases ty,
{
    match ty {
        TypeView::Int8 => ArrowType::Scalar(ArrayType::Int8),
        TypeView::Int16 => ArrowType::Scalar(ArrayType::Int16),
        TypeView::Int32 => ArrowType::Scalar(ArrayType::Int32),
        TypeView::Int64 => ArrowType::Scalar(ArrayType::Int64),
        TypeView::UInt8 => ArrowType::Scalar(ArrayType::UInt8),
        TypeView::UInt16 => ArrowType::Scalar(ArrayType::UInt16),
        TypeView::UInt32 => ArrowType::Scalar(ArrayType::UInt32),
        TypeView::UInt64 => ArrowType::Scalar(ArrayType::UInt64),
        TypeView::Float32 => ArrowType::Scalar(ArrayType::Float32),
        TypeView::Float64 => ArrowType::Scalar(ArrayType::Float64),
        TypeView::Boolean => ArrowType::Scalar(ArrayType::Boolean),
        TypeView::String => ArrowType::Scalar(ArrayType::String),
        TypeView::Vertex(fields) => ArrowType::Struct(
            seq![
                predefined(VID_FIELD_NAME@, ArrayType::UInt64),
                predefined(LABEL_FIELD_NAME@, ArrayType::UInt32),
            ] + Seq::new(
                fields.len(),
                |i: int|
                    if 0 <= i < fields.len() {
                        arrow_field(fields[i])
                    } else {
                        arbitrary()
                    },
            ),
        ),
        TypeView::Edge(fields) => ArrowType::Struct(
            seq![
                predefined(EID_FIELD_NAME@, ArrayType::UInt64),
                predefined(LABEL_FIELD_NAME@, ArrayType::UInt32),
                predefined(SRC_FIELD_NAME@, ArrayType::UInt64),
                predefined(DST_FIELD_NAME@, ArrayType::UInt64),
            ] + Seq::new(
                fields.len(),
                |i: int|
                    if 0 <= i < fields.len() {
                        arrow_field(fields[i])
                    } else {
                        arbitrary()
                    },
            ),
        ),
        TypeView::Path => ArrowType::Scalar(ArrayType::Other),
        TypeView::Record(fields) => ArrowType::Struct(Seq::new(
                fields.len(),
                |i: int|
                    if 0 <= i < fields.len() {
                        arrow_field(fields[i])
                    } else {
                        arbitrary()
                    },
            )),
        TypeView::Null => ArrowType::Scalar(ArrayType::Null),
    }
}

/// The `arrow` field of a field.
pub open spec fn arrow_field(field: FieldView) -> ArrowField
    decreases field,
{
    ArrowField { name: field.name, ty: arrow_type(field.ty), nullable: field.nullable }
}

/// The `arrow` fields of fields.
pub open spec fn arrow_fields_of(fields: Seq<FieldView>) -> Seq<ArrowField> {
    fields.map_values(|field: FieldView| arrow_field(field))
}

proof fn lemma_arrow_composite(fields: Seq<FieldView>)
    ensures
        arrow_type(TypeView::Vertex(fields)) == ArrowType::Struct(
            seq![
                predefined(VID_FIELD_NAME@, ArrayType::UInt64),
                predefined(LABEL_FIELD_NAME@, ArrayType::UInt32),
            ] + arrow_fields_of(fields),
        ),
        arrow_type(TypeView::Edge(fields)) == ArrowType::Struct(
            seq![
                predefined(EID_FIELD_NAME@, ArrayType::UInt64),
                predefined(LABEL_FIELD_NAME@, ArrayType::UInt32),
                predefined(SRC_FIELD_NAME@, ArrayType::UInt64),
                predefined(DST_FIELD_NAME@, ArrayType::UInt64),
            ] + arrow_fields_of(fields),
        ),
        arrow_type(TypeView::Record(fields)) == ArrowType::Struct(arrow_fields_of(fields)),
{
    assert(arrow_type(TypeView::Vertex(fields))->Struct_0 =~= seq![
        predefined(VID_FIELD_NAME@, ArrayType::UInt64),
        predefined(LABEL_FIELD_NAME@, ArrayType::UInt32),
    ] + arrow_fields_of(fields));
    assert(arrow_type(TypeView::Edge(fields))->Struct_0 =~= seq![
        predefined(EID_FIELD_NAME@, ArrayType::UInt64),
        predefined(LABEL_FIELD_NAME@, ArrayType::UInt32),
        predefined(SRC_FIELD_NAME@, ArrayType::UInt64),
        predefined(DST_FIELD_NAME@, ArrayType::UInt64),
    ] + arrow_fields_of(fields));
    assert(arrow_type(TypeView::Record(fields))->Struct_0 =~= arrow_fields_of(fields));
}

/// A field that every vertex or edge has.
fn predefined_field(name: &str, array_type: ArrayType) -> (field: Field)
    requires
        array_type != ArrayType::Other,
    ensures
        field_contents(field) == predefined(name@, array_type),
{
    new_field(name.to_string(), scalar_data_type(array_type), false)
}

/// Adds the `arrow` fields of fields behind those that are there.
fn push_arrow_fields(arrow: &mut Vec<Field>, fields: &Vec<DataField>)
    requires
        fields_without_path(fields_model(fields@)),
    ensures
        arrow_fields(final(arrow)@) == arrow_fields(old(arrow)@) + arrow_fields_of(
            fields_model(fields@),
        ),
    decreases fields@,
{
    let ghost all = fields_model(fields@);
    let ghost before = arrow_fields(arrow@);
    assert(before + arrow_fields_of(all.take(0)) =~= before);
    for i in 0..fields.len()
        invariant
            all == fields_model(fields@),
            fields_without_path(all),
            arrow_fields(arrow@) == before + arrow_fields_of(all.take(i as int)),
    {
        assert(without_path(all[i as int].ty));
        let ghost so_far = arrow@;
        let field = fields[i].to_arrow_field();
        arrow.push(field);
        assert(arrow_fields(arrow@) =~= arrow_fields(so_far).push(field_contents(field)));
        assert(arrow_fields_of(all.take(i + 1)) =~= arrow_fields_of(all.take(i as int)).push(
            arrow_field(all[i as int]),
        ));
        assert(arrow_fields(arrow@) =~= before + arrow_fields_of(all.take(i + 1)));
    }
    assert(all.take(all.len() as int) =~= all);
}

impl LogicalType {
    /// The `arrow` type of the type. A path has none.
    pub fn to_arrow_data_type(&self) -> (data_type: DataType)
        requires
            without_path(self.model()),
        ensures
            data_type_contents(data_type) == arrow_type(self.model()),
        decreases *self,
    {
        match self {
            LogicalType::Int8 => scalar_data_type(ArrayType::Int8),
            LogicalType::Int16 => scalar_data_type(ArrayType::Int16),
            LogicalType::Int32 => scalar_data_type(ArrayType::Int32),
            LogicalType::Int64 => scalar_data_type(ArrayType::Int64),
            LogicalType::UInt8 => scalar_data_type(ArrayType::UInt8),
            LogicalType::UInt16 => scalar_data_type(ArrayType::UInt16),
            LogicalType::UInt32 => scalar_data_type(ArrayType::UInt32),
            LogicalType::UInt64 => scalar_data_type(ArrayType::UInt64),
            LogicalType::Float32 => scalar_data_type(ArrayType::Float32),
            LogicalType::Float64 => scalar_data_type(ArrayType::Float64),
            LogicalType::Boolean => scalar_data_type(ArrayType::Boolean),
            LogicalType::String => scalar_data_type(ArrayType::String),
            LogicalType::Vertex(fields) => {
                proof {
                    lemma_composite(*fields);
                    lemma_arrow_composite(fields_model(fields@));
                }
                let mut arrow: Vec<Field> = Vec::new();
                arrow.push(predefined_field(VID_FIELD_NAME, ArrayType::UInt64));
                arrow.push(predefined_field(LABEL_FIELD_NAME, ArrayType::UInt32));
                assert(arrow_fields(arrow@) =~= seq![
                    predefined(VID_FIELD_NAME@, ArrayType::UInt64),
                    predefined(LABEL_FIELD_NAME@, ArrayType::UInt32),
                ]);
                push_arrow_fields(&mut arrow, fields);
                assert(arrow_fields(arrow@) =~= arrow_type(self.model())->Struct_0);
                struct_data_type(arrow)
            },
            LogicalType::Edge(fields) => {
                proof {
                    lemma_composite(*fields);
                    lemma_arrow_composite(fields_model(fields@));
                }
                let mut arrow: Vec<Field> = Vec::new();
                arrow.push(predefined_field(EID_FIELD_NAME, ArrayType::UInt64));
                arrow.push(predefined_field(LABEL_FIELD_NAME, ArrayType::UInt32));
                arrow.push(predefined_field(SRC_FIELD_NAME, ArrayType::UInt64));
                arrow.push(predefined_field(DST_FIELD_NAME, ArrayType::UInt64));
                assert(arrow_fields(arrow@) =~= seq![
                    predefined(EID_FIELD_NAME@, ArrayType::UInt64),
                    predefined(LABEL_FIELD_NAME@, ArrayType::UInt32),
                    predefined(SRC_FIELD_NAME@, ArrayType::UInt64),
                    predefined(DST_FIELD_NAME@, ArrayType::UInt64),
                ]);
                push_arrow_fields(&mut arrow, fields);
                assert(arrow_fields(arrow@) =~= arrow_type(self.model())->Struct_0);
                struct_data_type(arrow)
            },
            LogicalType::Path => scalar_data_type(ArrayType::Null),
            LogicalType::Record(fields) => {
                proof {
                    lemma_composite(*fields);
                    lemma_arrow_composite(fields_model(fields@));
                }
                let mut arrow: Vec<Field> = Vec::new();
                assert(arrow_fields(arrow@) =~= Seq::empty());
                push_arrow_fields(&mut arrow, fields);
                assert(arrow_fields(arrow@) =~= arrow_type(self.model())->Struct_0);
                struct_data_type(arrow)
            },
            LogicalType::Null => scalar_data_type(ArrayType::Null),
        }
    }
}

impl DataField {
    /// The `arrow` field of the field.
    pub fn to_arrow_field(&self) -> (field: Field)
        requires
            without_path(self.model().ty),
        ensures
            field_contents(field) == arrow_field(self.model()),
        decreases *self,
    {
        new_field(self.name.clone(), self.ty.to_arrow_data_type(), self.nullable)
    }
}

impl DataSchema {
    /// The `arrow` schema of the schema.
    pub fn to_arrow_schema(&self) -> (schema: Schema)
        requires
            fields_without_path(self@),
        ensures
            schema_contents(schema) == arrow_fields_of(self@),
    {
        let mut arrow: Vec<Field> = Vec::new();
        push_arrow_fields(&mut arrow, &self.0);
        assert(arrow_fields(arrow@) =~= arrow_fields_of(self@));
        new_schema(arrow)
    }
}

} // verus!
