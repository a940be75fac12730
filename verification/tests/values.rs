//! Values, types, arrays and the catalog.

use arrow::datatypes::{DataType, Field};
use minigu::catalog::{GraphContainer, GraphType, SchemaCatalog};
use minigu::common::array::{ArrayType, ScalarValueAccessor};
use minigu::common::chunk::DataChunk;
use minigu::common::data_type::{DataField, DataSchema, LogicalType};
use minigu::common::text::{decimal, text_eq, text_less, with_number};
use minigu::common::value::{EdgeValue, PropertyValue, ScalarValue, VertexValue, F32, F64};
use minigu::execution::collect::scalar_values_to_array;
use minigu::procedures::create_test_graph::{
    build_graph, build_graph_type, build_procedure, create_test_graph, ProcedureContext,
};
use minigu::storage::properties::PropertyRecord;
use minigu::storage::tp::checkpoint::manager::CheckpointManagerConfig;
use minigu::storage::tp::checkpoint::snapshot::GraphCheckpoint;
use minigu::storage::tp::memory_graph::MemoryGraph;
use minigu::storage::tp::model::{IsolationLevel, RedoEntry};
use minigu::storage::tp::outside::{Outside, World};

/// A world whose log takes everything, without files.
fn quiet() -> impl Outside {
    World::new(
        |_entry: &RedoEntry| Ok(()),
        || Ok(()),
        |_lsn: u64| Ok(()),
        |_path: &String| unreachable!(),
        |_checkpoint: &GraphCheckpoint| unreachable!(),
        |_path: &String, _bytes: &Vec<u8>| unreachable!(),
        |_path: &String| unreachable!(),
        || 0,
    )
}

#[test]
fn zeros_of_either_sign_are_equal() {
    let zero = F64 { bits: 0 };
    let minus_zero = F64 { bits: 1 << 63 };
    assert_eq!(zero, minus_zero);
    assert_ne!(ScalarValue::from(1i32), ScalarValue::from(2i32));
    // They are written differently all the same.
    assert!(ScalarValue::Float64(Some(zero))
        .matches(&ScalarValue::Float64(Some(minus_zero)), false));
    assert!(!ScalarValue::Float64(Some(zero))
        .matches(&ScalarValue::Float64(Some(minus_zero)), true));
}

#[test]
fn all_that_is_no_number_is_equal() {
    let quiet = F32 { bits: f32::NAN.to_bits() };
    let other = F32 { bits: 0xff80_0001 };
    assert!(quiet.is_nan());
    assert!(other.is_nan());
    assert_eq!(quiet, other);
    assert!(!F32 { bits: f32::INFINITY.to_bits() }.is_nan());
    assert!(F64 { bits: f64::NAN.to_bits() }.is_nan());
    assert_ne!(F64 { bits: f64::NAN.to_bits() }, F64 { bits: 1.0f64.to_bits() });
}

#[test]
fn values_know_their_variant() {
    let value = ScalarValue::from("text");
    assert_eq!(value.try_as_string(), Some(&Some("text".to_string())));
    assert_eq!(value.try_as_int32(), None);
    assert_eq!(value.into_string(), Some(Some("text".to_string())));
    assert_eq!(ScalarValue::from(7u64).into_uint64(), Some(Some(7)));
    assert_eq!(ScalarValue::from(7u64).into_int64(), None);
    assert_eq!(ScalarValue::from(None::<&str>), ScalarValue::String(None));
    assert_eq!(ScalarValue::from(Some(true)).try_as_boolean(), Some(&Some(true)));
    let vertex = VertexValue::new(
        1,
        2,
        vec![PropertyValue::new("name".to_string(), ScalarValue::from("x"))],
    );
    let value = ScalarValue::Vertex(Some(vertex.duplicate()));
    assert_eq!(value.try_as_vertex_value(), Some(&Some(vertex)));
    assert!(value.matches(&value.duplicate(), true));
    let edge = EdgeValue::new(1, 2, 3, 4, vec![]);
    let value = ScalarValue::Edge(Some(edge.duplicate()));
    assert_eq!(value.duplicate().into_edge_value(), Some(Some(edge)));
    assert!(!value.matches(&ScalarValue::Edge(None), false));
}

#[test]
fn arrays_give_their_values_back() {
    let single = F32 { bits: 1.5f32.to_bits() };
    let double = F64 { bits: 2.5f64.to_bits() };
    for value in [
        ScalarValue::Null,
        ScalarValue::Boolean(Some(true)),
        ScalarValue::Boolean(None),
        ScalarValue::Int8(Some(-1)),
        ScalarValue::Int16(Some(-2)),
        ScalarValue::Int32(Some(-3)),
        ScalarValue::Int64(Some(-4)),
        ScalarValue::UInt8(Some(1)),
        ScalarValue::UInt16(Some(2)),
        ScalarValue::UInt32(Some(3)),
        ScalarValue::UInt64(Some(4)),
        ScalarValue::Float32(Some(single)),
        ScalarValue::Float64(Some(double)),
        ScalarValue::Float64(None),
        ScalarValue::String(Some("text".to_string())),
        ScalarValue::String(None),
    ] {
        let array = value.to_scalar_array();
        assert_eq!(array.len(), 1);
        assert_eq!(array.index(0), value);
        assert_eq!(array.duplicate().index(0), value);
    }
}

#[test]
fn columns_have_the_type_of_their_first_value() {
    let array = scalar_values_to_array(vec![
        ScalarValue::Null,
        ScalarValue::String(Some("a".to_string())),
        ScalarValue::Int32(Some(1)),
    ]);
    assert_eq!(array.data_type(), ArrayType::String);
    assert_eq!(array.index(0), ScalarValue::String(None));
    assert_eq!(array.index(1), ScalarValue::String(Some("a".to_string())));
    assert_eq!(array.index(2), ScalarValue::String(None));
    let empty = scalar_values_to_array(vec![]);
    assert_eq!((empty.data_type(), empty.len()), (ArrayType::Int64, 0));
    let nulls = scalar_values_to_array(vec![ScalarValue::Null, ScalarValue::Null]);
    assert_eq!((nulls.data_type(), nulls.len()), (ArrayType::Int64, 2));
    let slice = array.slice(1, 2);
    assert_eq!(slice.len(), 2);
    assert_eq!(slice.index(0), ScalarValue::String(Some("a".to_string())));
}

#[test]
fn chunks_are_made_of_rows() {
    let column = scalar_values_to_array(vec![ScalarValue::from(1i64), ScalarValue::from(2i64)]);
    let chunk = DataChunk::new(vec![column]);
    assert_eq!(chunk.len(), 2);
    assert!(!chunk.is_empty());
    let row = chunk.row(1);
    assert_eq!(row.len(), 1);
    assert_eq!(row.columns()[0].index(0), ScalarValue::Int64(Some(2)));
    assert!(DataChunk::new(vec![]).is_empty());
}

fn field(name: &str, ty: LogicalType) -> DataField {
    DataField::new(name.to_string(), ty, true)
}

#[test]
fn types_are_written_out() {
    assert_eq!(LogicalType::Int32.to_text(), "int32");
    assert_eq!(LogicalType::Null.to_text(), "null");
    let record = LogicalType::Record(vec![
        field("a", LogicalType::String),
        field("b", LogicalType::Vertex(vec![field("c", LogicalType::Boolean)])),
    ]);
    assert_eq!(record.to_text(), "record { a::string,b::vertex { c::boolean } }");
    assert_eq!(LogicalType::Edge(vec![]).to_text(), "edge {  }");
}

#[test]
fn types_have_arrow_types() {
    assert_eq!(LogicalType::UInt16.to_arrow_data_type(), DataType::UInt16);
    assert_eq!(LogicalType::String.to_arrow_data_type(), DataType::Utf8);
    assert_eq!(LogicalType::Null.to_arrow_data_type(), DataType::Null);
    let vertex = LogicalType::Vertex(vec![field("name", LogicalType::String)]);
    match vertex.to_arrow_data_type() {
        DataType::Struct(fields) => {
            let names: Vec<&str> = fields.iter().map(|field| field.name().as_str()).collect();
            assert_eq!(names, vec!["vid", "label", "name"]);
            assert_eq!(*fields[0].data_type(), DataType::UInt64);
            assert!(!fields[0].is_nullable());
            assert!(fields[2].is_nullable());
        }
        other => panic!("unexpected type {:?}", other),
    }
    match LogicalType::Edge(vec![]).to_arrow_data_type() {
        DataType::Struct(fields) => {
            let names: Vec<&str> = fields.iter().map(|field| field.name().as_str()).collect();
            assert_eq!(names, vec!["eid", "label", "src", "dst"]);
        }
        other => panic!("unexpected type {:?}", other),
    }
    let schema = DataSchema::new(vec![field("x", LogicalType::Float64)]).to_arrow_schema();
    assert_eq!(*schema.field(0), Field::new("x", DataType::Float64, true));
    assert_eq!(schema.fields().len(), 1);
}

#[test]
fn fields_are_found_by_name() {
    let mut schema = DataSchema::default();
    assert_eq!(schema.fields().len(), 0);
    schema.push(field("a", LogicalType::Int8));
    schema.push(field("b", LogicalType::Int16));
    schema.append(&DataSchema::new(vec![field("c", LogicalType::Int32)]));
    assert_eq!(schema.fields().len(), 3);
    assert_eq!(schema.get_field_index_by_name("c"), Some(2));
    assert_eq!(schema.get_field_index_by_name("d"), None);
    assert_eq!(*schema.get_field_by_name("b").unwrap().ty(), LogicalType::Int16);
    assert!(schema.get_field_by_name("d").is_none());
    assert_eq!(schema, schema.duplicate());
}

#[test]
fn texts_are_compared_and_numbered() {
    assert!(text_eq("abc", "abc"));
    assert!(!text_eq("abc", "abd"));
    assert!(text_less("abc", "abd"));
    assert!(text_less("ab", "abc"));
    assert!(!text_less("b", "abc"));
    assert_eq!(decimal(0), "0");
    assert_eq!(decimal(u64::MAX), "18446744073709551615");
    assert_eq!(with_number("<", 10, ">"), "<10>");
}

#[test]
fn records_share_their_values() {
    let record = PropertyRecord::new(vec![ScalarValue::from(1i32), ScalarValue::from(2i32)]);
    let mut copy = record.duplicate();
    copy.set_prop(1, ScalarValue::from(3i32));
    assert_eq!(copy.get(1), Some(&ScalarValue::Int32(Some(3))));
    assert_eq!(record.get(1), Some(&ScalarValue::Int32(Some(2))));
    assert_eq!(record.get(2), None);
    assert_eq!(record.len(), 2);
}

#[test]
fn labels_are_numbered_from_one() {
    let mut graph_type = GraphType::new();
    assert_eq!(graph_type.add_label("a"), Some(1));
    assert_eq!(graph_type.add_label("b"), Some(2));
    assert_eq!(graph_type.add_label("a"), None);
    let mut type_of_people = build_graph_type();
    assert_eq!(type_of_people.add_label("person"), None);
    assert_eq!(type_of_people.add_label("knows"), None);
    assert_eq!(type_of_people.add_label("other"), Some(3));
}

#[test]
fn graphs_have_names() {
    let container = || GraphContainer {
        graph_type: GraphType::new(),
        graph: MemoryGraph::with_config_fresh(CheckpointManagerConfig::default()),
    };
    let mut schema = SchemaCatalog::new();
    assert_eq!(schema.get_graph("a"), None);
    assert!(schema.add_graph("a", container()));
    assert!(!schema.add_graph("a", container()));
    assert!(schema.add_graph("b", container()));
    assert_eq!(schema.get_graph("b"), Some(1));
}

#[test]
fn the_test_graph_holds_three_people() {
    let mut graph = build_graph(&mut quiet());
    let mut txn = graph.begin_transaction(IsolationLevel::Serializable);
    for (vid, name) in [(0, "alice"), (1, "bob"), (2, "charlie")] {
        let vertex = graph.get_vertex(&mut txn, vid).unwrap();
        assert_eq!(vertex.properties.get(0), Some(&ScalarValue::Int32(Some(vid as i32))));
        assert_eq!(vertex.properties.get(1), Some(&ScalarValue::from(name)));
    }
    for (eid, src, dst, since) in
        [(0, 0, 1, 123), (1, 0, 2, 456), (2, 1, 0, 123), (3, 1, 2, 789), (4, 2, 0, 456), (5, 2, 1, 789)]
    {
        let edge = graph.get_edge(&mut txn, eid).unwrap();
        assert_eq!((edge.src_id, edge.dst_id), (src, dst));
        assert_eq!(edge.properties.get(0), Some(&ScalarValue::Int32(Some(since))));
    }
    assert!(graph.get_vertex(&mut txn, 3).is_err());
}

#[test]
fn the_test_graph_is_added_by_name() {
    let procedure = build_procedure();
    assert_eq!(procedure.parameters, vec![LogicalType::String]);
    assert!(procedure.schema.is_none());
    let mut context = ProcedureContext { current_schema: None };
    let named = vec![ScalarValue::from("people")];
    assert_eq!(
        create_test_graph(&mut context, &named, &mut quiet()),
        Err("current schema not set".to_string())
    );
    context.current_schema = Some(SchemaCatalog::new());
    assert_eq!(create_test_graph(&mut context, &named, &mut quiet()), Ok(()));
    assert_eq!(context.current_schema.as_ref().unwrap().get_graph("people"), Some(0));
    assert_eq!(
        create_test_graph(&mut context, &named, &mut quiet()),
        Err("graph people already exists".to_string())
    );
    assert_eq!(
        create_test_graph(&mut context, &vec![ScalarValue::String(None)], &mut quiet()),
        Err("graph name cannot be null".to_string())
    );
}

#[test]
fn doubles_are_ordered_as_numbers() {
    let numbers = [
        f64::NEG_INFINITY,
        -2.5,
        -1e-310,
        -0.0,
        0.0,
        1e-310,
        1.0,
        1.5,
        f64::MAX,
        f64::INFINITY,
        f64::NAN,
    ];
    let double = |value: f64| F64 { bits: value.to_bits() };
    for a in numbers {
        for b in numbers {
            // Zeros of either sign are equal here.
            assert_eq!(double(a).max(double(b)), double(a.max(b)));
            assert_eq!(double(a).min(double(b)), double(a.min(b)));
        }
    }
    assert_eq!(double(-2.5).max(double(1.0)), double(1.0));
    assert_eq!(double(-2.5).min(double(f64::NAN)), double(-2.5));
}
