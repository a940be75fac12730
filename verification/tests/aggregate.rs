//! Aggregation over chunks of rows.

use minigu::common::array::{ArrayRef, ArrayType, ScalarValueAccessor};
use minigu::common::chunk::DataChunk;
use minigu::common::value::{ScalarValue, F32, F64};
use minigu::execution::aggregate::{aggregate, AggregateSpec};
use minigu::execution::collect::scalar_values_to_array;
use minigu::execution::error::{ExecutionError, ExecutionResult};
use minigu::execution::evaluator::{Columns, Evaluated, Evaluator};
use minigu::execution::executor::{Executor, IntoExecutor};
use minigu::execution::state::FloatOp;

/// Expressions for the tests.
enum Expr {
    Column(usize),
    Constant(ScalarValue),
    Add(Box<Expr>, Box<Expr>),
    Mul(Box<Expr>, Box<Expr>),
    Div(Box<Expr>, Box<Expr>),
    Fail,
}

fn float(value: f64) -> F64 {
    F64 { bits: value.to_bits() }
}

fn number(value: F64) -> f64 {
    f64::from_bits(value.bits)
}

fn single(value: F32) -> f32 {
    f32::from_bits(value.bits)
}

fn arithmetic(op: FloatOp) -> F64 {
    match op {
        FloatOp::FromInt(v) => float(v as f64),
        FloatOp::FromUInt(v) => float(v as f64),
        FloatOp::FromSingle(v) => float(single(v) as f64),
        FloatOp::Add(a, b) => float(number(a) + number(b)),
        FloatOp::Div(a, b) => float(number(a) / number(b)),
    }
}

fn combine(
    left: &Expr,
    right: &Expr,
    chunk: &DataChunk,
    ints: fn(i64, i64) -> i64,
    floats: fn(f64, f64) -> f64,
) -> ExecutionResult<ArrayRef> {
    let left = left.evaluate(chunk)?;
    let right = right.evaluate(chunk)?;
    let mut values = Vec::new();
    for i in 0..left.len() {
        match (left.index(i), right.index(i)) {
            (ScalarValue::Int64(Some(a)), ScalarValue::Int64(Some(b))) => {
                values.push(ScalarValue::Int64(Some(ints(a, b))));
            }
            (ScalarValue::Float64(Some(a)), ScalarValue::Float64(Some(b))) => {
                values.push(ScalarValue::Float64(Some(float(floats(number(a), number(b))))));
            }
            _ => return Err(ExecutionError::new("incompatible types".to_string())),
        }
    }
    Ok(scalar_values_to_array(values))
}

impl Evaluator for Expr {
    fn value(&self, _chunk: Columns) -> Evaluated {
        unreachable!()
    }

    fn evaluate(&self, chunk: &DataChunk) -> ExecutionResult<ArrayRef> {
        match self {
            Expr::Column(i) => Ok(chunk.columns()[*i].duplicate()),
            Expr::Constant(value) => {
                let mut values = Vec::new();
                for _ in 0..chunk.len() {
                    values.push(value.duplicate());
                }
                Ok(scalar_values_to_array(values))
            }
            Expr::Add(a, b) => combine(a, b, chunk, |x, y| x + y, |x, y| x + y),
            Expr::Mul(a, b) => combine(a, b, chunk, |x, y| x * y, |x, y| x * y),
            Expr::Div(a, b) => combine(a, b, chunk, |x, y| x / y, |x, y| x / y),
            Expr::Fail => Err(ExecutionError::new("failed".to_string())),
        }
    }
}

fn int32(values: &[i32]) -> ArrayRef {
    scalar_values_to_array(values.iter().map(|v| ScalarValue::Int32(Some(*v))).collect())
}

fn nullable_int32(values: &[Option<i32>]) -> ArrayRef {
    scalar_values_to_array(values.iter().map(|v| ScalarValue::Int32(*v)).collect())
}

fn int64(values: &[i64]) -> ArrayRef {
    scalar_values_to_array(values.iter().map(|v| ScalarValue::Int64(Some(*v))).collect())
}

fn float64(values: &[f64]) -> ArrayRef {
    scalar_values_to_array(values.iter().map(|v| ScalarValue::Float64(Some(float(*v)))).collect())
}

fn chunk_of(columns: Vec<ArrayRef>) -> DataChunk {
    DataChunk::new(columns)
}

fn values_of(array: &ArrayRef) -> Vec<ScalarValue> {
    (0..array.len()).map(|i| array.index(i)).collect()
}

fn rows_of(chunk: &DataChunk) -> Vec<Vec<ScalarValue>> {
    chunk.columns().iter().map(values_of).collect()
}

fn run(
    chunks: Vec<DataChunk>,
    specs: Vec<AggregateSpec<Expr>>,
    groups: Vec<Expr>,
    outputs: Vec<Expr>,
) -> Vec<ExecutionResult<DataChunk>> {
    let input: Vec<ExecutionResult<DataChunk>> = chunks.into_iter().map(Ok).collect();
    let mut executor = aggregate(input.into_executor(), specs, groups, outputs, arithmetic);
    let mut results = Vec::new();
    while let Some(chunk) = executor.next_chunk() {
        results.push(chunk);
    }
    results
}

/// The single chunk that comes out. What came before an error is put together first.
fn collect(results: Vec<ExecutionResult<DataChunk>>) -> DataChunk {
    let mut chunks: Vec<DataChunk> = Vec::new();
    for result in results {
        match result {
            Ok(chunk) => chunks.push(chunk),
            Err(_) => break,
        }
    }
    assert!(!chunks.is_empty(), "chunks must not be empty");
    assert_eq!(chunks.len(), 1);
    chunks.remove(0)
}

fn assert_chunk(result: &DataChunk, expected: Vec<ArrayRef>) {
    assert_eq!(result.columns().len(), expected.len());
    for (i, column) in expected.iter().enumerate() {
        assert_eq!(values_of(&result.columns()[i]), values_of(column));
        assert_eq!(result.columns()[i].data_type(), column.data_type());
    }
}

fn column(i: usize) -> Expr {
    Expr::Column(i)
}

#[test]
fn test_count_star() {
    let chunk1 = chunk_of(vec![int32(&[1, 2, 3])]);
    let chunk2 = chunk_of(vec![int32(&[4, 5])]);
    let result =
        collect(run(vec![chunk1, chunk2], vec![AggregateSpec::count()], vec![], vec![]));
    assert_chunk(&result, vec![int64(&[5])]);
}

#[test]
fn test_count_expression() {
    let chunk = chunk_of(vec![int32(&[1, 2, 3, 4, 5])]);
    let result = collect(run(
        vec![chunk],
        vec![AggregateSpec::count_expression(column(0), false)],
        vec![],
        vec![],
    ));
    assert_chunk(&result, vec![int64(&[5])]);
}

#[test]
fn test_count_with_nulls() {
    let chunk = chunk_of(vec![nullable_int32(&[Some(1), None, Some(3), None, Some(5)])]);
    let result = collect(run(
        vec![chunk],
        vec![AggregateSpec::count_expression(column(0), false)],
        vec![],
        vec![],
    ));
    assert_chunk(&result, vec![int64(&[3])]);
}

#[test]
fn test_sum() {
    let chunk = chunk_of(vec![int32(&[1, 2, 3, 4, 5])]);
    let result =
        collect(run(vec![chunk], vec![AggregateSpec::sum(column(0), false)], vec![], vec![]));
    assert_chunk(&result, vec![int64(&[15])]);
}

#[test]
fn test_min_max() {
    let chunk = chunk_of(vec![int32(&[5, 1, 3, 9, 2])]);
    let result = collect(run(
        vec![chunk],
        vec![AggregateSpec::min(column(0)), AggregateSpec::max(column(0))],
        vec![],
        vec![],
    ));
    assert_chunk(&result, vec![int64(&[1]), int64(&[9])]);
}

#[test]
fn test_avg() {
    let chunk = chunk_of(vec![int32(&[1, 2, 3, 4, 5])]);
    let result =
        collect(run(vec![chunk], vec![AggregateSpec::avg(column(0), false)], vec![], vec![]));
    assert_chunk(&result, vec![float64(&[3.0])]);
}

#[test]
fn test_avg_with_nulls() {
    let chunk = chunk_of(vec![nullable_int32(&[Some(2), None, Some(4), None, Some(6)])]);
    let result =
        collect(run(vec![chunk], vec![AggregateSpec::avg(column(0), false)], vec![], vec![]));
    assert_chunk(&result, vec![float64(&[4.0])]);
}

#[test]
fn test_avg_float_values() {
    let chunk = chunk_of(vec![float64(&[1.5, 2.5, 3.5, 4.5])]);
    let result =
        collect(run(vec![chunk], vec![AggregateSpec::avg(column(0), false)], vec![], vec![]));
    assert_chunk(&result, vec![float64(&[3.0])]);
}

#[test]
fn test_sum_float_values_with_div_float() {
    let chunk = chunk_of(vec![float64(&[1.5, 2.5, 3.5, 4.5])]);
    let sum_div_f64_5 = Expr::Div(
        Box::new(column(0)),
        Box::new(Expr::Constant(ScalarValue::Float64(Some(float(5.0))))),
    );
    let result = collect(run(
        vec![chunk],
        vec![AggregateSpec::sum(column(0), false)],
        vec![],
        vec![sum_div_f64_5],
    ));
    assert_chunk(&result, vec![float64(&[2.4])]);
}

#[test]
#[should_panic(expected = "chunks must not be empty")]
fn test_sum_float_values_with_div_int_panic() {
    let chunk = chunk_of(vec![float64(&[1.5, 2.5, 3.5, 4.5])]);
    let sum_div_i64_5 = Expr::Div(
        Box::new(column(0)),
        Box::new(Expr::Constant(ScalarValue::Int64(Some(10)))),
    );
    collect(run(
        vec![chunk],
        vec![AggregateSpec::sum(column(0), false)],
        vec![],
        vec![sum_div_i64_5],
    ));
}

fn departments() -> DataChunk {
    chunk_of(vec![int32(&[1, 1, 2, 2, 1]), int32(&[5000, 6000, 4000, 4500, 5500])])
}

#[test]
fn test_group_by_aggregate() {
    let result = collect(run(
        vec![departments()],
        vec![AggregateSpec::count(), AggregateSpec::sum(column(1), false)],
        vec![column(0)],
        vec![],
    ));
    assert_eq!(result.len(), 2);
    assert_eq!(result.columns().len(), 3);
    let rows = rows_of(&result);
    for i in 0..2 {
        match &rows[0][i] {
            ScalarValue::Int32(Some(1)) => {
                assert_eq!(rows[1][i], ScalarValue::Int64(Some(3)));
                assert_eq!(rows[2][i], ScalarValue::Int64(Some(16500)));
            }
            ScalarValue::Int32(Some(2)) => {
                assert_eq!(rows[1][i], ScalarValue::Int64(Some(2)));
                assert_eq!(rows[2][i], ScalarValue::Int64(Some(8500)));
            }
            other => panic!("unexpected department value: {:?}", other),
        }
    }
    assert_ne!(rows[0][0], rows[0][1]);
}

#[test]
fn test_group_by_multiple_keys() {
    let chunk = chunk_of(vec![
        int32(&[1, 1, 1, 2, 2]),
        int32(&[1, 2, 1, 1, 2]),
        int32(&[5000, 8000, 5500, 4000, 7000]),
    ]);
    let result = collect(run(
        vec![chunk],
        vec![AggregateSpec::count(), AggregateSpec::avg(column(2), false)],
        vec![column(0), column(1)],
        vec![],
    ));
    assert_eq!(result.len(), 4);
    assert_eq!(result.columns().len(), 4);
    let rows = rows_of(&result);
    for i in 0..4 {
        let (count, avg) = match (&rows[0][i], &rows[1][i]) {
            (ScalarValue::Int32(Some(1)), ScalarValue::Int32(Some(1))) => (2, 5250.0),
            (ScalarValue::Int32(Some(1)), ScalarValue::Int32(Some(2))) => (1, 8000.0),
            (ScalarValue::Int32(Some(2)), ScalarValue::Int32(Some(1))) => (1, 4000.0),
            (ScalarValue::Int32(Some(2)), ScalarValue::Int32(Some(2))) => (1, 7000.0),
            other => panic!("unexpected group key combination: {:?}", other),
        };
        assert_eq!(rows[2][i], ScalarValue::Int64(Some(count)));
        match rows[3][i] {
            ScalarValue::Float64(Some(value)) => {
                let difference: f64 = number(value) - avg;
                assert!(difference.abs() < 0.01);
            }
            _ => panic!("the average should be a double"),
        }
    }
}

#[test]
fn test_output_expressions_simple() {
    let chunk = chunk_of(vec![int32(&[1, 2, 3, 4, 5])]);
    let add_ten = Expr::Add(
        Box::new(column(0)),
        Box::new(Expr::Constant(ScalarValue::Int64(Some(10)))),
    );
    let result = collect(run(vec![chunk], vec![AggregateSpec::count()], vec![], vec![add_ten]));
    assert_chunk(&result, vec![int64(&[15])]);
}

#[test]
fn test_output_expressions_with_grouping() {
    let count_times_100 = Expr::Mul(
        Box::new(column(1)),
        Box::new(Expr::Constant(ScalarValue::Int64(Some(100)))),
    );
    let result = collect(run(
        vec![departments()],
        vec![AggregateSpec::count(), AggregateSpec::sum(column(1), false)],
        vec![column(0)],
        vec![column(0), count_times_100, column(2)],
    ));
    assert_eq!(result.len(), 2);
    assert_eq!(result.columns().len(), 3);
    let rows = rows_of(&result);
    for i in 0..2 {
        match &rows[0][i] {
            ScalarValue::Int32(Some(1)) => {
                assert_eq!(rows[1][i], ScalarValue::Int64(Some(300)));
                assert_eq!(rows[2][i], ScalarValue::Int64(Some(16500)));
            }
            ScalarValue::Int32(Some(2)) => {
                assert_eq!(rows[1][i], ScalarValue::Int64(Some(200)));
                assert_eq!(rows[2][i], ScalarValue::Int64(Some(8500)));
            }
            other => panic!("unexpected department value: {:?}", other),
        }
    }
}

#[test]
fn test_output_expressions_with_multiple_aggregates() {
    let sum_plus_count = Expr::Add(Box::new(column(2)), Box::new(column(1)));
    let result = collect(run(
        vec![departments()],
        vec![AggregateSpec::count(), AggregateSpec::sum(column(1), false)],
        vec![column(0)],
        vec![column(0), sum_plus_count],
    ));
    assert_eq!(result.len(), 2);
    assert_eq!(result.columns().len(), 2);
    let rows = rows_of(&result);
    for i in 0..2 {
        match &rows[0][i] {
            ScalarValue::Int32(Some(1)) => {
                assert_eq!(rows[1][i], ScalarValue::Int64(Some(16503)));
            }
            ScalarValue::Int32(Some(2)) => {
                assert_eq!(rows[1][i], ScalarValue::Int64(Some(8502)));
            }
            other => panic!("unexpected department value: {:?}", other),
        }
    }
}

#[test]
fn test_avg_unified_f64_precision() {
    let chunk = chunk_of(vec![
        int32(&[1, 2, 3]),
        int64(&[1000000000001, 1000000000002, 1000000000003]),
    ]);
    let result_int32 = collect(run(
        vec![chunk.duplicate()],
        vec![AggregateSpec::avg(column(0), false)],
        vec![],
        vec![],
    ));
    assert_chunk(&result_int32, vec![float64(&[2.0])]);
    let result_int64 = collect(run(
        vec![chunk],
        vec![AggregateSpec::avg(column(1), false)],
        vec![],
        vec![],
    ));
    assert_chunk(&result_int64, vec![float64(&[1000000000002.0])]);
    assert_eq!(result_int32.columns().len(), 1);
    assert_eq!(result_int32.columns()[0].data_type(), ArrayType::Float64);
}

#[test]
fn aggregates_of_no_rows() {
    let result = collect(run(
        vec![],
        vec![
            AggregateSpec::count(),
            AggregateSpec::sum(column(0), false),
            AggregateSpec::min(column(0)),
            AggregateSpec::avg(column(0), false),
        ],
        vec![],
        vec![],
    ));
    let rows = rows_of(&result);
    assert_eq!(rows[0][0], ScalarValue::Int64(Some(0)));
    assert_eq!(rows[1][0], ScalarValue::Int64(None));
    assert_eq!(rows[2][0], ScalarValue::Int64(None));
    assert_eq!(rows[3][0], ScalarValue::Int64(None));
}

#[test]
fn groups_of_no_rows_yield_nothing() {
    let results = run(vec![], vec![AggregateSpec::count()], vec![column(0)], vec![]);
    assert!(results.is_empty());
}

#[test]
fn distinct_values_are_counted_once() {
    let chunk = chunk_of(vec![nullable_int32(&[Some(7), Some(7), None, Some(8)])]);
    let result = collect(run(
        vec![chunk],
        vec![AggregateSpec::count_expression(column(0), true)],
        vec![],
        vec![],
    ));
    assert_chunk(&result, vec![int64(&[2])]);
}

#[test]
fn the_first_error_is_handed_out() {
    let results = run(
        vec![departments()],
        vec![AggregateSpec::sum(Expr::Fail, false)],
        vec![],
        vec![],
    );
    assert_eq!(results.len(), 1);
    match &results[0] {
        Err(error) => assert_eq!(error.message(), "failed"),
        Ok(_) => panic!("there should be an error"),
    }
}

#[test]
fn splitting_the_input_changes_nothing() {
    let whole = collect(run(
        vec![chunk_of(vec![int32(&[1, 2, 3, 4])])],
        vec![AggregateSpec::sum(column(0), false), AggregateSpec::max(column(0))],
        vec![],
        vec![],
    ));
    let parts = collect(run(
        vec![chunk_of(vec![int32(&[1, 2])]), chunk_of(vec![int32(&[3, 4])])],
        vec![AggregateSpec::sum(column(0), false), AggregateSpec::max(column(0))],
        vec![],
        vec![],
    ));
    assert_eq!(rows_of(&whole), rows_of(&parts));
    assert_chunk(&whole, vec![int64(&[10]), int64(&[4])]);
}

#[test]
fn the_order_of_integers_does_not_matter() {
    let specs = || {
        vec![
            AggregateSpec::count(),
            AggregateSpec::sum(column(0), false),
            AggregateSpec::min(column(0)),
            AggregateSpec::max(column(0)),
        ]
    };
    let one = collect(run(vec![chunk_of(vec![int32(&[4, -7, 9])])], specs(), vec![], vec![]));
    let other = collect(run(vec![chunk_of(vec![int32(&[9, 4, -7])])], specs(), vec![], vec![]));
    assert_eq!(rows_of(&one), rows_of(&other));
    assert_chunk(&one, vec![int64(&[3]), int64(&[6]), int64(&[-7]), int64(&[9])]);
}

#[test]
fn texts_have_a_least_and_a_greatest() {
    let texts = scalar_values_to_array(vec![
        ScalarValue::from("pear"),
        ScalarValue::String(None),
        ScalarValue::from("apple"),
    ]);
    let result = collect(run(
        vec![chunk_of(vec![texts])],
        vec![AggregateSpec::min(column(0)), AggregateSpec::max(column(0))],
        vec![],
        vec![],
    ));
    let rows = rows_of(&result);
    assert_eq!(rows[0][0], ScalarValue::from("apple"));
    assert_eq!(rows[1][0], ScalarValue::from("pear"));
}

#[test]
fn doubles_have_a_least_and_a_greatest() {
    let result = collect(run(
        vec![chunk_of(vec![float64(&[2.5, -1.5, 9.25])])],
        vec![
            AggregateSpec::min(column(0)),
            AggregateSpec::max(column(0)),
            AggregateSpec::sum(column(0), false),
        ],
        vec![],
        vec![],
    ));
    assert_chunk(&result, vec![float64(&[-1.5]), float64(&[9.25]), float64(&[10.25])]);
}

#[test]
fn sums_of_different_values_are_null() {
    let result = collect(run(
        vec![chunk_of(vec![int32(&[3, 3, 4])])],
        vec![AggregateSpec::sum(column(0), true)],
        vec![],
        vec![],
    ));
    assert_eq!(rows_of(&result)[0][0], ScalarValue::Null);
}

#[test]
fn splitting_the_input_changes_no_group() {
    let specs = || {
        vec![AggregateSpec::count(), AggregateSpec::sum(column(1), false)]
    };
    let rows = |pieces: Vec<(&[i32], &[i32])>| {
        let chunks =
            pieces.into_iter().map(|(a, b)| chunk_of(vec![int32(a), int32(b)])).collect();
        rows_of(&collect(run(chunks, specs(), vec![column(0)], vec![])))
    };
    let whole = rows(vec![(&[1, 2, 1, 3, 2], &[10, 20, 30, 40, 50])]);
    let parts = rows(vec![(&[1], &[10]), (&[2, 1, 3], &[20, 30, 40]), (&[2], &[50])]);
    assert_eq!(whole, parts);
}

#[test]
fn nothing_comes_behind_the_first_error() {
    let input: Vec<ExecutionResult<DataChunk>> = vec![
        Ok(chunk_of(vec![int32(&[1])])),
        Err(ExecutionError::new("first".to_string())),
        Ok(chunk_of(vec![int32(&[2])])),
        Err(ExecutionError::new("second".to_string())),
    ];
    let mut executor = aggregate(
        input.into_executor(),
        vec![AggregateSpec::count()],
        Vec::<Expr>::new(),
        vec![],
        arithmetic,
    );
    match executor.next_chunk() {
        Some(Err(error)) => assert_eq!(error.message(), "first"),
        _ => panic!("there should be an error"),
    }
    assert!(executor.next_chunk().is_none());
    assert!(executor.next_chunk().is_none());
}

#[test]
fn meeting_a_value_again_changes_nothing_distinct() {
    let distinct = |values: &[i32]| {
        rows_of(&collect(run(
            vec![chunk_of(vec![int32(values)])],
            vec![
                AggregateSpec::count_expression(column(0), true),
                AggregateSpec::sum(column(0), true),
                AggregateSpec::avg(column(0), true),
            ],
            vec![],
            vec![],
        )))
    };
    assert_eq!(distinct(&[5]), distinct(&[5, 5, 5]));
    assert_eq!(distinct(&[5, 8]), distinct(&[5, 8, 5, 8]));
}

#[test]
fn extremes_are_the_same_in_any_order_of_texts() {
    let extremes = |texts: &[&str]| {
        let array =
            scalar_values_to_array(texts.iter().map(|text| ScalarValue::from(*text)).collect());
        rows_of(&collect(run(
            vec![chunk_of(vec![array])],
            vec![AggregateSpec::min(column(0)), AggregateSpec::max(column(0))],
            vec![],
            vec![],
        )))
    };
    let one = extremes(&["b", "ba", "", "c"]);
    assert_eq!(one, extremes(&["c", "", "b", "ba"]));
    assert_eq!(one[0][0], ScalarValue::from(""));
    assert_eq!(one[1][0], ScalarValue::from("c"));
}
