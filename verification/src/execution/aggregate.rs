//! The aggregation executor: folds all rows of its input into one row per group.

use vstd::prelude::*;

use crate::common::array::{ArrayRef, ArrayType, Cell, Column, ScalarValueAccessor};
#[allow(unused_imports)]
use crate::common::array::{
    lemma_matching_cells, lemma_total_text_bound, missing_cell, text_size, total_text,
};
#[allow(unused_imports)]
use crate::common::chunk::{columns_of, rectangular, row_count, row_of};
use crate::common::chunk::{duplicate_arrays, DataChunk};
use crate::common::value::{ScalarValue, F64};
use crate::execution::collect::scalar_values_to_array;
#[allow(unused_imports)]
use crate::execution::collect::collected;
use crate::execution::error::{ExecutionError, ExecutionResult};
use crate::execution::evaluator::Evaluator;
use crate::execution::executor::{Bridge, Executor, IntoExecutor};
#[allow(unused_imports)]
use crate::execution::state::{
    alike, cells_of, computes, lemma_alike_with, outcome_text, total, zeros, StateView,
};
use crate::execution::state::{AggregateFunction, AggregateState, FloatOp};

verus! {

/// An aggregate function and its parameters.
#[derive(Debug)]
pub struct AggregateSpec<V> {
    /// The function.
    pub function: AggregateFunction,
    /// The expression that it is applied to.
    pub expression: Option<V>,
    /// Whether only different values count.
    pub distinct: bool,
}

impl<V> AggregateSpec<V> {
    /// COUNT(*).
    pub fn count() -> (spec: Self)
        ensures
            spec == (AggregateSpec {
                function: AggregateFunction::Count,
                expression: None::<V>,
                distinct: false,
            }),
    {
        AggregateSpec { function: AggregateFunction::Count, expression: None, distinct: false }
    }

    /// COUNT(expr).
    pub fn count_expression(expr: V, distinct: bool) -> (spec: Self)
        ensures
            spec == (AggregateSpec {
                function: AggregateFunction::CountExpression,
                expression: Some(expr),
                distinct,
            }),
    {
        AggregateSpec {
            function: AggregateFunction::CountExpression,
            expression: Some(expr),
            distinct,
        }
    }

    /// SUM(expr).
    pub fn sum(expr: V, distinct: bool) -> (spec: Self)
        ensures
            spec == (AggregateSpec {
                function: AggregateFunction::Sum,
                expression: Some(expr),
                distinct,
            }),
    {
        AggregateSpec { function: AggregateFunction::Sum, expression: Some(expr), distinct }
    }

    /// AVG(expr).
    pub fn avg(expr: V, distinct: bool) -> (spec: Self)
        ensures
            spec == (AggregateSpec {
                function: AggregateFunction::Avg,
                expression: Some(expr),
                distinct,
            }),
    {
        AggregateSpec { function: AggregateFunction::Avg, expression: Some(expr), distinct }
    }

    /// MIN(expr).
    pub fn min(expr: V) -> (spec: Self)
        ensures
            spec == (AggregateSpec {
                function: AggregateFunction::Min,
                expression: Some(expr),
                distinct: false,
            }),
    {
        AggregateSpec { function: AggregateFunction::Min, expression: Some(expr), distinct: false }
    }

    /// MAX(expr).
    pub fn max(expr: V) -> (spec: Self)
        ensures
            spec == (AggregateSpec {
                function: AggregateFunction::Max,
                expression: Some(expr),
                distinct: false,
            }),
    {
        AggregateSpec { function: AggregateFunction::Max, expression: Some(expr), distinct: false }
    }
}

/// The first value of what an expression gives on a chunk.
pub open spec fn first_value<V: Evaluator>(expression: V, chunk: Seq<Column>) -> Result<
    Cell,
    Seq<char>,
> {
    match expression.value(chunk) {
        Ok(column) => Ok(column.cell(0)),
        Err(error) => Err(error),
    }
}

/// The value that an aggregate takes from a row.
pub open spec fn row_value<V: Evaluator>(spec: AggregateSpec<V>, row: Seq<Column>) -> Result<
    Cell,
    Seq<char>,
> {
    match spec.expression {
        Some(expression) => first_value(expression, row),
        None => Ok(Cell::Int64(Some(1))),
    }
}

/// Whether an expression gives at least one value on a row, of a type with scalar values, unless
/// it fails.
pub open spec fn gives_value<V: Evaluator>(expression: V, row: Seq<Column>) -> bool {
    expression.value(row) matches Ok(column) ==> column.cells.len() > 0 && column.array_type
        != ArrayType::Other
}

/// The state that an aggregate starts from.
pub open spec fn start_of<V>(spec: AggregateSpec<V>) -> StateView {
    StateView::start(spec.function, spec.distinct)
}

/// Whether an aggregate can be applied to the value of its expression on a row.
pub open spec fn applicable<V: Evaluator>(spec: AggregateSpec<V>, row: Seq<Column>) -> bool {
    &&& spec.expression matches Some(expression) ==> gives_value(expression, row)
    &&& row_value(spec, row) matches Ok(cell) ==> start_of(spec).accepts(cell)
}

/// The first error of the aggregates from the `i`th on, on a row.
pub open spec fn spec_error<V: Evaluator>(
    specs: Seq<AggregateSpec<V>>,
    row: Seq<Column>,
    i: int,
) -> Option<Seq<char>>
    decreases specs.len() - i,
{
    if i < 0 || i >= specs.len() {
        None
    } else {
        match row_value(specs[i], row) {
            Err(error) => Some(error),
            Ok(_) => spec_error(specs, row, i + 1),
        }
    }
}

/// The first error on a row: of the grouping expressions, then of the aggregates.
pub open spec fn row_error<V: Evaluator>(
    specs: Seq<AggregateSpec<V>>,
    grouping: Seq<V>,
    row: Seq<Column>,
) -> Option<Seq<char>> {
    match run_key(grouping, row, Seq::empty(), 0) {
        Err(error) => Some(error),
        Ok(_) => spec_error(specs, row, 0),
    }
}

/// Whether there is no error on the first `n` rows of a chunk.
pub open spec fn no_error_before<V: Evaluator>(
    specs: Seq<AggregateSpec<V>>,
    grouping: Seq<V>,
    columns: Seq<Column>,
    n: int,
) -> bool {
    forall|row: int|
        0 <= row < n ==> row_error(specs, grouping, #[trigger] row_of(columns, row)) is None
}

/// Whether a chunk can be aggregated: its columns are equally long, and on each of its rows up to
/// the first error the aggregates can be applied and the grouping expressions give a value.
pub open spec fn can_aggregate<V: Evaluator>(
    specs: Seq<AggregateSpec<V>>,
    grouping: Seq<V>,
    columns: Seq<Column>,
) -> bool {
    &&& rectangular(columns)
    &&& forall|i: int, row: int|
        0 <= i < specs.len() && 0 <= row < row_count(columns) && no_error_before(
            specs,
            grouping,
            columns,
            row,
        ) ==> #[trigger] applicable(specs[i], row_of(columns, row))
    &&& forall|i: int, row: int|
        0 <= i < grouping.len() && 0 <= row < row_count(columns) && no_error_before(
            specs,
            grouping,
            columns,
            row,
        ) ==> #[trigger] gives_value(grouping[i], row_of(columns, row))
}

/// Whether a chunk of the input is there and gives no error.
pub open spec fn without_error<V: Evaluator>(
    specs: Seq<AggregateSpec<V>>,
    grouping: Seq<V>,
    chunk: ExecutionResult<DataChunk>,
) -> bool {
    chunk matches Ok(data) && no_error_before(specs, grouping, data@, row_count(data@) as int)
}

/// Whether the input can be aggregated: each of its chunks, up to the first error.
pub open spec fn can_aggregate_all<V: Evaluator>(
    specs: Seq<AggregateSpec<V>>,
    grouping: Seq<V>,
    chunks: Seq<ExecutionResult<DataChunk>>,
) -> bool {
    forall|i: int|
        0 <= i < chunks.len() && (forall|j: int|
            0 <= j < i ==> without_error(specs, grouping, #[trigger] chunks[j])) ==> ((
        #[trigger] chunks[i]) matches Ok(chunk) ==> can_aggregate(specs, grouping, chunk@))
}

proof fn lemma_rest_aggregated<V: Evaluator>(
    specs: Seq<AggregateSpec<V>>,
    grouping: Seq<V>,
    chunks: Seq<ExecutionResult<DataChunk>>,
)
    requires
        can_aggregate_all(specs, grouping, chunks),
        chunks.len() > 0,
        without_error(specs, grouping, chunks[0]),
    ensures
        can_aggregate_all(specs, grouping, chunks.drop_first()),
{
    let rest = chunks.drop_first();
    assert forall|i: int|
        0 <= i < rest.len() && (forall|j: int|
            0 <= j < i ==> without_error(specs, grouping, #[trigger] rest[j])) implies ((
    #[trigger] rest[i]) matches Ok(chunk) ==> can_aggregate(specs, grouping, chunk@)) by {
        assert forall|j: int| 0 <= j < i + 1 implies without_error(
            specs,
            grouping,
            #[trigger] chunks[j],
        ) by {
            if j > 0 {
                assert(rest[j - 1] == chunks[j]);
            }
        }
        assert(chunks[i + 1] == rest[i]);
    }
}

/// A row is taken into the states exactly where no aggregate has an error on it.
pub proof fn lemma_spec_error<V: Evaluator>(
    specs: Seq<AggregateSpec<V>>,
    states: Seq<StateView>,
    row: Seq<Column>,
    i: int,
    floats: spec_fn(FloatOp) -> F64,
)
    ensures
        match run_specs(specs, states, row, i, floats) {
            Ok(_) => spec_error(specs, row, i) is None,
            Err(error) => spec_error(specs, row, i) == Some(error),
        },
    decreases specs.len() - i,
{
    if 0 <= i < specs.len() {
        if let Ok(cell) = row_value(specs[i], row) {
            lemma_spec_error(
                specs,
                states.update(i, states[i].with(Some(cell), floats)),
                row,
                i + 1,
                floats,
            );
        }
    }
}

/// Takes a row into the states of the aggregates from the `i`th on.
pub open spec fn run_specs<V: Evaluator>(
    specs: Seq<AggregateSpec<V>>,
    states: Seq<StateView>,
    row: Seq<Column>,
    i: int,
    floats: spec_fn(FloatOp) -> F64,
) -> Result<Seq<StateView>, Seq<char>>
    decreases specs.len() - i,
{
    if i < 0 || i >= specs.len() {
        Ok(states)
    } else {
        match row_value(specs[i], row) {
            Err(error) => Err(error),
            Ok(cell) => run_specs(
                specs,
                states.update(i, states[i].with(Some(cell), floats)),
                row,
                i + 1,
                floats,
            ),
        }
    }
}

/// Takes the rows of a chunk from the `i`th on into the states.
pub open spec fn run_rows<V: Evaluator>(
    specs: Seq<AggregateSpec<V>>,
    states: Seq<StateView>,
    columns: Seq<Column>,
    i: int,
    floats: spec_fn(FloatOp) -> F64,
) -> Result<Seq<StateView>, Seq<char>>
    decreases row_count(columns) - i,
{
    if i < 0 || i >= row_count(columns) {
        Ok(states)
    } else {
        match run_specs(specs, states, row_of(columns, i), 0, floats) {
            Err(error) => Err(error),
            Ok(next) => run_rows(specs, next, columns, i + 1, floats),
        }
    }
}

/// What a chunk of the input is: its columns, or the message of an error.
pub open spec fn chunk_view(chunk: ExecutionResult<DataChunk>) -> Result<Seq<Column>, Seq<char>> {
    match chunk {
        Ok(data) => Ok(data@),
        Err(error) => Err(error@),
    }
}

/// What a stream of chunks is.
pub open spec fn stream_view(chunks: Seq<ExecutionResult<DataChunk>>) -> Seq<
    Result<Seq<Column>, Seq<char>>,
> {
    chunks.map_values(|chunk: ExecutionResult<DataChunk>| chunk_view(chunk))
}

/// Takes all chunks into the states, and says whether there was any row.
pub open spec fn run_chunks<V: Evaluator>(
    specs: Seq<AggregateSpec<V>>,
    states: Seq<StateView>,
    has_data: bool,
    chunks: Seq<Result<Seq<Column>, Seq<char>>>,
    floats: spec_fn(FloatOp) -> F64,
) -> Result<(Seq<StateView>, bool), Seq<char>>
    decreases chunks.len(),
{
    if chunks.len() == 0 {
        Ok((states, has_data))
    } else {
        match chunks[0] {
            Err(error) => Err(error),
            Ok(columns) => if row_count(columns) == 0 {
                run_chunks(specs, states, has_data, chunks.drop_first(), floats)
            } else {
                match run_rows(specs, states, columns, 0, floats) {
                    Err(error) => Err(error),
                    Ok(next) => run_chunks(specs, next, true, chunks.drop_first(), floats),
                }
            },
        }
    }
}

/// The states that aggregates start from.
pub open spec fn starts<V>(specs: Seq<AggregateSpec<V>>) -> Seq<StateView> {
    specs.map_values(|spec: AggregateSpec<V>| start_of(spec))
}

/// The column that holds a single value.
pub open spec fn single(cell: Cell) -> Column {
    Column { array_type: cell.array_type(), cells: seq![cell] }
}

/// The result of an aggregate over no rows: zero where it counts, else null.
pub open spec fn default_column<V>(spec: AggregateSpec<V>) -> Column {
    match spec.function {
        AggregateFunction::Count => single(Cell::Int64(Some(0))),
        AggregateFunction::CountExpression => single(Cell::Int64(Some(0))),
        _ => single(Cell::Int64(None)),
    }
}

/// What the output expressions from the `i`th on make of the aggregated columns.
pub open spec fn run_outputs<V: Evaluator>(
    outputs: Seq<V>,
    columns: Seq<Column>,
    done: Seq<Column>,
    i: int,
) -> Result<Seq<Column>, Seq<char>>
    decreases outputs.len() - i,
{
    if i < 0 || i >= outputs.len() {
        Ok(done)
    } else {
        match outputs[i].value(columns) {
            Err(error) => Err(error),
            Ok(column) => run_outputs(outputs, columns, done.push(column), i + 1),
        }
    }
}

/// The columns that are handed out: those of the output expressions where there are any, else
/// the aggregated columns.
pub open spec fn output_columns<V: Evaluator>(outputs: Seq<V>, columns: Seq<Column>) -> Result<
    Seq<Column>,
    Seq<char>,
> {
    if outputs.len() == 0 {
        Ok(columns)
    } else {
        run_outputs(outputs, columns, Seq::empty(), 0)
    }
}

/// The outcome of an aggregation without groups.
pub open spec fn simple_outcome<V: Evaluator>(
    chunks: Seq<Result<Seq<Column>, Seq<char>>>,
    specs: Seq<AggregateSpec<V>>,
    outputs: Seq<V>,
    floats: spec_fn(FloatOp) -> F64,
) -> Result<Seq<Column>, Seq<char>> {
    match run_chunks(specs, starts(specs), false, chunks, floats) {
        Err(error) => Err(error),
        Ok((states, has_data)) => if !has_data {
            Ok(specs.map_values(|spec: AggregateSpec<V>| default_column(spec)))
        } else {
            output_columns(
                outputs,
                states.map_values(|state: StateView| single(state.outcome(floats))),
            )
        },
    }
}

/// A group of rows: the values that they share, and the states of the aggregates.
pub struct GroupView {
    /// The values of the grouping expressions.
    pub key: Seq<Cell>,
    /// The states.
    pub states: Seq<StateView>,
}

/// The values of the grouping expressions from the `i`th on, behind those in `done`.
pub open spec fn run_key<V: Evaluator>(
    grouping: Seq<V>,
    row: Seq<Column>,
    done: Seq<Cell>,
    i: int,
) -> Result<Seq<Cell>, Seq<char>>
    decreases grouping.len() - i,
{
    if i < 0 || i >= grouping.len() {
        Ok(done)
    } else {
        match first_value(grouping[i], row) {
            Err(error) => Err(error),
            Ok(cell) => run_key(grouping, row, done.push(cell), i + 1),
        }
    }
}

/// Whether two keys are equal, value by value.
pub open spec fn same_key(a: Seq<Cell>, b: Seq<Cell>) -> bool {
    &&& a.len() == b.len()
    &&& forall|i: int| 0 <= i < a.len() ==> (#[trigger] a[i]).matches(b[i], false)
}

/// The first group with the given key from the `i`th on, or the number of groups.
pub open spec fn group_position(groups: Seq<GroupView>, key: Seq<Cell>, i: int) -> int
    decreases groups.len() - i,
{
    if i < 0 || i >= groups.len() {
        groups.len() as int
    } else if same_key(groups[i].key, key) {
        i
    } else {
        group_position(groups, key, i + 1)
    }
}

/// The groups with one of the given key among them: a new one goes last.
pub open spec fn with_group(
    groups: Seq<GroupView>,
    key: Seq<Cell>,
    states: Seq<StateView>,
) -> Seq<GroupView> {
    if group_position(groups, key, 0) < groups.len() {
        groups
    } else {
        groups.push(GroupView { key, states })
    }
}

/// Takes a row into the states of its group.
pub open spec fn group_row<V: Evaluator>(
    specs: Seq<AggregateSpec<V>>,
    grouping: Seq<V>,
    groups: Seq<GroupView>,
    row: Seq<Column>,
    floats: spec_fn(FloatOp) -> F64,
) -> Result<Seq<GroupView>, Seq<char>> {
    match run_key(grouping, row, Seq::empty(), 0) {
        Err(error) => Err(error),
        Ok(key) => {
            let at = group_position(groups, key, 0);
            let all = with_group(groups, key, starts(specs));
            match run_specs(specs, all[at].states, row, 0, floats) {
                Err(error) => Err(error),
                Ok(states) => Ok(all.update(at, GroupView { key: all[at].key, states })),
            }
        },
    }
}

/// Takes the rows of a chunk from the `i`th on into the groups.
pub open spec fn group_rows<V: Evaluator>(
    specs: Seq<AggregateSpec<V>>,
    grouping: Seq<V>,
    groups: Seq<GroupView>,
    columns: Seq<Column>,
    i: int,
    floats: spec_fn(FloatOp) -> F64,
) -> Result<Seq<GroupView>, Seq<char>>
    decreases row_count(columns) - i,
{
    if i < 0 || i >= row_count(columns) {
        Ok(groups)
    } else {
        match group_row(specs, grouping, groups, row_of(columns, i), floats) {
            Err(error) => Err(error),
            Ok(next) => group_rows(specs, grouping, next, columns, i + 1, floats),
        }
    }
}

/// Takes all chunks into the groups.
pub open spec fn group_chunks<V: Evaluator>(
    specs: Seq<AggregateSpec<V>>,
    grouping: Seq<V>,
    groups: Seq<GroupView>,
    chunks: Seq<Result<Seq<Column>, Seq<char>>>,
    floats: spec_fn(FloatOp) -> F64,
) -> Result<Seq<GroupView>, Seq<char>>
    decreases chunks.len(),
{
    if chunks.len() == 0 {
        Ok(groups)
    } else {
        match chunks[0] {
            Err(error) => Err(error),
            Ok(columns) => match group_rows(specs, grouping, groups, columns, 0, floats) {
                Err(error) => Err(error),
                Ok(next) => group_chunks(specs, grouping, next, chunks.drop_first(), floats),
            },
        }
    }
}

/// The value of a group in a column of the result: first the key, then the aggregates.
pub open spec fn group_cell(
    group: GroupView,
    keys: int,
    column: int,
    floats: spec_fn(FloatOp) -> F64,
) -> Cell {
    if column < keys {
        group.key[column]
    } else {
        group.states[column - keys].outcome(floats)
    }
}

/// The columns of the result, before the output expressions.
pub open spec fn group_columns(
    groups: Seq<GroupView>,
    keys: nat,
    aggregates: nat,
    floats: spec_fn(FloatOp) -> F64,
) -> Seq<Column> {
    Seq::new(
        keys + aggregates,
        |column: int|
            collected(
                groups.map_values(
                    |group: GroupView| group_cell(group, keys as int, column, floats),
                ),
            ),
    )
}

/// The outcome of an aggregation with groups: no chunk at all where there was no row.
pub open spec fn grouped_outcome<V: Evaluator>(
    chunks: Seq<Result<Seq<Column>, Seq<char>>>,
    specs: Seq<AggregateSpec<V>>,
    grouping: Seq<V>,
    outputs: Seq<V>,
    floats: spec_fn(FloatOp) -> F64,
) -> Seq<Result<Seq<Column>, Seq<char>>> {
    match group_chunks(specs, grouping, Seq::empty(), chunks, floats) {
        Err(error) => seq![Err(error)],
        Ok(groups) => if groups.len() == 0 {
            Seq::empty()
        } else {
            seq![
                output_columns(outputs, group_columns(groups, grouping.len(), specs.len(), floats)),
            ]
        },
    }
}

/// What an aggregation hands out.
pub open spec fn aggregated<V: Evaluator>(
    chunks: Seq<Result<Seq<Column>, Seq<char>>>,
    specs: Seq<AggregateSpec<V>>,
    grouping: Seq<V>,
    outputs: Seq<V>,
    floats: spec_fn(FloatOp) -> F64,
) -> Seq<Result<Seq<Column>, Seq<char>>> {
    if grouping.len() == 0 {
        seq![simple_outcome(chunks, specs, outputs, floats)]
    } else {
        grouped_outcome(chunks, specs, grouping, outputs, floats)
    }
}

/// The number of bytes of text in a column of the result.
pub open spec fn column_text(groups: Seq<GroupView>, keys: nat, column: int) -> nat {
    total_text(
        groups.map_values(|group: GroupView| group_cell(group, keys as int, column, zeros())),
    )
}

/// Whether the text in each column of the result fits in an array. The floating point arithmetic
/// plays no part in what text there is.
pub open spec fn texts_fit<V: Evaluator>(
    chunks: Seq<Result<Seq<Column>, Seq<char>>>,
    specs: Seq<AggregateSpec<V>>,
    grouping: Seq<V>,
) -> bool {
    if grouping.len() == 0 {
        run_chunks(specs, starts(specs), false, chunks, zeros()) matches Ok((states, _))
            ==> forall|i: int|
            0 <= i < states.len() ==> outcome_text(#[trigger] states[i]) <= i32::MAX
    } else {
        group_chunks(specs, grouping, Seq::empty(), chunks, zeros()) matches Ok(groups)
            ==> forall|column: int|
            0 <= column < grouping.len() + specs.len() ==> #[trigger] column_text(
                groups,
                grouping.len(),
                column,
            ) <= i32::MAX
    }
}

/// Whether the states are alike, position by position.
spec fn all_alike(a: Seq<StateView>, b: Seq<StateView>) -> bool {
    &&& a.len() == b.len()
    &&& forall|i: int| 0 <= i < a.len() ==> alike(#[trigger] a[i], b[i])
}

/// Whether the groups have the same values and states that are alike, position by position.
spec fn groups_alike(a: Seq<GroupView>, b: Seq<GroupView>) -> bool {
    &&& a.len() == b.len()
    &&& forall|i: int|
        0 <= i < a.len() ==> (#[trigger] a[i]).key == b[i].key && all_alike(
            a[i].states,
            b[i].states,
        )
}

/// Groups that are alike have a key at the same position.
proof fn lemma_position_alike(a: Seq<GroupView>, b: Seq<GroupView>, key: Seq<Cell>, i: int)
    requires
        groups_alike(a, b),
    ensures
        group_position(a, key, i) == group_position(b, key, i),
    decreases a.len() - i,
{
    if 0 <= i < a.len() {
        assert(a[i].key == b[i].key);
        lemma_position_alike(a, b, key, i + 1);
    }
}

/// Groups that are alike hold the same amount of text in a column.
proof fn lemma_column_alike(a: Seq<GroupView>, b: Seq<GroupView>, keys: nat, column: int)
    requires
        groups_alike(a, b),
        forall|i: int|
            0 <= i < a.len() ==> (#[trigger] a[i]).key.len() == keys && column < keys
                + a[i].states.len(),
        0 <= column,
    ensures
        column_text(a, keys, column) <= column_text(b, keys, column),
{
    let x = a.map_values(|group: GroupView| group_cell(group, keys as int, column, zeros()));
    let y = b.map_values(|group: GroupView| group_cell(group, keys as int, column, zeros()));
    assert forall|i: int| 0 <= i < x.len() implies text_size(#[trigger] x[i]) <= text_size(
        y[i],
    ) by {
        assert(a[i].key == b[i].key);
        if column >= keys {
            assert(alike(a[i].states[column - keys], b[i].states[column - keys]));
        }
    }
    lemma_total_text_bound(x, y);
}

/// What the states of the aggregates amount to.
pub open spec fn states_view(states: Seq<AggregateState>) -> Seq<StateView> {
    states.map_values(|state: AggregateState| state@)
}

/// Whether each state belongs to the aggregate at its position.
spec fn suited<V>(states: Seq<AggregateState>, specs: Seq<AggregateSpec<V>>) -> bool {
    &&& states.len() == specs.len()
    &&& forall|i: int|
        0 <= i < specs.len() ==> (#[trigger] states[i])@.shape() == start_of(specs[i]).shape()
}

/// Evaluates an expression and takes the first value.
fn evaluate_first<V: Evaluator>(expression: &V, chunk: &DataChunk) -> (result: ExecutionResult<
    ScalarValue,
>)
    requires
        gives_value(*expression, chunk@),
    ensures
        match result {
            Ok(value) => first_value(*expression, chunk@) == Ok::<Cell, Seq<char>>(value.cell()),
            Err(error) => first_value(*expression, chunk@) == Err::<Cell, Seq<char>>(error@),
        },
{
    match expression.evaluate(chunk) {
        Ok(array) => {
            assert(expression.value(chunk@) == Ok::<Column, Seq<char>>(array@));
            Ok(array.index(0))
        },
        Err(error) => Err(error),
    }
}

/// The states that the aggregates start from.
fn start_states<V>(specs: &Vec<AggregateSpec<V>>) -> (states: Vec<AggregateState>)
    ensures
        states_view(states@) == starts(specs@),
        suited(states@, specs@),
{
    let mut states: Vec<AggregateState> = Vec::new();
    for i in 0..specs.len()
        invariant
            states@.len() == i,
            forall|j: int| 0 <= j < i ==> (#[trigger] states@[j])@ == start_of(specs@[j]),
    {
        states.push(AggregateState::new(&specs[i].function, specs[i].distinct));
    }
    assert(states_view(states@) =~= starts(specs@));
    states
}

/// Takes a row into the states.
fn update_states<V: Evaluator, G: Fn(FloatOp) -> F64>(
    specs: &Vec<AggregateSpec<V>>,
    states: &mut Vec<AggregateState>,
    row: &DataChunk,
    arithmetic: &G,
    Ghost(shadow): Ghost<Seq<StateView>>,
) -> (result: ExecutionResult<()>)
    requires
        total(*arithmetic),
        suited(old(states)@, specs@),
        all_alike(states_view(old(states)@), shadow),
        forall|i: int| 0 <= i < specs@.len() ==> #[trigger] applicable(specs@[i], row@),
    ensures
        suited(final(states)@, specs@),
        forall|floats: spec_fn(FloatOp) -> F64| #[trigger]
            computes(*arithmetic, floats) ==> run_specs(
                specs@,
                states_view(old(states)@),
                row@,
                0,
                floats,
            ) == match result {
                Ok(_) => Ok::<Seq<StateView>, Seq<char>>(states_view(final(states)@)),
                Err(error) => Err::<Seq<StateView>, Seq<char>>(error@),
            },
        result is Ok ==> (run_specs(specs@, shadow, row@, 0, zeros()) matches Ok(next)
            && all_alike(states_view(final(states)@), next)),
        result is Ok ==> spec_error(specs@, row@, 0) is None,
{
    let ghost mut current = shadow;
    for i in 0..specs.len()
        invariant
            total(*arithmetic),
            suited(states@, specs@),
            all_alike(states_view(states@), current),
            run_specs(specs@, shadow, row@, 0, zeros()) == run_specs(
                specs@,
                current,
                row@,
                i as int,
                zeros(),
            ),
            forall|i: int| 0 <= i < specs@.len() ==> #[trigger] applicable(specs@[i], row@),
            forall|floats: spec_fn(FloatOp) -> F64| #[trigger]
                computes(*arithmetic, floats) ==> run_specs(
                    specs@,
                    states_view(old(states)@),
                    row@,
                    0,
                    floats,
                ) == run_specs(specs@, states_view(states@), row@, i as int, floats),
    {
        let value = match &specs[i].expression {
            Some(expression) => {
                assert(applicable(specs@[i as int], row@));
                match evaluate_first(expression, row) {
                    Ok(value) => value,
                    Err(error) => {
                        return Err(error);
                    },
                }
            },
            None => ScalarValue::Int64(Some(1)),
        };
        let ghost before = states@;
        assert(row_value(specs@[i as int], row@) == Ok::<Cell, Seq<char>>(value.cell()));
        assert(applicable(specs@[i as int], row@));
        assert(states@[i as int]@.shape() == start_of(specs@[i as int]).shape());
        let ghost cell = value.cell();
        let outcome = states[i].update(Some(value), arithmetic);
        assert(outcome is Ok);
        assert(suited(states@, specs@)) by {
            assert forall|j: int| 0 <= j < specs@.len() implies (
            #[trigger] states@[j])@.shape() == start_of(specs@[j]).shape() by {
                assert(before[j]@.shape() == start_of(specs@[j]).shape());
            }
        }
        assert forall|floats: spec_fn(FloatOp) -> F64| #[trigger]
            computes(*arithmetic, floats) implies run_specs(
            specs@,
            states_view(old(states)@),
            row@,
            0,
            floats,
        ) == run_specs(specs@, states_view(states@), row@, i + 1, floats) by {
            assert(states_view(states@) =~= states_view(before).update(
                i as int,
                states_view(before)[i as int].with(Some(cell), floats),
            ));
        }
        proof {
            let next = current.update(i as int, current[i as int].with(Some(cell), zeros()));
            assert(alike(states_view(before)[i as int], current[i as int]));
            lemma_alike_with(before[i as int]@, current[i as int], Some(cell), zeros(), zeros());
            assert forall|j: int| 0 <= j < states@.len() implies alike(
                #[trigger] states_view(states@)[j],
                next[j],
            ) by {
                assert(alike(states_view(before)[j], current[j]));
            }
            current = next;
        }
    }
    proof {
        lemma_spec_error(specs@, shadow, row@, 0, zeros());
    }
    Ok(())
}

/// Takes the rows of a chunk into the states.
fn update_rows<V: Evaluator, G: Fn(FloatOp) -> F64>(
    specs: &Vec<AggregateSpec<V>>,
    states: &mut Vec<AggregateState>,
    chunk: &DataChunk,
    arithmetic: &G,
    Ghost(shadow): Ghost<Seq<StateView>>,
) -> (result: ExecutionResult<()>)
    requires
        total(*arithmetic),
        can_aggregate(specs@, Seq::<V>::empty(), chunk@),
        suited(old(states)@, specs@),
        all_alike(states_view(old(states)@), shadow),
    ensures
        suited(final(states)@, specs@),
        forall|floats: spec_fn(FloatOp) -> F64| #[trigger]
            computes(*arithmetic, floats) ==> run_rows(
                specs@,
                states_view(old(states)@),
                chunk@,
                0,
                floats,
            ) == match result {
                Ok(_) => Ok::<Seq<StateView>, Seq<char>>(states_view(final(states)@)),
                Err(error) => Err::<Seq<StateView>, Seq<char>>(error@),
            },
        result is Ok ==> (run_rows(specs@, shadow, chunk@, 0, zeros()) matches Ok(next)
            && all_alike(states_view(final(states)@), next)),
        result is Ok ==> no_error_before(
            specs@,
            Seq::<V>::empty(),
            chunk@,
            row_count(chunk@) as int,
        ),
{
    let rows: usize = chunk.len();
    let ghost mut current = shadow;
    for i in 0..rows
        invariant
            no_error_before(specs@, Seq::<V>::empty(), chunk@, i as int),
            all_alike(states_view(states@), current),
            run_rows(specs@, shadow, chunk@, 0, zeros()) == run_rows(
                specs@,
                current,
                chunk@,
                i as int,
                zeros(),
            ),
            rows == row_count(chunk@),
            total(*arithmetic),
            can_aggregate(specs@, Seq::<V>::empty(), chunk@),
            suited(states@, specs@),
            forall|floats: spec_fn(FloatOp) -> F64| #[trigger]
                computes(*arithmetic, floats) ==> run_rows(
                    specs@,
                    states_view(old(states)@),
                    chunk@,
                    0,
                    floats,
                ) == run_rows(specs@, states_view(states@), chunk@, i as int, floats),
    {
        let row = chunk.row(i);
        match update_states(specs, states, &row, arithmetic, Ghost(current)) {
            Ok(_) => {
                proof {
                    current = run_specs(specs@, current, row@, 0, zeros())->Ok_0;
                }
            },
            Err(error) => {
                return Err(error);
            },
        }
    }
    Ok(())
}

/// Applies the output expressions, where there are any.
fn apply_outputs<V: Evaluator>(outputs: &Vec<V>, columns: Vec<ArrayRef>) -> (result:
    ExecutionResult<DataChunk>)
    ensures
        chunk_view(result) == output_columns(outputs@, columns_of(columns@)),
{
    if outputs.len() == 0 {
        return Ok(DataChunk::new(columns));
    }
    let mut output: Vec<ArrayRef> = Vec::new();
    assert(columns_of(output@) =~= Seq::empty());
    for i in 0..outputs.len()
        invariant
            run_outputs(outputs@, columns_of(columns@), Seq::empty(), 0) == run_outputs(
                outputs@,
                columns_of(columns@),
                columns_of(output@),
                i as int,
            ),
    {
        let chunk = DataChunk::new(duplicate_arrays(&columns));
        let ghost before = output@;
        match outputs[i].evaluate(&chunk) {
            Ok(array) => {
                output.push(array);
                assert(columns_of(output@) =~= columns_of(before).push(array@));
            },
            Err(error) => {
                return Err(error);
            },
        }
    }
    Ok(DataChunk::new(output))
}

/// The results of the aggregates over no rows.
fn default_columns<V>(specs: &Vec<AggregateSpec<V>>) -> (columns: Vec<ArrayRef>)
    ensures
        columns_of(columns@) == specs@.map_values(|spec: AggregateSpec<V>| default_column(spec)),
{
    let mut columns: Vec<ArrayRef> = Vec::new();
    for i in 0..specs.len()
        invariant
            columns@.len() == i,
            forall|j: int| 0 <= j < i ==> (#[trigger] columns@[j])@ == default_column(specs@[j]),
    {
        let value = match specs[i].function {
            AggregateFunction::Count => ScalarValue::Int64(Some(0)),
            AggregateFunction::CountExpression => ScalarValue::Int64(Some(0)),
            _ => ScalarValue::Int64(None),
        };
        columns.push(value.to_scalar_array());
    }
    assert(columns_of(columns@) =~= specs@.map_values(
        |spec: AggregateSpec<V>| default_column(spec),
    ));
    columns
}

/// The results of the aggregates, each in a column of its own.
fn final_columns<G: Fn(FloatOp) -> F64>(states: &Vec<AggregateState>, arithmetic: &G) -> (columns:
    Vec<ArrayRef>)
    requires
        total(*arithmetic),
        forall|i: int|
            0 <= i < states@.len() ==> outcome_text((#[trigger] states@[i])@) <= i32::MAX,
    ensures
        forall|floats: spec_fn(FloatOp) -> F64| #[trigger]
            computes(*arithmetic, floats) ==> columns_of(columns@) == states_view(
                states@,
            ).map_values(|state: StateView| single(state.outcome(floats))),
{
    let mut columns: Vec<ArrayRef> = Vec::new();
    for i in 0..states.len()
        invariant
            total(*arithmetic),
            forall|i: int|
                0 <= i < states@.len() ==> outcome_text((#[trigger] states@[i])@) <= i32::MAX,
            columns@.len() == i,
            forall|floats: spec_fn(FloatOp) -> F64, j: int|
                #![trigger computes(*arithmetic, floats), columns@[j]]
                computes(*arithmetic, floats) && 0 <= j < i ==> columns@[j]@ == single(
                    states@[j]@.outcome(floats),
                ),
    {
        if let Ok(value) = states[i].finalize(arithmetic) {
            columns.push(value.to_scalar_array());
        }
    }
    assert forall|floats: spec_fn(FloatOp) -> F64| #[trigger]
        computes(*arithmetic, floats) implies columns_of(columns@) == states_view(
        states@,
    ).map_values(|state: StateView| single(state.outcome(floats))) by {
        assert(columns_of(columns@) =~= states_view(states@).map_values(
            |state: StateView| single(state.outcome(floats)),
        ));
    }
    columns
}

/// A group of rows: the values that they share, and the states of the aggregates.
#[derive(Debug)]
struct Group {
    key: Vec<ScalarValue>,
    states: Vec<AggregateState>,
}

impl Group {
    /// What the group amounts to.
    spec fn model(self) -> GroupView {
        GroupView { key: cells_of(self.key@), states: states_view(self.states@) }
    }
}

/// What the groups amount to.
spec fn groups_view(groups: Seq<Group>) -> Seq<GroupView> {
    groups.map_values(|group: Group| group.model())
}

/// Whether each group has as many values as there are grouping expressions, and suitable states.
spec fn groups_suited<V>(groups: Seq<Group>, specs: Seq<AggregateSpec<V>>, keys: nat) -> bool {
    forall|i: int|
        0 <= i < groups.len() ==> (#[trigger] groups[i]).key@.len() == keys && suited(
            groups[i].states@,
            specs,
        )
}

/// The values of the grouping expressions on a row.
fn group_key<V: Evaluator>(grouping: &Vec<V>, row: &DataChunk) -> (result: ExecutionResult<
    Vec<ScalarValue>,
>)
    requires
        forall|i: int| 0 <= i < grouping@.len() ==> #[trigger] gives_value(grouping@[i], row@),
    ensures
        match result {
            Ok(key) => {
                &&& key@.len() == grouping@.len()
                &&& run_key(grouping@, row@, Seq::empty(), 0) == Ok::<Seq<Cell>, Seq<char>>(
                    cells_of(key@),
                )
            },
            Err(error) => run_key(grouping@, row@, Seq::empty(), 0) == Err::<Seq<Cell>, Seq<char>>(
                error@,
            ),
        },
{
    let mut key: Vec<ScalarValue> = Vec::new();
    assert(cells_of(key@) =~= Seq::empty());
    for i in 0..grouping.len()
        invariant
            key@.len() == i,
            forall|i: int| 0 <= i < grouping@.len() ==> #[trigger] gives_value(grouping@[i], row@),
            run_key(grouping@, row@, Seq::empty(), 0) == run_key(
                grouping@,
                row@,
                cells_of(key@),
                i as int,
            ),
    {
        assert(gives_value(grouping@[i as int], row@));
        let ghost before = key@;
        match evaluate_first(&grouping[i], row) {
            Ok(value) => {
                key.push(value);
                assert(cells_of(key@) =~= cells_of(before).push(value.cell()));
            },
            Err(error) => {
                return Err(error);
            },
        }
    }
    Ok(key)
}

/// Whether two keys are equal.
fn keys_equal(a: &Vec<ScalarValue>, b: &Vec<ScalarValue>) -> (equal: bool)
    ensures
        equal == same_key(cells_of(a@), cells_of(b@)),
{
    if a.len() != b.len() {
        return false;
    }
    for i in 0..a.len()
        invariant
            a@.len() == b@.len(),
            forall|j: int|
                0 <= j < i ==> (#[trigger] cells_of(a@)[j]).matches(cells_of(b@)[j], false),
    {
        proof {
            lemma_matching_cells(a@[i as int], b@[i as int], false);
        }
        if !a[i].matches(&b[i], false) {
            assert(!cells_of(a@)[i as int].matches(cells_of(b@)[i as int], false));
            return false;
        }
    }
    true
}

/// The position of the group with a key, or the number of groups.
fn find_group(groups: &Vec<Group>, key: &Vec<ScalarValue>) -> (position: usize)
    ensures
        position == group_position(groups_view(groups@), cells_of(key@), 0),
        position <= groups@.len(),
{
    let mut i: usize = 0;
    while i < groups.len()
        invariant
            i <= groups@.len(),
            group_position(groups_view(groups@), cells_of(key@), 0) == group_position(
                groups_view(groups@),
                cells_of(key@),
                i as int,
            ),
        decreases groups@.len() - i,
    {
        if keys_equal(&groups[i].key, key) {
            return i;
        }
        i = i + 1;
    }
    i
}

/// Takes a row into its group.
fn update_group<V: Evaluator, G: Fn(FloatOp) -> F64>(
    specs: &Vec<AggregateSpec<V>>,
    grouping: &Vec<V>,
    groups: &mut Vec<Group>,
    row: &DataChunk,
    arithmetic: &G,
    Ghost(shadow): Ghost<Seq<GroupView>>,
) -> (result: ExecutionResult<()>)
    requires
        total(*arithmetic),
        groups_alike(groups_view(old(groups)@), shadow),
        groups_suited(old(groups)@, specs@, grouping@.len()),
        forall|i: int| 0 <= i < specs@.len() ==> #[trigger] applicable(specs@[i], row@),
        forall|i: int| 0 <= i < grouping@.len() ==> #[trigger] gives_value(grouping@[i], row@),
    ensures
        groups_suited(final(groups)@, specs@, grouping@.len()),
        forall|floats: spec_fn(FloatOp) -> F64| #[trigger]
            computes(*arithmetic, floats) ==> group_row(
                specs@,
                grouping@,
                groups_view(old(groups)@),
                row@,
                floats,
            ) == match result {
                Ok(_) => Ok::<Seq<GroupView>, Seq<char>>(groups_view(final(groups)@)),
                Err(error) => Err::<Seq<GroupView>, Seq<char>>(error@),
            },
        result is Ok ==> (group_row(specs@, grouping@, shadow, row@, zeros()) matches Ok(next)
            && groups_alike(groups_view(final(groups)@), next)),
        result is Ok ==> row_error(specs@, grouping@, row@) is None,
{
    let key = match group_key(grouping, row) {
        Ok(key) => key,
        Err(error) => {
            return Err(error);
        },
    };
    let at: usize = find_group(groups, &key);
    let ghost key_cells = cells_of(key@);
    if at == groups.len() {
        let ghost before = groups@;
        let states = start_states(specs);
        groups.push(Group { key, states });
        assert(groups_view(groups@) =~= groups_view(before).push(
            GroupView { key: key_cells, states: starts(specs@) },
        ));
    }
    let ghost all = groups@;
    assert(groups_view(all) == with_group(groups_view(old(groups)@), key_cells, starts(specs@)));
    assert(groups_suited(all, specs@, grouping@.len()));
    assert(suited(all[at as int].states@, specs@));
    let ghost shadow_all = with_group(shadow, key_cells, starts(specs@));
    proof {
        lemma_position_alike(groups_view(old(groups)@), shadow, key_cells, 0);
        assert forall|i: int| 0 <= i < all.len() implies (#[trigger] groups_view(all)[i]).key
            == shadow_all[i].key && all_alike(
            groups_view(all)[i].states,
            shadow_all[i].states,
        ) by {
            if i < old(groups)@.len() {
                assert(groups_view(all)[i] == groups_view(old(groups)@)[i]);
            }
        }
        assert(groups_alike(groups_view(all), shadow_all));
        assert(all_alike(groups_view(all)[at as int].states, shadow_all[at as int].states));
    }
    let result = update_states(
        specs,
        &mut groups[at].states,
        row,
        arithmetic,
        Ghost(shadow_all[at as int].states),
    );
    assert(groups_suited(groups@, specs@, grouping@.len())) by {
        assert forall|i: int| 0 <= i < groups@.len() implies (
        #[trigger] groups@[i]).key@.len() == grouping@.len() && suited(
            groups@[i].states@,
            specs@,
        ) by {
            assert(all[i].key@.len() == grouping@.len() && suited(all[i].states@, specs@));
        }
    }
    assert(groups_view(groups@) =~= groups_view(all).update(at as int, groups@[at as int].model()));
    proof {
        if result is Ok {
            let next = group_row(specs@, grouping@, shadow, row@, zeros())->Ok_0;
            assert forall|i: int| 0 <= i < groups@.len() implies (
            #[trigger] groups_view(groups@)[i]).key == next[i].key && all_alike(
                groups_view(groups@)[i].states,
                next[i].states,
            ) by {
                assert(groups_view(all)[i].key == shadow_all[i].key);
            }
        }
    }
    result
}

/// Takes the rows of a chunk into their groups.
fn update_groups<V: Evaluator, G: Fn(FloatOp) -> F64>(
    specs: &Vec<AggregateSpec<V>>,
    grouping: &Vec<V>,
    groups: &mut Vec<Group>,
    chunk: &DataChunk,
    arithmetic: &G,
    Ghost(shadow): Ghost<Seq<GroupView>>,
) -> (result: ExecutionResult<()>)
    requires
        total(*arithmetic),
        groups_alike(groups_view(old(groups)@), shadow),
        can_aggregate(specs@, grouping@, chunk@),
        groups_suited(old(groups)@, specs@, grouping@.len()),
    ensures
        groups_suited(final(groups)@, specs@, grouping@.len()),
        forall|floats: spec_fn(FloatOp) -> F64| #[trigger]
            computes(*arithmetic, floats) ==> group_rows(
                specs@,
                grouping@,
                groups_view(old(groups)@),
                chunk@,
                0,
                floats,
            ) == match result {
                Ok(_) => Ok::<Seq<GroupView>, Seq<char>>(groups_view(final(groups)@)),
                Err(error) => Err::<Seq<GroupView>, Seq<char>>(error@),
            },
        result is Ok ==> (group_rows(
            specs@,
            grouping@,
            shadow,
            chunk@,
            0,
            zeros(),
        ) matches Ok(next) && groups_alike(groups_view(final(groups)@), next)),
        result is Ok ==> no_error_before(specs@, grouping@, chunk@, row_count(chunk@) as int),
{
    let rows: usize = chunk.len();
    let ghost mut current = shadow;
    for i in 0..rows
        invariant
            no_error_before(specs@, grouping@, chunk@, i as int),
            groups_alike(groups_view(groups@), current),
            group_rows(specs@, grouping@, shadow, chunk@, 0, zeros()) == group_rows(
                specs@,
                grouping@,
                current,
                chunk@,
                i as int,
                zeros(),
            ),
            rows == row_count(chunk@),
            total(*arithmetic),
            can_aggregate(specs@, grouping@, chunk@),
            groups_suited(groups@, specs@, grouping@.len()),
            forall|floats: spec_fn(FloatOp) -> F64| #[trigger]
                computes(*arithmetic, floats) ==> group_rows(
                    specs@,
                    grouping@,
                    groups_view(old(groups)@),
                    chunk@,
                    0,
                    floats,
                ) == group_rows(
                    specs@,
                    grouping@,
                    groups_view(groups@),
                    chunk@,
                    i as int,
                    floats,
                ),
    {
        let row = chunk.row(i);
        match update_group(specs, grouping, groups, &row, arithmetic, Ghost(current)) {
            Ok(_) => {
                proof {
                    current = group_row(specs@, grouping@, current, row@, zeros())->Ok_0;
                }
            },
            Err(error) => {
                return Err(error);
            },
        }
    }
    Ok(())
}

/// The columns of the result of a grouped aggregation, before the output expressions.
fn grouped_columns<G: Fn(FloatOp) -> F64>(
    groups: &Vec<Group>,
    keys: usize,
    aggregates: usize,
    arithmetic: &G,
) -> (columns: Vec<ArrayRef>)
    requires
        total(*arithmetic),
        keys + aggregates <= usize::MAX,
        forall|i: int|
            0 <= i < groups@.len() ==> (#[trigger] groups@[i]).key@.len() == keys
                && groups@[i].states@.len() == aggregates,
        forall|column: int|
            0 <= column < keys + aggregates ==> #[trigger] column_text(
                groups_view(groups@),
                keys as nat,
                column,
            ) <= i32::MAX,
    ensures
        forall|floats: spec_fn(FloatOp) -> F64| #[trigger]
            computes(*arithmetic, floats) ==> columns_of(columns@) == group_columns(
                groups_view(groups@),
                keys as nat,
                aggregates as nat,
                floats,
            ),
{
    let mut columns: Vec<ArrayRef> = Vec::new();
    let width: usize = keys + aggregates;
    for column in 0..width
        invariant
            width == keys + aggregates,
            total(*arithmetic),
            forall|i: int|
                0 <= i < groups@.len() ==> (#[trigger] groups@[i]).key@.len() == keys
                    && groups@[i].states@.len() == aggregates,
            forall|column: int|
                0 <= column < keys + aggregates ==> #[trigger] column_text(
                    groups_view(groups@),
                    keys as nat,
                    column,
                ) <= i32::MAX,
            columns@.len() == column,
            forall|floats: spec_fn(FloatOp) -> F64, j: int|
                #![trigger computes(*arithmetic, floats), columns@[j]]
                computes(*arithmetic, floats) && 0 <= j < column ==> columns@[j]@ == group_columns(
                    groups_view(groups@),
                    keys as nat,
                    aggregates as nat,
                    floats,
                )[j],
    {
        let mut values: Vec<ScalarValue> = Vec::new();
        for i in 0..groups.len()
            invariant
                column < keys + aggregates,
                total(*arithmetic),
                forall|i: int|
                    0 <= i < groups@.len() ==> (#[trigger] groups@[i]).key@.len() == keys
                        && groups@[i].states@.len() == aggregates,
                values@.len() == i,
                forall|j: int|
                    0 <= j < i ==> text_size((#[trigger] values@[j]).cell()) == text_size(
                        group_cell(groups_view(groups@)[j], keys as int, column as int, zeros()),
                    ),
                forall|floats: spec_fn(FloatOp) -> F64, j: int|
                    #![trigger computes(*arithmetic, floats), values@[j]]
                    computes(*arithmetic, floats) && 0 <= j < i ==> values@[j].cell()
                        == group_cell(
                        groups_view(groups@)[j],
                        keys as int,
                        column as int,
                        floats,
                    ),
        {
            assert(groups@[i as int].key@.len() == keys);
            if column < keys {
                values.push(groups[i].key[column].duplicate());
            } else {
                if let Ok(value) = groups[i].states[column - keys].finalize(arithmetic) {
                    values.push(value);
                }
            }
        }
        let ghost gathered = values@;
        proof {
            let cells = groups_view(groups@).map_values(
                |group: GroupView| group_cell(group, keys as int, column as int, zeros()),
            );
            assert forall|j: int| 0 <= j < cells.len() implies text_size(
                #[trigger] cells_of(values@)[j],
            ) <= text_size(cells[j]) by {
                assert(values@[j].cell() == cells_of(values@)[j]);
            }
            lemma_total_text_bound(cells_of(values@), cells);
            assert(column_text(groups_view(groups@), keys as nat, column as int) <= i32::MAX);
        }
        let array = scalar_values_to_array(values);
        assert forall|floats: spec_fn(FloatOp) -> F64| #[trigger]
            computes(*arithmetic, floats) implies array@ == group_columns(
            groups_view(groups@),
            keys as nat,
            aggregates as nat,
            floats,
        )[column as int] by {
            assert(cells_of(gathered) =~= groups_view(groups@).map_values(
                |group: GroupView| group_cell(group, keys as int, column as int, floats),
            ));
        }
        columns.push(array);
    }
    assert forall|floats: spec_fn(FloatOp) -> F64| #[trigger]
        computes(*arithmetic, floats) implies columns_of(columns@) == group_columns(
        groups_view(groups@),
        keys as nat,
        aggregates as nat,
        floats,
    ) by {
        assert(columns_of(columns@) =~= group_columns(
            groups_view(groups@),
            keys as nat,
            aggregates as nat,
            floats,
        ));
    }
    columns
}

/// Aggregation without groups.
#[verifier::spinoff_prover]
fn aggregate_all<E: Executor, V: Evaluator, G: Fn(FloatOp) -> F64>(
    child: E,
    specs: Vec<AggregateSpec<V>>,
    outputs: Vec<V>,
    arithmetic: &G,
) -> (result: ExecutionResult<DataChunk>)
    requires
        total(*arithmetic),
        can_aggregate_all(specs@, Seq::<V>::empty(), child.pending()),
        texts_fit(stream_view(child.pending()), specs@, Seq::<V>::empty()),
    ensures
        forall|floats: spec_fn(FloatOp) -> F64| #[trigger]
            computes(*arithmetic, floats) ==> chunk_view(result) == simple_outcome(
                stream_view(child.pending()),
                specs@,
                outputs@,
                floats,
            ),
{
    let mut source = child;
    let ghost chunks = stream_view(child.pending());
    let mut states = start_states(&specs);
    let mut has_data = false;
    let ghost mut current = starts(specs@);
    loop
        invariant
            all_alike(states_view(states@), current),
            run_chunks(specs@, starts(specs@), false, chunks, zeros()) == run_chunks(
                specs@,
                current,
                has_data,
                stream_view(source.pending()),
                zeros(),
            ),
            total(*arithmetic),
            can_aggregate_all(specs@, Seq::<V>::empty(), source.pending()),
            suited(states@, specs@),
            chunks == stream_view(child.pending()),
            forall|floats: spec_fn(FloatOp) -> F64| #[trigger]
                computes(*arithmetic, floats) ==> run_chunks(
                    specs@,
                    starts(specs@),
                    false,
                    chunks,
                    floats,
                ) == run_chunks(
                    specs@,
                    states_view(states@),
                    has_data,
                    stream_view(source.pending()),
                    floats,
                ),
        ensures
            all_alike(states_view(states@), current),
            run_chunks(specs@, starts(specs@), false, chunks, zeros()) == Ok::<
                (Seq<StateView>, bool),
                Seq<char>,
            >((current, has_data)),
            forall|floats: spec_fn(FloatOp) -> F64| #[trigger]
                computes(*arithmetic, floats) ==> run_chunks(
                    specs@,
                    starts(specs@),
                    false,
                    chunks,
                    floats,
                ) == Ok::<(Seq<StateView>, bool), Seq<char>>((states_view(states@), has_data)),
        decreases source.pending().len(),
    {
        let ghost before = source.pending();
        match source.next_chunk() {
            None => {
                break;
            },
            Some(next) => {
                assert(stream_view(source.pending()) =~= stream_view(before).drop_first());
                assert(stream_view(before)[0] == chunk_view(next));
                match next {
                    Err(error) => {
                        return Err(error);
                    },
                    Ok(chunk) => {
                        assert(before[0] == Ok::<DataChunk, ExecutionError>(chunk));
                        if !chunk.is_empty() {
                            has_data = true;
                            match update_rows(
                                &specs,
                                &mut states,
                                &chunk,
                                arithmetic,
                                Ghost(current),
                            ) {
                                Ok(_) => {
                                    proof {
                                        lemma_rest_aggregated(
                                            specs@,
                                            Seq::<V>::empty(),
                                            before,
                                        );
                                        current = run_rows(
                                            specs@,
                                            current,
                                            chunk@,
                                            0,
                                            zeros(),
                                        )->Ok_0;
                                    }
                                },
                                Err(error) => {
                                    return Err(error);
                                },
                            }
                        } else {
                            proof {
                                lemma_rest_aggregated(specs@, Seq::<V>::empty(), before);
                            }
                        }
                    },
                }
            },
        }
    }
    if !has_data {
        let columns = default_columns(&specs);
        return Ok(DataChunk::new(columns));
    }
    assert(texts_fit(chunks, specs@, Seq::<V>::empty()));
    assert(run_chunks(specs@, starts(specs@), false, chunks, zeros())->Ok_0.0 == current);
    assert forall|i: int| 0 <= i < states@.len() implies outcome_text((#[trigger] states@[i])@)
        <= i32::MAX by {
        assert(alike(states_view(states@)[i], current[i]));
        assert(outcome_text(current[i]) <= i32::MAX);
    }
    let columns = final_columns(&states, arithmetic);
    apply_outputs(&outputs, columns)
}

/// Aggregation with groups. There is no chunk where there was no row.
#[verifier::spinoff_prover]
fn aggregate_groups<E: Executor, V: Evaluator, G: Fn(FloatOp) -> F64>(
    child: E,
    specs: Vec<AggregateSpec<V>>,
    grouping: Vec<V>,
    outputs: Vec<V>,
    arithmetic: &G,
) -> (result: Option<ExecutionResult<DataChunk>>)
    requires
        total(*arithmetic),
        specs@.len() + grouping@.len() <= usize::MAX,
        can_aggregate_all(specs@, grouping@, child.pending()),
        grouping@.len() > 0,
        texts_fit(stream_view(child.pending()), specs@, grouping@),
    ensures
        forall|floats: spec_fn(FloatOp) -> F64| #[trigger]
            computes(*arithmetic, floats) ==> grouped_outcome(
                stream_view(child.pending()),
                specs@,
                grouping@,
                outputs@,
                floats,
            ) == match result {
                Some(chunk) => seq![chunk_view(chunk)],
                None => Seq::empty(),
            },
{
    let mut source = child;
    let ghost chunks = stream_view(child.pending());
    let mut groups: Vec<Group> = Vec::new();
    assert(groups_view(groups@) =~= Seq::empty());
    let ghost mut current = Seq::<GroupView>::empty();
    loop
        invariant
            groups_alike(groups_view(groups@), current),
            group_chunks(specs@, grouping@, Seq::empty(), chunks, zeros()) == group_chunks(
                specs@,
                grouping@,
                current,
                stream_view(source.pending()),
                zeros(),
            ),
            total(*arithmetic),
            can_aggregate_all(specs@, grouping@, source.pending()),
            groups_suited(groups@, specs@, grouping@.len()),
            chunks == stream_view(child.pending()),
            forall|floats: spec_fn(FloatOp) -> F64| #[trigger]
                computes(*arithmetic, floats) ==> group_chunks(
                    specs@,
                    grouping@,
                    Seq::empty(),
                    chunks,
                    floats,
                ) == group_chunks(
                    specs@,
                    grouping@,
                    groups_view(groups@),
                    stream_view(source.pending()),
                    floats,
                ),
        ensures
            groups_alike(groups_view(groups@), current),
            group_chunks(specs@, grouping@, Seq::empty(), chunks, zeros()) == Ok::<
                Seq<GroupView>,
                Seq<char>,
            >(current),
            groups_suited(groups@, specs@, grouping@.len()),
            forall|floats: spec_fn(FloatOp) -> F64| #[trigger]
                computes(*arithmetic, floats) ==> group_chunks(
                    specs@,
                    grouping@,
                    Seq::empty(),
                    chunks,
                    floats,
                ) == Ok::<Seq<GroupView>, Seq<char>>(groups_view(groups@)),
        decreases source.pending().len(),
    {
        let ghost before = source.pending();
        match source.next_chunk() {
            None => {
                break;
            },
            Some(next) => {
                assert(stream_view(source.pending()) =~= stream_view(before).drop_first());
                assert(stream_view(before)[0] == chunk_view(next));
                match next {
                    Err(error) => {
                        return Some(Err(error));
                    },
                    Ok(chunk) => {
                        assert(before[0] == Ok::<DataChunk, ExecutionError>(chunk));
                        match update_groups(
                            &specs,
                            &grouping,
                            &mut groups,
                            &chunk,
                            arithmetic,
                            Ghost(current),
                        ) {
                            Ok(_) => {
                                proof {
                                    lemma_rest_aggregated(specs@, grouping@, before);
                                    current = group_rows(
                                        specs@,
                                        grouping@,
                                        current,
                                        chunk@,
                                        0,
                                        zeros(),
                                    )->Ok_0;
                                }
                            },
                            Err(error) => {
                                return Some(Err(error));
                            },
                        }
                    },
                }
            },
        }
    }
    if groups.len() == 0 {
        return None;
    }
    assert(texts_fit(chunks, specs@, grouping@));
    assert(group_chunks(specs@, grouping@, Seq::empty(), chunks, zeros())->Ok_0 == current);
    assert forall|column: int| 0 <= column < grouping@.len() + specs@.len() implies
        #[trigger] column_text(groups_view(groups@), grouping@.len(), column) <= i32::MAX by {
        assert forall|i: int| 0 <= i < groups@.len() implies (
        #[trigger] groups_view(groups@)[i]).key.len() == grouping@.len() && column
            < grouping@.len() + groups_view(groups@)[i].states.len() by {
            assert(groups@[i].key@.len() == grouping@.len());
        }
        lemma_column_alike(groups_view(groups@), current, grouping@.len(), column);
        assert(column_text(current, grouping@.len(), column) <= i32::MAX);
    }
    let columns = grouped_columns(&groups, grouping.len(), specs.len(), arithmetic);
    Some(apply_outputs(&outputs, columns))
}

/// What an aggregation is made of.
#[derive(Debug)]
pub struct AggregateBuilder<E, V> {
    /// Where the rows come from.
    pub child: E,
    /// The aggregates.
    pub aggregate_specs: Vec<AggregateSpec<V>>,
    /// The expressions by which rows are grouped.
    pub group_by_expressions: Vec<V>,
    /// The expressions over the aggregated columns that are handed out, like `1 + COUNT(*)`.
    pub output_expressions: Vec<V>,
}

impl<E, V> AggregateBuilder<E, V> {
    /// An aggregation. At least one aggregate function is required.
    pub fn new(
        child: E,
        aggregate_specs: Vec<AggregateSpec<V>>,
        group_by_expressions: Vec<V>,
        output_expressions: Vec<V>,
    ) -> (builder: Self)
        requires
            aggregate_specs@.len() > 0,
        ensures
            builder == (AggregateBuilder {
                child,
                aggregate_specs,
                group_by_expressions,
                output_expressions,
            }),
    {
        AggregateBuilder { child, aggregate_specs, group_by_expressions, output_expressions }
    }
}

impl<E: Executor, V: Evaluator> AggregateBuilder<E, V> {
    /// Aggregates all rows of the input.
    ///
    /// Without grouping expressions a single row comes out. With them, one row per group does, in
    /// the order in which the groups were first met: the values of the grouping expressions, then
    /// the aggregates. The first error of the input or of an expression is handed out in place of
    /// all that. The double-precision arithmetic is done by `arithmetic`.
    pub fn into_executor<G: Fn(FloatOp) -> F64>(self, arithmetic: G) -> (executor: Bridge<
        Vec<ExecutionResult<DataChunk>>,
    >)
        requires
            total(arithmetic),
            self.aggregate_specs@.len() > 0,
            self.aggregate_specs@.len() + self.group_by_expressions@.len() <= usize::MAX,
            can_aggregate_all(
                self.aggregate_specs@,
                self.group_by_expressions@,
                self.child.pending(),
            ),
            texts_fit(
                stream_view(self.child.pending()),
                self.aggregate_specs@,
                self.group_by_expressions@,
            ),
        ensures
            forall|floats: spec_fn(FloatOp) -> F64| #[trigger]
                computes(arithmetic, floats) ==> stream_view(executor.pending()) == aggregated(
                    stream_view(self.child.pending()),
                    self.aggregate_specs@,
                    self.group_by_expressions@,
                    self.output_expressions@,
                    floats,
                ),
    {
        let AggregateBuilder { child, aggregate_specs, group_by_expressions, output_expressions } =
            self;
        let mut chunks: Vec<ExecutionResult<DataChunk>> = Vec::new();
        assert(stream_view(chunks@) =~= Seq::empty());
        if group_by_expressions.len() == 0 {
            let chunk = aggregate_all(child, aggregate_specs, output_expressions, &arithmetic);
            chunks.push(chunk);
            assert(stream_view(chunks@) =~= seq![chunk_view(chunk)]);
        } else {
            match aggregate_groups(
                child,
                aggregate_specs,
                group_by_expressions,
                output_expressions,
                &arithmetic,
            ) {
                Some(chunk) => {
                    chunks.push(chunk);
                    assert(stream_view(chunks@) =~= seq![chunk_view(chunk)]);
                },
                None => {},
            }
        }
        chunks.into_executor()
    }
}

/// An executor that aggregates the rows of another one.
pub fn aggregate<E: Executor, V: Evaluator, G: Fn(FloatOp) -> F64>(
    child: E,
    aggregate_specs: Vec<AggregateSpec<V>>,
    group_by_expressions: Vec<V>,
    output_expressions: Vec<V>,
    arithmetic: G,
) -> (executor: Bridge<Vec<ExecutionResult<DataChunk>>>)
    requires
        total(arithmetic),
        aggregate_specs@.len() > 0,
        aggregate_specs@.len() + group_by_expressions@.len() <= usize::MAX,
        can_aggregate_all(aggregate_specs@, group_by_expressions@, child.pending()),
        texts_fit(stream_view(child.pending()), aggregate_specs@, group_by_expressions@),
    ensures
        forall|floats: spec_fn(FloatOp) -> F64| #[trigger]
            computes(arithmetic, floats) ==> stream_view(executor.pending()) == aggregated(
                stream_view(child.pending()),
                aggregate_specs@,
                group_by_expressions@,
                output_expressions@,
                floats,
            ),
{
    AggregateBuilder::new(
        child,
        aggregate_specs,
        group_by_expressions,
        output_expressions,
    ).into_executor(arithmetic)
}

} // verus!
