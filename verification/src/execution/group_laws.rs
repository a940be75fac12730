//! What aggregation makes of the rows: which values each aggregate is over, and which rows each
//! group holds.

use vstd::prelude::*;

#[allow(unused_imports)]
use crate::common::array::{missing_cell, ArrayType, Cell, Column};
#[allow(unused_imports)]
use crate::common::chunk::{rectangular, row_count, row_of};
#[allow(unused_imports)]
use crate::common::value::F64;
#[allow(unused_imports)]
use crate::execution::aggregate::{
    aggregated, default_column, first_value, group_cell, group_chunks, group_columns, group_position,
    group_row, group_rows, output_columns, row_value, run_chunks, run_key, run_outputs, run_rows,
    run_specs, same_key, start_of, starts, with_group, AggregateSpec, GroupView,
};
#[allow(unused_imports)]
use crate::execution::collect::{collected, conform, first_present, sample_type};
#[allow(unused_imports)]
use crate::execution::evaluator::Evaluator;
#[allow(unused_imports)]
use crate::execution::laws::{after, distinct_keys};
#[allow(unused_imports)]
use crate::execution::state::{AggregateFunction, FloatOp, StateView};
#[allow(unused_imports)]
use crate::execution::stream_laws::{all_rows, all_there, chunk_rows};

verus! {

/// Whether a cell is what an expression gives on a row: the first element of its column, and null
/// where the column is one of nulls.
pub open spec fn gives<V: Evaluator>(expression: V, row: Seq<Column>, cell: Cell) -> bool {
    expression.value(row) matches Ok(column) && cell == if column.array_type == ArrayType::Null {
        Cell::Null
    } else {
        column.cells[0]
    }
}

/// Whether a cell is what an aggregate takes from a row: what its expression gives, or the number
/// one where it has none.
pub open spec fn takes<V: Evaluator>(
    spec: AggregateSpec<V>,
    row: Seq<Column>,
    cell: Cell,
) -> bool {
    match spec.expression {
        Some(expression) => gives(expression, row, cell),
        None => cell == Cell::Int64(Some(1)),
    }
}

/// Whether values are what an aggregate takes from rows, one from each.
pub open spec fn takes_all<V: Evaluator>(
    spec: AggregateSpec<V>,
    rows: Seq<Seq<Column>>,
    cells: Seq<Cell>,
) -> bool {
    &&& cells.len() == rows.len()
    &&& forall|j: int| 0 <= j < rows.len() ==> takes(spec, rows[j], #[trigger] cells[j])
}

proof fn lemma_row_value<V: Evaluator>(spec: AggregateSpec<V>, row: Seq<Column>)
    ensures
        row_value(spec, row) matches Ok(cell) ==> takes(spec, row, cell),
{
}

proof fn lemma_specs_from<V: Evaluator>(
    specs: Seq<AggregateSpec<V>>,
    states: Seq<StateView>,
    row: Seq<Column>,
    i: int,
    floats: spec_fn(FloatOp) -> F64,
)
    requires
        0 <= i <= specs.len(),
        states.len() == specs.len(),
    ensures
        run_specs(specs, states, row, i, floats) matches Ok(next) ==> {
            &&& next.len() == states.len()
            &&& forall|k: int| 0 <= k < i ==> #[trigger] next[k] == states[k]
            &&& forall|k: int|
                i <= k < specs.len() ==> row_value(specs[k], row) is Ok && #[trigger] next[k]
                    == states[k].with(Some(row_value(specs[k], row)->Ok_0), floats)
        },
    decreases specs.len() - i,
{
    if i < specs.len() {
        if let Ok(cell) = row_value(specs[i], row) {
            lemma_specs_from(
                specs,
                states.update(i, states[i].with(Some(cell), floats)),
                row,
                i + 1,
                floats,
            );
        }
    }
}

/// A row is taken into every aggregate, each with the value of its own expression, and no
/// aggregate has a part in another.
pub proof fn law_row_taken<V: Evaluator>(
    specs: Seq<AggregateSpec<V>>,
    states: Seq<StateView>,
    row: Seq<Column>,
    floats: spec_fn(FloatOp) -> F64,
) -> (cells: Seq<Cell>)
    requires
        states.len() == specs.len(),
    ensures
        run_specs(specs, states, row, 0, floats) matches Ok(next) ==> {
            &&& next.len() == states.len()
            &&& cells.len() == specs.len()
            &&& forall|k: int|
                0 <= k < specs.len() ==> takes(specs[k], row, cells[k]) && #[trigger] next[k]
                    == states[k].with(Some(cells[k]), floats)
        },
{
    lemma_specs_from(specs, states, row, 0, floats);
    let cells = Seq::new(specs.len(), |k: int| row_value(specs[k], row)->Ok_0);
    assert forall|k: int| 0 <= k < specs.len() && row_value(specs[k], row) is Ok implies takes(
        specs[k],
        row,
        #[trigger] cells[k],
    ) by {
        lemma_row_value(specs[k], row);
    }
    cells
}

/// The values that an aggregate took from the first rows, and the state it has come to.
spec fn so_far<V: Evaluator>(
    specs: Seq<AggregateSpec<V>>,
    begin: Seq<StateView>,
    states: Seq<StateView>,
    rows: Seq<Seq<Column>>,
    cells: Seq<Seq<Cell>>,
    floats: spec_fn(FloatOp) -> F64,
) -> bool {
    &&& states.len() == specs.len()
    &&& cells.len() == specs.len()
    &&& begin.len() == specs.len()
    &&& forall|k: int|
        0 <= k < specs.len() ==> takes_all(specs[k], rows, #[trigger] cells[k]) && states[k]
            == after(begin[k], cells[k], floats)
}

proof fn lemma_one_more<V: Evaluator>(
    specs: Seq<AggregateSpec<V>>,
    begin: Seq<StateView>,
    states: Seq<StateView>,
    rows: Seq<Seq<Column>>,
    cells: Seq<Seq<Cell>>,
    row: Seq<Column>,
    floats: spec_fn(FloatOp) -> F64,
) -> (more: Seq<Seq<Cell>>)
    requires
        so_far(specs, begin, states, rows, cells, floats),
        run_specs(specs, states, row, 0, floats) is Ok,
    ensures
        so_far(
            specs,
            begin,
            run_specs(specs, states, row, 0, floats)->Ok_0,
            rows.push(row),
            more,
            floats,
        ),
{
    let next = run_specs(specs, states, row, 0, floats)->Ok_0;
    let taken = law_row_taken(specs, states, row, floats);
    let more = Seq::new(specs.len(), |k: int| cells[k].push(taken[k]));
    assert forall|k: int| 0 <= k < specs.len() implies takes_all(
        specs[k],
        rows.push(row),
        #[trigger] more[k],
    ) && next[k] == after(begin[k], more[k], floats) by {
        assert(takes_all(specs[k], rows, cells[k]));
        assert(next[k] == states[k].with(Some(taken[k]), floats));
        assert(more[k].drop_last() =~= cells[k]);
        assert forall|j: int| 0 <= j < rows.push(row).len() implies takes(
            specs[k],
            rows.push(row)[j],
            #[trigger] more[k][j],
        ) by {
            if j < rows.len() {
                assert(takes(specs[k], rows[j], cells[k][j]));
            }
        }
    }
    more
}

proof fn lemma_rows_from<V: Evaluator>(
    specs: Seq<AggregateSpec<V>>,
    begin: Seq<StateView>,
    states: Seq<StateView>,
    rows: Seq<Seq<Column>>,
    cells: Seq<Seq<Cell>>,
    columns: Seq<Column>,
    i: int,
    floats: spec_fn(FloatOp) -> F64,
) -> (more: Seq<Seq<Cell>>)
    requires
        so_far(specs, begin, states, rows, cells, floats),
        0 <= i <= row_count(columns),
        run_rows(specs, states, columns, i, floats) is Ok,
    ensures
        so_far(
            specs,
            begin,
            run_rows(specs, states, columns, i, floats)->Ok_0,
            rows + chunk_rows(columns).skip(i),
            more,
            floats,
        ),
    decreases row_count(columns) - i,
{
    let left = chunk_rows(columns).skip(i);
    if i < row_count(columns) {
        let row = row_of(columns, i);
        let next = run_specs(specs, states, row, 0, floats)->Ok_0;
        let met = lemma_one_more(specs, begin, states, rows, cells, row, floats);
        assert(rows + left =~= rows.push(row) + chunk_rows(columns).skip(i + 1));
        lemma_rows_from(specs, begin, next, rows.push(row), met, columns, i + 1, floats)
    } else {
        assert(rows + left =~= rows);
        cells
    }
}

proof fn lemma_chunks_from<V: Evaluator>(
    specs: Seq<AggregateSpec<V>>,
    begin: Seq<StateView>,
    states: Seq<StateView>,
    has_data: bool,
    rows: Seq<Seq<Column>>,
    cells: Seq<Seq<Cell>>,
    chunks: Seq<Result<Seq<Column>, Seq<char>>>,
    floats: spec_fn(FloatOp) -> F64,
) -> (more: Seq<Seq<Cell>>)
    requires
        so_far(specs, begin, states, rows, cells, floats),
        run_chunks(specs, states, has_data, chunks, floats) is Ok,
    ensures
        so_far(
            specs,
            begin,
            run_chunks(specs, states, has_data, chunks, floats)->Ok_0.0,
            rows + all_rows(chunks),
            more,
            floats,
        ),
        run_chunks(specs, states, has_data, chunks, floats)->Ok_0.1 == (has_data || all_rows(
            chunks,
        ).len() > 0),
        all_there(chunks),
    decreases chunks.len(),
{
    if chunks.len() == 0 {
        assert(rows + all_rows(chunks) =~= rows);
        cells
    } else {
        let columns = chunks[0]->Ok_0;
        let rest = chunks.drop_first();
        let own = chunk_rows(columns);
        assert(rows + all_rows(chunks) =~= rows + own + all_rows(rest));
        let more = if row_count(columns) == 0 {
            assert(rows + own =~= rows);
            lemma_chunks_from(specs, begin, states, has_data, rows, cells, rest, floats)
        } else {
            let next = run_rows(specs, states, columns, 0, floats)->Ok_0;
            let met = lemma_rows_from(specs, begin, states, rows, cells, columns, 0, floats);
            assert(own.skip(0) =~= own);
            lemma_chunks_from(specs, begin, next, true, rows + own, met, rest, floats)
        };
        assert forall|i: int| 0 <= i < chunks.len() implies #[trigger] chunks[i] is Ok by {
            if i > 0 {
                assert(rest[i - 1] == chunks[i]);
            }
        }
        more
    }
}

/// Without groups, and with rows to aggregate, the result has one column for each aggregate with
/// one value: what the aggregate makes of the values of its expression on all rows of the input,
/// in their order.
pub proof fn law_all_rows_aggregated<V: Evaluator>(
    chunks: Seq<Result<Seq<Column>, Seq<char>>>,
    specs: Seq<AggregateSpec<V>>,
    floats: spec_fn(FloatOp) -> F64,
) -> (cells: Seq<Seq<Cell>>)
    requires
        all_rows(chunks).len() > 0,
        aggregated(chunks, specs, Seq::empty(), Seq::empty(), floats)[0] is Ok,
    ensures
        ({
            let result = aggregated(
                chunks,
                specs,
                Seq::empty(),
                Seq::empty(),
                floats,
            )[0]->Ok_0;
            &&& all_there(chunks)
            &&& result.len() == specs.len()
            &&& cells.len() == specs.len()
            &&& forall|k: int|
                0 <= k < specs.len() ==> {
                    let state = after(
                        StateView::start(specs[k].function, specs[k].distinct),
                        cells[k],
                        floats,
                    );
                    &&& takes_all(specs[k], all_rows(chunks), cells[k])
                    &&& (#[trigger] result[k]).cells == seq![state.outcome(floats)]
                    &&& result[k].array_type == state.outcome(floats).array_type()
                }
        }),
{
    let begin = starts(specs);
    let none = Seq::new(specs.len(), |k: int| Seq::<Cell>::empty());
    assert(so_far(specs, begin, begin, Seq::empty(), none, floats));
    let cells = lemma_chunks_from(
        specs,
        begin,
        begin,
        false,
        Seq::empty(),
        none,
        chunks,
        floats,
    );
    assert(Seq::<Seq<Column>>::empty() + all_rows(chunks) =~= all_rows(chunks));
    assert forall|k: int| 0 <= k < specs.len() implies takes_all(
        specs[k],
        all_rows(chunks),
        #[trigger] cells[k],
    ) by {}
    cells
}

/// Without groups and without a row, each aggregate that counts gives zero, and each other one
/// null.
pub proof fn law_no_rows_aggregated<V: Evaluator>(
    chunks: Seq<Result<Seq<Column>, Seq<char>>>,
    specs: Seq<AggregateSpec<V>>,
    outputs: Seq<V>,
    floats: spec_fn(FloatOp) -> F64,
)
    requires
        all_there(chunks),
        all_rows(chunks).len() == 0,
    ensures
        aggregated(chunks, specs, Seq::empty(), outputs, floats).len() == 1,
        aggregated(chunks, specs, Seq::empty(), outputs, floats)[0] matches Ok(result) && {
            &&& result.len() == specs.len()
            &&& forall|k: int|
                0 <= k < specs.len() ==> (#[trigger] result[k]).array_type == ArrayType::Int64
                    && result[k].cells == seq![
                    Cell::Int64(
                        if specs[k].function is Count || specs[k].function is CountExpression {
                            Some(0i64)
                        } else {
                            None
                        },
                    ),
                ]
        },
{
    lemma_no_rows(specs, starts(specs), false, chunks, floats);
}

proof fn lemma_no_rows<V: Evaluator>(
    specs: Seq<AggregateSpec<V>>,
    states: Seq<StateView>,
    has_data: bool,
    chunks: Seq<Result<Seq<Column>, Seq<char>>>,
    floats: spec_fn(FloatOp) -> F64,
)
    requires
        all_there(chunks),
        all_rows(chunks).len() == 0,
    ensures
        run_chunks(specs, states, has_data, chunks, floats) == Ok::<_, Seq<char>>(
            (states, has_data),
        ),
    decreases chunks.len(),
{
    if chunks.len() > 0 {
        let rest = chunks.drop_first();
        assert(chunks[0] is Ok);
        assert forall|i: int| 0 <= i < rest.len() implies #[trigger] rest[i] is Ok by {
            assert(rest[i] == chunks[i + 1]);
        }
        assert(chunk_rows(chunks[0]->Ok_0).len() == 0);
        lemma_no_rows(specs, states, has_data, rest, floats);
    }
}

proof fn lemma_key_from<V: Evaluator>(
    grouping: Seq<V>,
    row: Seq<Column>,
    done: Seq<Cell>,
    i: int,
)
    requires
        0 <= i <= grouping.len(),
        done.len() == i,
    ensures
        match run_key(grouping, row, done, i) {
            Ok(key) => {
                &&& key.len() == grouping.len()
                &&& forall|k: int| 0 <= k < i ==> #[trigger] key[k] == done[k]
                &&& forall|k: int|
                    i <= k < grouping.len() ==> gives(grouping[k], row, #[trigger] key[k])
            },
            Err(error) => exists|k: int|
                i <= k < grouping.len() && (#[trigger] grouping[k]).value(row) == Err::<
                    Column,
                    Seq<char>,
                >(error),
        },
    decreases grouping.len() - i,
{
    if i < grouping.len() {
        match first_value(grouping[i], row) {
            Ok(cell) => {
                lemma_key_from(grouping, row, done.push(cell), i + 1);
                if let Ok(key) = run_key(grouping, row, done, i) {
                    assert(key[i] == done.push(cell)[i]);
                    assert forall|k: int| 0 <= k < i implies #[trigger] key[k] == done[k] by {
                        assert(key[k] == done.push(cell)[k]);
                    }
                }
            },
            Err(error) => {
                assert(grouping[i].value(row) == Err::<Column, Seq<char>>(error));
            },
        }
    }
}

/// The key of a row has one value for each grouping expression, in their order: what the
/// expression gives on the row. Where there is none, one of the expressions has failed.
pub proof fn law_key_of_row<V: Evaluator>(grouping: Seq<V>, row: Seq<Column>)
    ensures
        match run_key(grouping, row, Seq::empty(), 0) {
            Ok(key) => {
                &&& key.len() == grouping.len()
                &&& forall|k: int|
                    0 <= k < grouping.len() ==> gives(grouping[k], row, #[trigger] key[k])
            },
            Err(error) => exists|k: int|
                0 <= k < grouping.len() && (#[trigger] grouping[k]).value(row) == Err::<
                    Column,
                    Seq<char>,
                >(error),
        },
{
    lemma_key_from(grouping, row, Seq::empty(), 0);
}

/// Whether values are the key of a row.
pub open spec fn is_key<V: Evaluator>(
    grouping: Seq<V>,
    row: Seq<Column>,
    key: Seq<Cell>,
) -> bool {
    &&& key.len() == grouping.len()
    &&& forall|k: int| 0 <= k < grouping.len() ==> gives(grouping[k], row, #[trigger] key[k])
}

/// The rows that went to a group, given where each row went.
pub open spec fn rows_at(rows: Seq<Seq<Column>>, homes: Seq<int>, g: int) -> Seq<Seq<Column>>
    decreases rows.len(),
{
    if rows.len() == 0 {
        Seq::empty()
    } else {
        let before = rows_at(rows.drop_last(), homes.drop_last(), g);
        if homes.last() == g {
            before.push(rows.last())
        } else {
            before
        }
    }
}

/// Whether the values that the aggregates of a group took are those of rows, and the states those
/// that they lead to.
pub open spec fn group_over<V: Evaluator>(
    specs: Seq<AggregateSpec<V>>,
    group: GroupView,
    rows: Seq<Seq<Column>>,
    cells: Seq<Seq<Cell>>,
    floats: spec_fn(FloatOp) -> F64,
) -> bool {
    &&& group.states.len() == specs.len()
    &&& cells.len() == specs.len()
    &&& forall|k: int|
        0 <= k < specs.len() ==> takes_all(specs[k], rows, #[trigger] cells[k])
            && group.states[k] == after(
            StateView::start(specs[k].function, specs[k].distinct),
            cells[k],
            floats,
        )
}

/// Whether groups hold rows: each row went to one group, whose key equals that of the row; the
/// groups stand in the order in which their first rows came, each with the key of its first row;
/// and each group's aggregates are over the rows that went to it.
pub open spec fn grouped<V: Evaluator>(
    specs: Seq<AggregateSpec<V>>,
    grouping: Seq<V>,
    groups: Seq<GroupView>,
    rows: Seq<Seq<Column>>,
    homes: Seq<int>,
    firsts: Seq<int>,
    cells: Seq<Seq<Seq<Cell>>>,
    floats: spec_fn(FloatOp) -> F64,
) -> bool {
    &&& homes.len() == rows.len()
    &&& firsts.len() == groups.len()
    &&& cells.len() == groups.len()
    &&& forall|j: int|
        0 <= j < rows.len() ==> 0 <= #[trigger] homes[j] < groups.len() && exists|key: Seq<Cell>|
            is_key(grouping, rows[j], key) && same_key(groups[homes[j]].key, key)
    &&& forall|g: int|
        0 <= g < groups.len() ==> {
            &&& 0 <= #[trigger] firsts[g] < rows.len()
            &&& homes[firsts[g]] == g
            &&& is_key(grouping, rows[firsts[g]], groups[g].key)
        }
    &&& forall|g: int, h: int|
        0 <= g < h < groups.len() ==> #[trigger] firsts[g] < #[trigger] firsts[h]
    &&& forall|j: int|
        #![trigger homes[j]]
        0 <= j < rows.len() ==> firsts[homes[j]] <= j
    &&& forall|g: int|
        0 <= g < groups.len() ==> group_over(
            specs,
            #[trigger] groups[g],
            rows_at(rows, homes, g),
            cells[g],
            floats,
        )
}

proof fn lemma_group_position(groups: Seq<GroupView>, key: Seq<Cell>, i: int)
    requires
        0 <= i <= groups.len(),
    ensures
        i <= group_position(groups, key, i) <= groups.len(),
        group_position(groups, key, i) < groups.len() ==> same_key(
            groups[group_position(groups, key, i)].key,
            key,
        ),
    decreases groups.len() - i,
{
    if i < groups.len() && !same_key(groups[i].key, key) {
        lemma_group_position(groups, key, i + 1);
    }
}

proof fn lemma_rows_at_push(
    rows: Seq<Seq<Column>>,
    homes: Seq<int>,
    g: int,
    row: Seq<Column>,
    home: int,
)
    requires
        rows.len() == homes.len(),
    ensures
        rows_at(rows.push(row), homes.push(home), g) == if home == g {
            rows_at(rows, homes, g).push(row)
        } else {
            rows_at(rows, homes, g)
        },
{
    assert(rows.push(row).drop_last() =~= rows);
    assert(homes.push(home).drop_last() =~= homes);
}

proof fn lemma_rows_at_none(rows: Seq<Seq<Column>>, homes: Seq<int>, g: int)
    requires
        rows.len() == homes.len(),
        forall|j: int| 0 <= j < homes.len() ==> #[trigger] homes[j] != g,
    ensures
        rows_at(rows, homes, g) == Seq::<Seq<Column>>::empty(),
    decreases rows.len(),
{
    if rows.len() > 0 {
        assert(homes.last() == homes[homes.len() - 1]);
        assert forall|j: int| 0 <= j < homes.drop_last().len() implies #[trigger] homes.drop_last()[
            j] != g by {
            assert(homes[j] != g);
        }
        lemma_rows_at_none(rows.drop_last(), homes.drop_last(), g);
    }
}

/// One more row, when the key is compared with its own: the keys must be equal to themselves.
proof fn lemma_grouped_row<V: Evaluator>(
    specs: Seq<AggregateSpec<V>>,
    grouping: Seq<V>,
    groups: Seq<GroupView>,
    rows: Seq<Seq<Column>>,
    homes: Seq<int>,
    firsts: Seq<int>,
    cells: Seq<Seq<Seq<Cell>>>,
    row: Seq<Column>,
    floats: spec_fn(FloatOp) -> F64,
) -> (told: (Seq<int>, Seq<int>, Seq<Seq<Seq<Cell>>>))
    requires
        grouped(specs, grouping, groups, rows, homes, firsts, cells, floats),
        group_row(specs, grouping, groups, row, floats) is Ok,
        scalar_key(grouping, row),
    ensures
        grouped(
            specs,
            grouping,
            group_row(specs, grouping, groups, row, floats)->Ok_0,
            rows.push(row),
            told.0,
            told.1,
            told.2,
            floats,
        ),
{
    let key = run_key(grouping, row, Seq::empty(), 0)->Ok_0;
    law_key_of_row(grouping, row);
    lemma_group_position(groups, key, 0);
    let at = group_position(groups, key, 0);
    let all = with_group(groups, key, starts(specs));
    let next = group_row(specs, grouping, groups, row, floats)->Ok_0;
    let states = run_specs(specs, all[at].states, row, 0, floats)->Ok_0;
    assert(next == all.update(at, GroupView { key: all[at].key, states }));
    let homes2 = homes.push(at);
    let rows2 = rows.push(row);
    let firsts2 = if at < groups.len() {
        firsts
    } else {
        firsts.push(rows.len() as int)
    };
    let before_cells = if at < groups.len() {
        cells[at]
    } else {
        Seq::new(specs.len(), |k: int| Seq::<Cell>::empty())
    };
    let before_rows = rows_at(rows, homes, at);
    if at == groups.len() {
        lemma_rows_at_none(rows, homes, at);
        assert forall|k: int| 0 <= k < key.len() implies (#[trigger] key[k]).matches(
            key[k],
            false,
        ) by {
            assert(gives(grouping[k], row, key[k]));
            assert(!(key[k] is Other));
            crate::common::array::lemma_cell_matches_self(key[k], false);
        }
    }
    let begin = starts(specs);
    assert(group_over(specs, all[at], before_rows, before_cells, floats)) by {
        if at < groups.len() {
            assert(group_over(specs, groups[at], before_rows, cells[at], floats));
        } else {
            assert forall|k: int| 0 <= k < specs.len() implies takes_all(
                specs[k],
                before_rows,
                #[trigger] before_cells[k],
            ) && all[at].states[k] == after(
                StateView::start(specs[k].function, specs[k].distinct),
                before_cells[k],
                floats,
            ) by {}
        }
    }
    assert(so_far(specs, begin, all[at].states, before_rows, before_cells, floats));
    let met = lemma_one_more(
        specs,
        begin,
        all[at].states,
        before_rows,
        before_cells,
        row,
        floats,
    );
    let cells2 = if at < groups.len() {
        cells.update(at, met)
    } else {
        cells.push(met)
    };
    assert forall|g: int| 0 <= g < next.len() implies group_over(
        specs,
        #[trigger] next[g],
        rows_at(rows2, homes2, g),
        cells2[g],
        floats,
    ) by {
        lemma_rows_at_push(rows, homes, g, row, at);
        if g == at {
            assert(so_far(specs, begin, states, before_rows.push(row), met, floats));
        } else {
            assert(group_over(specs, groups[g], rows_at(rows, homes, g), cells[g], floats));
        }
    }
    assert forall|j: int| 0 <= j < rows2.len() implies 0 <= #[trigger] homes2[j] < next.len()
        && exists|key: Seq<Cell>|
            is_key(grouping, rows2[j], key) && same_key(next[homes2[j]].key, key) by {
        if j < rows.len() {
            assert(homes[j] == homes2[j]);
            let own = choose|own: Seq<Cell>|
                is_key(grouping, rows[j], own) && same_key(groups[homes[j]].key, own);
            assert(is_key(grouping, rows2[j], own) && same_key(next[homes2[j]].key, own));
        } else {
            assert(is_key(grouping, rows2[j], key));
            assert(same_key(next[at].key, key));
        }
    }
    assert forall|g: int| 0 <= g < next.len() implies {
        &&& 0 <= #[trigger] firsts2[g] < rows2.len()
        &&& homes2[firsts2[g]] == g
        &&& is_key(grouping, rows2[firsts2[g]], next[g].key)
    } by {
        if g < groups.len() {
            assert(firsts[g] == firsts2[g]);
            assert(rows2[firsts[g]] == rows[firsts[g]]);
        }
    }
    assert forall|j: int|
        #![trigger homes2[j]]
        0 <= j < rows2.len() implies firsts2[homes2[j]] <= j by {
        if j < rows.len() {
            assert(homes[j] == homes2[j]);
        } else if at < groups.len() {
            assert(firsts[at] < rows.len());
        }
    }
    (homes2, firsts2, cells2)
}

/// Whether the values of a key are of types with scalar values.
pub open spec fn scalar_key<V: Evaluator>(grouping: Seq<V>, row: Seq<Column>) -> bool {
    forall|k: int, cell: Cell|
        0 <= k < grouping.len() && #[trigger] gives(grouping[k], row, cell) ==> !(cell is Other)
}

proof fn lemma_grouped_rows<V: Evaluator>(
    specs: Seq<AggregateSpec<V>>,
    grouping: Seq<V>,
    groups: Seq<GroupView>,
    rows: Seq<Seq<Column>>,
    homes: Seq<int>,
    firsts: Seq<int>,
    cells: Seq<Seq<Seq<Cell>>>,
    columns: Seq<Column>,
    i: int,
    floats: spec_fn(FloatOp) -> F64,
) -> (told: (Seq<int>, Seq<int>, Seq<Seq<Seq<Cell>>>))
    requires
        grouped(specs, grouping, groups, rows, homes, firsts, cells, floats),
        0 <= i <= row_count(columns),
        group_rows(specs, grouping, groups, columns, i, floats) is Ok,
        forall|k: int|
            0 <= k < chunk_rows(columns).len() ==> scalar_key(
                grouping,
                #[trigger] chunk_rows(columns)[k],
            ),
    ensures
        grouped(
            specs,
            grouping,
            group_rows(specs, grouping, groups, columns, i, floats)->Ok_0,
            rows + chunk_rows(columns).skip(i),
            told.0,
            told.1,
            told.2,
            floats,
        ),
    decreases row_count(columns) - i,
{
    let left = chunk_rows(columns).skip(i);
    if i < row_count(columns) {
        let row = row_of(columns, i);
        assert(chunk_rows(columns)[i] == row);
        let next = group_row(specs, grouping, groups, row, floats)->Ok_0;
        let (homes2, firsts2, cells2) = lemma_grouped_row(
            specs,
            grouping,
            groups,
            rows,
            homes,
            firsts,
            cells,
            row,
            floats,
        );
        assert(rows + left =~= rows.push(row) + chunk_rows(columns).skip(i + 1));
        lemma_grouped_rows(
            specs,
            grouping,
            next,
            rows.push(row),
            homes2,
            firsts2,
            cells2,
            columns,
            i + 1,
            floats,
        )
    } else {
        assert(rows + left =~= rows);
        (homes, firsts, cells)
    }
}

proof fn lemma_grouped_chunks<V: Evaluator>(
    specs: Seq<AggregateSpec<V>>,
    grouping: Seq<V>,
    groups: Seq<GroupView>,
    rows: Seq<Seq<Column>>,
    homes: Seq<int>,
    firsts: Seq<int>,
    cells: Seq<Seq<Seq<Cell>>>,
    chunks: Seq<Result<Seq<Column>, Seq<char>>>,
    floats: spec_fn(FloatOp) -> F64,
) -> (told: (Seq<int>, Seq<int>, Seq<Seq<Seq<Cell>>>))
    requires
        grouped(specs, grouping, groups, rows, homes, firsts, cells, floats),
        group_chunks(specs, grouping, groups, chunks, floats) is Ok,
        forall|k: int|
            0 <= k < all_rows(chunks).len() ==> scalar_key(grouping, #[trigger] all_rows(chunks)[k]),
    ensures
        grouped(
            specs,
            grouping,
            group_chunks(specs, grouping, groups, chunks, floats)->Ok_0,
            rows + all_rows(chunks),
            told.0,
            told.1,
            told.2,
            floats,
        ),
    decreases chunks.len(),
{
    if chunks.len() == 0 {
        assert(rows + all_rows(chunks) =~= rows);
        (homes, firsts, cells)
    } else {
        let columns = chunks[0]->Ok_0;
        let rest = chunks.drop_first();
        let own = chunk_rows(columns);
        let next = group_rows(specs, grouping, groups, columns, 0, floats)->Ok_0;
        assert forall|k: int| 0 <= k < own.len() implies scalar_key(grouping, #[trigger] own[k]) by {
            assert(all_rows(chunks)[k] == own[k]);
        }
        assert forall|k: int| 0 <= k < all_rows(rest).len() implies scalar_key(
            grouping,
            #[trigger] all_rows(rest)[k],
        ) by {
            assert(all_rows(chunks)[own.len() + k] == all_rows(rest)[k]);
        }
        let (homes2, firsts2, cells2) = lemma_grouped_rows(
            specs,
            grouping,
            groups,
            rows,
            homes,
            firsts,
            cells,
            columns,
            0,
            floats,
        );
        assert(own.skip(0) =~= own);
        assert(rows + all_rows(chunks) =~= rows + own + all_rows(rest));
        lemma_grouped_chunks(
            specs,
            grouping,
            next,
            rows + own,
            homes2,
            firsts2,
            cells2,
            rest,
            floats,
        )
    }
}

/// With groups, every row of the input goes to one group, the one whose key equals its own; the
/// groups stand in the order in which their first rows came, each with the key of its first row;
/// and each aggregate of a group is over the values of its expression on the rows of that group
/// and no others, in their order.
pub proof fn law_rows_grouped<V: Evaluator>(
    chunks: Seq<Result<Seq<Column>, Seq<char>>>,
    specs: Seq<AggregateSpec<V>>,
    grouping: Seq<V>,
    floats: spec_fn(FloatOp) -> F64,
) -> (told: (Seq<int>, Seq<int>, Seq<Seq<Seq<Cell>>>))
    requires
        group_chunks(specs, grouping, Seq::empty(), chunks, floats) is Ok,
        forall|k: int|
            0 <= k < all_rows(chunks).len() ==> scalar_key(grouping, #[trigger] all_rows(chunks)[k]),
    ensures
        grouped(
            specs,
            grouping,
            group_chunks(specs, grouping, Seq::empty(), chunks, floats)->Ok_0,
            all_rows(chunks),
            told.0,
            told.1,
            told.2,
            floats,
        ),
{
    assert(Seq::<Seq<Column>>::empty() + all_rows(chunks) =~= all_rows(chunks));
    lemma_grouped_chunks(
        specs,
        grouping,
        Seq::empty(),
        Seq::empty(),
        Seq::empty(),
        Seq::empty(),
        Seq::empty(),
        chunks,
        floats,
    )
}

proof fn lemma_first_present(cells: Seq<Cell>, i: int)
    requires
        0 <= i <= cells.len(),
    ensures
        i <= first_present(cells, i) <= cells.len(),
        forall|k: int| i <= k < first_present(cells, i) ==> (#[trigger] cells[k]).missing(),
        first_present(cells, i) < cells.len() ==> !cells[first_present(cells, i)].missing(),
    decreases cells.len() - i,
{
    if i < cells.len() && cells[i].missing() {
        lemma_first_present(cells, i + 1);
    }
}

/// Whether a value is the first among values that is not missing.
pub open spec fn is_first_present(cells: Seq<Cell>, at: int) -> bool {
    &&& 0 <= at < cells.len()
    &&& !cells[at].missing()
    &&& forall|k: int| 0 <= k < at ==> (#[trigger] cells[k]).missing()
}

/// A column that is made of values has as many elements, all of its type. Where a first value is
/// not missing, and is of a type that arrays have, the column has the type of that value, and each
/// value of this type is kept in its place; every other element is missing.
pub proof fn law_collected(cells: Seq<Cell>, at: int, i: int)
    requires
        0 <= i < cells.len(),
        is_first_present(cells, at),
    ensures
        ({
            let column = collected(cells);
            let kept = cells[at].array_type() != ArrayType::Other;
            &&& column.cells.len() == cells.len()
            &&& column.array_type == if kept {
                cells[at].array_type()
            } else {
                ArrayType::Int64
            }
            &&& column.cells[i].array_type() == column.array_type
            &&& kept && cells[i].array_type() == cells[at].array_type() ==> column.cells[i]
                == cells[i]
            &&& !kept || cells[i].array_type() != cells[at].array_type()
                ==> column.cells[i].missing()
        }),
{
    lemma_first_present(cells, 0);
    let found = first_present(cells, 0);
    assert(found == at) by {
        if found < at {
            assert(cells[found].missing());
        } else if found > at {
            assert(cells[at].missing());
        }
    }
}

/// A column that is made of missing values has as many elements, and all are missing.
pub proof fn law_collected_missing(cells: Seq<Cell>)
    requires
        forall|k: int| 0 <= k < cells.len() ==> (#[trigger] cells[k]).missing(),
    ensures
        collected(cells).cells.len() == cells.len(),
        forall|k: int| 0 <= k < cells.len() ==> (#[trigger] collected(cells).cells[k]).missing(),
{
    lemma_first_present(cells, 0);
}

/// With groups the result has a column for each value of the key, in their order, and then one for
/// each aggregate; each is made of the values of the groups, in the order of the groups.
pub proof fn law_group_columns(
    groups: Seq<GroupView>,
    keys: nat,
    aggregates: nat,
    floats: spec_fn(FloatOp) -> F64,
    column: int,
) -> (cells: Seq<Cell>)
    requires
        0 <= column < keys + aggregates,
    ensures
        group_columns(groups, keys, aggregates, floats).len() == keys + aggregates,
        group_columns(groups, keys, aggregates, floats)[column] == collected(cells),
        cells.len() == groups.len(),
        forall|g: int|
            0 <= g < groups.len() ==> #[trigger] cells[g] == if column < keys {
                groups[g].key[column]
            } else {
                groups[g].states[column - keys].outcome(floats)
            },
{
    groups.map_values(|group: GroupView| group_cell(group, keys as int, column, floats))
}

proof fn lemma_outputs_from<V: Evaluator>(
    outputs: Seq<V>,
    columns: Seq<Column>,
    done: Seq<Column>,
    i: int,
)
    requires
        0 <= i <= outputs.len(),
        done.len() == i,
    ensures
        match run_outputs(outputs, columns, done, i) {
            Ok(result) => {
                &&& result.len() == outputs.len()
                &&& forall|k: int| 0 <= k < i ==> #[trigger] result[k] == done[k]
                &&& forall|k: int|
                    i <= k < outputs.len() ==> outputs[k].value(columns) == Ok::<
                        Column,
                        Seq<char>,
                    >(#[trigger] result[k])
            },
            Err(error) => exists|k: int|
                i <= k < outputs.len() && (#[trigger] outputs[k]).value(columns) == Err::<
                    Column,
                    Seq<char>,
                >(error) && forall|m: int|
                    i <= m < k ==> (#[trigger] outputs[m]).value(columns) is Ok,
        },
    decreases outputs.len() - i,
{
    if i < outputs.len() {
        match outputs[i].value(columns) {
            Ok(column) => {
                lemma_outputs_from(outputs, columns, done.push(column), i + 1);
                match run_outputs(outputs, columns, done, i) {
                    Ok(result) => {
                        assert(result[i] == done.push(column)[i]);
                        assert forall|k: int| 0 <= k < i implies #[trigger] result[k]
                            == done[k] by {
                            assert(result[k] == done.push(column)[k]);
                        }
                    },
                    Err(error) => {},
                }
            },
            Err(error) => {},
        }
    }
}

/// What is handed out are the columns that the output expressions give on the aggregated columns,
/// one for each, or the error of the first that fails; without output expressions the aggregated
/// columns themselves.
pub proof fn law_outputs<V: Evaluator>(outputs: Seq<V>, columns: Seq<Column>)
    ensures
        outputs.len() == 0 ==> output_columns(outputs, columns) == Ok::<
            Seq<Column>,
            Seq<char>,
        >(columns),
        outputs.len() > 0 ==> match output_columns(outputs, columns) {
            Ok(result) => {
                &&& result.len() == outputs.len()
                &&& forall|k: int|
                    0 <= k < outputs.len() ==> outputs[k].value(columns) == Ok::<
                        Column,
                        Seq<char>,
                    >(#[trigger] result[k])
            },
            Err(error) => exists|k: int|
                0 <= k < outputs.len() && (#[trigger] outputs[k]).value(columns) == Err::<
                    Column,
                    Seq<char>,
                >(error) && forall|m: int|
                    0 <= m < k ==> (#[trigger] outputs[m]).value(columns) is Ok,
        },
{
    lemma_outputs_from(outputs, columns, Seq::empty(), 0);
}

/// A row of a chunk has all its columns, each with its type and only the element in that row.
pub proof fn law_row_of(columns: Seq<Column>, row: int, c: int)
    requires
        rectangular(columns),
        0 <= row < row_count(columns),
        0 <= c < columns.len(),
    ensures
        row_of(columns, row).len() == columns.len(),
        row_of(columns, row)[c].array_type == columns[c].array_type,
        row_of(columns, row)[c].cells == seq![columns[c].cells[row]],
        row_count(columns) == columns[c].cells.len(),
{
    assert(columns[c].cells.subrange(row, row + 1) =~= seq![columns[c].cells[row]]);
}

/// A row on which a grouping expression fails is refused with the error of the first that does.
pub proof fn law_first_key_error<V: Evaluator>(
    grouping: Seq<V>,
    row: Seq<Column>,
    k: int,
    error: Seq<char>,
)
    requires
        0 <= k < grouping.len(),
        grouping[k].value(row) == Err::<Column, Seq<char>>(error),
        forall|m: int| 0 <= m < k ==> (#[trigger] grouping[m]).value(row) is Ok,
    ensures
        run_key(grouping, row, Seq::empty(), 0) == Err::<Seq<Cell>, Seq<char>>(error),
{
    lemma_first_key_error(grouping, row, Seq::empty(), 0, k, error);
}

proof fn lemma_first_key_error<V: Evaluator>(
    grouping: Seq<V>,
    row: Seq<Column>,
    done: Seq<Cell>,
    i: int,
    k: int,
    error: Seq<char>,
)
    requires
        0 <= i <= k < grouping.len(),
        grouping[k].value(row) == Err::<Column, Seq<char>>(error),
        forall|m: int| 0 <= m < k ==> (#[trigger] grouping[m]).value(row) is Ok,
    ensures
        run_key(grouping, row, done, i) == Err::<Seq<Cell>, Seq<char>>(error),
    decreases k - i,
{
    if i < k {
        assert(grouping[i].value(row) is Ok);
        let cell = first_value(grouping[i], row)->Ok_0;
        lemma_first_key_error(grouping, row, done.push(cell), i + 1, k, error);
    }
}

/// A row on which the expression of an aggregate fails is refused with the error of the first that
/// does.
pub proof fn law_first_aggregate_error<V: Evaluator>(
    specs: Seq<AggregateSpec<V>>,
    states: Seq<StateView>,
    row: Seq<Column>,
    k: int,
    error: Seq<char>,
    floats: spec_fn(FloatOp) -> F64,
)
    requires
        0 <= k < specs.len(),
        specs[k].expression matches Some(expression) && expression.value(row) == Err::<
            Column,
            Seq<char>,
        >(error),
        forall|m: int|
            0 <= m < k ==> ((#[trigger] specs[m]).expression matches Some(expression)
                ==> expression.value(row) is Ok),
    ensures
        run_specs(specs, states, row, 0, floats) == Err::<Seq<StateView>, Seq<char>>(error),
{
    lemma_first_aggregate_error(specs, states, row, 0, k, error, floats);
}

proof fn lemma_first_aggregate_error<V: Evaluator>(
    specs: Seq<AggregateSpec<V>>,
    states: Seq<StateView>,
    row: Seq<Column>,
    i: int,
    k: int,
    error: Seq<char>,
    floats: spec_fn(FloatOp) -> F64,
)
    requires
        0 <= i <= k < specs.len(),
        specs[k].expression matches Some(expression) && expression.value(row) == Err::<
            Column,
            Seq<char>,
        >(error),
        forall|m: int|
            0 <= m < k ==> ((#[trigger] specs[m]).expression matches Some(expression)
                ==> expression.value(row) is Ok),
    ensures
        run_specs(specs, states, row, i, floats) == Err::<Seq<StateView>, Seq<char>>(error),
    decreases k - i,
{
    if i < k {
        assert(specs[i].expression matches Some(expression) ==> expression.value(row) is Ok);
        let cell = row_value(specs[i], row)->Ok_0;
        lemma_first_aggregate_error(
            specs,
            states.update(i, states[i].with(Some(cell), floats)),
            row,
            i + 1,
            k,
            error,
            floats,
        );
    }
}

/// With groups, the key of a row is worked out before its aggregates: where both fail, the error is
/// that of the key.
pub proof fn law_key_error_first<V: Evaluator>(
    specs: Seq<AggregateSpec<V>>,
    grouping: Seq<V>,
    groups: Seq<GroupView>,
    row: Seq<Column>,
    k: int,
    error: Seq<char>,
    floats: spec_fn(FloatOp) -> F64,
)
    requires
        0 <= k < grouping.len(),
        grouping[k].value(row) == Err::<Column, Seq<char>>(error),
        forall|m: int| 0 <= m < k ==> (#[trigger] grouping[m]).value(row) is Ok,
    ensures
        group_row(specs, grouping, groups, row, floats) == Err::<Seq<GroupView>, Seq<char>>(error),
{
    law_first_key_error(grouping, row, k, error);
}

proof fn lemma_some_group<V: Evaluator>(
    specs: Seq<AggregateSpec<V>>,
    grouping: Seq<V>,
    groups: Seq<GroupView>,
    columns: Seq<Column>,
    i: int,
    floats: spec_fn(FloatOp) -> F64,
)
    requires
        0 <= i <= row_count(columns),
        group_rows(specs, grouping, groups, columns, i, floats) is Ok,
    ensures
        group_rows(specs, grouping, groups, columns, i, floats)->Ok_0.len() >= groups.len(),
        group_rows(specs, grouping, groups, columns, i, floats)->Ok_0.len() == 0 <==> groups.len()
            == 0 && i == row_count(columns),
    decreases row_count(columns) - i,
{
    if i < row_count(columns) {
        let next = group_row(specs, grouping, groups, row_of(columns, i), floats)->Ok_0;
        assert(next.len() >= groups.len() && next.len() > 0) by {
            let key = run_key(grouping, row_of(columns, i), Seq::empty(), 0)->Ok_0;
            lemma_group_position(groups, key, 0);
        }
        lemma_some_group(specs, grouping, next, columns, i + 1, floats);
    }
}

proof fn lemma_some_group_of_all<V: Evaluator>(
    specs: Seq<AggregateSpec<V>>,
    grouping: Seq<V>,
    groups: Seq<GroupView>,
    chunks: Seq<Result<Seq<Column>, Seq<char>>>,
    floats: spec_fn(FloatOp) -> F64,
)
    requires
        group_chunks(specs, grouping, groups, chunks, floats) is Ok,
    ensures
        group_chunks(specs, grouping, groups, chunks, floats)->Ok_0.len() == 0 <==> groups.len()
            == 0 && all_rows(chunks).len() == 0,
    decreases chunks.len(),
{
    if chunks.len() > 0 {
        let columns = chunks[0]->Ok_0;
        let next = group_rows(specs, grouping, groups, columns, 0, floats)->Ok_0;
        lemma_some_group(specs, grouping, groups, columns, 0, floats);
        lemma_some_group_of_all(specs, grouping, next, chunks.drop_first(), floats);
    }
}

/// With groups, nothing comes out exactly where no row came in and nothing failed; else one chunk
/// does, which has a row for each group.
pub proof fn law_groups_come_out<V: Evaluator>(
    chunks: Seq<Result<Seq<Column>, Seq<char>>>,
    specs: Seq<AggregateSpec<V>>,
    grouping: Seq<V>,
    outputs: Seq<V>,
    floats: spec_fn(FloatOp) -> F64,
)
    requires
        grouping.len() > 0,
        group_chunks(specs, grouping, Seq::empty(), chunks, floats) is Ok,
    ensures
        ({
            let out = aggregated(chunks, specs, grouping, outputs, floats);
            let groups = group_chunks(specs, grouping, Seq::empty(), chunks, floats)->Ok_0;
            &&& out.len() == 0 <==> all_rows(chunks).len() == 0
            &&& all_rows(chunks).len() > 0 ==> out.len() == 1
            &&& all_rows(chunks).len() > 0 && outputs.len() == 0 ==> {
                &&& out[0] is Ok
                &&& out[0]->Ok_0.len() == grouping.len() + specs.len()
                &&& forall|c: int|
                    0 <= c < out[0]->Ok_0.len() ==> (#[trigger] out[0]->Ok_0[c]).cells.len()
                        == groups.len()
            }
        }),
{
    lemma_some_group_of_all(specs, grouping, Seq::empty(), chunks, floats);
}

} // verus!
