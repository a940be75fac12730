//! What holds of aggregation over a whole input: how it is cut into chunks, and what an error does.

use vstd::prelude::*;

#[allow(unused_imports)]
use crate::common::array::Column;
#[allow(unused_imports)]
use crate::common::chunk::{row_count, row_of};
#[allow(unused_imports)]
use crate::common::value::F64;
#[allow(unused_imports)]
use crate::execution::aggregate::{
    aggregated, group_chunks, group_position, group_row, group_rows, lemma_spec_error, row_error,
    run_chunks, run_key, run_rows, run_specs, spec_error, starts, with_group, AggregateSpec,
    GroupView,
};
#[allow(unused_imports)]
use crate::execution::evaluator::Evaluator;
#[allow(unused_imports)]
use crate::execution::state::{FloatOp, StateView};

verus! {

/// The rows of a chunk.
pub open spec fn chunk_rows(columns: Seq<Column>) -> Seq<Seq<Column>> {
    Seq::new(row_count(columns), |i: int| row_of(columns, i))
}

/// The rows of the chunks of an input, one behind the other.
pub open spec fn all_rows(chunks: Seq<Result<Seq<Column>, Seq<char>>>) -> Seq<Seq<Column>>
    decreases chunks.len(),
{
    if chunks.len() == 0 {
        Seq::empty()
    } else {
        match chunks[0] {
            Ok(columns) => chunk_rows(columns) + all_rows(chunks.drop_first()),
            Err(_) => all_rows(chunks.drop_first()),
        }
    }
}

/// Whether all chunks of an input are there.
pub open spec fn all_there(chunks: Seq<Result<Seq<Column>, Seq<char>>>) -> bool {
    forall|i: int| 0 <= i < chunks.len() ==> #[trigger] chunks[i] is Ok
}

/// Takes rows into the states, one after the other.
spec fn run_list<V: Evaluator>(
    specs: Seq<AggregateSpec<V>>,
    states: Seq<StateView>,
    rows: Seq<Seq<Column>>,
    floats: spec_fn(FloatOp) -> F64,
) -> Result<Seq<StateView>, Seq<char>>
    decreases rows.len(),
{
    if rows.len() == 0 {
        Ok(states)
    } else {
        match run_specs(specs, states, rows[0], 0, floats) {
            Err(error) => Err(error),
            Ok(next) => run_list(specs, next, rows.drop_first(), floats),
        }
    }
}

/// Takes rows into their groups, one after the other.
spec fn group_list<V: Evaluator>(
    specs: Seq<AggregateSpec<V>>,
    grouping: Seq<V>,
    groups: Seq<GroupView>,
    rows: Seq<Seq<Column>>,
    floats: spec_fn(FloatOp) -> F64,
) -> Result<Seq<GroupView>, Seq<char>>
    decreases rows.len(),
{
    if rows.len() == 0 {
        Ok(groups)
    } else {
        match group_row(specs, grouping, groups, rows[0], floats) {
            Err(error) => Err(error),
            Ok(next) => group_list(specs, grouping, next, rows.drop_first(), floats),
        }
    }
}

proof fn lemma_run_list_split<V: Evaluator>(
    specs: Seq<AggregateSpec<V>>,
    states: Seq<StateView>,
    a: Seq<Seq<Column>>,
    b: Seq<Seq<Column>>,
    floats: spec_fn(FloatOp) -> F64,
)
    ensures
        run_list(specs, states, a + b, floats) == match run_list(specs, states, a, floats) {
            Ok(next) => run_list(specs, next, b, floats),
            Err(error) => Err(error),
        },
    decreases a.len(),
{
    if a.len() == 0 {
        assert(a + b =~= b);
    } else {
        assert((a + b).drop_first() =~= a.drop_first() + b);
        assert((a + b)[0] == a[0]);
        if let Ok(next) = run_specs(specs, states, a[0], 0, floats) {
            lemma_run_list_split(specs, next, a.drop_first(), b, floats);
        }
    }
}

proof fn lemma_group_list_split<V: Evaluator>(
    specs: Seq<AggregateSpec<V>>,
    grouping: Seq<V>,
    groups: Seq<GroupView>,
    a: Seq<Seq<Column>>,
    b: Seq<Seq<Column>>,
    floats: spec_fn(FloatOp) -> F64,
)
    ensures
        group_list(specs, grouping, groups, a + b, floats) == match group_list(
            specs,
            grouping,
            groups,
            a,
            floats,
        ) {
            Ok(next) => group_list(specs, grouping, next, b, floats),
            Err(error) => Err(error),
        },
    decreases a.len(),
{
    if a.len() == 0 {
        assert(a + b =~= b);
    } else {
        assert((a + b).drop_first() =~= a.drop_first() + b);
        assert((a + b)[0] == a[0]);
        if let Ok(next) = group_row(specs, grouping, groups, a[0], floats) {
            lemma_group_list_split(specs, grouping, next, a.drop_first(), b, floats);
        }
    }
}

proof fn lemma_rows_as_list<V: Evaluator>(
    specs: Seq<AggregateSpec<V>>,
    grouping: Seq<V>,
    states: Seq<StateView>,
    groups: Seq<GroupView>,
    columns: Seq<Column>,
    i: int,
    floats: spec_fn(FloatOp) -> F64,
)
    requires
        0 <= i <= row_count(columns),
    ensures
        run_rows(specs, states, columns, i, floats) == run_list(
            specs,
            states,
            chunk_rows(columns).skip(i),
            floats,
        ),
        group_rows(specs, grouping, groups, columns, i, floats) == group_list(
            specs,
            grouping,
            groups,
            chunk_rows(columns).skip(i),
            floats,
        ),
    decreases row_count(columns) - i,
{
    if i < row_count(columns) {
        let rows = chunk_rows(columns).skip(i);
        assert(rows[0] == row_of(columns, i));
        assert(rows.drop_first() =~= chunk_rows(columns).skip(i + 1));
        let next = match run_specs(specs, states, rows[0], 0, floats) {
            Ok(next) => next,
            Err(_) => states,
        };
        let next_groups = match group_row(specs, grouping, groups, rows[0], floats) {
            Ok(next) => next,
            Err(_) => groups,
        };
        lemma_rows_as_list(specs, grouping, next, next_groups, columns, i + 1, floats);
    }
}

proof fn lemma_chunks_as_list<V: Evaluator>(
    specs: Seq<AggregateSpec<V>>,
    states: Seq<StateView>,
    has_data: bool,
    chunks: Seq<Result<Seq<Column>, Seq<char>>>,
    floats: spec_fn(FloatOp) -> F64,
)
    requires
        all_there(chunks),
    ensures
        run_chunks(specs, states, has_data, chunks, floats) == match run_list(
            specs,
            states,
            all_rows(chunks),
            floats,
        ) {
            Ok(next) => Ok((next, has_data || all_rows(chunks).len() > 0)),
            Err(error) => Err(error),
        },
    decreases chunks.len(),
{
    if chunks.len() > 0 {
        assert(chunks[0] is Ok);
        let columns = chunks[0]->Ok_0;
        let rest = chunks.drop_first();
        let rows = chunk_rows(columns);
        assert forall|i: int| 0 <= i < rest.len() implies #[trigger] rest[i] is Ok by {
            assert(rest[i] == chunks[i + 1]);
        }
        lemma_rows_as_list(specs, Seq::empty(), states, Seq::empty(), columns, 0, floats);
        assert(rows.skip(0) =~= rows);
        lemma_run_list_split(specs, states, rows, all_rows(rest), floats);
        if row_count(columns) == 0 {
            lemma_chunks_as_list(specs, states, has_data, rest, floats);
        } else if let Ok(next) = run_rows(specs, states, columns, 0, floats) {
            lemma_chunks_as_list(specs, next, true, rest, floats);
        }
    }
}

proof fn lemma_grouped_chunks_as_list<V: Evaluator>(
    specs: Seq<AggregateSpec<V>>,
    grouping: Seq<V>,
    groups: Seq<GroupView>,
    chunks: Seq<Result<Seq<Column>, Seq<char>>>,
    floats: spec_fn(FloatOp) -> F64,
)
    requires
        all_there(chunks),
    ensures
        group_chunks(specs, grouping, groups, chunks, floats) == group_list(
            specs,
            grouping,
            groups,
            all_rows(chunks),
            floats,
        ),
    decreases chunks.len(),
{
    if chunks.len() > 0 {
        assert(chunks[0] is Ok);
        let columns = chunks[0]->Ok_0;
        let rest = chunks.drop_first();
        let rows = chunk_rows(columns);
        assert forall|i: int| 0 <= i < rest.len() implies #[trigger] rest[i] is Ok by {
            assert(rest[i] == chunks[i + 1]);
        }
        lemma_rows_as_list(specs, grouping, Seq::empty(), groups, columns, 0, floats);
        assert(rows.skip(0) =~= rows);
        lemma_group_list_split(specs, grouping, groups, rows, all_rows(rest), floats);
        if let Ok(next) = group_rows(specs, grouping, groups, columns, 0, floats) {
            lemma_grouped_chunks_as_list(specs, grouping, next, rest, floats);
        }
    }
}

/// How an input is cut into chunks does not matter: two inputs with the same rows in the same order
/// give the same result, with groups and without, whatever empty chunks there are.
pub proof fn law_cutting<V: Evaluator>(
    a: Seq<Result<Seq<Column>, Seq<char>>>,
    b: Seq<Result<Seq<Column>, Seq<char>>>,
    specs: Seq<AggregateSpec<V>>,
    grouping: Seq<V>,
    outputs: Seq<V>,
    floats: spec_fn(FloatOp) -> F64,
)
    requires
        all_there(a),
        all_there(b),
        all_rows(a) == all_rows(b),
    ensures
        aggregated(a, specs, grouping, outputs, floats) == aggregated(
            b,
            specs,
            grouping,
            outputs,
            floats,
        ),
{
    lemma_chunks_as_list(specs, starts(specs), false, a, floats);
    lemma_chunks_as_list(specs, starts(specs), false, b, floats);
    lemma_grouped_chunks_as_list(specs, grouping, Seq::empty(), a, floats);
    lemma_grouped_chunks_as_list(specs, grouping, Seq::empty(), b, floats);
}

/// The first error on the rows of a chunk from the `i`th on.
pub open spec fn chunk_error<V: Evaluator>(
    specs: Seq<AggregateSpec<V>>,
    grouping: Seq<V>,
    columns: Seq<Column>,
    i: int,
) -> Option<Seq<char>>
    decreases row_count(columns) - i,
{
    if i < 0 || i >= row_count(columns) {
        None
    } else {
        match row_error(specs, grouping, row_of(columns, i)) {
            Some(error) => Some(error),
            None => chunk_error(specs, grouping, columns, i + 1),
        }
    }
}

/// The first error of an input: of the input itself, or of an expression on one of its rows.
pub open spec fn first_error<V: Evaluator>(
    specs: Seq<AggregateSpec<V>>,
    grouping: Seq<V>,
    chunks: Seq<Result<Seq<Column>, Seq<char>>>,
) -> Option<Seq<char>>
    decreases chunks.len(),
{
    if chunks.len() == 0 {
        None
    } else {
        match chunks[0] {
            Err(error) => Some(error),
            Ok(columns) => match chunk_error(specs, grouping, columns, 0) {
                Some(error) => Some(error),
                None => first_error(specs, grouping, chunks.drop_first()),
            },
        }
    }
}

proof fn lemma_rows_error<V: Evaluator>(
    specs: Seq<AggregateSpec<V>>,
    states: Seq<StateView>,
    columns: Seq<Column>,
    i: int,
    floats: spec_fn(FloatOp) -> F64,
)
    ensures
        match run_rows(specs, states, columns, i, floats) {
            Ok(_) => chunk_error(specs, Seq::empty(), columns, i) is None,
            Err(error) => chunk_error(specs, Seq::empty(), columns, i) == Some(error),
        },
    decreases row_count(columns) - i,
{
    if 0 <= i < row_count(columns) {
        let row = row_of(columns, i);
        lemma_spec_error(specs, states, row, 0, floats);
        if let Ok(next) = run_specs(specs, states, row, 0, floats) {
            lemma_rows_error(specs, next, columns, i + 1, floats);
        }
    }
}

proof fn lemma_group_rows_error<V: Evaluator>(
    specs: Seq<AggregateSpec<V>>,
    grouping: Seq<V>,
    groups: Seq<GroupView>,
    columns: Seq<Column>,
    i: int,
    floats: spec_fn(FloatOp) -> F64,
)
    ensures
        match group_rows(specs, grouping, groups, columns, i, floats) {
            Ok(_) => chunk_error(specs, grouping, columns, i) is None,
            Err(error) => chunk_error(specs, grouping, columns, i) == Some(error),
        },
    decreases row_count(columns) - i,
{
    if 0 <= i < row_count(columns) {
        let row = row_of(columns, i);
        if let Ok(key) = run_key(grouping, row, Seq::empty(), 0) {
            let at = group_position(groups, key, 0);
            let all = with_group(groups, key, starts(specs));
            lemma_spec_error(specs, all[at].states, row, 0, floats);
        }
        if let Ok(next) = group_row(specs, grouping, groups, row, floats) {
            lemma_group_rows_error(specs, grouping, next, columns, i + 1, floats);
        }
    }
}

proof fn lemma_chunks_error<V: Evaluator>(
    specs: Seq<AggregateSpec<V>>,
    states: Seq<StateView>,
    has_data: bool,
    chunks: Seq<Result<Seq<Column>, Seq<char>>>,
    floats: spec_fn(FloatOp) -> F64,
)
    ensures
        match run_chunks(specs, states, has_data, chunks, floats) {
            Ok(_) => first_error(specs, Seq::empty(), chunks) is None,
            Err(error) => first_error(specs, Seq::empty(), chunks) == Some(error),
        },
    decreases chunks.len(),
{
    if chunks.len() > 0 {
        if let Ok(columns) = chunks[0] {
            lemma_rows_error(specs, states, columns, 0, floats);
            if row_count(columns) == 0 {
                lemma_chunks_error(specs, states, has_data, chunks.drop_first(), floats);
            } else if let Ok(next) = run_rows(specs, states, columns, 0, floats) {
                lemma_chunks_error(specs, next, true, chunks.drop_first(), floats);
            }
        }
    }
}

proof fn lemma_group_chunks_error<V: Evaluator>(
    specs: Seq<AggregateSpec<V>>,
    grouping: Seq<V>,
    groups: Seq<GroupView>,
    chunks: Seq<Result<Seq<Column>, Seq<char>>>,
    floats: spec_fn(FloatOp) -> F64,
)
    ensures
        match group_chunks(specs, grouping, groups, chunks, floats) {
            Ok(_) => first_error(specs, grouping, chunks) is None,
            Err(error) => first_error(specs, grouping, chunks) == Some(error),
        },
    decreases chunks.len(),
{
    if chunks.len() > 0 {
        if let Ok(columns) = chunks[0] {
            lemma_group_rows_error(specs, grouping, groups, columns, 0, floats);
            if let Ok(next) = group_rows(specs, grouping, groups, columns, 0, floats) {
                lemma_group_chunks_error(specs, grouping, next, chunks.drop_first(), floats);
            }
        }
    }
}

/// The first error of the input, or of an expression on one of its rows, is all that comes out: no
/// chunk of results, neither before nor after it.
pub proof fn law_first_error<V: Evaluator>(
    chunks: Seq<Result<Seq<Column>, Seq<char>>>,
    specs: Seq<AggregateSpec<V>>,
    grouping: Seq<V>,
    outputs: Seq<V>,
    floats: spec_fn(FloatOp) -> F64,
)
    ensures
        first_error(specs, grouping, chunks) matches Some(error) ==> aggregated(
            chunks,
            specs,
            grouping,
            outputs,
            floats,
        ) == seq![Err::<Seq<Column>, Seq<char>>(error)],
{
    if grouping.len() == 0 {
        assert(grouping =~= Seq::empty());
        lemma_chunks_error(specs, starts(specs), false, chunks, floats);
    } else {
        lemma_group_chunks_error(specs, grouping, Seq::empty(), chunks, floats);
    }
}

/// At most one chunk comes out, and nothing behind it.
pub proof fn law_one_chunk<V: Evaluator>(
    chunks: Seq<Result<Seq<Column>, Seq<char>>>,
    specs: Seq<AggregateSpec<V>>,
    grouping: Seq<V>,
    outputs: Seq<V>,
    floats: spec_fn(FloatOp) -> F64,
)
    ensures
        aggregated(chunks, specs, grouping, outputs, floats).len() <= 1,
        grouping.len() == 0 ==> aggregated(chunks, specs, grouping, outputs, floats).len() == 1,
{
}

} // verus!
