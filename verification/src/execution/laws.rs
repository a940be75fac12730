//! What holds of every aggregation.

use vstd::prelude::*;

#[allow(unused_imports)]
use crate::common::array::{Cell, Column};
#[allow(unused_imports)]
use crate::common::chunk::{rectangular, row_count, row_of};
#[allow(unused_imports)]
use crate::common::value::F64;
#[allow(unused_imports)]
use crate::execution::aggregate::{
    group_chunks, group_position, group_row, group_rows, run_key, run_rows, run_specs, same_key,
    with_group, AggregateSpec, GroupView,
};
#[allow(unused_imports)]
use crate::execution::evaluator::Evaluator;
#[allow(unused_imports)]
use crate::execution::state::{
    int_of, met, with_seen, AggregateFunction, FloatOp, StateView,
};

verus! {

/// The state after a sequence of values.
pub open spec fn after(
    state: StateView,
    cells: Seq<Cell>,
    floats: spec_fn(FloatOp) -> F64,
) -> StateView
    decreases cells.len(),
{
    if cells.len() == 0 {
        state
    } else {
        after(state, cells.drop_last(), floats).with(Some(cells.last()), floats)
    }
}

/// The values that are not null.
pub open spec fn present(cells: Seq<Cell>) -> Seq<Cell>
    decreases cells.len(),
{
    if cells.len() == 0 {
        Seq::empty()
    } else if cells.last().missing() {
        present(cells.drop_last())
    } else {
        present(cells.drop_last()).push(cells.last())
    }
}

/// The sum of the integers among the values.
pub open spec fn int_sum(cells: Seq<Cell>) -> int
    decreases cells.len(),
{
    if cells.len() == 0 {
        0
    } else {
        int_sum(cells.drop_last()) + match int_of(cells.last()) {
            Some(v) => v as int,
            None => 0,
        }
    }
}

/// A null value changes no aggregate but COUNT(*).
pub proof fn law_null_ignored(state: StateView, cell: Cell, floats: spec_fn(FloatOp) -> F64)
    requires
        cell.missing(),
        !(state is Count),
    ensures
        state.with(Some(cell), floats) == state,
{
}

/// No value changes which function a state belongs to.
pub proof fn law_shape_kept(state: StateView, cell: Option<Cell>, floats: spec_fn(FloatOp) -> F64)
    ensures
        state.with(cell, floats).shape() == state.shape(),
{
}

/// COUNT(*) is the number of rows.
pub proof fn law_count_star(cells: Seq<Cell>, distinct: bool, floats: spec_fn(FloatOp) -> F64)
    requires
        cells.len() <= i64::MAX,
    ensures
        after(StateView::start(AggregateFunction::Count, distinct), cells, floats)
            == (StateView::Count { count: cells.len() as i64 }),
        after(
            StateView::start(AggregateFunction::Count, distinct),
            cells,
            floats,
        ).outcome(floats) == Cell::Int64(Some(cells.len() as i64)),
    decreases cells.len(),
{
    if cells.len() > 0 {
        law_count_star(cells.drop_last(), distinct, floats);
    }
}

proof fn lemma_present_len(cells: Seq<Cell>)
    ensures
        present(cells).len() <= cells.len(),
    decreases cells.len(),
{
    if cells.len() > 0 {
        lemma_present_len(cells.drop_last());
    }
}

proof fn lemma_none_present(cells: Seq<Cell>)
    requires
        present(cells).len() == 0,
    ensures
        forall|i: int| 0 <= i < cells.len() ==> (#[trigger] cells[i]).missing(),
    decreases cells.len(),
{
    if cells.len() > 0 {
        lemma_none_present(cells.drop_last());
        assert forall|i: int| 0 <= i < cells.len() implies (#[trigger] cells[i]).missing() by {
            if i < cells.len() - 1 {
                assert(cells.drop_last()[i] == cells[i]);
            }
        }
    }
}

/// COUNT(expr) is the number of values that are not null.
pub proof fn law_count_expression(cells: Seq<Cell>, floats: spec_fn(FloatOp) -> F64)
    requires
        cells.len() <= i64::MAX,
    ensures
        after(
            StateView::start(AggregateFunction::CountExpression, false),
            cells,
            floats,
        ).outcome(floats) == Cell::Int64(Some(present(cells).len() as i64)),
        after(StateView::start(AggregateFunction::CountExpression, false), cells, floats)
            == (StateView::CountExpression {
            count: present(cells).len() as i64,
            distinct: None,
        }),
    decreases cells.len(),
{
    if cells.len() > 0 {
        law_count_expression(cells.drop_last(), floats);
        lemma_present_len(cells.drop_last());
    }
}

/// COUNT(DISTINCT expr) is the length of a list that has every value that is not null, up to how
/// it is written, and no value twice.
pub proof fn law_count_distinct(cells: Seq<Cell>, floats: spec_fn(FloatOp) -> F64) -> (seen: Seq<
    Cell,
>)
    requires
        cells.len() <= i64::MAX,
    ensures
        after(
            StateView::start(AggregateFunction::CountExpression, true),
            cells,
            floats,
        ).outcome(floats) == Cell::Int64(Some(seen.len() as i64)),
        after(StateView::start(AggregateFunction::CountExpression, true), cells, floats)
            == (StateView::CountExpression { count: 0, distinct: Some(seen) }),
        seen.len() <= cells.len(),
        forall|i: int, j: int|
            0 <= i < j < seen.len() ==> !(#[trigger] seen[i]).matches(#[trigger] seen[j], true),
        forall|i: int| 0 <= i < seen.len() ==> cells.contains(#[trigger] seen[i]),
        forall|i: int|
            0 <= i < cells.len() && !(#[trigger] cells[i]).missing() ==> met(seen, cells[i])
                || seen.contains(cells[i]),
    decreases cells.len(),
{
    if cells.len() == 0 {
        Seq::empty()
    } else {
        let before = law_count_distinct(cells.drop_last(), floats);
        let cell = cells.last();
        let seen = if cell.missing() {
            before
        } else {
            with_seen(before, cell)
        };
        assert forall|i: int| 0 <= i < seen.len() implies cells.contains(#[trigger] seen[i]) by {
            if i < before.len() {
                assert(seen[i] == before[i]);
                assert(cells.drop_last().contains(before[i]));
                let k = choose|k: int|
                    0 <= k < cells.drop_last().len() && cells.drop_last()[k] == before[i];
                assert(cells[k] == before[i]);
            } else {
                assert(cells[cells.len() - 1] == seen[i]);
            }
        }
        assert forall|i: int| 0 <= i < cells.len() && !(#[trigger] cells[i]).missing() implies met(
            seen,
            cells[i],
        ) || seen.contains(cells[i]) by {
            if i < cells.len() - 1 {
                assert(cells.drop_last()[i] == cells[i]);
                if met(before, cells[i]) {
                    let k = choose|k: int|
                        0 <= k < before.len() && (#[trigger] before[k]).matches(cells[i], true);
                    assert(seen[k] == before[k]);
                } else {
                    let k = choose|k: int| 0 <= k < before.len() && before[k] == cells[i];
                    assert(seen[k] == cells[i]);
                }
            } else if !met(before, cell) {
                assert(seen[seen.len() - 1] == cell);
            }
        }
        seen
    }
}

/// SUM over integers is their sum, wherever that sum is in the range of the result.
pub proof fn law_sum_of_integers(cells: Seq<Cell>, floats: spec_fn(FloatOp) -> F64)
    requires
        forall|i: int|
            0 <= i < cells.len() ==> (#[trigger] cells[i]).missing() || int_of(cells[i]) is Some,
        present(cells).len() > 0,
        i64::MIN <= int_sum(cells) <= i64::MAX,
    ensures
        after(StateView::start(AggregateFunction::Sum, false), cells, floats).outcome(floats)
            == Cell::Int64(Some(int_sum(cells) as i64)),
{
    lemma_sum_wraps(cells, floats);
    let value = after(StateView::start(AggregateFunction::Sum, false), cells, floats)->Sum_ints->0;
    let turns = (int_sum(cells) - value) / 0x1_0000_0000_0000_0000;
    assert(value == int_sum(cells));
}

proof fn lemma_sum_wraps(cells: Seq<Cell>, floats: spec_fn(FloatOp) -> F64)
    requires
        forall|i: int|
            0 <= i < cells.len() ==> (#[trigger] cells[i]).missing() || int_of(cells[i]) is Some,
    ensures
        ({
            let state = after(StateView::start(AggregateFunction::Sum, false), cells, floats);
            &&& state is Sum
            &&& state->Sum_floats is None
            &&& state->Sum_distinct is None
            &&& state->Sum_ints is Some <==> present(cells).len() > 0
            &&& state->Sum_ints is None ==> int_sum(cells) == 0
            &&& state->Sum_ints matches Some(v) ==> (int_sum(cells) - v)
                % 0x1_0000_0000_0000_0000 == 0
        }),
    decreases cells.len(),
{
    if cells.len() > 0 {
        let rest = cells.drop_last();
        assert forall|i: int| 0 <= i < rest.len() implies (#[trigger] rest[i]).missing() || int_of(
            rest[i],
        ) is Some by {
            assert(rest[i] == cells[i]);
        }
        lemma_sum_wraps(rest, floats);
        assert(cells.last() == cells[cells.len() - 1]);
    }
}

/// MIN over integers is one of them, and none is less; without any value it is null.
pub proof fn law_min_of_integers(cells: Seq<Cell>, floats: spec_fn(FloatOp) -> F64)
    requires
        forall|i: int|
            0 <= i < cells.len() ==> (#[trigger] cells[i]).missing() || int_of(cells[i]) is Some,
    ensures
        ({
            let state = after(StateView::start(AggregateFunction::Min, false), cells, floats);
            &&& state is Min && state->Min_floats is None && state->Min_text is None
            &&& state->Min_ints is None ==> state.outcome(floats) == Cell::Null && present(
                cells,
            ).len() == 0
            &&& state->Min_ints matches Some(v) ==> {
                &&& state.outcome(floats) == Cell::Int64(Some(v))
                &&& exists|i: int|
                    0 <= i < cells.len() && int_of(#[trigger] cells[i]) == Some(v)
                &&& forall|i: int|
                    0 <= i < cells.len() ==> (int_of(#[trigger] cells[i]) matches Some(w) ==> v
                        <= w)
            }
        }),
    decreases cells.len(),
{
    if cells.len() > 0 {
        let rest = cells.drop_last();
        assert forall|i: int| 0 <= i < rest.len() implies (#[trigger] rest[i]).missing() || int_of(
            rest[i],
        ) is Some by {
            assert(rest[i] == cells[i]);
        }
        law_min_of_integers(rest, floats);
        let before = after(StateView::start(AggregateFunction::Min, false), rest, floats);
        let state = after(StateView::start(AggregateFunction::Min, false), cells, floats);
        assert(cells.last() == cells[cells.len() - 1]);
        if before->Min_ints is None {
            lemma_none_present(rest);
        }
        if let Some(v) = before->Min_ints {
            let k = choose|i: int| 0 <= i < rest.len() && int_of(#[trigger] rest[i]) == Some(v);
            assert(cells[k] == rest[k]);
        }
        assert forall|i: int| 0 <= i < cells.len() implies (int_of(
            #[trigger] cells[i],
        ) matches Some(w) ==> state->Min_ints matches Some(v) && v <= w) by {
            if i < rest.len() {
                assert(rest[i] == cells[i]);
            }
        }
    }
}

/// MAX over integers is one of them, and none is greater; without any value it is null.
pub proof fn law_max_of_integers(cells: Seq<Cell>, floats: spec_fn(FloatOp) -> F64)
    requires
        forall|i: int|
            0 <= i < cells.len() ==> (#[trigger] cells[i]).missing() || int_of(cells[i]) is Some,
    ensures
        ({
            let state = after(StateView::start(AggregateFunction::Max, false), cells, floats);
            &&& state is Max && state->Max_floats is None && state->Max_text is None
            &&& state->Max_ints is None ==> state.outcome(floats) == Cell::Null && present(
                cells,
            ).len() == 0
            &&& state->Max_ints matches Some(v) ==> {
                &&& state.outcome(floats) == Cell::Int64(Some(v))
                &&& exists|i: int|
                    0 <= i < cells.len() && int_of(#[trigger] cells[i]) == Some(v)
                &&& forall|i: int|
                    0 <= i < cells.len() ==> (int_of(#[trigger] cells[i]) matches Some(w) ==> v
                        >= w)
            }
        }),
    decreases cells.len(),
{
    if cells.len() > 0 {
        let rest = cells.drop_last();
        assert forall|i: int| 0 <= i < rest.len() implies (#[trigger] rest[i]).missing() || int_of(
            rest[i],
        ) is Some by {
            assert(rest[i] == cells[i]);
        }
        law_max_of_integers(rest, floats);
        let before = after(StateView::start(AggregateFunction::Max, false), rest, floats);
        let state = after(StateView::start(AggregateFunction::Max, false), cells, floats);
        assert(cells.last() == cells[cells.len() - 1]);
        if before->Max_ints is None {
            lemma_none_present(rest);
        }
        if let Some(v) = before->Max_ints {
            let k = choose|i: int| 0 <= i < rest.len() && int_of(#[trigger] rest[i]) == Some(v);
            assert(cells[k] == rest[k]);
        }
        assert forall|i: int| 0 <= i < cells.len() implies (int_of(
            #[trigger] cells[i],
        ) matches Some(w) ==> state->Max_ints matches Some(v) && v >= w) by {
            if i < rest.len() {
                assert(rest[i] == cells[i]);
            }
        }
    }
}

/// What an integer does to a state that keeps no list of different values.
spec fn int_step(state: StateView, v: i64) -> StateView {
    match state {
        StateView::Count { count } => StateView::Count { count: count.wrapping_add(1) },
        StateView::CountExpression { count, distinct } => StateView::CountExpression {
            count: count.wrapping_add(1),
            distinct,
        },
        StateView::Sum { ints, floats, distinct } => StateView::Sum {
            ints: Some(
                match ints {
                    Some(current) => current.wrapping_add(v),
                    None => v,
                },
            ),
            floats,
            distinct,
        },
        StateView::Min { ints, floats, text } => StateView::Min {
            ints: Some(
                match ints {
                    Some(current) => if current <= v {
                        current
                    } else {
                        v
                    },
                    None => v,
                },
            ),
            floats,
            text,
        },
        StateView::Max { ints, floats, text } => StateView::Max {
            ints: Some(
                match ints {
                    Some(current) => if current >= v {
                        current
                    } else {
                        v
                    },
                    None => v,
                },
            ),
            floats,
            text,
        },
        _ => state,
    }
}

proof fn lemma_int_step(state: StateView, cell: Cell, floats: spec_fn(FloatOp) -> F64)
    requires
        int_of(cell) is Some,
        !state.shape().1,
        !(state is Avg),
    ensures
        state.with(Some(cell), floats) == int_step(state, int_of(cell)->0),
        !state.with(Some(cell), floats).shape().1,
        !(state.with(Some(cell), floats) is Avg),
{
    assert(!cell.missing());
}

/// The order in which two integers arrive does not matter to any aggregate that keeps no list of
/// different values and no average.
pub proof fn law_order_of_integers(
    state: StateView,
    a: Cell,
    b: Cell,
    floats: spec_fn(FloatOp) -> F64,
)
    requires
        int_of(a) is Some,
        int_of(b) is Some,
        !state.shape().1,
        !(state is Avg),
    ensures
        state.with(Some(a), floats).with(Some(b), floats) == state.with(Some(b), floats).with(
            Some(a),
            floats,
        ),
{
    lemma_int_step(state, a, floats);
    lemma_int_step(state, b, floats);
    lemma_int_step(state.with(Some(a), floats), b, floats);
    lemma_int_step(state.with(Some(b), floats), a, floats);
    lemma_int_steps_commute(state, int_of(a)->0, int_of(b)->0);
}

proof fn lemma_int_steps_commute(state: StateView, v: i64, w: i64)
    ensures
        int_step(int_step(state, v), w) == int_step(int_step(state, w), v),
{
}

/// The columns of two chunks, one below the other.
pub open spec fn stacked(top: Seq<Column>, bottom: Seq<Column>) -> Seq<Column> {
    Seq::new(
        top.len(),
        |i: int|
            Column { array_type: top[i].array_type, cells: top[i].cells + bottom[i].cells },
    )
}

/// Whether two chunks have columns of the same types.
pub open spec fn same_layout(a: Seq<Column>, b: Seq<Column>) -> bool {
    &&& a.len() == b.len()
    &&& forall|i: int| 0 <= i < a.len() ==> (#[trigger] a[i]).array_type == b[i].array_type
}

proof fn lemma_stacked_rows(top: Seq<Column>, bottom: Seq<Column>)
    requires
        top.len() > 0,
        rectangular(top),
        rectangular(bottom),
        same_layout(top, bottom),
    ensures
        row_count(stacked(top, bottom)) == row_count(top) + row_count(bottom),
        forall|i: int|
            0 <= i < row_count(top) ==> #[trigger] row_of(stacked(top, bottom), i) == row_of(
                top,
                i,
            ),
        forall|i: int|
            row_count(top) <= i < row_count(top) + row_count(bottom) ==> #[trigger] row_of(
                stacked(top, bottom),
                i,
            ) == row_of(bottom, i - row_count(top)),
{
    let all = stacked(top, bottom);
    assert(bottom[0].cells.len() == row_count(bottom));
    assert(top[0].cells.len() == row_count(top));
    assert forall|i: int| 0 <= i < row_count(top) implies #[trigger] row_of(all, i) == row_of(
        top,
        i,
    ) by {
        assert forall|c: int| 0 <= c < all.len() implies row_of(all, i)[c] == row_of(top, i)[c] by {
            assert(top[c].cells.len() == row_count(top));
            assert(all[c].cells.subrange(i, i + 1) =~= top[c].cells.subrange(i, i + 1));
        }
        assert(row_of(all, i) =~= row_of(top, i));
    }
    assert forall|i: int|
        row_count(top) <= i < row_count(top) + row_count(bottom) implies #[trigger] row_of(all, i)
        == row_of(bottom, i - row_count(top)) by {
        assert forall|c: int| 0 <= c < all.len() implies row_of(all, i)[c] == row_of(
            bottom,
            i - row_count(top),
        )[c] by {
            assert(top[c].cells.len() == row_count(top));
            assert(bottom[c].cells.len() == row_count(bottom));
            assert(top[c].array_type == bottom[c].array_type);
            let k = i - row_count(top);
            assert(all[c].cells.subrange(i, i + 1) =~= bottom[c].cells.subrange(k, k + 1));
        }
        assert(row_of(all, i) =~= row_of(bottom, i - row_count(top)));
    }
}

/// How rows are spread over chunks does not matter: two chunks give what they give when their
/// rows arrive in one.
pub proof fn law_chunking<V: Evaluator>(
    specs: Seq<AggregateSpec<V>>,
    states: Seq<StateView>,
    top: Seq<Column>,
    bottom: Seq<Column>,
    floats: spec_fn(FloatOp) -> F64,
)
    requires
        top.len() > 0,
        rectangular(top),
        rectangular(bottom),
        same_layout(top, bottom),
    ensures
        run_rows(specs, states, stacked(top, bottom), 0, floats) == match run_rows(
            specs,
            states,
            top,
            0,
            floats,
        ) {
            Ok(next) => run_rows(specs, next, bottom, 0, floats),
            Err(error) => Err(error),
        },
{
    lemma_stacked_rows(top, bottom);
    lemma_chunking_from(specs, states, top, bottom, 0, floats);
}

proof fn lemma_chunking_from<V: Evaluator>(
    specs: Seq<AggregateSpec<V>>,
    states: Seq<StateView>,
    top: Seq<Column>,
    bottom: Seq<Column>,
    i: int,
    floats: spec_fn(FloatOp) -> F64,
)
    requires
        0 <= i <= row_count(top),
        row_count(stacked(top, bottom)) == row_count(top) + row_count(bottom),
        forall|i: int|
            0 <= i < row_count(top) ==> #[trigger] row_of(stacked(top, bottom), i) == row_of(
                top,
                i,
            ),
        forall|i: int|
            row_count(top) <= i < row_count(top) + row_count(bottom) ==> #[trigger] row_of(
                stacked(top, bottom),
                i,
            ) == row_of(bottom, i - row_count(top)),
    ensures
        run_rows(specs, states, stacked(top, bottom), i, floats) == match run_rows(
            specs,
            states,
            top,
            i,
            floats,
        ) {
            Ok(next) => run_rows(specs, next, bottom, 0, floats),
            Err(error) => Err(error),
        },
    decreases row_count(top) - i,
{
    if i < row_count(top) {
        assert(row_of(stacked(top, bottom), i) == row_of(top, i));
        match run_specs(specs, states, row_of(top, i), 0, floats) {
            Ok(next) => lemma_chunking_from(specs, next, top, bottom, i + 1, floats),
            Err(_) => {},
        }
    } else {
        lemma_bottom_rows(specs, states, top, bottom, 0, floats);
    }
}

proof fn lemma_bottom_rows<V: Evaluator>(
    specs: Seq<AggregateSpec<V>>,
    states: Seq<StateView>,
    top: Seq<Column>,
    bottom: Seq<Column>,
    i: int,
    floats: spec_fn(FloatOp) -> F64,
)
    requires
        0 <= i <= row_count(bottom),
        row_count(stacked(top, bottom)) == row_count(top) + row_count(bottom),
        forall|i: int|
            row_count(top) <= i < row_count(top) + row_count(bottom) ==> #[trigger] row_of(
                stacked(top, bottom),
                i,
            ) == row_of(bottom, i - row_count(top)),
    ensures
        run_rows(specs, states, stacked(top, bottom), row_count(top) + i, floats) == run_rows(
            specs,
            states,
            bottom,
            i,
            floats,
        ),
    decreases row_count(bottom) - i,
{
    if i < row_count(bottom) {
        assert(row_of(stacked(top, bottom), row_count(top) + i) == row_of(bottom, i));
        match run_specs(specs, states, row_of(bottom, i), 0, floats) {
            Ok(next) => lemma_bottom_rows(specs, next, top, bottom, i + 1, floats),
            Err(_) => {},
        }
    }
}

/// Whether no two groups have equal keys.
pub open spec fn distinct_keys(groups: Seq<GroupView>) -> bool {
    forall|i: int, j: int|
        0 <= i < j < groups.len() ==> !same_key(
            (#[trigger] groups[i]).key,
            (#[trigger] groups[j]).key,
        )
}

proof fn lemma_position(groups: Seq<GroupView>, key: Seq<Cell>, i: int)
    requires
        0 <= i <= groups.len(),
    ensures
        i <= group_position(groups, key, i) <= groups.len(),
        forall|k: int|
            i <= k < group_position(groups, key, i) ==> !same_key(
                (#[trigger] groups[k]).key,
                key,
            ),
    decreases groups.len() - i,
{
    if i < groups.len() && !same_key(groups[i].key, key) {
        lemma_position(groups, key, i + 1);
    }
}

proof fn lemma_group_row_keys<V: Evaluator>(
    specs: Seq<AggregateSpec<V>>,
    grouping: Seq<V>,
    groups: Seq<GroupView>,
    row: Seq<Column>,
    floats: spec_fn(FloatOp) -> F64,
)
    requires
        distinct_keys(groups),
    ensures
        group_row(specs, grouping, groups, row, floats) matches Ok(next) ==> distinct_keys(next),
{
    if let Ok(key) = run_key(grouping, row, Seq::empty(), 0) {
        lemma_position(groups, key, 0);
    }
}

proof fn lemma_group_rows_keys<V: Evaluator>(
    specs: Seq<AggregateSpec<V>>,
    grouping: Seq<V>,
    groups: Seq<GroupView>,
    columns: Seq<Column>,
    i: int,
    floats: spec_fn(FloatOp) -> F64,
)
    requires
        distinct_keys(groups),
    ensures
        group_rows(specs, grouping, groups, columns, i, floats) matches Ok(next) ==> distinct_keys(
            next,
        ),
    decreases row_count(columns) - i,
{
    if 0 <= i < row_count(columns) {
        lemma_group_row_keys(specs, grouping, groups, row_of(columns, i), floats);
        if let Ok(next) = group_row(specs, grouping, groups, row_of(columns, i), floats) {
            lemma_group_rows_keys(specs, grouping, next, columns, i + 1, floats);
        }
    }
}

/// No two rows of a grouped result have the same key.
pub proof fn law_groups_distinct<V: Evaluator>(
    specs: Seq<AggregateSpec<V>>,
    grouping: Seq<V>,
    groups: Seq<GroupView>,
    chunks: Seq<Result<Seq<Column>, Seq<char>>>,
    floats: spec_fn(FloatOp) -> F64,
)
    requires
        distinct_keys(groups),
    ensures
        group_chunks(specs, grouping, groups, chunks, floats) matches Ok(all) ==> distinct_keys(
            all,
        ),
    decreases chunks.len(),
{
    if chunks.len() > 0 {
        if let Ok(columns) = chunks[0] {
            lemma_group_rows_keys(specs, grouping, groups, columns, 0, floats);
            if let Ok(next) = group_rows(specs, grouping, groups, columns, 0, floats) {
                law_groups_distinct(specs, grouping, next, chunks.drop_first(), floats);
            }
        }
    }
}

} // verus!
