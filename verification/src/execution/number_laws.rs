//! What aggregates make of the numbers that the values stand for.

use vstd::prelude::*;

#[allow(unused_imports)]
use crate::common::array::{missing_cell, Cell};
#[allow(unused_imports)]
use crate::common::value::{F32, F64};
#[allow(unused_imports)]
use crate::execution::laws::after;
#[allow(unused_imports)]
use crate::execution::state::{
    float_of, int_of, is_number, number_of, AggregateFunction, FloatOp, StateView,
};
#[allow(unused_imports)]
use crate::execution::value_laws::{
    is_greatest_int, is_least_int, law_max_by_kind, law_min_by_kind,
};

verus! {

/// The whole number that a value stands for, signed or unsigned and of any width.
pub open spec fn whole(cell: Cell) -> Option<int> {
    match cell {
        Cell::Int8(Some(v)) => Some(v as int),
        Cell::Int16(Some(v)) => Some(v as int),
        Cell::Int32(Some(v)) => Some(v as int),
        Cell::Int64(Some(v)) => Some(v as int),
        Cell::UInt8(Some(v)) => Some(v as int),
        Cell::UInt16(Some(v)) => Some(v as int),
        Cell::UInt32(Some(v)) => Some(v as int),
        Cell::UInt64(Some(v)) => Some(v as int),
        _ => None,
    }
}

/// Whether every whole number among values is in the signed range.
pub open spec fn in_range(cells: Seq<Cell>) -> bool {
    forall|i: int| 0 <= i < cells.len() ==> (whole(#[trigger] cells[i]) matches Some(v) ==> v
        <= i64::MAX)
}

/// The sum of the whole numbers among values.
pub open spec fn total_of(cells: Seq<Cell>) -> int
    decreases cells.len(),
{
    if cells.len() == 0 {
        0
    } else {
        total_of(cells.drop_last()) + match whole(cells.last()) {
            Some(v) => v,
            None => 0,
        }
    }
}

/// Whether there is a whole number among values.
pub open spec fn has_whole(cells: Seq<Cell>) -> bool {
    exists|i: int| 0 <= i < cells.len() && whole(#[trigger] cells[i]) is Some
}

/// A value counts as an integer exactly where it stands for a whole number, and then as that
/// number. Only an unsigned number beyond the signed range counts as another: it wraps round.
pub proof fn law_integer_of_value(cell: Cell)
    ensures
        int_of(cell) is Some <==> whole(cell) is Some,
        whole(cell) matches Some(v) ==> i64::MIN <= v <= u64::MAX,
        whole(cell) matches Some(v) ==> (v <= i64::MAX ==> int_of(cell)->0 == v),
        whole(cell) matches Some(v) ==> (v > i64::MAX ==> int_of(cell)->0 == v
            - 0x1_0000_0000_0000_0000),
{
    if let Cell::UInt64(Some(v)) = cell {
        let wrapped = v as i64;
        assert(v > 0x7fff_ffff_ffff_ffffu64 ==> wrapped as int == v as int
            - 0x1_0000_0000_0000_0000int) by {
            if v > 0x7fff_ffff_ffff_ffffu64 {
                assert((v as i64) < 0 && (v as i64) + 0x1_0000_0000_0000_0000 == v) by (bit_vector)
                    requires
                        v > 0x7fff_ffff_ffff_ffffu64,
                ;
            }
        }
    }
}

proof fn lemma_sum_turns(cells: Seq<Cell>, floats: spec_fn(FloatOp) -> F64) -> (turns: int)
    ensures
        ({
            let state = after(StateView::start(AggregateFunction::Sum, false), cells, floats);
            &&& state is Sum && state->Sum_distinct is None
            &&& state->Sum_ints is Some <==> has_whole(cells)
            &&& state->Sum_ints matches Some(v) ==> v == total_of(cells) + turns
                * 0x1_0000_0000_0000_0000
            &&& state->Sum_ints is None ==> total_of(cells) == 0
        }),
    decreases cells.len(),
{
    if cells.len() == 0 {
        0
    } else {
        let rest = cells.drop_last();
        let turns = lemma_sum_turns(rest, floats);
        let last = cells.last();
        let before = after(StateView::start(AggregateFunction::Sum, false), rest, floats);
        let state = after(StateView::start(AggregateFunction::Sum, false), cells, floats);
        law_integer_of_value(last);
        assert(state == before.with(Some(last), floats));
        assert(has_whole(rest) ==> has_whole(cells)) by {
            if has_whole(rest) {
                let i = choose|i: int| 0 <= i < rest.len() && whole(#[trigger] rest[i]) is Some;
                assert(cells[i] == rest[i]);
            }
        }
        assert(has_whole(cells) ==> has_whole(rest) || whole(last) is Some) by {
            if has_whole(cells) {
                let i = choose|i: int| 0 <= i < cells.len() && whole(#[trigger] cells[i]) is Some;
                if i < rest.len() {
                    assert(rest[i] == cells[i]);
                }
            }
        }
        if whole(last) is Some {
            assert(whole(cells[cells.len() - 1]) is Some);
            assert(has_whole(cells));
            let v = int_of(last)->0;
            let wraps: int = if whole(last)->0 > i64::MAX {
                -1
            } else {
                0
            };
            assert(v == whole(last)->0 + wraps * 0x1_0000_0000_0000_0000);
            match before->Sum_ints {
                None => wraps,
                Some(current) => {
                    let sum = current + v;
                    let over: int = if sum > i64::MAX {
                        -1
                    } else if sum < i64::MIN {
                        1
                    } else {
                        0
                    };
                    assert(state->Sum_ints->0 == sum + over * 0x1_0000_0000_0000_0000);
                    turns + wraps + over
                },
            }
        } else {
            assert(state->Sum_ints == before->Sum_ints);
            turns
        }
    }
}

/// SUM is the sum of the whole numbers among the values wherever there is one, negative numbers
/// and all, as long as that sum is in the range of the result.
pub proof fn law_sum_of_numbers(cells: Seq<Cell>, floats: spec_fn(FloatOp) -> F64)
    requires
        has_whole(cells),
        i64::MIN <= total_of(cells) <= i64::MAX,
    ensures
        after(StateView::start(AggregateFunction::Sum, false), cells, floats).outcome(floats)
            == Cell::Int64(Some(total_of(cells) as i64)),
{
    let turns = lemma_sum_turns(cells, floats);
    let value = after(StateView::start(AggregateFunction::Sum, false), cells, floats)->Sum_ints->0;
    assert(turns == 0) by {
        assert(-1 < turns < 1) by (nonlinear_arith)
            requires
                i64::MIN <= value <= i64::MAX,
                value == total_of(cells) + turns * 0x1_0000_0000_0000_0000,
                i64::MIN <= total_of(cells) <= i64::MAX,
        ;
    }
}

/// MIN is the least of the whole numbers among the values wherever there is one: one of the values
/// stands for it, and none stands for less. MAX is the greatest.
pub proof fn law_extremes_of_numbers(cells: Seq<Cell>, floats: spec_fn(FloatOp) -> F64)
    requires
        has_whole(cells),
        in_range(cells),
    ensures
        ({
            let least = after(StateView::start(AggregateFunction::Min, false), cells, floats);
            let greatest = after(StateView::start(AggregateFunction::Max, false), cells, floats);
            &&& least.outcome(floats) matches Cell::Int64(Some(v)) && {
                &&& exists|i: int| 0 <= i < cells.len() && whole(#[trigger] cells[i]) == Some(
                    v as int,
                )
                &&& forall|i: int|
                    0 <= i < cells.len() ==> (whole(#[trigger] cells[i]) matches Some(w) ==> v
                        <= w)
            }
            &&& greatest.outcome(floats) matches Cell::Int64(Some(v)) && {
                &&& exists|i: int| 0 <= i < cells.len() && whole(#[trigger] cells[i]) == Some(
                    v as int,
                )
                &&& forall|i: int|
                    0 <= i < cells.len() ==> (whole(#[trigger] cells[i]) matches Some(w) ==> w
                        <= v)
            }
        }),
{
    law_min_by_kind(cells, floats);
    law_max_by_kind(cells, floats);
    assert forall|i: int| 0 <= i < cells.len() implies (match int_of(#[trigger] cells[i]) {
        Some(v) => whole(cells[i]) == Some(v as int),
        None => whole(cells[i]) is None,
    }) by {
        law_integer_of_value(cells[i]);
    }
    let k = choose|i: int| 0 <= i < cells.len() && whole(#[trigger] cells[i]) is Some;
    assert(int_of(cells[k]) is Some);
    let least = after(StateView::start(AggregateFunction::Min, false), cells, floats);
    let greatest = after(StateView::start(AggregateFunction::Max, false), cells, floats);
    assert(least->Min_ints is Some);
    assert(greatest->Max_ints is Some);
    let v = least->Min_ints->0;
    let i = choose|i: int| 0 <= i < cells.len() && int_of(#[trigger] cells[i]) == Some(v);
    assert(whole(cells[i]) == Some(v as int));
    let w = greatest->Max_ints->0;
    let j = choose|j: int| 0 <= j < cells.len() && int_of(#[trigger] cells[j]) == Some(w);
    assert(whole(cells[j]) == Some(w as int));
    assert forall|i: int| 0 <= i < cells.len() implies (whole(#[trigger] cells[i]) matches Some(w)
        ==> least->Min_ints->0 <= w && w <= greatest->Max_ints->0) by {
        assert(match int_of(cells[i]) {
            Some(v) => whole(cells[i]) == Some(v as int),
            None => whole(cells[i]) is None,
        });
    }
}

/// The double precision numbers that an average is over, one for each value that is a number: a
/// double as it is, a single in double precision, and a whole number converted.
pub open spec fn numbers(cells: Seq<Cell>, floats: spec_fn(FloatOp) -> F64) -> Seq<F64>
    decreases cells.len(),
{
    if cells.len() == 0 {
        Seq::empty()
    } else {
        let before = numbers(cells.drop_last(), floats);
        match cells.last() {
            Cell::Float64(Some(v)) => before.push(v),
            Cell::Float32(Some(v)) => before.push(floats(FloatOp::FromSingle(v))),
            Cell::UInt64(Some(v)) => before.push(floats(FloatOp::FromUInt(v))),
            _ => match whole(cells.last()) {
                Some(v) => before.push(floats(FloatOp::FromInt(v as i64))),
                None => before,
            },
        }
    }
}

/// The sum of double precision numbers, added one after the other to a first one.
pub open spec fn added(first: F64, values: Seq<F64>, floats: spec_fn(FloatOp) -> F64) -> F64
    decreases values.len(),
{
    if values.len() == 0 {
        first
    } else {
        floats(FloatOp::Add(added(first, values.drop_last(), floats), values.last()))
    }
}

proof fn lemma_average(cells: Seq<Cell>, floats: spec_fn(FloatOp) -> F64)
    requires
        cells.len() <= i64::MAX,
    ensures
        numbers(cells, floats).len() <= cells.len(),
        after(StateView::start(AggregateFunction::Avg, false), cells, floats) == (StateView::Avg {
            sum: added(F64 { bits: 0 }, numbers(cells, floats), floats),
            count: numbers(cells, floats).len() as i64,
            distinct: None,
        }),
    decreases cells.len(),
{
    if cells.len() > 0 {
        let rest = cells.drop_last();
        lemma_average(rest, floats);
        law_integer_of_value(cells.last());
        let before = numbers(rest, floats);
        let all = numbers(cells, floats);
        if all.len() > before.len() {
            assert(all.drop_last() =~= before);
            assert(number_of(cells.last(), floats) == Some(all.last()));
        } else {
            assert(number_of(cells.last(), floats) is None);
        }
    }
}

/// AVG is the sum of the values that are numbers, from zero on and in their order, divided by how
/// many there are; without any it is null.
pub proof fn law_average_of_numbers(cells: Seq<Cell>, floats: spec_fn(FloatOp) -> F64)
    requires
        cells.len() <= i64::MAX,
    ensures
        ({
            let values = numbers(cells, floats);
            let outcome = after(
                StateView::start(AggregateFunction::Avg, false),
                cells,
                floats,
            ).outcome(floats);
            &&& values.len() == 0 ==> outcome == Cell::Null
            &&& values.len() > 0 ==> outcome == Cell::Float64(
                Some(
                    floats(
                        FloatOp::Div(
                            added(F64 { bits: 0 }, values, floats),
                            floats(FloatOp::FromInt(values.len() as i64)),
                        ),
                    ),
                ),
            )
        }),
{
    lemma_average(cells, floats);
}

/// The floating point numbers among values, in double precision.
pub open spec fn fractions(cells: Seq<Cell>, floats: spec_fn(FloatOp) -> F64) -> Seq<F64>
    decreases cells.len(),
{
    if cells.len() == 0 {
        Seq::empty()
    } else {
        let before = fractions(cells.drop_last(), floats);
        match cells.last() {
            Cell::Float64(Some(v)) => before.push(v),
            Cell::Float32(Some(v)) => before.push(floats(FloatOp::FromSingle(v))),
            _ => before,
        }
    }
}

/// SUM without any whole number among the values is the sum of the floating point numbers, added
/// in their order to the first of them; without those it is null.
pub proof fn law_sum_of_fractions(cells: Seq<Cell>, floats: spec_fn(FloatOp) -> F64)
    ensures
        ({
            let values = fractions(cells, floats);
            let state = after(StateView::start(AggregateFunction::Sum, false), cells, floats);
            &&& state is Sum
            &&& state->Sum_floats == if values.len() == 0 {
                None
            } else {
                Some(added(values[0], values.drop_first(), floats))
            }
            &&& !has_whole(cells) ==> state.outcome(floats) == if values.len() == 0 {
                Cell::Null
            } else {
                Cell::Float64(Some(added(values[0], values.drop_first(), floats)))
            }
        }),
    decreases cells.len(),
{
    let turns = lemma_sum_turns(cells, floats);
    if cells.len() > 0 {
        let rest = cells.drop_last();
        law_sum_of_fractions(rest, floats);
        law_integer_of_value(cells.last());
        let before = fractions(rest, floats);
        let all = fractions(cells, floats);
        if all.len() > before.len() {
            assert(float_of(cells.last(), floats) == Some(all.last()));
            assert(int_of(cells.last()) is None);
            if before.len() > 0 {
                assert(all.drop_first().drop_last() =~= before.drop_first());
                assert(all.drop_first().last() == all.last());
                assert(all[0] == before[0]);
            } else {
                assert(all.drop_first() =~= Seq::empty());
            }
        } else {
            assert(float_of(cells.last(), floats) is None);
        }
    }
}

/// A value is missing exactly where it is the missing value of its type. Whole numbers, floating
/// point numbers and strings are never missing.
pub proof fn law_missing(cell: Cell)
    ensures
        cell.missing() <==> !(cell is Other) && (cell == missing_cell(cell.array_type()) || cell
            == Cell::Vertex(None) || cell == Cell::Edge(None)),
        whole(cell) is Some ==> !cell.missing(),
        cell.missing() ==> !is_number(cell),
        is_number(cell) <==> whole(cell) is Some || cell matches Cell::Float32(Some(_))
            || cell matches Cell::Float64(Some(_)),
{
    law_integer_of_value(cell);
}

/// The result of an aggregate is the integer that was found, where one was; else the floating
/// point number, and else the string.
pub proof fn law_outcome_of_extremes(
    ints: Option<i64>,
    fraction: Option<F64>,
    text: Option<Seq<char>>,
    floats: spec_fn(FloatOp) -> F64,
)
    ensures
        ({
            let least = (StateView::Min { ints, floats: fraction, text }).outcome(floats);
            let greatest = (StateView::Max { ints, floats: fraction, text }).outcome(floats);
            &&& least == greatest
            &&& ints is Some ==> least == Cell::Int64(ints)
            &&& ints is None && fraction is Some ==> least == Cell::Float64(fraction)
            &&& ints is None && fraction is None && text is Some ==> least == Cell::String(text)
            &&& ints is None && fraction is None && text is None ==> least == Cell::Null
        }),
{
}

/// The numbers with the sign bit taken off order the floating point numbers by size; what is
/// beyond the greatest of them is no number. Of two numbers the lesser one is the one of lower
/// rank, the first where the ranks are equal, and what is no number is passed over.
pub proof fn law_lesser_and_greater(a: F64, b: F64)
    ensures
        a.nan() <==> a.bits % 0x8000_0000_0000_0000 > 0x7ff0_0000_0000_0000,
        a.rank() == if a.bits < 0x8000_0000_0000_0000 {
            a.bits as int
        } else {
            0x8000_0000_0000_0000 - a.bits
        },
        a.nan() ==> a.lesser(b) == b && a.greater(b) == b,
        !a.nan() && b.nan() ==> a.lesser(b) == a && a.greater(b) == a,
        !a.nan() && !b.nan() ==> {
            &&& a.lesser(b) == a || a.lesser(b) == b
            &&& a.greater(b) == a || a.greater(b) == b
            &&& a.lesser(b).rank() <= a.rank() && a.lesser(b).rank() <= b.rank()
            &&& a.greater(b).rank() >= a.rank() && a.greater(b).rank() >= b.rank()
            &&& a.rank() == b.rank() ==> a.lesser(b) == a && a.greater(b) == a
        },
{
    let x = a.bits;
    assert(x & 0x7fff_ffff_ffff_ffff == x % 0x8000_0000_0000_0000) by (bit_vector);
}

proof fn lemma_distinct_untouched(
    function: AggregateFunction,
    cells: Seq<Cell>,
    floats: spec_fn(FloatOp) -> F64,
)
    requires
        function is Sum || function is Avg,
    ensures
        ({
            let state = after(StateView::start(function, true), cells, floats);
            &&& function is Sum ==> state is Sum && state->Sum_ints is None
                && state->Sum_floats is None && state->Sum_distinct is Some
            &&& function is Avg ==> state is Avg && state->Avg_sum == (F64 { bits: 0 })
                && state->Avg_count == 0 && state->Avg_distinct is Some
        }),
    decreases cells.len(),
{
    if cells.len() > 0 {
        lemma_distinct_untouched(function, cells.drop_last(), floats);
    }
}

/// SUM over different values only collects them, and gives null. AVG over different values divides
/// zero by how many there are, and gives null where there is none.
pub proof fn law_distinct_outcomes(cells: Seq<Cell>, floats: spec_fn(FloatOp) -> F64)
    ensures
        after(StateView::start(AggregateFunction::Sum, true), cells, floats).outcome(floats)
            == Cell::Null,
        ({
            let state = after(StateView::start(AggregateFunction::Avg, true), cells, floats);
            let seen = state->Avg_distinct->0;
            &&& seen.len() == 0 ==> state.outcome(floats) == Cell::Null
            &&& 0 < seen.len() <= i64::MAX ==> state.outcome(floats) == Cell::Float64(
                Some(
                    floats(
                        FloatOp::Div(
                            F64 { bits: 0 },
                            floats(FloatOp::FromInt(seen.len() as i64)),
                        ),
                    ),
                ),
            )
        }),
{
    lemma_distinct_untouched(AggregateFunction::Sum, cells, floats);
    lemma_distinct_untouched(AggregateFunction::Avg, cells, floats);
}

} // verus!
