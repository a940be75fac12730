//! Aggregate functions: what they are, and the state that one keeps while rows arrive.

use vstd::prelude::*;

#[allow(unused_imports)]
use crate::common::array::{lemma_matching_cells, text_size};
use crate::common::array::{ArrayType, Cell};
#[allow(unused_imports)]
use crate::common::text::text_before;
use crate::common::text::text_less;
use crate::common::value::{ScalarValue, F32, F64};
use crate::execution::error::ExecutionResult;

verus! {

/// An aggregate function.
#[derive(Debug, Clone, Copy, PartialEq, Eq, Structural)]
pub enum AggregateFunction {
    /// COUNT(*)
    Count,
    /// COUNT(expr)
    CountExpression,
    /// SUM(expr)
    Sum,
    /// AVG(expr)
    Avg,
    /// MIN(expr)
    Min,
    /// MAX(expr)
    Max,
}

/// One step of double-precision arithmetic.
#[derive(Debug, Clone, Copy)]
pub enum FloatOp {
    /// The double nearest to a signed integer.
    FromInt(i64),
    /// The double nearest to an unsigned integer.
    FromUInt(u64),
    /// The double equal to a single-precision number.
    FromSingle(F32),
    /// The sum.
    Add(F64, F64),
    /// The quotient.
    Div(F64, F64),
}

/// Whether `arithmetic` computes the function `floats`: each operation has one result, the one
/// that `floats` gives it.
pub open spec fn computes<G: Fn(FloatOp) -> F64>(
    arithmetic: G,
    floats: spec_fn(FloatOp) -> F64,
) -> bool {
    forall|op: FloatOp, result: F64| #[trigger]
        call_ensures(arithmetic, (op,), result) ==> result == floats(op)
}

/// Whether `arithmetic` can be asked for every operation.
pub open spec fn total<G: Fn(FloatOp) -> F64>(arithmetic: G) -> bool {
    forall|op: FloatOp| #[trigger] call_requires(arithmetic, (op,))
}

/// The state of an aggregate function.
#[allow(inconsistent_fields)]
#[derive(Debug)]
pub enum AggregateState {
    /// Rows.
    Count {
        /// Their number.
        count: i64,
    },
    /// Values that are not null.
    CountExpression {
        /// Their number.
        count: i64,
        /// The different values met, where only those count.
        distinct_values: Option<Vec<ScalarValue>>,
    },
    /// A sum, of integers and of floating point numbers apart.
    Sum {
        /// The sum of the integers.
        sum_i64: Option<i64>,
        /// The sum of the floating point numbers.
        sum_f64: Option<F64>,
        /// The different values met, where only those count.
        distinct_values: Option<Vec<ScalarValue>>,
    },
    /// An average.
    Avg {
        /// The sum.
        sum_f64: F64,
        /// The number of values.
        count: i64,
        /// The different values met, where only those count.
        distinct_values: Option<Vec<ScalarValue>>,
    },
    /// The least values met.
    Min {
        /// Of the integers.
        min_i64: Option<i64>,
        /// Of the floating point numbers.
        min_f64: Option<F64>,
        /// Of the strings.
        min_string: Option<String>,
    },
    /// The greatest values met.
    Max {
        /// Of the integers.
        max_i64: Option<i64>,
        /// Of the floating point numbers.
        max_f64: Option<F64>,
        /// Of the strings.
        max_string: Option<String>,
    },
}

/// What an aggregate state amounts to.
pub enum StateView {
    /// Rows.
    Count { count: i64 },
    /// Values that are not null.
    CountExpression { count: i64, distinct: Option<Seq<Cell>> },
    /// A sum.
    Sum { ints: Option<i64>, floats: Option<F64>, distinct: Option<Seq<Cell>> },
    /// An average.
    Avg { sum: F64, count: i64, distinct: Option<Seq<Cell>> },
    /// The least values.
    Min { ints: Option<i64>, floats: Option<F64>, text: Option<Seq<char>> },
    /// The greatest values.
    Max { ints: Option<i64>, floats: Option<F64>, text: Option<Seq<char>> },
}

/// The integer that a cell holds. An unsigned integer beyond the signed range wraps round.
pub open spec fn int_of(cell: Cell) -> Option<i64> {
    match cell {
        Cell::Int8(Some(v)) => Some(v as i64),
        Cell::Int16(Some(v)) => Some(v as i64),
        Cell::Int32(Some(v)) => Some(v as i64),
        Cell::Int64(Some(v)) => Some(v as i64),
        Cell::UInt8(Some(v)) => Some(v as i64),
        Cell::UInt16(Some(v)) => Some(v as i64),
        Cell::UInt32(Some(v)) => Some(v as i64),
        Cell::UInt64(Some(v)) => Some(v as i64),
        _ => None,
    }
}

/// The floating point number that a cell holds, in double precision.
pub open spec fn float_of(cell: Cell, floats: spec_fn(FloatOp) -> F64) -> Option<F64> {
    match cell {
        Cell::Float32(Some(v)) => Some(floats(FloatOp::FromSingle(v))),
        Cell::Float64(Some(v)) => Some(v),
        _ => None,
    }
}

/// The number that a cell holds, of whatever type, in double precision.
pub open spec fn number_of(cell: Cell, floats: spec_fn(FloatOp) -> F64) -> Option<F64> {
    match cell {
        Cell::UInt64(Some(v)) => Some(floats(FloatOp::FromUInt(v))),
        _ => match int_of(cell) {
            Some(v) => Some(floats(FloatOp::FromInt(v))),
            None => float_of(cell, floats),
        },
    }
}

/// Whether a cell holds a number.
pub open spec fn is_number(cell: Cell) -> bool {
    int_of(cell) is Some || cell matches Cell::Float32(Some(_)) || cell matches Cell::Float64(
        Some(_),
    )
}

/// Whether a value like `cell` is among those met.
pub open spec fn met(seen: Seq<Cell>, cell: Cell) -> bool {
    exists|i: int| 0 <= i < seen.len() && (#[trigger] seen[i]).matches(cell, true)
}

/// The different values met, after one more.
pub open spec fn with_seen(seen: Seq<Cell>, cell: Cell) -> Seq<Cell> {
    if met(seen, cell) {
        seen
    } else {
        seen.push(cell)
    }
}

impl StateView {
    /// The state before any row.
    pub open spec fn start(function: AggregateFunction, distinct: bool) -> StateView {
        let seen = if distinct {
            Some(Seq::<Cell>::empty())
        } else {
            None
        };
        match function {
            AggregateFunction::Count => StateView::Count { count: 0 },
            AggregateFunction::CountExpression => StateView::CountExpression {
                count: 0,
                distinct: seen,
            },
            AggregateFunction::Sum => StateView::Sum { ints: None, floats: None, distinct: seen },
            AggregateFunction::Avg => StateView::Avg {
                sum: F64 { bits: 0 },
                count: 0,
                distinct: seen,
            },
            AggregateFunction::Min => StateView::Min { ints: None, floats: None, text: None },
            AggregateFunction::Max => StateView::Max { ints: None, floats: None, text: None },
        }
    }

    /// The function that the state belongs to, and whether only different values count.
    pub open spec fn shape(self) -> (AggregateFunction, bool) {
        match self {
            StateView::Count { .. } => (AggregateFunction::Count, false),
            StateView::CountExpression { distinct, .. } => (
                AggregateFunction::CountExpression,
                distinct is Some,
            ),
            StateView::Sum { distinct, .. } => (AggregateFunction::Sum, distinct is Some),
            StateView::Avg { distinct, .. } => (AggregateFunction::Avg, distinct is Some),
            StateView::Min { .. } => (AggregateFunction::Min, false),
            StateView::Max { .. } => (AggregateFunction::Max, false),
        }
    }

    /// Whether a value has a type that the function works on. Null always has. What only counts
    /// values, or only collects the different ones, works on every type.
    pub open spec fn accepts(self, cell: Cell) -> bool {
        cell.missing() || match self {
            StateView::Count { .. } => true,
            StateView::CountExpression { .. } => true,
            StateView::Sum { distinct, .. } => distinct is Some || is_number(cell),
            StateView::Avg { distinct, .. } => distinct is Some || is_number(cell),
            StateView::Min { .. } => is_number(cell) || cell is String,
            StateView::Max { .. } => is_number(cell) || cell is String,
        }
    }

    /// The state after a value that is not null has been added to a sum or an average.
    pub open spec fn with_sum(self, cell: Cell, floats: spec_fn(FloatOp) -> F64) -> StateView {
        match self {
            StateView::Sum { ints, floats: total, distinct } => match int_of(cell) {
                Some(v) => StateView::Sum {
                    ints: Some(
                        match ints {
                            Some(current) => current.wrapping_add(v),
                            None => v,
                        },
                    ),
                    floats: total,
                    distinct,
                },
                None => match float_of(cell, floats) {
                    Some(v) => StateView::Sum {
                        ints,
                        floats: Some(
                            match total {
                                Some(current) => floats(FloatOp::Add(current, v)),
                                None => v,
                            },
                        ),
                        distinct,
                    },
                    None => self,
                },
            },
            StateView::Avg { sum, count, distinct } => match number_of(cell, floats) {
                Some(v) => StateView::Avg {
                    sum: floats(FloatOp::Add(sum, v)),
                    count: count.wrapping_add(1),
                    distinct,
                },
                None => self,
            },
            _ => self,
        }
    }

    /// The state after a value that is not null has been taken into a minimum.
    pub open spec fn with_min(self, cell: Cell, floats: spec_fn(FloatOp) -> F64) -> StateView {
        match self {
            StateView::Min { ints, floats: extreme, text } => match int_of(cell) {
                Some(v) => StateView::Min {
                    ints: Some(
                        match ints {
                            Some(current) => if current <= v {
                                current
                            } else {
                                v
                            },
                            None => v,
                        },
                    ),
                    floats: extreme,
                    text,
                },
                None => match float_of(cell, floats) {
                    Some(v) => StateView::Min {
                        ints,
                        floats: Some(
                            match extreme {
                                Some(current) => current.lesser(v),
                                None => v,
                            },
                        ),
                        text,
                    },
                    None => match cell {
                        Cell::String(Some(s)) => StateView::Min {
                            ints,
                            floats: extreme,
                            text: Some(
                                match text {
                                    Some(current) => if text_before(s, current) {
                                        s
                                    } else {
                                        current
                                    },
                                    None => s,
                                },
                            ),
                        },
                        _ => self,
                    },
                },
            },
            _ => self,
        }
    }

    /// The state after a value that is not null has been taken into a maximum.
    pub open spec fn with_max(self, cell: Cell, floats: spec_fn(FloatOp) -> F64) -> StateView {
        match self {
            StateView::Max { ints, floats: extreme, text } => match int_of(cell) {
                Some(v) => StateView::Max {
                    ints: Some(
                        match ints {
                            Some(current) => if current >= v {
                                current
                            } else {
                                v
                            },
                            None => v,
                        },
                    ),
                    floats: extreme,
                    text,
                },
                None => match float_of(cell, floats) {
                    Some(v) => StateView::Max {
                        ints,
                        floats: Some(
                            match extreme {
                                Some(current) => current.greater(v),
                                None => v,
                            },
                        ),
                        text,
                    },
                    None => match cell {
                        Cell::String(Some(s)) => StateView::Max {
                            ints,
                            floats: extreme,
                            text: Some(
                                match text {
                                    Some(current) => if text_before(current, s) {
                                        s
                                    } else {
                                        current
                                    },
                                    None => s,
                                },
                            ),
                        },
                        _ => self,
                    },
                },
            },
            _ => self,
        }
    }

    /// The state after one more row. Only COUNT(*) takes note of a null value.
    pub open spec fn with(self, cell: Option<Cell>, floats: spec_fn(FloatOp) -> F64) -> StateView {
        match self {
            StateView::Count { count } => StateView::Count { count: count.wrapping_add(1) },
            _ => match cell {
                None => self,
                Some(value) => if value.missing() {
                    self
                } else {
                    match self {
                        StateView::Count { .. } => self,
                        StateView::CountExpression { count, distinct: Some(seen) } =>
                            StateView::CountExpression {
                            count,
                            distinct: Some(with_seen(seen, value)),
                        },
                        StateView::CountExpression { count, distinct: None } =>
                            StateView::CountExpression {
                            count: count.wrapping_add(1),
                            distinct: None,
                        },
                        StateView::Sum { ints, floats: total, distinct: Some(seen) } =>
                            StateView::Sum {
                            ints,
                            floats: total,
                            distinct: Some(with_seen(seen, value)),
                        },
                        StateView::Sum { .. } => self.with_sum(value, floats),
                        StateView::Avg { sum, count, distinct: Some(seen) } => StateView::Avg {
                            sum,
                            count,
                            distinct: Some(with_seen(seen, value)),
                        },
                        StateView::Avg { .. } => self.with_sum(value, floats),
                        StateView::Min { .. } => self.with_min(value, floats),
                        StateView::Max { .. } => self.with_max(value, floats),
                    }
                },
            },
        }
    }

    /// The value of the aggregate. Integers go before floating point numbers, and those before
    /// strings.
    pub open spec fn outcome(self, floats: spec_fn(FloatOp) -> F64) -> Cell {
        match self {
            StateView::Count { count } => Cell::Int64(Some(count)),
            StateView::CountExpression { count, distinct: Some(seen) } => Cell::Int64(
                Some(seen.len() as i64),
            ),
            StateView::CountExpression { count, distinct: None } => Cell::Int64(Some(count)),
            StateView::Sum { ints: Some(v), .. } => Cell::Int64(Some(v)),
            StateView::Sum { ints: None, floats: Some(v), .. } => Cell::Float64(Some(v)),
            StateView::Sum { ints: None, floats: None, .. } => Cell::Null,
            StateView::Avg { sum, count, distinct } => {
                let n = match distinct {
                    Some(seen) => seen.len() as i64,
                    None => count,
                };
                if n > 0 {
                    Cell::Float64(Some(floats(FloatOp::Div(sum, floats(FloatOp::FromInt(n))))))
                } else {
                    Cell::Null
                }
            },
            StateView::Min { ints: Some(v), .. } => Cell::Int64(Some(v)),
            StateView::Min { ints: None, floats: Some(v), .. } => Cell::Float64(Some(v)),
            StateView::Min { ints: None, floats: None, text: Some(s) } => Cell::String(Some(s)),
            StateView::Min { ints: None, floats: None, text: None } => Cell::Null,
            StateView::Max { ints: Some(v), .. } => Cell::Int64(Some(v)),
            StateView::Max { ints: None, floats: Some(v), .. } => Cell::Float64(Some(v)),
            StateView::Max { ints: None, floats: None, text: Some(s) } => Cell::String(Some(s)),
            StateView::Max { ints: None, floats: None, text: None } => Cell::Null,
        }
    }
}

/// The arithmetic in which every result is zero.
pub open spec fn zeros() -> spec_fn(FloatOp) -> F64 {
    |op: FloatOp| F64 { bits: 0 }
}

/// Whether two states differ in no more than their floating point numbers, as far as text goes:
/// they belong to the same function, and a minimum or a maximum is over the same integers and the
/// same strings, with floating point numbers in both or in neither.
pub open spec fn alike(a: StateView, b: StateView) -> bool {
    &&& a.shape() == b.shape()
    &&& match (a, b) {
        (
            StateView::Min { ints: i, floats: f, text: s },
            StateView::Min { ints: j, floats: g, text: t },
        ) => i == j && f is Some == g is Some && s == t,
        (
            StateView::Max { ints: i, floats: f, text: s },
            StateView::Max { ints: j, floats: g, text: t },
        ) => i == j && f is Some == g is Some && s == t,
        _ => true,
    }
}

/// The number of bytes in the text of the value of an aggregate.
pub open spec fn outcome_text(state: StateView) -> nat {
    text_size(state.outcome(zeros()))
}

/// The arithmetic plays no part in which states are alike.
pub proof fn lemma_alike_with(
    a: StateView,
    b: StateView,
    cell: Option<Cell>,
    f: spec_fn(FloatOp) -> F64,
    g: spec_fn(FloatOp) -> F64,
)
    requires
        alike(a, b),
    ensures
        alike(a.with(cell, f), b.with(cell, g)),
{
}

/// The cells of a sequence of values.
pub open spec fn cells_of(values: Seq<ScalarValue>) -> Seq<Cell> {
    values.map_values(|value: ScalarValue| value.cell())
}

/// The cells of the different values met.
pub open spec fn seen_cells(values: Option<Vec<ScalarValue>>) -> Option<Seq<Cell>> {
    match values {
        Some(seen) => Some(cells_of(seen@)),
        None => None,
    }
}

/// The characters of the string met.
pub open spec fn text_of(text: Option<String>) -> Option<Seq<char>> {
    match text {
        Some(s) => Some(s@),
        None => None,
    }
}

impl View for AggregateState {
    type V = StateView;

    open spec fn view(&self) -> StateView {
        match *self {
            AggregateState::Count { count } => StateView::Count { count },
            AggregateState::CountExpression { count, distinct_values } =>
                StateView::CountExpression { count, distinct: seen_cells(distinct_values) },
            AggregateState::Sum { sum_i64, sum_f64, distinct_values } => StateView::Sum {
                ints: sum_i64,
                floats: sum_f64,
                distinct: seen_cells(distinct_values),
            },
            AggregateState::Avg { sum_f64, count, distinct_values } => StateView::Avg {
                sum: sum_f64,
                count,
                distinct: seen_cells(distinct_values),
            },
            AggregateState::Min { min_i64, min_f64, min_string } => StateView::Min {
                ints: min_i64,
                floats: min_f64,
                text: text_of(min_string),
            },
            AggregateState::Max { max_i64, max_f64, max_string } => StateView::Max {
                ints: max_i64,
                floats: max_f64,
                text: text_of(max_string),
            },
        }
    }
}

/// Whether a value is null.
pub fn is_null_value(value: &ScalarValue) -> (null: bool)
    ensures
        null == value.cell().missing(),
{
    match value {
        ScalarValue::Null => true,
        ScalarValue::Boolean(v) => v.is_none(),
        ScalarValue::Int8(v) => v.is_none(),
        ScalarValue::Int16(v) => v.is_none(),
        ScalarValue::Int32(v) => v.is_none(),
        ScalarValue::Int64(v) => v.is_none(),
        ScalarValue::UInt8(v) => v.is_none(),
        ScalarValue::UInt16(v) => v.is_none(),
        ScalarValue::UInt32(v) => v.is_none(),
        ScalarValue::UInt64(v) => v.is_none(),
        ScalarValue::Float32(v) => v.is_none(),
        ScalarValue::Float64(v) => v.is_none(),
        ScalarValue::String(v) => v.is_none(),
        ScalarValue::Vertex(v) => v.is_none(),
        ScalarValue::Edge(v) => v.is_none(),
    }
}

/// The integer that a value holds, wrapped round where it is beyond the signed range.
fn int_value(value: &ScalarValue) -> (integer: Option<i64>)
    ensures
        integer == int_of(value.cell()),
{
    match value {
        ScalarValue::Int8(Some(v)) => Some(*v as i64),
        ScalarValue::Int16(Some(v)) => Some(*v as i64),
        ScalarValue::Int32(Some(v)) => Some(*v as i64),
        ScalarValue::Int64(Some(v)) => Some(*v),
        ScalarValue::UInt8(Some(v)) => Some(*v as i64),
        ScalarValue::UInt16(Some(v)) => Some(*v as i64),
        ScalarValue::UInt32(Some(v)) => Some(*v as i64),
        ScalarValue::UInt64(Some(v)) => Some(*v as i64),
        _ => None,
    }
}

/// The floating point number that a value holds, in double precision.
fn float_value<G: Fn(FloatOp) -> F64>(value: &ScalarValue, arithmetic: &G) -> (float: Option<F64>)
    requires
        total(*arithmetic),
    ensures
        float is Some <==> (value.cell() matches Cell::Float32(Some(_)) || value.cell() matches
            Cell::Float64(Some(_))),
        forall|floats: spec_fn(FloatOp) -> F64| #[trigger]
            computes(*arithmetic, floats) ==> float == float_of(value.cell(), floats),
{
    match value {
        ScalarValue::Float32(Some(v)) => Some(arithmetic(FloatOp::FromSingle(*v))),
        ScalarValue::Float64(Some(v)) => Some(*v),
        _ => None,
    }
}

/// The number that a value holds, of whatever type, in double precision.
fn number_value<G: Fn(FloatOp) -> F64>(value: &ScalarValue, arithmetic: &G) -> (number: Option<F64>)
    requires
        total(*arithmetic),
    ensures
        number is Some <==> is_number(value.cell()),
        forall|floats: spec_fn(FloatOp) -> F64| #[trigger]
            computes(*arithmetic, floats) ==> number == number_of(value.cell(), floats),
{
    match value {
        ScalarValue::UInt64(Some(v)) => Some(arithmetic(FloatOp::FromUInt(*v))),
        _ => match int_value(value) {
            Some(v) => Some(arithmetic(FloatOp::FromInt(v))),
            None => float_value(value, arithmetic),
        },
    }
}

/// Adds a value to the different values met, unless one like it is among them.
fn remember(seen: &mut Vec<ScalarValue>, value: ScalarValue)
    ensures
        cells_of(final(seen)@) == with_seen(cells_of(old(seen)@), value.cell()),
{
    let mut found = false;
    for i in 0..seen.len()
        invariant
            seen@ == old(seen)@,
            found == exists|j: int|
                0 <= j < i && (#[trigger] cells_of(seen@)[j]).matches(value.cell(), true),
    {
        proof {
            lemma_matching_cells(seen@[i as int], value, true);
        }
        if seen[i].matches(&value, true) {
            found = true;
            assert(cells_of(seen@)[i as int].matches(value.cell(), true));
        } else {
            assert(!cells_of(seen@)[i as int].matches(value.cell(), true));
        }
    }
    if !found {
        seen.push(value);
    }
    assert(cells_of(seen@) =~= with_seen(cells_of(old(seen)@), value.cell()));
}

impl AggregateState {
    /// The state before any row.
    pub fn new(func: &AggregateFunction, distinct: bool) -> (state: Self)
        ensures
            state@ == StateView::start(*func, distinct),
    {
        let distinct_values: Option<Vec<ScalarValue>> = if distinct {
            Some(Vec::new())
        } else {
            None
        };
        assert(seen_cells(distinct_values) =~= if distinct {
            Some(Seq::<Cell>::empty())
        } else {
            None
        }) by {
            if distinct {
                assert(cells_of(distinct_values->0@) =~= Seq::<Cell>::empty());
            }
        }
        match func {
            AggregateFunction::Count => AggregateState::Count { count: 0 },
            AggregateFunction::CountExpression => AggregateState::CountExpression {
                count: 0,
                distinct_values,
            },
            AggregateFunction::Sum => AggregateState::Sum {
                sum_i64: None,
                sum_f64: None,
                distinct_values,
            },
            AggregateFunction::Avg => AggregateState::Avg {
                sum_f64: F64 { bits: 0 },
                count: 0,
                distinct_values,
            },
            AggregateFunction::Min => AggregateState::Min {
                min_i64: None,
                min_f64: None,
                min_string: None,
            },
            AggregateFunction::Max => AggregateState::Max {
                max_i64: None,
                max_f64: None,
                max_string: None,
            },
        }
    }

    /// Adds a number to a sum or an average. The sum of integers wraps round.
    pub fn update_sum_aggregate<G: Fn(FloatOp) -> F64>(
        &mut self,
        val: &ScalarValue,
        arithmetic: &G,
    ) -> (result: ExecutionResult<()>)
        requires
            total(*arithmetic),
            is_number(val.cell()),
            *old(self) is Sum || *old(self) is Avg,
        ensures
            result is Ok,
            final(self)@.shape() == old(self)@.shape(),
            forall|floats: spec_fn(FloatOp) -> F64| #[trigger]
                computes(*arithmetic, floats) ==> final(self)@ == old(self)@.with_sum(
                    val.cell(),
                    floats,
                ),
    {
        match self {
            AggregateState::Sum { sum_i64, sum_f64, .. } => {
                match int_value(val) {
                    Some(v) => {
                        *sum_i64 = Some(
                            match *sum_i64 {
                                Some(current) => current.wrapping_add(v),
                                None => v,
                            },
                        );
                    },
                    None => {
                        if let Some(v) = float_value(val, arithmetic) {
                            *sum_f64 = Some(
                                match *sum_f64 {
                                    Some(current) => arithmetic(FloatOp::Add(current, v)),
                                    None => v,
                                },
                            );
                        }
                    },
                }
            },
            AggregateState::Avg { sum_f64, count, .. } => {
                if let Some(v) = number_value(val, arithmetic) {
                    *sum_f64 = arithmetic(FloatOp::Add(*sum_f64, v));
                    *count = (*count).wrapping_add(1);
                }
            },
            _ => {},
        }
        Ok(())
    }

    /// Takes a number or a string into a minimum.
    pub fn update_min_aggregate<G: Fn(FloatOp) -> F64>(
        &mut self,
        val: &ScalarValue,
        arithmetic: &G,
    ) -> (result: ExecutionResult<()>)
        requires
            total(*arithmetic),
            *old(self) is Min ==> is_number(val.cell()) || val.cell() matches Cell::String(Some(_)),
        ensures
            result is Ok,
            final(self)@.shape() == old(self)@.shape(),
            forall|floats: spec_fn(FloatOp) -> F64| #[trigger]
                computes(*arithmetic, floats) ==> final(self)@ == old(self)@.with_min(
                    val.cell(),
                    floats,
                ),
            alike(final(self)@, old(self)@.with_min(val.cell(), zeros())),
    {
        if let AggregateState::Min { min_i64, min_f64, min_string } = self {
            match int_value(val) {
                Some(v) => {
                    *min_i64 = Some(
                        match *min_i64 {
                            Some(current) => if current <= v {
                                current
                            } else {
                                v
                            },
                            None => v,
                        },
                    );
                },
                None => {
                    match float_value(val, arithmetic) {
                        Some(v) => {
                            *min_f64 = Some(
                                match *min_f64 {
                                    Some(current) => current.min(v),
                                    None => v,
                                },
                            );
                        },
                        None => {
                            if let ScalarValue::String(Some(s)) = val {
                                let replace = match min_string {
                                    Some(current) => text_less(s.as_str(), current.as_str()),
                                    None => true,
                                };
                                if replace {
                                    *min_string = Some(s.clone());
                                }
                            }
                        },
                    }
                },
            }
        }
        Ok(())
    }

    /// Takes a number or a string into a maximum.
    pub fn update_max_aggregate<G: Fn(FloatOp) -> F64>(
        &mut self,
        val: &ScalarValue,
        arithmetic: &G,
    ) -> (result: ExecutionResult<()>)
        requires
            total(*arithmetic),
            *old(self) is Max ==> is_number(val.cell()) || val.cell() matches Cell::String(Some(_)),
        ensures
            result is Ok,
            final(self)@.shape() == old(self)@.shape(),
            forall|floats: spec_fn(FloatOp) -> F64| #[trigger]
                computes(*arithmetic, floats) ==> final(self)@ == old(self)@.with_max(
                    val.cell(),
                    floats,
                ),
            alike(final(self)@, old(self)@.with_max(val.cell(), zeros())),
    {
        if let AggregateState::Max { max_i64, max_f64, max_string } = self {
            match int_value(val) {
                Some(v) => {
                    *max_i64 = Some(
                        match *max_i64 {
                            Some(current) => if current >= v {
                                current
                            } else {
                                v
                            },
                            None => v,
                        },
                    );
                },
                None => {
                    match float_value(val, arithmetic) {
                        Some(v) => {
                            *max_f64 = Some(
                                match *max_f64 {
                                    Some(current) => current.max(v),
                                    None => v,
                                },
                            );
                        },
                        None => {
                            if let ScalarValue::String(Some(s)) = val {
                                let replace = match max_string {
                                    Some(current) => text_less(current.as_str(), s.as_str()),
                                    None => true,
                                };
                                if replace {
                                    *max_string = Some(s.clone());
                                }
                            }
                        },
                    }
                },
            }
        }
        Ok(())
    }

    /// Takes one more row into account.
    pub fn update<G: Fn(FloatOp) -> F64>(
        &mut self,
        value: Option<ScalarValue>,
        arithmetic: &G,
    ) -> (result: ExecutionResult<()>)
        requires
            total(*arithmetic),
            value matches Some(v) ==> old(self)@.accepts(v.cell()),
        ensures
            result is Ok,
            final(self)@.shape() == old(self)@.shape(),
            forall|floats: spec_fn(FloatOp) -> F64| #[trigger]
                computes(*arithmetic, floats) ==> final(self)@ == old(self)@.with(
                    match value {
                        Some(v) => Some(v.cell()),
                        None => None,
                    },
                    floats,
                ),
            alike(
                final(self)@,
                old(self)@.with(
                    match value {
                        Some(v) => Some(v.cell()),
                        None => None,
                    },
                    zeros(),
                ),
            ),
    {
        match self {
            AggregateState::Count { count } => {
                *count = (*count).wrapping_add(1);
                return Ok(());
            },
            _ => {},
        }
        let val = match value {
            Some(val) => val,
            None => return Ok(()),
        };
        if is_null_value(&val) {
            return Ok(());
        }
        match self {
            AggregateState::Count { .. } => Ok(()),
            AggregateState::CountExpression { count, distinct_values } => {
                match distinct_values {
                    Some(distinct_set) => remember(distinct_set, val),
                    None => {
                        *count = (*count).wrapping_add(1);
                    },
                }
                Ok(())
            },
            AggregateState::Sum { distinct_values: Some(distinct_set), .. } => {
                remember(distinct_set, val);
                Ok(())
            },
            AggregateState::Avg { distinct_values: Some(distinct_set), .. } => {
                remember(distinct_set, val);
                Ok(())
            },
            AggregateState::Sum { .. } => self.update_sum_aggregate(&val, arithmetic),
            AggregateState::Avg { .. } => self.update_sum_aggregate(&val, arithmetic),
            AggregateState::Min { .. } => self.update_min_aggregate(&val, arithmetic),
            AggregateState::Max { .. } => self.update_max_aggregate(&val, arithmetic),
        }
    }

    /// The value of the aggregate.
    pub fn finalize<G: Fn(FloatOp) -> F64>(&self, arithmetic: &G) -> (result: ExecutionResult<
        ScalarValue,
    >)
        requires
            total(*arithmetic),
        ensures
            result is Ok,
            result->Ok_0.cell().array_type() != ArrayType::Other,
            forall|floats: spec_fn(FloatOp) -> F64| #[trigger]
                computes(*arithmetic, floats) ==> result->Ok_0.cell() == self@.outcome(floats),
            text_size(result->Ok_0.cell()) == outcome_text(self@),
    {
        match self {
            AggregateState::Count { count } => Ok(ScalarValue::Int64(Some(*count))),
            AggregateState::CountExpression { count, distinct_values } => {
                let count: i64 = match distinct_values {
                    Some(distinct_set) => distinct_set.len() as i64,
                    None => *count,
                };
                Ok(ScalarValue::Int64(Some(count)))
            },
            AggregateState::Sum { sum_i64, sum_f64, .. } => {
                if let Some(value) = sum_i64 {
                    return Ok(ScalarValue::Int64(Some(*value)));
                }
                if let Some(value) = sum_f64 {
                    return Ok(ScalarValue::Float64(Some(*value)));
                }
                Ok(ScalarValue::Null)
            },
            AggregateState::Avg { sum_f64, count, distinct_values } => {
                let effective_count: i64 = match distinct_values {
                    Some(distinct_set) => distinct_set.len() as i64,
                    None => *count,
                };
                if effective_count > 0 {
                    let divisor = arithmetic(FloatOp::FromInt(effective_count));
                    return Ok(
                        ScalarValue::Float64(Some(arithmetic(FloatOp::Div(*sum_f64, divisor)))),
                    );
                }
                Ok(ScalarValue::Null)
            },
            AggregateState::Min { min_i64, min_f64, min_string } => {
                if let Some(value) = min_i64 {
                    return Ok(ScalarValue::Int64(Some(*value)));
                }
                if let Some(value) = min_f64 {
                    return Ok(ScalarValue::Float64(Some(*value)));
                }
                if let Some(value) = min_string {
                    return Ok(ScalarValue::String(Some(value.clone())));
                }
                Ok(ScalarValue::Null)
            },
            AggregateState::Max { max_i64, max_f64, max_string } => {
                if let Some(value) = max_i64 {
                    return Ok(ScalarValue::Int64(Some(*value)));
                }
                if let Some(value) = max_f64 {
                    return Ok(ScalarValue::Float64(Some(*value)));
                }
                if let Some(value) = max_string {
                    return Ok(ScalarValue::String(Some(value.clone())));
                }
                Ok(ScalarValue::Null)
            },
        }
    }
}

} // verus!
