//! What holds of aggregates over values of any kind.

use vstd::prelude::*;
#[allow(unused_imports)]
use vstd::utf8::encode_utf8;

#[allow(unused_imports)]
use crate::common::array::{lemma_cell_matches_self, Cell};
#[allow(unused_imports)]
use crate::common::text::{bytes_before, text_before};
#[allow(unused_imports)]
use crate::common::value::{law_rank_tells, F64};
#[allow(unused_imports)]
use crate::execution::laws::after;
#[allow(unused_imports)]
use crate::execution::state::{
    float_of, int_of, met, with_seen, AggregateFunction, FloatOp, StateView,
};

verus! {

/// The string that a cell holds.
pub open spec fn string_of(cell: Cell) -> Option<Seq<char>> {
    match cell {
        Cell::String(text) => text,
        _ => None,
    }
}

/// Whether a number is the greatest of the integers among values.
pub open spec fn is_greatest_int(cells: Seq<Cell>, greatest: Option<i64>) -> bool {
    match greatest {
        None => forall|i: int| 0 <= i < cells.len() ==> int_of(#[trigger] cells[i]) is None,
        Some(v) => {
            &&& exists|i: int| 0 <= i < cells.len() && int_of(#[trigger] cells[i]) == Some(v)
            &&& forall|i: int|
                0 <= i < cells.len() ==> (int_of(#[trigger] cells[i]) matches Some(w) ==> w <= v)
        },
    }
}

/// Whether a number is the least of the integers among values.
pub open spec fn is_least_int(cells: Seq<Cell>, least: Option<i64>) -> bool {
    match least {
        None => forall|i: int| 0 <= i < cells.len() ==> int_of(#[trigger] cells[i]) is None,
        Some(v) => {
            &&& exists|i: int| 0 <= i < cells.len() && int_of(#[trigger] cells[i]) == Some(v)
            &&& forall|i: int|
                0 <= i < cells.len() ==> (int_of(#[trigger] cells[i]) matches Some(w) ==> v <= w)
        },
    }
}

/// Whether a string is the greatest of the strings among values.
pub open spec fn is_greatest_text(cells: Seq<Cell>, greatest: Option<Seq<char>>) -> bool {
    match greatest {
        None => forall|i: int| 0 <= i < cells.len() ==> string_of(#[trigger] cells[i]) is None,
        Some(s) => {
            &&& exists|i: int| 0 <= i < cells.len() && string_of(#[trigger] cells[i]) == Some(s)
            &&& forall|i: int|
                0 <= i < cells.len() ==> (string_of(#[trigger] cells[i]) matches Some(t)
                    ==> !text_before(s, t))
        },
    }
}

/// Whether a string is the least of the strings among values.
pub open spec fn is_least_text(cells: Seq<Cell>, least: Option<Seq<char>>) -> bool {
    match least {
        None => forall|i: int| 0 <= i < cells.len() ==> string_of(#[trigger] cells[i]) is None,
        Some(s) => {
            &&& exists|i: int| 0 <= i < cells.len() && string_of(#[trigger] cells[i]) == Some(s)
            &&& forall|i: int|
                0 <= i < cells.len() ==> (string_of(#[trigger] cells[i]) matches Some(t)
                    ==> !text_before(t, s))
        },
    }
}

/// Whether a number is the greatest of the floating point numbers among values.
pub open spec fn is_greatest_float(
    cells: Seq<Cell>,
    floats: spec_fn(FloatOp) -> F64,
    greatest: Option<F64>,
) -> bool {
    match greatest {
        None => forall|i: int|
            0 <= i < cells.len() ==> float_of(#[trigger] cells[i], floats) is None,
        Some(v) => {
            &&& exists|i: int|
                0 <= i < cells.len() && float_of(#[trigger] cells[i], floats) == Some(v)
            &&& forall|i: int|
                0 <= i < cells.len() ==> (float_of(#[trigger] cells[i], floats) matches Some(w)
                    ==> w.rank() <= v.rank())
        },
    }
}

/// Whether a number is the least of the floating point numbers among values.
pub open spec fn is_least_float(
    cells: Seq<Cell>,
    floats: spec_fn(FloatOp) -> F64,
    least: Option<F64>,
) -> bool {
    match least {
        None => forall|i: int|
            0 <= i < cells.len() ==> float_of(#[trigger] cells[i], floats) is None,
        Some(v) => {
            &&& exists|i: int|
                0 <= i < cells.len() && float_of(#[trigger] cells[i], floats) == Some(v)
            &&& forall|i: int|
                0 <= i < cells.len() ==> (float_of(#[trigger] cells[i], floats) matches Some(w)
                    ==> v.rank() <= w.rank())
        },
    }
}

/// Whether every floating point value among values is a number.
pub open spec fn all_numbers(cells: Seq<Cell>, floats: spec_fn(FloatOp) -> F64) -> bool {
    forall|i: int|
        0 <= i < cells.len() ==> (float_of(#[trigger] cells[i], floats) matches Some(v)
            ==> !v.nan())
}

proof fn lemma_bytes_transitive(a: Seq<u8>, b: Seq<u8>, c: Seq<u8>)
    requires
        bytes_before(a, b),
        bytes_before(b, c),
    ensures
        bytes_before(a, c),
    decreases a.len(),
{
    if a.len() > 0 && b.len() > 0 && c.len() > 0 && a[0] == b[0] && b[0] == c[0] {
        lemma_bytes_transitive(a.drop_first(), b.drop_first(), c.drop_first());
    }
}

proof fn lemma_bytes_irreflexive(a: Seq<u8>)
    ensures
        !bytes_before(a, a),
    decreases a.len(),
{
    if a.len() > 0 {
        lemma_bytes_irreflexive(a.drop_first());
    }
}

proof fn lemma_bytes_total(a: Seq<u8>, b: Seq<u8>)
    ensures
        bytes_before(a, b) || bytes_before(b, a) || a == b,
    decreases a.len(),
{
    if a.len() > 0 && b.len() > 0 {
        lemma_bytes_total(a.drop_first(), b.drop_first());
        if a[0] == b[0] && a.drop_first() == b.drop_first() {
            assert(a =~= seq![a[0]] + a.drop_first());
            assert(b =~= seq![b[0]] + b.drop_first());
        }
    } else {
        assert(a.len() == b.len() ==> a =~= b);
    }
}

/// MAX keeps the greatest integer, the greatest floating point number and the greatest string
/// apart: each is one of the values of its kind and none of its kind is greater, or is missing
/// where there is no value of its kind. No kind has a part in what is kept of another. Left out, as
/// to the floating point numbers, are values among which one is no number.
pub proof fn law_max_by_kind(cells: Seq<Cell>, floats: spec_fn(FloatOp) -> F64)
    ensures
        ({
            let state = after(StateView::start(AggregateFunction::Max, false), cells, floats);
            &&& state is Max
            &&& is_greatest_int(cells, state->Max_ints)
            &&& all_numbers(cells, floats) ==> is_greatest_float(cells, floats, state->Max_floats)
            &&& is_greatest_text(cells, state->Max_text)
        }),
    decreases cells.len(),
{
    let start = StateView::start(AggregateFunction::Max, false);
    if cells.len() > 0 {
        let rest = cells.drop_last();
        let cell = cells.last();
        assert(cell == cells[cells.len() - 1]);
        let fit = all_numbers(cells, floats);
        assert forall|i: int| fit && 0 <= i < rest.len() implies (float_of(
            #[trigger] rest[i],
            floats,
        ) matches Some(v) ==> !v.nan()) by {
            assert(rest[i] == cells[i]);
        }
        law_max_by_kind(rest, floats);
        let before = after(start, rest, floats);
        let state = after(start, cells, floats);
        assert(state == before.with(Some(cell), floats));
        // The values met before are still among the values.
        if let Some(v) = before->Max_ints {
            let k = choose|i: int| 0 <= i < rest.len() && int_of(#[trigger] rest[i]) == Some(v);
            assert(cells[k] == rest[k]);
        }
        if fit && before->Max_floats is Some {
            let v = before->Max_floats->0;
            let k = choose|i: int|
                0 <= i < rest.len() && float_of(#[trigger] rest[i], floats) == Some(v);
            assert(cells[k] == rest[k]);
            assert(!v.nan());
        }
        if let Some(s) = before->Max_text {
            let k = choose|i: int|
                0 <= i < rest.len() && string_of(#[trigger] rest[i]) == Some(s);
            assert(cells[k] == rest[k]);
        }
        assert forall|i: int| 0 <= i < cells.len() && i != cells.len() - 1 implies cells[i]
            == #[trigger] rest[i] by {}
        if fit && float_of(cell, floats) is Some {
            let v = float_of(cell, floats)->0;
            assert(!v.nan());
            if let Some(current) = before->Max_floats {
                let picked = current.greater(v);
                assert forall|i: int| 0 <= i < cells.len() implies (float_of(
                    #[trigger] cells[i],
                    floats,
                ) matches Some(w) ==> w.rank() <= picked.rank()) by {
                    if i < rest.len() {
                        if let Some(w) = float_of(cells[i], floats) {
                            assert(float_of(rest[i], floats) == Some(w));
                            assert(w.rank() <= current.rank());
                        }
                    }
                }
            }
        }
        if let Some(s) = string_of(cell) {
            lemma_bytes_irreflexive(encode_utf8(s));
            if let Some(current) = before->Max_text {
                assert forall|i: int| 0 <= i < rest.len() implies (string_of(
                    #[trigger] rest[i],
                ) matches Some(t) ==> !text_before(current, t) && (text_before(current, s)
                    ==> !text_before(s, t))) by {
                    if let Some(t) = string_of(rest[i]) {
                        if text_before(current, s) && text_before(s, t) {
                            lemma_bytes_transitive(
                                encode_utf8(current),
                                encode_utf8(s),
                                encode_utf8(t),
                            );
                        }
                    }
                }
            }
        }
        assert(is_greatest_int(cells, state->Max_ints)) by {
            assert forall|i: int| 0 <= i < rest.len() implies int_of(#[trigger] cells[i])
                == int_of(rest[i]) by {}
        }
        assert(fit ==> is_greatest_float(cells, floats, state->Max_floats)) by {
            assert forall|i: int| 0 <= i < rest.len() implies float_of(
                #[trigger] cells[i],
                floats,
            ) == float_of(rest[i], floats) by {}
        }
        assert(is_greatest_text(cells, state->Max_text)) by {
            assert forall|i: int| 0 <= i < rest.len() implies string_of(#[trigger] cells[i])
                == string_of(rest[i]) by {}
        }
    }
}

/// MIN keeps the least integer, the least floating point number and the least string apart: each is
/// one of the values of its kind and none of its kind is less, or is missing where there is no
/// value of its kind. No kind has a part in what is kept of another. Left out, as to the floating
/// point numbers, are values among which one is no number.
pub proof fn law_min_by_kind(cells: Seq<Cell>, floats: spec_fn(FloatOp) -> F64)
    ensures
        ({
            let state = after(StateView::start(AggregateFunction::Min, false), cells, floats);
            &&& state is Min
            &&& is_least_int(cells, state->Min_ints)
            &&& all_numbers(cells, floats) ==> is_least_float(cells, floats, state->Min_floats)
            &&& is_least_text(cells, state->Min_text)
        }),
    decreases cells.len(),
{
    let start = StateView::start(AggregateFunction::Min, false);
    if cells.len() > 0 {
        let rest = cells.drop_last();
        let cell = cells.last();
        assert(cell == cells[cells.len() - 1]);
        let fit = all_numbers(cells, floats);
        assert forall|i: int| fit && 0 <= i < rest.len() implies (float_of(
            #[trigger] rest[i],
            floats,
        ) matches Some(v) ==> !v.nan()) by {
            assert(rest[i] == cells[i]);
        }
        law_min_by_kind(rest, floats);
        let before = after(start, rest, floats);
        let state = after(start, cells, floats);
        assert(state == before.with(Some(cell), floats));
        // The values met before are still among the values.
        if let Some(v) = before->Min_ints {
            let k = choose|i: int| 0 <= i < rest.len() && int_of(#[trigger] rest[i]) == Some(v);
            assert(cells[k] == rest[k]);
        }
        if fit && before->Min_floats is Some {
            let v = before->Min_floats->0;
            let k = choose|i: int|
                0 <= i < rest.len() && float_of(#[trigger] rest[i], floats) == Some(v);
            assert(cells[k] == rest[k]);
            assert(!v.nan());
        }
        if let Some(s) = before->Min_text {
            let k = choose|i: int|
                0 <= i < rest.len() && string_of(#[trigger] rest[i]) == Some(s);
            assert(cells[k] == rest[k]);
        }
        assert forall|i: int| 0 <= i < cells.len() && i != cells.len() - 1 implies cells[i]
            == #[trigger] rest[i] by {}
        if fit && float_of(cell, floats) is Some {
            let v = float_of(cell, floats)->0;
            assert(!v.nan());
            if let Some(current) = before->Min_floats {
                let picked = current.lesser(v);
                assert forall|i: int| 0 <= i < cells.len() implies (float_of(
                    #[trigger] cells[i],
                    floats,
                ) matches Some(w) ==> picked.rank() <= w.rank()) by {
                    if i < rest.len() {
                        if let Some(w) = float_of(cells[i], floats) {
                            assert(float_of(rest[i], floats) == Some(w));
                            assert(current.rank() <= w.rank());
                        }
                    }
                }
            }
        }
        if let Some(s) = string_of(cell) {
            lemma_bytes_irreflexive(encode_utf8(s));
            if let Some(current) = before->Min_text {
                assert forall|i: int| 0 <= i < rest.len() implies (string_of(
                    #[trigger] rest[i],
                ) matches Some(t) ==> !text_before(t, current) && (text_before(s, current)
                    ==> !text_before(t, s))) by {
                    if let Some(t) = string_of(rest[i]) {
                        if text_before(s, current) && text_before(t, s) {
                            lemma_bytes_transitive(
                                encode_utf8(t),
                                encode_utf8(s),
                                encode_utf8(current),
                            );
                        }
                    }
                }
            }
        }
        assert(is_least_int(cells, state->Min_ints)) by {
            assert forall|i: int| 0 <= i < rest.len() implies int_of(#[trigger] cells[i])
                == int_of(rest[i]) by {}
        }
        assert(fit ==> is_least_float(cells, floats, state->Min_floats)) by {
            assert forall|i: int| 0 <= i < rest.len() implies float_of(
                #[trigger] cells[i],
                floats,
            ) == float_of(rest[i], floats) by {}
        }
        assert(is_least_text(cells, state->Min_text)) by {
            assert forall|i: int| 0 <= i < rest.len() implies string_of(#[trigger] cells[i])
                == string_of(rest[i]) by {}
        }
    }
}

proof fn lemma_same_text(a: Seq<char>, b: Seq<char>)
    requires
        !text_before(a, b),
        !text_before(b, a),
    ensures
        a == b,
{
    lemma_bytes_total(encode_utf8(a), encode_utf8(b));
    vstd::utf8::encode_utf8_decode_utf8(a);
    vstd::utf8::encode_utf8_decode_utf8(b);
}

/// The order in which values arrive, and how often each does, matters neither to the integer, the
/// floating point number and the string that MAX keeps, nor to those that MIN keeps. Left out, as
/// to the floating point numbers, are values among which one is no number; and zeros of either
/// sign count as the same.
pub proof fn law_extremes_any_order(
    a: Seq<Cell>,
    b: Seq<Cell>,
    floats: spec_fn(FloatOp) -> F64,
)
    requires
        forall|cell: Cell| #[trigger] a.contains(cell) <==> b.contains(cell),
    ensures
        ({
            let x = after(StateView::start(AggregateFunction::Max, false), a, floats);
            let y = after(StateView::start(AggregateFunction::Max, false), b, floats);
            &&& x->Max_ints == y->Max_ints
            &&& x->Max_text == y->Max_text
            &&& all_numbers(a, floats) ==> same_numbers(x->Max_floats, y->Max_floats)
        }),
        ({
            let x = after(StateView::start(AggregateFunction::Min, false), a, floats);
            let y = after(StateView::start(AggregateFunction::Min, false), b, floats);
            &&& x->Min_ints == y->Min_ints
            &&& x->Min_text == y->Min_text
            &&& all_numbers(a, floats) ==> same_numbers(x->Min_floats, y->Min_floats)
        }),
{
    law_max_by_kind(a, floats);
    law_max_by_kind(b, floats);
    law_min_by_kind(a, floats);
    law_min_by_kind(b, floats);
    assert forall|i: int| 0 <= i < a.len() implies b.contains(#[trigger] a[i]) by {
        assert(a.contains(a[i]));
    }
    assert forall|i: int| 0 <= i < b.len() implies a.contains(#[trigger] b[i]) by {
        assert(b.contains(b[i]));
    }
    let max_a = after(StateView::start(AggregateFunction::Max, false), a, floats);
    let max_b = after(StateView::start(AggregateFunction::Max, false), b, floats);
    let min_a = after(StateView::start(AggregateFunction::Min, false), a, floats);
    let min_b = after(StateView::start(AggregateFunction::Min, false), b, floats);
    if all_numbers(a, floats) {
        assert forall|i: int| 0 <= i < b.len() implies (float_of(
            #[trigger] b[i],
            floats,
        ) matches Some(v) ==> !v.nan()) by {
            assert(a.contains(b[i]));
            let j = choose|j: int| 0 <= j < a.len() && a[j] == b[i];
            assert(float_of(a[j], floats) == float_of(b[i], floats));
        }
        assert(all_numbers(b, floats));
        lemma_greatest_among(a, b, floats, max_a->Max_floats, max_b->Max_floats);
        lemma_greatest_among(b, a, floats, max_b->Max_floats, max_a->Max_floats);
        lemma_least_among(a, b, floats, min_a->Min_floats, min_b->Min_floats);
        lemma_least_among(b, a, floats, min_b->Min_floats, min_a->Min_floats);
        if max_a->Max_floats is Some {
            law_rank_tells(max_a->Max_floats->0, max_b->Max_floats->0);
        }
        if min_a->Min_floats is Some {
            law_rank_tells(min_a->Min_floats->0, min_b->Min_floats->0);
        }
    }
    lemma_one_greatest(a, b, max_a->Max_ints, max_b->Max_ints);
    lemma_one_greatest(b, a, max_b->Max_ints, max_a->Max_ints);
    lemma_one_least(a, b, min_a->Min_ints, min_b->Min_ints);
    lemma_one_least(b, a, min_b->Min_ints, min_a->Min_ints);
    lemma_greatest_text_among(a, b, max_a->Max_text, max_b->Max_text);
    lemma_greatest_text_among(b, a, max_b->Max_text, max_a->Max_text);
    lemma_least_text_among(a, b, min_a->Min_text, min_b->Min_text);
    lemma_least_text_among(b, a, min_b->Min_text, min_a->Min_text);
    if max_a->Max_text is Some {
        lemma_same_text(max_a->Max_text->0, max_b->Max_text->0);
    }
    if min_a->Min_text is Some {
        lemma_same_text(min_a->Min_text->0, min_b->Min_text->0);
    }
}

/// Whether two numbers are the same, or both missing.
pub open spec fn same_numbers(x: Option<F64>, y: Option<F64>) -> bool {
    match (x, y) {
        (Some(v), Some(w)) => v.same(w),
        (None, None) => true,
        _ => false,
    }
}

proof fn lemma_greatest_among(
    a: Seq<Cell>,
    b: Seq<Cell>,
    floats: spec_fn(FloatOp) -> F64,
    x: Option<F64>,
    y: Option<F64>,
)
    requires
        is_greatest_float(a, floats, x),
        is_greatest_float(b, floats, y),
        all_numbers(a, floats),
        forall|i: int| 0 <= i < a.len() ==> b.contains(#[trigger] a[i]),
    ensures
        x matches Some(v) ==> !v.nan() && (y matches Some(w) && v.rank() <= w.rank()),
{
    if let Some(v) = x {
        let i = choose|i: int| 0 <= i < a.len() && float_of(#[trigger] a[i], floats) == Some(v);
        assert(b.contains(a[i]));
        let j = choose|j: int| 0 <= j < b.len() && b[j] == a[i];
        assert(float_of(b[j], floats) == Some(v));
    }
}

proof fn lemma_least_among(
    a: Seq<Cell>,
    b: Seq<Cell>,
    floats: spec_fn(FloatOp) -> F64,
    x: Option<F64>,
    y: Option<F64>,
)
    requires
        is_least_float(a, floats, x),
        is_least_float(b, floats, y),
        all_numbers(a, floats),
        forall|i: int| 0 <= i < a.len() ==> b.contains(#[trigger] a[i]),
    ensures
        x matches Some(v) ==> !v.nan() && (y matches Some(w) && w.rank() <= v.rank()),
{
    if let Some(v) = x {
        let i = choose|i: int| 0 <= i < a.len() && float_of(#[trigger] a[i], floats) == Some(v);
        assert(b.contains(a[i]));
        let j = choose|j: int| 0 <= j < b.len() && b[j] == a[i];
        assert(float_of(b[j], floats) == Some(v));
    }
}

proof fn lemma_one_greatest(a: Seq<Cell>, b: Seq<Cell>, x: Option<i64>, y: Option<i64>)
    requires
        is_greatest_int(a, x),
        is_greatest_int(b, y),
        forall|i: int| 0 <= i < a.len() ==> b.contains(#[trigger] a[i]),
    ensures
        x matches Some(v) ==> y matches Some(w) && v <= w,
{
    if let Some(v) = x {
        let i = choose|i: int| 0 <= i < a.len() && int_of(#[trigger] a[i]) == Some(v);
        assert(b.contains(a[i]));
        let j = choose|j: int| 0 <= j < b.len() && b[j] == a[i];
        assert(int_of(b[j]) == Some(v));
    }
}

proof fn lemma_one_least(a: Seq<Cell>, b: Seq<Cell>, x: Option<i64>, y: Option<i64>)
    requires
        is_least_int(a, x),
        is_least_int(b, y),
        forall|i: int| 0 <= i < a.len() ==> b.contains(#[trigger] a[i]),
    ensures
        x matches Some(v) ==> y matches Some(w) && w <= v,
{
    if let Some(v) = x {
        let i = choose|i: int| 0 <= i < a.len() && int_of(#[trigger] a[i]) == Some(v);
        assert(b.contains(a[i]));
        let j = choose|j: int| 0 <= j < b.len() && b[j] == a[i];
        assert(int_of(b[j]) == Some(v));
    }
}

proof fn lemma_greatest_text_among(
    a: Seq<Cell>,
    b: Seq<Cell>,
    x: Option<Seq<char>>,
    y: Option<Seq<char>>,
)
    requires
        is_greatest_text(a, x),
        is_greatest_text(b, y),
        forall|i: int| 0 <= i < a.len() ==> b.contains(#[trigger] a[i]),
    ensures
        x matches Some(s) ==> y matches Some(t) && !text_before(t, s),
{
    if let Some(s) = x {
        let i = choose|i: int| 0 <= i < a.len() && string_of(#[trigger] a[i]) == Some(s);
        assert(b.contains(a[i]));
        let j = choose|j: int| 0 <= j < b.len() && b[j] == a[i];
        assert(string_of(b[j]) == Some(s));
    }
}

proof fn lemma_least_text_among(
    a: Seq<Cell>,
    b: Seq<Cell>,
    x: Option<Seq<char>>,
    y: Option<Seq<char>>,
)
    requires
        is_least_text(a, x),
        is_least_text(b, y),
        forall|i: int| 0 <= i < a.len() ==> b.contains(#[trigger] a[i]),
    ensures
        x matches Some(s) ==> y matches Some(t) && !text_before(s, t),
{
    if let Some(s) = x {
        let i = choose|i: int| 0 <= i < a.len() && string_of(#[trigger] a[i]) == Some(s);
        assert(b.contains(a[i]));
        let j = choose|j: int| 0 <= j < b.len() && b[j] == a[i];
        assert(string_of(b[j]) == Some(s));
    }
}

/// The different values that a state has met.
pub open spec fn seen_of(state: StateView) -> Option<Seq<Cell>> {
    match state {
        StateView::CountExpression { distinct, .. } => distinct,
        StateView::Sum { distinct, .. } => distinct,
        StateView::Avg { distinct, .. } => distinct,
        _ => None,
    }
}

proof fn lemma_all_met(
    function: AggregateFunction,
    cells: Seq<Cell>,
    floats: spec_fn(FloatOp) -> F64,
)
    requires
        function is CountExpression || function is Sum || function is Avg,
    ensures
        seen_of(after(StateView::start(function, true), cells, floats)) matches Some(seen)
            && forall|i: int|
            0 <= i < cells.len() && !(#[trigger] cells[i]).missing() && !(cells[i] is Other)
                ==> met(seen, cells[i]),
        after(StateView::start(function, true), cells, floats).shape() == (function, true),
    decreases cells.len(),
{
    if cells.len() > 0 {
        let rest = cells.drop_last();
        let cell = cells.last();
        lemma_all_met(function, rest, floats);
        let before = seen_of(after(StateView::start(function, true), rest, floats))->0;
        let seen = seen_of(after(StateView::start(function, true), cells, floats))->0;
        assert(seen == if cell.missing() {
            before
        } else {
            with_seen(before, cell)
        });
        assert forall|i: int|
            0 <= i < cells.len() && !(#[trigger] cells[i]).missing() && !(
            cells[i] is Other) implies met(seen, cells[i]) by {
            if i < rest.len() {
                assert(rest[i] == cells[i]);
                assert(met(before, rest[i]));
                let k = choose|k: int|
                    0 <= k < before.len() && (#[trigger] before[k]).matches(cells[i], true);
                assert(seen[k] == before[k]);
            } else if !met(before, cell) {
                assert(seen[before.len() as int] == cell);
                lemma_cell_matches_self(cell, true);
            }
        }
    }
}

/// A value that has been met, of any type with scalar values, changes nothing of COUNT, SUM or AVG
/// over different values.
pub proof fn law_distinct_again(
    function: AggregateFunction,
    cells: Seq<Cell>,
    cell: Cell,
    floats: spec_fn(FloatOp) -> F64,
)
    requires
        function is CountExpression || function is Sum || function is Avg,
        cells.contains(cell),
        !(cell is Other),
    ensures
        after(StateView::start(function, true), cells.push(cell), floats) == after(
            StateView::start(function, true),
            cells,
            floats,
        ),
{
    lemma_all_met(function, cells, floats);
    assert(cells.push(cell).drop_last() =~= cells);
    let i = choose|i: int| 0 <= i < cells.len() && cells[i] == cell;
    assert(cells[i] == cell);
}

} // verus!
