//! What holds of every session, and of every line that a client types.

use vstd::prelude::*;

#[allow(unused_imports)]
use crate::common::chunk::DataChunk;
#[allow(unused_imports)]
use crate::common::data_type::DataSchemaRef;
#[allow(unused_imports)]
use crate::execution::error::ExecutionError;
#[allow(unused_imports)]
use crate::execution::executor::{came_out, Executor};
#[allow(unused_imports)]
use crate::query::ast::Source;
#[allow(unused_imports)]
use crate::query::binder::{Resolver, Scope, ScopeView};
#[allow(unused_imports)]
use crate::query::bound::{
    BoundCallProcedureStatement, BoundExpr, BoundProcedure, NamedGraphRef,
};
#[allow(unused_imports)]
use crate::query::error::{BindError, BindResult, PlanError, PlanResult};
#[allow(unused_imports)]
use crate::session::{
    reset_outcome, resets_outcome, ProgramActivity, QueryResult, Session, SessionActivity,
    SessionError, SessionReset, SessionResetArgs, SessionSet, Steps,
};
#[allow(unused_imports)]
use crate::shell::{
    is_blank, is_white, segments, step_of, text_between, without_leading_white, LineInput,
    ShellStep, Token,
};

verus! {

/// Whether a reset is about the schema.
pub open spec fn is_about_schema(reset: SessionReset) -> bool {
    reset.0 is None || reset.0->0 is AllCharacteristics || reset.0->0 is Schema
}

/// Whether a reset is about the graph.
pub open spec fn is_about_graph(reset: SessionReset) -> bool {
    reset.0 is None || reset.0->0 is AllCharacteristics || reset.0->0 is Graph
}

/// A reset of everything brings back the schema and the graph that the session started with, one of
/// the schema only the schema, and one of the graph only the graph. Nothing else changes, and any
/// other reset is refused.
pub proof fn law_reset_parts(scope: ScopeView, reset: SessionReset)
    ensures
        reset_outcome(scope, reset) is Ok <==> is_about_schema(reset) || is_about_graph(reset),
        reset_outcome(scope, reset) matches Ok(after) ==> {
            &&& after.current_schema == if is_about_schema(reset) {
                scope.home_schema
            } else {
                scope.current_schema
            }
            &&& after.current_graph == if is_about_graph(reset) {
                scope.home_graph
            } else {
                scope.current_graph
            }
            &&& after.home_schema == scope.home_schema && after.home_graph == scope.home_graph
            &&& after.active == scope.active
        },
{
}

/// Resets are carried out in their order up to the first that is refused: the schema is the one that
/// the session started in exactly where one of those was about the schema, and so is the graph; else
/// they are what they were.
pub proof fn law_resets_in_turn(scope: ScopeView, resets: Seq<SessionReset>, i: int) -> (n: int)
    requires
        0 <= i <= resets.len(),
    ensures
        ({
            let (after, stopped) = resets_outcome(scope, resets, i);
            &&& i <= n <= resets.len()
            &&& stopped is None <==> n == resets.len()
            &&& forall|k: int|
                i <= k < n ==> is_about_schema(#[trigger] resets[k]) || is_about_graph(resets[k])
            &&& n < resets.len() ==> !is_about_schema(resets[n]) && !is_about_graph(resets[n])
            &&& after.current_schema == if exists|k: int|
                i <= k < n && is_about_schema(#[trigger] resets[k]) {
                scope.home_schema
            } else {
                scope.current_schema
            }
            &&& after.current_graph == if exists|k: int|
                i <= k < n && is_about_graph(#[trigger] resets[k]) {
                scope.home_graph
            } else {
                scope.current_graph
            }
            &&& after.home_schema == scope.home_schema && after.home_graph == scope.home_graph
            &&& after.active == scope.active
        }),
    decreases resets.len() - i,
{
    if i < resets.len() {
        law_reset_parts(scope, resets[i]);
        match reset_outcome(scope, resets[i]) {
            Ok(next) => {
                let n = law_resets_in_turn(next, resets, i + 1);
                assert((exists|k: int| i <= k < n && is_about_schema(#[trigger] resets[k])) <==> (
                is_about_schema(resets[i]) || exists|k: int|
                    i + 1 <= k < n && is_about_schema(#[trigger] resets[k])));
                assert((exists|k: int| i <= k < n && is_about_graph(#[trigger] resets[k])) <==> (
                is_about_graph(resets[i]) || exists|k: int|
                    i + 1 <= k < n && is_about_graph(#[trigger] resets[k])));
                n
            },
            Err(_) => i,
        }
    } else {
        i
    }
}

/// Only a graph can be set. The graph that was found is then the current one, and nothing else of
/// the session changes; where something else is set, or no graph is found, nothing does.
pub proof fn law_set_graph<
    V: Fn(&Scope, &Source) -> BindResult<BoundExpr>,
    I: Fn(&Source) -> BindResult<usize>,
    G: Fn(u64, &String) -> BindResult<Option<u64>>,
    R: Fn(&Scope, &Source) -> BindResult<NamedGraphRef>,
    P: Fn(&Scope, &Source) -> BindResult<BoundProcedure>,
    C: Fn(&Scope, &Source) -> BindResult<BoundCallProcedureStatement>,
>(
    others: Resolver<V, I, G, R, P, C>,
    scope: ScopeView,
    set: SessionSet,
    after: ScopeView,
    result: Result<(), SessionError>,
)
    requires
        others.set_applies(scope, set, after, result),
    ensures
        result is Ok ==> set is Graph,
        result is Err ==> after == scope,
        after == (ScopeView { current_graph: after.current_graph, ..scope }),
        result is Ok ==> exists|graph: NamedGraphRef| #[trigger]
            others.graph_binds(scope, set->Graph_0, Ok(graph)) && after.current_graph == Some(
                (graph.name@, graph.graph),
            ),
{
}

/// Setting several things changes at most the current graph.
pub proof fn law_sets_change_graph_only<
    V: Fn(&Scope, &Source) -> BindResult<BoundExpr>,
    I: Fn(&Source) -> BindResult<usize>,
    G: Fn(u64, &String) -> BindResult<Option<u64>>,
    R: Fn(&Scope, &Source) -> BindResult<NamedGraphRef>,
    P: Fn(&Scope, &Source) -> BindResult<BoundProcedure>,
    C: Fn(&Scope, &Source) -> BindResult<BoundCallProcedureStatement>,
>(
    others: Resolver<V, I, G, R, P, C>,
    scope: ScopeView,
    sets: Seq<SessionSet>,
    after: ScopeView,
    result: Result<(), SessionError>,
)
    requires
        others.sets_apply(scope, sets, after, result),
    ensures
        after == (ScopeView { current_graph: after.current_graph, ..scope }),
        result is Ok ==> forall|i: int| 0 <= i < sets.len() ==> #[trigger] sets[i] is Graph,
        sets.len() == 0 ==> after == scope,
    decreases sets.len(),
{
    if sets.len() > 0 {
        let rest = sets.drop_last();
        let (between, before) = choose|between: ScopeView, before: Result<(), SessionError>|
            others.sets_apply(scope, rest, between, before) && #[trigger] others.set_step(
                between,
                before,
                sets.last(),
                after,
                result,
            );
        law_sets_change_graph_only(others, scope, rest, between, before);
        if before is Ok {
            law_set_graph(others, between, sets.last(), after, result);
        }
        assert forall|i: int| result is Ok && 0 <= i < sets.len() implies #[trigger] sets[i] is
            Graph by {
            if i < rest.len() {
                assert(rest[i] == sets[i]);
            }
        }
    }
}

/// A session that is changed sets before it resets: where all resets are about the schema or the
/// graph and all that is set is found, a graph is the one that the session started with if one of
/// the resets is about the graph. What the session started with, and its columns, stay.
pub proof fn law_session_changed<
    V: Fn(&Scope, &Source) -> BindResult<BoundExpr>,
    I: Fn(&Source) -> BindResult<usize>,
    G: Fn(u64, &String) -> BindResult<Option<u64>>,
    R: Fn(&Scope, &Source) -> BindResult<NamedGraphRef>,
    P: Fn(&Scope, &Source) -> BindResult<BoundProcedure>,
    C: Fn(&Scope, &Source) -> BindResult<BoundCallProcedureStatement>,
>(
    others: Resolver<V, I, G, R, P, C>,
    scope: ScopeView,
    activity: SessionActivity,
    after: ScopeView,
)
    requires
        others.session_changes(scope, activity, after, Ok(())),
    ensures
        forall|i: int| 0 <= i < activity.set@.len() ==> #[trigger] activity.set@[i] is Graph,
        forall|i: int|
            0 <= i < activity.reset@.len() ==> is_about_schema(#[trigger] activity.reset@[i])
                || is_about_graph(activity.reset@[i]),
        after.home_schema == scope.home_schema,
        after.home_graph == scope.home_graph,
        after.active == scope.active,
        after.current_schema == if exists|i: int|
            0 <= i < activity.reset@.len() && is_about_schema(#[trigger] activity.reset@[i]) {
            scope.home_schema
        } else {
            scope.current_schema
        },
        (exists|i: int|
            0 <= i < activity.reset@.len() && is_about_graph(#[trigger] activity.reset@[i]))
            ==> after.current_graph == scope.home_graph,
{
    let between = choose|between: ScopeView| #[trigger]
        others.sets_apply(scope, activity.set@, between, Ok(())) && {
            let outcome = resets_outcome(between, activity.reset@, 0);
            &&& after == outcome.0
            &&& match outcome.1 {
                Some(feature) => crate::session::session_refused(
                    Ok::<(), SessionError>(()),
                    feature,
                ),
                None => true,
            }
        };
    law_sets_change_graph_only(others, scope, activity.set@, between, Ok(()));
    let n = law_resets_in_turn(between, activity.reset@, 0);
}

/// A text without the white space that it starts with is the end of the text: only white space is
/// gone, and it starts with something else, unless nothing is left.
pub proof fn law_leading_white(text: Seq<char>) -> (n: int)
    ensures
        0 <= n <= text.len(),
        without_leading_white(text) == text.subrange(n, text.len() as int),
        forall|i: int| 0 <= i < n ==> is_white(#[trigger] text[i]),
        n < text.len() ==> !is_white(text[n]),
    decreases text.len(),
{
    if text.len() > 0 && is_white(text[0]) {
        let rest = text.subrange(1, text.len() as int);
        let m = law_leading_white(rest);
        assert(rest.subrange(m, rest.len() as int) =~= text.subrange(m + 1, text.len() as int));
        assert forall|i: int| 0 <= i < m + 1 implies is_white(#[trigger] text[i]) by {
            if i > 0 {
                assert(rest[i - 1] == text[i]);
            }
        }
        m + 1
    } else {
        assert(text.subrange(0, text.len() as int) =~= text);
        0
    }
}

/// Among the characters of one byte, white space are the space and the characters from the
/// horizontal tab to the carriage return; no letter, no digit and no other sign is.
pub proof fn law_white_of_one_byte(c: char)
    requires
        (c as u32) < 0x80,
    ensures
        is_white(c) <==> c == ' ' || (c as u32 >= 9 && c as u32 <= 13),
{
}

/// A blank line is passed over; a line whose first character but white space is a colon is a
/// command, and any other a query, each with the text from that character on. An interrupted line is
/// passed over too, and the end of the lines ends the shell.
pub proof fn law_line_step(input: LineInput, step: ShellStep, n: int)
    requires
        step_of(input, step),
    ensures
        input is Interrupted ==> step is Again,
        input is Eof ==> step is Stop,
        input is Failed ==> step is Fail,
        input matches LineInput::Line(line) ==> {
            &&& is_blank(line@) ==> step is Again
            &&& 0 <= n < line@.len() && !is_white(line@[n]) && (forall|i: int|
                0 <= i < n ==> is_white(#[trigger] line@[i])) ==> if line@[n] == ':' {
                step matches ShellStep::Command(text) && text@ == line@.subrange(
                    n,
                    line@.len() as int,
                )
            } else {
                step matches ShellStep::Query(text) && text@ == line@.subrange(
                    n,
                    line@.len() as int,
                )
            }
        },
{
    if let LineInput::Line(line) = input {
        let m = law_leading_white(line@);
        if is_blank(line@) && m < line@.len() {
            assert(is_white(line@[m]));
        }
        if 0 <= n < line@.len() && !is_white(line@[n]) && (forall|i: int|
            0 <= i < n ==> is_white(#[trigger] line@[i])) {
            if m < n {
                assert(is_white(line@[m]));
            }
            assert(m == n);
        }
    }
}

/// Where the part of a line begins that a token ends: behind the last semicolon before it, from the
/// `i`th token on, or at an offset where there is none.
pub open spec fn part_begins(tokens: Seq<Token>, i: int, offset: int, j: int) -> int
    decreases j - i,
{
    if j <= i {
        offset
    } else if tokens[j - 1].is_semicolon {
        tokens[j - 1].end as int
    } else {
        part_begins(tokens, i, offset, j - 1)
    }
}

proof fn lemma_part_begins(tokens: Seq<Token>, i: int, offset: int, j: int)
    requires
        i < j,
    ensures
        part_begins(tokens, i, offset, j) == part_begins(
            tokens,
            i + 1,
            if tokens[i].is_semicolon {
                tokens[i].end as int
            } else {
                offset
            },
            j,
        ),
    decreases j - i,
{
    reveal_with_fuel(part_begins, 2);
    if j > i + 1 {
        lemma_part_begins(tokens, i, offset, j - 1);
    }
}

/// The queries of a line are the texts before its semicolons, each from behind the semicolon before
/// it, in their order: one for each semicolon before which there is more than white space, and none
/// for the others.
pub proof fn law_segments_exactly(bytes: Seq<u8>, tokens: Seq<Token>, i: int, offset: int) -> (ends:
    Seq<int>)
    requires
        0 <= i <= tokens.len(),
    ensures
        ends.len() == segments(bytes, tokens, i, offset).len(),
        forall|k: int|
            0 <= k < ends.len() ==> {
                &&& i <= #[trigger] ends[k] < tokens.len()
                &&& tokens[ends[k]].is_semicolon
                &&& segments(bytes, tokens, i, offset)[k] == text_between(
                    bytes,
                    part_begins(tokens, i, offset, ends[k]),
                    tokens[ends[k]].start as int,
                )
            },
        forall|k: int, l: int| 0 <= k < l < ends.len() ==> #[trigger] ends[k] < #[trigger] ends[l],
        forall|j: int|
            i <= j < tokens.len() && (#[trigger] tokens[j]).is_semicolon && !ends.contains(j)
                ==> is_blank(
                text_between(
                    bytes,
                    part_begins(tokens, i, offset, j),
                    tokens[j].start as int,
                ),
            ),
    decreases tokens.len() - i,
{
    if i >= tokens.len() {
        Seq::empty()
    } else {
        let next = if tokens[i].is_semicolon {
            tokens[i].end as int
        } else {
            offset
        };
        let later = law_segments_exactly(bytes, tokens, i + 1, next);
        let rest = segments(bytes, tokens, i + 1, next);
        let all = segments(bytes, tokens, i, offset);
        let own = tokens[i].is_semicolon && !is_blank(
            text_between(bytes, offset, tokens[i].start as int),
        );
        let ends = if own {
            seq![i] + later
        } else {
            later
        };
        assert forall|k: int| 0 <= k < ends.len() implies {
            &&& i <= #[trigger] ends[k] < tokens.len()
            &&& tokens[ends[k]].is_semicolon
            &&& all[k] == text_between(
                bytes,
                part_begins(tokens, i, offset, ends[k]),
                tokens[ends[k]].start as int,
            )
        } by {
            let m = if own {
                k - 1
            } else {
                k
            };
            if m >= 0 {
                assert(ends[k] == later[m]);
                lemma_part_begins(tokens, i, offset, ends[k]);
                assert(all[k] == rest[m]);
            }
        }
        assert forall|k: int, l: int| 0 <= k < l < ends.len() implies #[trigger] ends[k]
            < #[trigger] ends[l] by {
            if own {
                assert(ends[l] == later[l - 1]);
                if k > 0 {
                    assert(ends[k] == later[k - 1]);
                }
            }
        }
        assert forall|j: int|
            i <= j < tokens.len() && (#[trigger] tokens[j]).is_semicolon && !ends.contains(
                j,
            ) implies is_blank(
            text_between(bytes, part_begins(tokens, i, offset, j), tokens[j].start as int),
        ) by {
            if j == i {
                if own {
                    assert(ends[0] == i);
                }
            } else {
                lemma_part_begins(tokens, i, offset, j);
                if later.contains(j) {
                    let k = choose|k: int| 0 <= k < later.len() && later[k] == j;
                    if own {
                        assert(ends[k + 1] == j);
                    } else {
                        assert(ends[k] == j);
                    }
                }
            }
        }
        ends
    }
}

/// A program that does nothing gives nothing. One that starts or ends a transaction is refused. Any
/// other one that is no change of the session gives what its procedure gives in the scope of the
/// session, or nothing without a procedure. None of them changes the scope.
pub proof fn law_program_runs<
    T,
    X: Fn(&Scope, &Source) -> Result<T, SessionError>,
    V: Fn(&Scope, &Source) -> BindResult<BoundExpr>,
    I: Fn(&Source) -> BindResult<usize>,
    G: Fn(u64, &String) -> BindResult<Option<u64>>,
    R: Fn(&Scope, &Source) -> BindResult<NamedGraphRef>,
    P: Fn(&Scope, &Source) -> BindResult<BoundProcedure>,
    C: Fn(&Scope, &Source) -> BindResult<BoundCallProcedureStatement>,
>(
    session: Session<V, I, G, R, P, C>,
    activity: Option<ProgramActivity>,
    execute: X,
    answer: Result<T, SessionError>,
    after: ScopeView,
    result: Result<Option<T>, SessionError>,
)
    requires
        session.runs(activity, execute, after, result),
        activity is Some ==> activity->0 is Transaction,
        forall|scope: &Scope, source: &Source, given: Result<T, SessionError>| #[trigger]
            call_ensures(execute, (scope, source), given) && *scope == session.binder.scope
                && activity is Some && Some(*source) == activity->0->Transaction_0.procedure
                ==> given == answer,
    ensures
        after == session.binder.scope@,
        activity is None ==> result == Ok::<Option<T>, SessionError>(None),
        activity matches Some(ProgramActivity::Transaction(asked)) ==> {
            &&& asked.start is Some || asked.end is Some ==> result is Err && result->Err_0
                is NotImplemented
            &&& asked.start is None && asked.end is None && asked.procedure is None ==> result
                == Ok::<Option<T>, SessionError>(None)
            &&& asked.start is None && asked.end is None && asked.procedure is Some ==> result
                == match answer {
                Ok(rows) => Ok::<Option<T>, SessionError>(Some(rows)),
                Err(error) => Err(error),
            }
        },
{
}

/// A procedure that is bound, planned and optimized gives all the chunks of its executor, in their
/// order, where none of them is an error, and else the first error among them.
pub proof fn law_procedure_carried_out<
    A,
    N,
    Q,
    E: Executor,
    B: Fn(&Scope, &Source) -> BindResult<A>,
    L: Fn(A) -> PlanResult<N>,
    O: Fn(&N) -> PlanResult<Q>,
    D: Fn(&Q) -> Option<DataSchemaRef>,
    U: Fn(&Scope, &Q) -> E,
>(
    steps: Steps<B, L, O, D, U>,
    scope: Scope,
    procedure: Source,
    bound: A,
    plan: N,
    chosen: Q,
    executor: E,
    result: Result<QueryResult, SessionError>,
)
    requires
        steps.yields(scope, procedure, result),
        forall|answer: BindResult<A>| #[trigger]
            call_ensures(steps.bind, (&scope, &procedure), answer) ==> answer == Ok::<
                A,
                BindError,
            >(bound),
        forall|answer: PlanResult<N>| #[trigger]
            call_ensures(steps.plan, (bound,), answer) ==> answer == Ok::<N, PlanError>(plan),
        forall|answer: PlanResult<Q>| #[trigger]
            call_ensures(steps.optimize, (&plan,), answer) ==> answer == Ok::<Q, PlanError>(chosen),
        forall|answer: E| #[trigger]
            call_ensures(steps.build, (&scope, &chosen), answer) ==> answer == executor,
    ensures
        result matches Ok(rows) ==> {
            &&& rows.chunks@.len() == executor.pending().len()
            &&& forall|i: int|
                0 <= i < executor.pending().len() ==> #[trigger] executor.pending()[i] == Ok::<
                    DataChunk,
                    ExecutionError,
                >(rows.chunks@[i])
            &&& call_ensures(steps.schema, (&chosen,), rows.schema)
        },
        (forall|i: int| 0 <= i < executor.pending().len() ==> (#[trigger] executor.pending()[i]) is Ok)
            ==> result is Ok,
        forall|k: int|
            0 <= k < executor.pending().len() && (#[trigger] executor.pending()[k]) is Err && (forall|
                i: int,
            |
                0 <= i < k ==> (#[trigger] executor.pending()[i]) is Ok) ==> result == Err::<
                QueryResult,
                SessionError,
            >(SessionError::Execution(executor.pending()[k]->Err_0)),
{
    let pending = executor.pending();
    assert(steps.goes_on(scope, bound, result));
    assert(steps.carries_out(scope, chosen, result));
    match result {
        Ok(rows) => {
            assert(came_out(pending, rows.chunks@, rows.chunks@.len() as int));
        },
        Err(SessionError::Execution(error)) => {
            let chunks = choose|chunks: Seq<DataChunk>| #[trigger]
                came_out(pending, chunks, chunks.len() as int) && chunks.len() < pending.len()
                    && pending[chunks.len() as int] == Err::<DataChunk, ExecutionError>(error);
            let n = chunks.len() as int;
            assert(pending[n] is Err);
            assert forall|k: int|
                0 <= k < pending.len() && (#[trigger] pending[k]) is Err && (forall|i: int|
                    0 <= i < k ==> (#[trigger] pending[i]) is Ok) implies result == Err::<
                QueryResult,
                SessionError,
            >(SessionError::Execution(pending[k]->Err_0)) by {
                if n < k {
                    assert(pending[n] is Ok);
                }
            }
        },
        Err(_) => {},
    }
}

/// A procedure whose binding fails gives that error, and one that was bound and whose planning or
/// optimizing fails gives the error of the first of the two that does.
pub proof fn law_procedure_refused<
    A,
    N,
    Q,
    E: Executor,
    B: Fn(&Scope, &Source) -> BindResult<A>,
    L: Fn(A) -> PlanResult<N>,
    O: Fn(&N) -> PlanResult<Q>,
    D: Fn(&Q) -> Option<DataSchemaRef>,
    U: Fn(&Scope, &Q) -> E,
>(
    steps: Steps<B, L, O, D, U>,
    scope: Scope,
    procedure: Source,
    bound: BindResult<A>,
    planned: PlanResult<N>,
    chosen: PlanResult<Q>,
    result: Result<QueryResult, SessionError>,
)
    requires
        steps.yields(scope, procedure, result),
        forall|answer: BindResult<A>| #[trigger]
            call_ensures(steps.bind, (&scope, &procedure), answer) ==> answer == bound,
        forall|given: A, answer: PlanResult<N>| #[trigger]
            call_ensures(steps.plan, (given,), answer) && bound == Ok::<A, BindError>(given) ==> answer
                == planned,
        forall|given: &N, answer: PlanResult<Q>| #[trigger]
            call_ensures(steps.optimize, (given,), answer) && planned == Ok::<N, PlanError>(*given)
                ==> answer == chosen,
    ensures
        bound matches Err(error) ==> result == Err::<QueryResult, SessionError>(
            SessionError::Bind(error),
        ),
        bound is Ok && planned is Err ==> result == Err::<QueryResult, SessionError>(
            SessionError::Plan(planned->Err_0),
        ),
        bound is Ok && planned is Ok && chosen is Err ==> result == Err::<QueryResult, SessionError>(
            SessionError::Plan(chosen->Err_0),
        ),
        bound is Ok && planned is Ok && chosen is Ok && result is Err ==> result->Err_0
            is Execution,
{
    if bound is Ok {
        assert(steps.goes_on(scope, bound->Ok_0, result));
        if planned is Ok && chosen is Ok {
            assert(steps.carries_out(scope, chosen->Ok_0, result));
        }
    }
}

} // verus!
