//! What holds of every query that is bound or planned.

use vstd::prelude::*;

#[allow(unused_imports)]
use super::ast::{
    AmbientLinearQueryStatement, FocusedLinearQueryStatement, FocusedLinearQueryStatementPart,
    GraphExpr, GraphPattern, MatchMode, NullPosition, OrderByAndPageStatement, PathMode,
    PathPattern, PathPatternExpr, PathPatternPrefix, ResultStatement, Return, ReturnItem,
    ReturnStatement, SetOp, SetOpKind, SetQuantifier, SimpleQueryStatement, SortDirection,
    SortSpec, Source,
};
#[allow(unused_imports)]
use super::binder::{
    kind_of, null_ordering_of, ordering_of, quantifier_of, set_op_of, Resolver, Scope, ScopeView,
};
#[allow(unused_imports)]
use super::bound::{
    BoundCallProcedureStatement, BoundExpr, BoundGraphPattern, BoundLinearQueryStatement,
    BoundMatchMode, BoundOrderByAndPageStatement, BoundPathMode, BoundProcedure,
    BoundResultStatement, BoundReturnStatement, BoundSetOpKind, BoundSetQuantifier,
    BoundSimpleQueryStatement, BoundSortSpec, NamedGraphRef, NullOrdering, SortOrdering,
};
#[allow(unused_imports)]
use super::error::{bind_refused, BindError, BindResult, PlanError, PlanResult};
#[allow(unused_imports)]
use super::pattern::{
    columns, concat_outcome, match_mode_of, path_mode_of, path_outcome, pattern_outcome,
    patterns_outcome, prefix_outcome, PathFailure, PathShape, PatternShape,
};
#[allow(unused_imports)]
use super::plan::{page_plan, result_plan, return_plan, LogicalPlanner, PlanNode};
#[allow(unused_imports)]
use super::statement::{with_graph, Statements};
#[allow(unused_imports)]
use crate::common::data_type::{first_named, DataSchemaRef, FieldView, TypeView};

verus! {

/// The direction of an order that was bound is the one that was written: descending exactly where
/// that was written, and else ascending, whatever was written of missing values. In the same way
/// missing values go last exactly where that was written, and else first, whatever the direction.
/// The key is what its expression was bound to.
pub proof fn law_sort_as_written<
    V: Fn(&Scope, &Source) -> BindResult<BoundExpr>,
    I: Fn(&Source) -> BindResult<usize>,
    G: Fn(u64, &String) -> BindResult<Option<u64>>,
    R: Fn(&Scope, &Source) -> BindResult<NamedGraphRef>,
    P: Fn(&Scope, &Source) -> BindResult<BoundProcedure>,
    C: Fn(&Scope, &Source) -> BindResult<BoundCallProcedureStatement>,
>(others: Resolver<V, I, G, R, P, C>, scope: ScopeView, spec: SortSpec, bound: BoundSortSpec)
    requires
        others.sort_binds(scope, spec, Ok(bound)),
    ensures
        bound.ordering is Descending <==> spec.ordering == Some(SortDirection::Desc),
        bound.ordering is Ascending <==> spec.ordering is None || spec.ordering == Some(
            SortDirection::Asc,
        ),
        bound.null_ordering is Last <==> spec.null_ordering == Some(NullPosition::Last),
        bound.null_ordering is First <==> spec.null_ordering is None || spec.null_ordering == Some(
            NullPosition::First,
        ),
        exists|within: Scope| #[trigger]
            call_ensures(others.value, (&within, &spec.key), Ok(bound.key)) && within@ == scope,
{
}

/// Two orders with the same direction written are bound to the same direction, whatever else is
/// written, and two with the same place for missing values to the same place.
pub proof fn law_sort_parts_independent<
    V: Fn(&Scope, &Source) -> BindResult<BoundExpr>,
    I: Fn(&Source) -> BindResult<usize>,
    G: Fn(u64, &String) -> BindResult<Option<u64>>,
    R: Fn(&Scope, &Source) -> BindResult<NamedGraphRef>,
    P: Fn(&Scope, &Source) -> BindResult<BoundProcedure>,
    C: Fn(&Scope, &Source) -> BindResult<BoundCallProcedureStatement>,
>(
    others: Resolver<V, I, G, R, P, C>,
    scope: ScopeView,
    spec: SortSpec,
    bound: BoundSortSpec,
    other_scope: ScopeView,
    other: SortSpec,
    other_bound: BoundSortSpec,
)
    requires
        others.sort_binds(scope, spec, Ok(bound)),
        others.sort_binds(other_scope, other, Ok(other_bound)),
    ensures
        spec.ordering == other.ordering ==> bound.ordering == other_bound.ordering,
        spec.null_ordering == other.null_ordering ==> bound.null_ordering
            == other_bound.null_ordering,
{
}

/// An order fails to be bound only where its key does, and with the same error.
pub proof fn law_sort_fails_with_key<
    V: Fn(&Scope, &Source) -> BindResult<BoundExpr>,
    I: Fn(&Source) -> BindResult<usize>,
    G: Fn(u64, &String) -> BindResult<Option<u64>>,
    R: Fn(&Scope, &Source) -> BindResult<NamedGraphRef>,
    P: Fn(&Scope, &Source) -> BindResult<BoundProcedure>,
    C: Fn(&Scope, &Source) -> BindResult<BoundCallProcedureStatement>,
>(others: Resolver<V, I, G, R, P, C>, scope: ScopeView, spec: SortSpec, error: BindError)
    requires
        others.sort_binds(scope, spec, Err(error)),
    ensures
        exists|within: Scope| #[trigger]
            call_ensures(others.value, (&within, &spec.key), Err(error)) && within@ == scope,
{
}

/// The order of rows is bound part by part, in the same places, and so are how many rows are passed
/// over and how many are returned, each where it was written and nowhere else.
pub proof fn law_page_as_written<
    V: Fn(&Scope, &Source) -> BindResult<BoundExpr>,
    I: Fn(&Source) -> BindResult<usize>,
    G: Fn(u64, &String) -> BindResult<Option<u64>>,
    R: Fn(&Scope, &Source) -> BindResult<NamedGraphRef>,
    P: Fn(&Scope, &Source) -> BindResult<BoundProcedure>,
    C: Fn(&Scope, &Source) -> BindResult<BoundCallProcedureStatement>,
>(
    others: Resolver<V, I, G, R, P, C>,
    scope: ScopeView,
    page: OrderByAndPageStatement,
    bound: BoundOrderByAndPageStatement,
)
    requires
        others.page_binds(scope, page, Ok(bound)),
    ensures
        bound.order_by@.len() == page.order_by@.len(),
        forall|i: int|
            0 <= i < page.order_by@.len() ==> {
                &&& (#[trigger] bound.order_by@[i]).ordering is Descending
                    <==> page.order_by@[i].ordering == Some(SortDirection::Desc)
                &&& bound.order_by@[i].null_ordering is Last <==> page.order_by@[i].null_ordering
                    == Some(NullPosition::Last)
                &&& exists|within: Scope| #[trigger]
                    call_ensures(
                        others.value,
                        (&within, &page.order_by@[i].key),
                        Ok(bound.order_by@[i].key),
                    ) && within@ == scope
            },
        bound.offset is Some <==> page.offset is Some,
        bound.limit is Some <==> page.limit is Some,
        page.offset matches Some(source) ==> call_ensures(
            others.integer,
            (&source,),
            Ok(bound.offset->0),
        ),
        page.limit matches Some(source) ==> call_ensures(
            others.integer,
            (&source,),
            Ok(bound.limit->0),
        ),
{
    assert forall|i: int| 0 <= i < page.order_by@.len() implies {
        &&& (#[trigger] bound.order_by@[i]).ordering is Descending
            <==> page.order_by@[i].ordering == Some(SortDirection::Desc)
        &&& bound.order_by@[i].null_ordering is Last <==> page.order_by@[i].null_ordering == Some(
            NullPosition::Last,
        )
        &&& exists|within: Scope| #[trigger]
            call_ensures(
                others.value,
                (&within, &page.order_by@[i].key),
                Ok(bound.order_by@[i].key),
            ) && within@ == scope
    } by {
        law_sort_as_written(others, scope, page.order_by@[i], bound.order_by@[i]);
    }
}

/// What is written of equal rows, and of how results are joined, is kept in binding; what is not
/// written stays open.
pub proof fn law_set_operation_as_written(set_op: SetOp)
    ensures
        set_op_of(set_op).kind is Union <==> set_op.kind is Union,
        set_op_of(set_op).kind is Except <==> set_op.kind is Except,
        set_op_of(set_op).kind is Intersect <==> set_op.kind is Intersect,
        set_op_of(set_op).quantifier is Some <==> set_op.quantifier is Some,
        set_op.quantifier matches Some(quantifier) ==> {
            &&& set_op_of(set_op).quantifier->0 is Distinct <==> quantifier is Distinct
            &&& set_op_of(set_op).quantifier->0 is All <==> quantifier is All
        },
{
}

/// What may be met twice on a path, and how often an edge may be met in a match, is kept in binding.
pub proof fn law_modes_as_written(path: PathMode, matched: MatchMode)
    ensures
        path_mode_of(path) is Walk <==> path is Walk,
        path_mode_of(path) is Trail <==> path is Trail,
        path_mode_of(path) is Simple <==> path is Simple,
        path_mode_of(path) is Acyclic <==> path is Acyclic,
        match_mode_of(matched) is Repeatable <==> matched is Repeatable,
        match_mode_of(matched) is Different <==> matched is Different,
{
}

/// The columns that a query returns are those it names, in their order: each with the type of its
/// expression, under its alias or else under the text of the expression. Where it names none, they
/// are the columns that there are.
pub proof fn law_returned_columns<
    V: Fn(&Scope, &Source) -> BindResult<BoundExpr>,
    I: Fn(&Source) -> BindResult<usize>,
    G: Fn(u64, &String) -> BindResult<Option<u64>>,
    R: Fn(&Scope, &Source) -> BindResult<NamedGraphRef>,
    P: Fn(&Scope, &Source) -> BindResult<BoundProcedure>,
    C: Fn(&Scope, &Source) -> BindResult<BoundCallProcedureStatement>,
>(
    others: Resolver<V, I, G, R, P, C>,
    scope: ScopeView,
    statement: ReturnStatement,
    bound: BoundReturnStatement,
)
    requires
        others.return_statement_binds(scope, statement, Ok(bound)),
    ensures
        bound.quantifier is Some <==> statement.quantifier is Some,
        statement.quantifier matches Some(quantifier) ==> (bound.quantifier->0 is Distinct
            <==> quantifier is Distinct),
        match statement.items {
            Return::All => {
                &&& bound.items is None
                &&& scope.active == Some(bound.schema@)
            },
            Return::Items(items) => {
                &&& bound.items matches Some(exprs) && exprs@.len() == items@.len()
                &&& bound.schema@.len() == items@.len()
                &&& forall|i: int|
                    0 <= i < items@.len() ==> {
                        &&& items@[i].alias matches Some(alias) ==> (
                        #[trigger] bound.schema@[i]).name == alias@
                        &&& items@[i].alias is None ==> bound.schema@[i].name
                            == bound.items->0@[i].text@
                        &&& bound.schema@[i].ty == bound.items->0@[i].logical_type.model()
                        &&& bound.schema@[i].nullable == bound.items->0@[i].nullable
                        &&& exists|within: Scope| #[trigger]
                            call_ensures(
                                others.value,
                                (&within, &items@[i].value),
                                Ok(bound.items->0@[i]),
                            ) && within@ == scope
                    }
            },
        },
{
    if let Return::Items(items) = statement.items {
        assert forall|i: int| 0 <= i < items@.len() implies {
            &&& items@[i].alias matches Some(alias) ==> (#[trigger] bound.schema@[i]).name
                == alias@
            &&& items@[i].alias is None ==> bound.schema@[i].name == bound.items->0@[i].text@
            &&& bound.schema@[i].ty == bound.items->0@[i].logical_type.model()
            &&& bound.schema@[i].nullable == bound.items->0@[i].nullable
            &&& exists|within: Scope| #[trigger]
                call_ensures(
                    others.value,
                    (&within, &items@[i].value),
                    Ok(bound.items->0@[i]),
                ) && within@ == scope
        } by {
            assert(others.value_binds(scope, items@[i].value, Ok(bound.items->0@[i])));
        }
    }
}

/// Behind what a query returns there are the columns that it returns; nothing else of what names
/// refer to changes. An order of rows is there exactly where one was written, and is bound with the
/// columns that are returned.
pub proof fn law_result_scope<
    V: Fn(&Scope, &Source) -> BindResult<BoundExpr>,
    I: Fn(&Source) -> BindResult<usize>,
    G: Fn(u64, &String) -> BindResult<Option<u64>>,
    R: Fn(&Scope, &Source) -> BindResult<NamedGraphRef>,
    P: Fn(&Scope, &Source) -> BindResult<BoundProcedure>,
    C: Fn(&Scope, &Source) -> BindResult<BoundCallProcedureStatement>,
>(
    others: Resolver<V, I, G, R, P, C>,
    scope: ScopeView,
    statement: ResultStatement,
    after: ScopeView,
    bound: BoundResultStatement,
)
    requires
        others.result_binds(scope, statement, after, Ok(bound)),
    ensures
        after.current_schema == scope.current_schema && after.home_schema == scope.home_schema,
        after.current_graph == scope.current_graph && after.home_graph == scope.home_graph,
        bound is Finish <==> statement is Finish,
        bound is Finish ==> after.active == scope.active,
        bound matches BoundResultStatement::Return { statement: rows, order_by_and_page } ==> {
            &&& after.active == Some(rows.schema@)
            &&& order_by_and_page is Some <==> statement->Return_order_by is Some
            &&& order_by_and_page is Some ==> others.page_binds(
                after,
                statement->Return_order_by->0,
                Ok(order_by_and_page->0),
            )
        },
{
}

/// A graph that is found has the name that was asked for, and is the one that the current schema
/// has under that name, or the current graph.
pub proof fn law_graph_found<
    V: Fn(&Scope, &Source) -> BindResult<BoundExpr>,
    I: Fn(&Source) -> BindResult<usize>,
    G: Fn(u64, &String) -> BindResult<Option<u64>>,
    R: Fn(&Scope, &Source) -> BindResult<NamedGraphRef>,
    P: Fn(&Scope, &Source) -> BindResult<BoundProcedure>,
    C: Fn(&Scope, &Source) -> BindResult<BoundCallProcedureStatement>,
>(
    others: Resolver<V, I, G, R, P, C>,
    scope: ScopeView,
    expr: GraphExpr,
    found: NamedGraphRef,
)
    requires
        others.graph_binds(scope, expr, Ok(found)),
    ensures
        !(expr is Object),
        expr matches GraphExpr::Name(name) ==> {
            &&& scope.current_schema is Some
            &&& found.name@ == name@
            &&& call_ensures(
                others.graph,
                (scope.current_schema->0, &name),
                Ok(Some(found.graph)),
            )
        },
        expr is Current ==> scope.current_graph == Some((found.name@, found.graph)),
{
}

/// Statements are bound one for one and in their order, a match to a match and a call to a call,
/// and of what names refer to they change only the columns.
pub proof fn law_statements_one_for_one<
    V: Fn(&Scope, &Source) -> BindResult<BoundExpr>,
    I: Fn(&Source) -> BindResult<usize>,
    G: Fn(u64, &String) -> BindResult<Option<u64>>,
    R: Fn(&Scope, &Source) -> BindResult<NamedGraphRef>,
    P: Fn(&Scope, &Source) -> BindResult<BoundProcedure>,
    C: Fn(&Scope, &Source) -> BindResult<BoundCallProcedureStatement>,
>(
    others: Resolver<V, I, G, R, P, C>,
    scope: ScopeView,
    statements: Seq<SimpleQueryStatement>,
    after: ScopeView,
    result: Statements,
)
    requires
        others.statements_bind(scope, statements, after, result),
    ensures
        after == (ScopeView { active: after.active, ..scope }),
        result matches Ok(bound) ==> {
            &&& bound.len() == statements.len()
            &&& forall|i: int|
                0 <= i < statements.len() ==> {
                    &&& (#[trigger] bound[i]) is Match <==> statements[i] is Match
                    &&& bound[i] is Call <==> statements[i] is Call
                }
        },
    decreases statements.len(),
{
    if statements.len() > 0 {
        let rest = statements.drop_last();
        let (between, before) = choose|between: ScopeView, before: Statements|
            others.statements_bind(scope, rest, between, before)
                && #[trigger] others.statement_step(
                between,
                before,
                statements.last(),
                after,
                result,
            );
        law_statements_one_for_one(others, scope, rest, between, before);
        if before is Ok {
            if let SimpleQueryStatement::Match(found) = statements.last() {
                if let super::ast::MatchStatement::Simple(table) = found {
                    lemma_patterns_scope(between, table.pattern.patterns@);
                }
            }
        }
        if let Ok(bound) = result {
            let list = before->Ok_0;
            assert forall|i: int| 0 <= i < statements.len() implies {
                &&& (#[trigger] bound[i]) is Match <==> statements[i] is Match
                &&& bound[i] is Call <==> statements[i] is Call
            } by {
                if i < rest.len() {
                    assert(list[i] == bound.drop_last()[i]);
                    assert(rest[i] == statements[i]);
                }
            }
        }
    }
}

proof fn lemma_patterns_scope(scope: ScopeView, patterns: Seq<PathPattern>)
    ensures
        patterns_outcome(scope, patterns).0 == (ScopeView {
            active: patterns_outcome(scope, patterns).0.active,
            ..scope
        }),
    decreases patterns.len(),
{
    if patterns.len() > 0 {
        lemma_patterns_scope(scope, patterns.drop_last());
    }
}

/// The first field with a name is one that has it, and none before it has; where none is found, no
/// field has it.
pub proof fn law_first_named(fields: Seq<FieldView>, name: Seq<char>, i: int)
    requires
        0 <= i,
    ensures
        match first_named(fields, name, i) {
            Some(at) => {
                &&& i <= at < fields.len()
                &&& fields[at].name == name
                &&& forall|k: int| i <= k < at ==> (#[trigger] fields[k]).name != name
            },
            None => forall|k: int| i <= k < fields.len() ==> (#[trigger] fields[k]).name != name,
        },
    decreases fields.len() - i,
{
    if i < fields.len() && fields[i].name != name {
        law_first_named(fields, name, i + 1);
    }
}

/// Whether a field has a name.
pub open spec fn has_name(fields: Seq<FieldView>, name: Seq<char>) -> bool {
    exists|i: int| 0 <= i < fields.len() && (#[trigger] fields[i]).name == name
}

/// A path with a variable adds one column of that name for the path, behind the columns that there
/// are; without a variable it adds none. A variable that is there already is refused, and then no
/// column is added.
pub proof fn law_path_variable(scope: ScopeView, pattern: PathPattern)
    ensures
        ({
            let (after, result) = pattern_outcome(scope, pattern);
            let there = match scope.active {
                Some(fields) => fields,
                None => Seq::empty(),
            };
            &&& after == (ScopeView { active: after.active, ..scope })
            &&& match pattern.variable {
                None => after.active == scope.active && !(result matches Err(
                    PathFailure::Declared(_),
                )),
                Some(name) => if has_name(there, name@) {
                    &&& result == Err::<PatternShape, PathFailure>(PathFailure::Declared(name@))
                    &&& after.active == scope.active
                } else {
                    &&& !(result matches Err(PathFailure::Declared(_)))
                    &&& after.active matches Some(fields) && {
                        &&& fields.len() == there.len() + 1
                        &&& forall|i: int| 0 <= i < there.len() ==> #[trigger] fields[i] == there[i]
                        &&& fields.last().name == name@
                        &&& fields.last().ty == TypeView::Path
                        &&& fields.last().nullable
                    }
                },
            }
        }),
{
    lemma_path_never_declared(pattern.expr);
    if let Some(name) = pattern.variable {
        lemma_has_name(columns(scope), name@);
    }
}

proof fn lemma_has_name(fields: Seq<FieldView>, name: Seq<char>)
    ensures
        has_name(fields, name) <==> first_named(fields, name, 0) is Some,
{
    law_first_named(fields, name, 0);
    if let Some(at) = first_named(fields, name, 0) {
        assert(fields[at].name == name);
    }
}

/// What may be met twice on a path that was bound is what was written before it, and is open where
/// nothing was.
pub proof fn law_path_prefix(scope: ScopeView, pattern: PathPattern)
    ensures
        pattern_outcome(scope, pattern).1 matches Ok(shape) ==> {
            &&& pattern.prefix is None ==> shape.mode is None
            &&& pattern.prefix matches Some(PathPatternPrefix::PathMode(mode)) ==> shape.mode
                == Some(path_mode_of(mode))
            &&& !(pattern.prefix matches Some(PathPatternPrefix::PathSearch(_)))
            &&& path_outcome(pattern.expr) == Ok::<PathShape, PathFailure>(shape.expr)
        },
{
}

proof fn lemma_path_never_declared(expr: PathPatternExpr)
    ensures
        !(path_outcome(expr) matches Err(PathFailure::Declared(_))),
    decreases expr,
{
    if let PathPatternExpr::Concat(paths) = expr {
        lemma_paths_never_declared(paths@);
    }
}

proof fn lemma_paths_never_declared(paths: Seq<PathPatternExpr>)
    ensures
        !(concat_outcome(paths) matches Err(PathFailure::Declared(_))),
    decreases paths,
{
    if paths.len() > 0 {
        lemma_paths_never_declared(paths.drop_last());
        lemma_path_never_declared(paths.last());
    }
}

/// Paths one behind the other are bound one for one and in their order, and fail where one of them
/// does: as the first of them that fails.
pub proof fn law_paths_one_for_one(paths: Seq<PathPatternExpr>)
    ensures
        match concat_outcome(paths) {
            Ok(shapes) => {
                &&& shapes.len() == paths.len()
                &&& forall|i: int|
                    0 <= i < paths.len() ==> path_outcome(paths[i]) == Ok::<
                        PathShape,
                        PathFailure,
                    >(#[trigger] shapes[i])
            },
            Err(failure) => exists|i: int|
                0 <= i < paths.len() && path_outcome(#[trigger] paths[i]) == Err::<
                    PathShape,
                    PathFailure,
                >(failure) && forall|k: int|
                    0 <= k < i ==> path_outcome(#[trigger] paths[k]) is Ok,
        },
    decreases paths.len(),
{
    if paths.len() > 0 {
        let rest = paths.drop_last();
        law_paths_one_for_one(rest);
        assert(paths.last() == paths[paths.len() - 1]);
        assert forall|k: int| 0 <= k < rest.len() implies rest[k] == #[trigger] paths[k] by {}
        match concat_outcome(rest) {
            Ok(shapes) => {
                assert forall|k: int| 0 <= k < rest.len() implies path_outcome(
                    #[trigger] paths[k],
                ) is Ok by {
                    assert(path_outcome(rest[k]) == Ok::<PathShape, PathFailure>(shapes[k]));
                }
                if let Ok(all) = concat_outcome(paths) {
                    assert forall|i: int| 0 <= i < paths.len() implies path_outcome(paths[i])
                        == Ok::<PathShape, PathFailure>(#[trigger] all[i]) by {
                        if i < rest.len() {
                            assert(all[i] == shapes[i]);
                            assert(rest[i] == paths[i]);
                        }
                    }
                } else {
                    assert(path_outcome(paths[paths.len() - 1]) is Err);
                }
            },
            Err(failure) => {
                let i = choose|i: int|
                    0 <= i < rest.len() && path_outcome(#[trigger] rest[i]) == Err::<
                        PathShape,
                        PathFailure,
                    >(failure) && forall|k: int|
                        0 <= k < i ==> path_outcome(#[trigger] rest[k]) is Ok;
                assert(path_outcome(paths[i]) == Err::<PathShape, PathFailure>(failure));
                assert forall|k: int| 0 <= k < i implies path_outcome(
                    #[trigger] paths[k],
                ) is Ok by {
                    assert(rest[k] == paths[k]);
                }
            },
        }
    }
}

/// Patterns that can all be bound are bound one for one and in their order.
pub proof fn law_patterns_one_for_one(scope: ScopeView, patterns: Seq<PathPattern>)
    ensures
        patterns_outcome(scope, patterns).1 matches Ok(shapes) ==> {
            &&& shapes.len() == patterns.len()
            &&& forall|i: int|
                0 <= i < patterns.len() ==> path_outcome(patterns[i].expr) == Ok::<
                    PathShape,
                    PathFailure,
                >((#[trigger] shapes[i]).expr) && (shapes[i].mode is Some
                    <==> patterns[i].prefix is Some)
        },
    decreases patterns.len(),
{
    if patterns.len() > 0 {
        let rest = patterns.drop_last();
        law_patterns_one_for_one(scope, rest);
        let before = patterns_outcome(scope, rest);
        law_path_prefix(before.0, patterns.last());
        if let Ok(shapes) = patterns_outcome(scope, patterns).1 {
            assert forall|i: int| 0 <= i < patterns.len() implies path_outcome(patterns[i].expr)
                == Ok::<PathShape, PathFailure>((#[trigger] shapes[i]).expr) && (
            shapes[i].mode is Some <==> patterns[i].prefix is Some) by {
                if i < rest.len() {
                    assert(rest[i] == patterns[i]);
                    assert(before.1->Ok_0[i] == shapes[i]);
                }
            }
        }
    }
}

/// Behind a call there are the columns that its procedure yields, and nothing else of what names
/// refer to changes. A call of a procedure that yields none is refused by the procedure's name.
pub proof fn law_call_columns<
    V: Fn(&Scope, &Source) -> BindResult<BoundExpr>,
    I: Fn(&Source) -> BindResult<usize>,
    G: Fn(u64, &String) -> BindResult<Option<u64>>,
    R: Fn(&Scope, &Source) -> BindResult<NamedGraphRef>,
    P: Fn(&Scope, &Source) -> BindResult<BoundProcedure>,
    C: Fn(&Scope, &Source) -> BindResult<BoundCallProcedureStatement>,
>(
    others: Resolver<V, I, G, R, P, C>,
    scope: ScopeView,
    source: Source,
    after: ScopeView,
    result: BindResult<BoundSimpleQueryStatement>,
)
    requires
        others.simple_binds(scope, SimpleQueryStatement::Call(source), after, result),
    ensures
        result matches Ok(bound) ==> {
            &&& bound matches BoundSimpleQueryStatement::Call(call) && {
                &&& call.schema matches Some(schema) && after == (ScopeView {
                    active: Some(schema@),
                    ..scope
                })
                &&& exists|within: Scope| #[trigger]
                    call_ensures(others.call, (&within, &source), Ok(call)) && within@ == scope
            }
        },
        result is Err ==> after == scope,
        result is Err && !(result->Err_0 is DataSchemaNotProvided) ==> exists|within: Scope| #[trigger]
            call_ensures(others.call, (&within, &source), Err(result->Err_0)) && within@ == scope,
        result is Err && result->Err_0 is DataSchemaNotProvided ==> exists|
            within: Scope,
            answer: BindResult<BoundCallProcedureStatement>,
        | #[trigger]
            call_ensures(others.call, (&within, &source), answer) && within@ == scope && (answer
                is Err || (answer->Ok_0.schema is None && answer->Ok_0.name@
                == result->Err_0->DataSchemaNotProvided_0@)),
{
}

/// A graph is not found for want of a current schema, because the schema has none of the name, or
/// because there is no current graph; an object is not looked at.
pub proof fn law_graph_not_found<
    V: Fn(&Scope, &Source) -> BindResult<BoundExpr>,
    I: Fn(&Source) -> BindResult<usize>,
    G: Fn(u64, &String) -> BindResult<Option<u64>>,
    R: Fn(&Scope, &Source) -> BindResult<NamedGraphRef>,
    P: Fn(&Scope, &Source) -> BindResult<BoundProcedure>,
    C: Fn(&Scope, &Source) -> BindResult<BoundCallProcedureStatement>,
>(
    others: Resolver<V, I, G, R, P, C>,
    scope: ScopeView,
    expr: GraphExpr,
    error: BindError,
)
    requires
        others.graph_binds(scope, expr, Err(error)),
    ensures
        expr is Name && scope.current_schema is None ==> error is CurrentSchemaNotSpecified,
        expr is Current ==> scope.current_graph is None && error is CurrentGraphNotSpecified,
        expr is Object ==> error is NotImplemented,
        (expr matches GraphExpr::Name(name) && scope.current_schema is Some
            && error is GraphNotFound) ==> {
            ||| error->GraphNotFound_0@ == expr->Name_0@
            ||| call_ensures(others.graph, (scope.current_schema->0, &expr->Name_0), Err(error))
        },
{
}

/// The plan of what is returned takes its rows from the given plan: first the columns are made,
/// then the rows are ordered where an order was asked for, and last they are counted where a number
/// was. Nothing is counted before it is ordered, and no step is there that was not asked for.
pub proof fn law_plan_order(
    statement: BoundReturnStatement,
    page: Option<BoundOrderByAndPageStatement>,
    rows: PlanNode,
    plan: PlanNode,
)
    requires
        result_plan(
            BoundResultStatement::Return { statement, order_by_and_page: page },
            rows,
        ) == Ok::<PlanNode, Seq<char>>(plan),
    ensures
        statement.quantifier is None,
        page matches Some(page) ==> page.offset is None,
        ({
            let limited = page matches Some(page) && page.limit is Some;
            let sorted = page matches Some(page) && page.order_by@.len() > 0;
            let below_limit = if limited {
                *(plan->LogicalLimit_0.child)
            } else {
                plan
            };
            let below_sort = if sorted {
                *(below_limit->LogicalSort_0.child)
            } else {
                below_limit
            };
            &&& limited ==> plan is LogicalLimit && Some(plan->LogicalLimit_0.limit)
                == page->0.limit
            &&& sorted ==> below_limit is LogicalSort && below_limit->LogicalSort_0.specs@
                == page->0.order_by@
            &&& match statement.items {
                Some(exprs) => {
                    &&& below_sort is LogicalProject
                    &&& below_sort->LogicalProject_0.exprs@ == exprs@
                    &&& below_sort->LogicalProject_0.schema@ == statement.schema@
                    &&& *(below_sort->LogicalProject_0.child) == rows
                },
                None => below_sort == rows,
            }
        }),
{
}

/// A query without statements is planned over one row, and one with a call over the rows of the
/// call; several statements, and queries in braces, are refused.
pub proof fn law_query_plan<C: Fn(BoundCallProcedureStatement) -> PlanResult<PlanNode>>(
    planner: LogicalPlanner<C>,
    statement: BoundLinearQueryStatement,
    plan: PlanResult<PlanNode>,
)
    requires
        planner.linear_plans(statement, plan),
    ensures
        statement matches BoundLinearQueryStatement::Query { statements, result } ==> {
            &&& statements@.len() > 1 ==> plan is Err
            &&& statements@.len() == 0 ==> match result_plan(result, PlanNode::LogicalOneRow) {
                Ok(rows) => plan == Ok::<PlanNode, PlanError>(rows),
                Err(_) => plan is Err,
            }
            &&& statements@.len() == 1 && plan is Ok && statements@[0] is Call ==> exists|
                rows: PlanNode,
            | #[trigger]
                call_ensures(planner.plan_call, (statements@[0]->Call_0,), Ok(rows))
                    && result_plan(result, rows) == Ok::<PlanNode, Seq<char>>(plan->Ok_0)
        },
        !(statement is Query) ==> plan is Err,
{
}

/// A plan of what is returned is refused exactly where equal rows are to be treated in some way,
/// where rows are to be passed over, or where nothing is to be returned.
pub proof fn law_plan_refused(statement: BoundResultStatement, rows: PlanNode)
    ensures
        result_plan(statement, rows) is Err <==> match statement {
            BoundResultStatement::Finish => true,
            BoundResultStatement::Return { statement, order_by_and_page } =>
                statement.quantifier is Some || (order_by_and_page matches Some(page)
                    && page.offset is Some),
        },
{
}

/// A query on the current graph has as many statements as were written, changes of what names refer
/// to only the columns, and is a query in braces exactly where one was written.
pub proof fn law_ambient_query<
    V: Fn(&Scope, &Source) -> BindResult<BoundExpr>,
    I: Fn(&Source) -> BindResult<usize>,
    G: Fn(u64, &String) -> BindResult<Option<u64>>,
    R: Fn(&Scope, &Source) -> BindResult<NamedGraphRef>,
    P: Fn(&Scope, &Source) -> BindResult<BoundProcedure>,
    C: Fn(&Scope, &Source) -> BindResult<BoundCallProcedureStatement>,
>(
    others: Resolver<V, I, G, R, P, C>,
    scope: ScopeView,
    statement: AmbientLinearQueryStatement,
    after: ScopeView,
    bound: BoundLinearQueryStatement,
)
    requires
        others.linear_binds(
            scope,
            super::ast::LinearQueryStatement::Ambient(statement),
            after,
            Ok(bound),
        ),
    ensures
        after == (ScopeView { active: after.active, ..scope }),
        bound is Nested <==> statement is Nested,
        bound is Nested ==> after == scope,
        bound matches BoundLinearQueryStatement::Query { statements, result } ==> {
            &&& statements@.len() == statement->Parts_parts@.len()
            &&& result is Finish <==> statement->Parts_result is Finish
            &&& forall|i: int|
                0 <= i < statements@.len() ==> {
                    &&& (#[trigger] statements@[i]) is Match <==> statement->Parts_parts@[i] is Match
                    &&& statements@[i] is Call <==> statement->Parts_parts@[i] is Call
                }
        },
{
    if let AmbientLinearQueryStatement::Parts { parts, result } = statement {
        if let BoundLinearQueryStatement::Query { statements, result: rows } = bound {
            let between = choose|between: ScopeView| #[trigger]
                others.statements_bind(scope, parts@, between, Ok(statements@))
                    && others.result_binds(between, result, after, Ok(rows));
            law_statements_one_for_one(others, scope, parts@, between, Ok(statements@));
            law_result_scope(others, between, result, after, rows);
        }
    }
}

/// The number of statements of some parts.
pub open spec fn statements_in(parts: Seq<FocusedLinearQueryStatementPart>) -> nat
    decreases parts.len(),
{
    if parts.len() == 0 {
        0
    } else {
        statements_in(parts.drop_last()) + parts.last().statements@.len()
    }
}

/// The statements of the parts of a query are all bound, those of each part behind those of the
/// parts before it.
pub proof fn law_parts_one_for_one<
    V: Fn(&Scope, &Source) -> BindResult<BoundExpr>,
    I: Fn(&Source) -> BindResult<usize>,
    G: Fn(u64, &String) -> BindResult<Option<u64>>,
    R: Fn(&Scope, &Source) -> BindResult<NamedGraphRef>,
    P: Fn(&Scope, &Source) -> BindResult<BoundProcedure>,
    C: Fn(&Scope, &Source) -> BindResult<BoundCallProcedureStatement>,
>(
    others: Resolver<V, I, G, R, P, C>,
    scope: ScopeView,
    parts: Seq<FocusedLinearQueryStatementPart>,
    after: ScopeView,
    bound: Seq<BoundSimpleQueryStatement>,
)
    requires
        others.parts_bind(scope, parts, after, Ok(bound)),
    ensures
        bound.len() == statements_in(parts),
        forall|p: int, i: int|
            0 <= p < parts.len() && 0 <= i < parts[p].statements@.len() ==> {
                let at = statements_in(parts.take(p)) + i;
                let written = #[trigger] parts[p].statements@[i];
                &&& at < bound.len()
                &&& bound[at] is Match <==> written is Match
                &&& bound[at] is Call <==> written is Call
            },
    decreases parts.len(),
{
    if parts.len() > 0 {
        let rest = parts.drop_last();
        let last = parts.last();
        let result = Ok::<Seq<BoundSimpleQueryStatement>, BindError>(bound);
        let (between, before) = choose|between: ScopeView, before: Statements|
            others.parts_bind(scope, rest, between, before)
                && #[trigger] others.part_step(between, before, last, after, result);
        let more = choose|more: Statements| #[trigger]
            others.part_binds(between, last, after, more) && result == match before {
                Err(error) => Err(error),
                Ok(list) => match more {
                    Ok(added) => Ok(list + added),
                    Err(error) => Err(error),
                },
            };
        let list = before->Ok_0;
        let added = more->Ok_0;
        law_parts_one_for_one(others, scope, rest, between, list);
        let graph = choose|graph: NamedGraphRef| #[trigger]
            others.graph_binds(between, last.use_graph, Ok(graph)) && others.statements_bind(
                with_graph(between, Some(graph@)),
                last.statements@,
                after,
                more,
            );
        law_statements_one_for_one(
            others,
            with_graph(between, Some(graph@)),
            last.statements@,
            after,
            more,
        );
        assert forall|p: int, i: int|
            0 <= p < parts.len() && 0 <= i < parts[p].statements@.len() implies {
            let at = statements_in(parts.take(p)) + i;
            let written = #[trigger] parts[p].statements@[i];
            &&& at < bound.len()
            &&& bound[at] is Match <==> written is Match
            &&& bound[at] is Call <==> written is Call
        } by {
            if p < rest.len() {
                assert(rest.take(p) =~= parts.take(p));
                assert(rest[p] == parts[p]);
                assert(rest[p].statements@[i] == parts[p].statements@[i]);
            } else {
                assert(parts.take(p) =~= rest);
                assert(bound[list.len() + i] == added[i]);
            }
        }
    }
}

/// Returning all columns gives the columns that there are, and where there are none it is refused.
pub proof fn law_return_all<
    V: Fn(&Scope, &Source) -> BindResult<BoundExpr>,
    I: Fn(&Source) -> BindResult<usize>,
    G: Fn(u64, &String) -> BindResult<Option<u64>>,
    R: Fn(&Scope, &Source) -> BindResult<NamedGraphRef>,
    P: Fn(&Scope, &Source) -> BindResult<BoundProcedure>,
    C: Fn(&Scope, &Source) -> BindResult<BoundCallProcedureStatement>,
>(
    others: Resolver<V, I, G, R, P, C>,
    scope: ScopeView,
    result: BindResult<(Option<Vec<BoundExpr>>, DataSchemaRef)>,
)
    requires
        others.return_binds(scope, Return::All, result),
    ensures
        scope.active is None ==> result is Err && result->Err_0 is NoColumnInReturnStatement,
        scope.active is Some ==> result is Ok && result->Ok_0.0 is None && result->Ok_0.1@
            == scope.active->0,
{
}

/// Where every item that is returned is bound to one thing or fails in one way, the error is that
/// of the first item that fails.
pub proof fn law_first_item_fails<
    V: Fn(&Scope, &Source) -> BindResult<BoundExpr>,
    I: Fn(&Source) -> BindResult<usize>,
    G: Fn(u64, &String) -> BindResult<Option<u64>>,
    R: Fn(&Scope, &Source) -> BindResult<NamedGraphRef>,
    P: Fn(&Scope, &Source) -> BindResult<BoundProcedure>,
    C: Fn(&Scope, &Source) -> BindResult<BoundCallProcedureStatement>,
>(
    others: Resolver<V, I, G, R, P, C>,
    scope: ScopeView,
    items: Vec<ReturnItem>,
    answers: Seq<BindResult<BoundExpr>>,
    k: int,
    result: BindResult<(Option<Vec<BoundExpr>>, DataSchemaRef)>,
)
    requires
        others.return_binds(scope, Return::Items(items), result),
        answers.len() == items@.len(),
        forall|i: int, within: Scope, answer: BindResult<BoundExpr>|
            0 <= i < items@.len() && #[trigger] call_ensures(
                others.value,
                (&within, &items@[i].value),
                answer,
            ) && within@ == scope ==> answer == answers[i],
        0 <= k < items@.len(),
        answers[k] is Err,
        forall|i: int| 0 <= i < k ==> (#[trigger] answers[i]) is Ok,
    ensures
        result is Err && result->Err_0 == answers[k]->Err_0,
{
    match result {
        Ok((Some(exprs), _)) => {
            assert(others.value_binds(scope, items@[k].value, Ok(exprs@[k])));
        },
        Ok((None, _)) => {},
        Err(error) => {
            let exprs = choose|exprs: Seq<BoundExpr>| #[trigger]
                others.items_bind(scope, items@, exprs) && exprs.len() < items@.len()
                    && others.value_binds(scope, items@[exprs.len() as int].value, Err(error));
            let n = exprs.len() as int;
            if n > k {
                assert(others.value_binds(scope, items@[k].value, Ok(exprs[k])));
            }
            assert(answers[n] is Err);
        },
    }
}

/// Where no key of an order fails, an offset that fails is the error of the page, and a limit that
/// fails is the error where the offset does not.
pub proof fn law_page_fails<
    V: Fn(&Scope, &Source) -> BindResult<BoundExpr>,
    I: Fn(&Source) -> BindResult<usize>,
    G: Fn(u64, &String) -> BindResult<Option<u64>>,
    R: Fn(&Scope, &Source) -> BindResult<NamedGraphRef>,
    P: Fn(&Scope, &Source) -> BindResult<BoundProcedure>,
    C: Fn(&Scope, &Source) -> BindResult<BoundCallProcedureStatement>,
>(
    others: Resolver<V, I, G, R, P, C>,
    scope: ScopeView,
    page: OrderByAndPageStatement,
    offset: BindResult<usize>,
    limit: BindResult<usize>,
    error: BindError,
)
    requires
        others.page_binds(scope, page, Err(error)),
        forall|i: int, within: Scope, answer: BindResult<BoundExpr>|
            0 <= i < page.order_by@.len() && #[trigger] call_ensures(
                others.value,
                (&within, &page.order_by@[i].key),
                answer,
            ) && within@ == scope ==> answer is Ok,
        page.offset matches Some(source) ==> forall|answer: BindResult<usize>| #[trigger]
            call_ensures(others.integer, (&source,), answer) ==> answer == offset,
        page.limit matches Some(source) ==> forall|answer: BindResult<usize>| #[trigger]
            call_ensures(others.integer, (&source,), answer) ==> answer == limit,
    ensures
        page.offset is Some && offset is Err ==> error == offset->Err_0,
        page.offset is None || offset is Ok ==> page.limit is Some && limit is Err && error
            == limit->Err_0,
{
    if others.sorts_bind(scope, page.order_by@, Err(error)) {
        let bound = choose|bound: Seq<BoundSortSpec>| #[trigger]
            others.sorts_fail(scope, page.order_by@, bound, error);
        let n = bound.len() as int;
        assert(others.value_binds(scope, page.order_by@[n].key, Err(error)));
    } else if !others.integer_binds(page.offset, Err(error)) {
        let given = choose|given: Option<usize>| #[trigger]
            others.integer_binds(page.offset, Ok(given));
        assert(others.integer_binds(page.offset, Ok(given)));
    }
}

/// An optional match and an order of rows of its own are refused, and change nothing of what names
/// refer to.
pub proof fn law_statements_refused<
    V: Fn(&Scope, &Source) -> BindResult<BoundExpr>,
    I: Fn(&Source) -> BindResult<usize>,
    G: Fn(u64, &String) -> BindResult<Option<u64>>,
    R: Fn(&Scope, &Source) -> BindResult<NamedGraphRef>,
    P: Fn(&Scope, &Source) -> BindResult<BoundProcedure>,
    C: Fn(&Scope, &Source) -> BindResult<BoundCallProcedureStatement>,
>(
    others: Resolver<V, I, G, R, P, C>,
    scope: ScopeView,
    statement: SimpleQueryStatement,
    after: ScopeView,
    result: BindResult<BoundSimpleQueryStatement>,
)
    requires
        others.simple_binds(scope, statement, after, result),
        statement is OrderByAndPage || (statement matches SimpleQueryStatement::Match(found) && found
            is Optional),
    ensures
        after == scope,
        result is Err && result->Err_0 is NotImplemented,
{
}

/// A query of its own graph is bound with that graph as the current one, and with nothing else of
/// what names refer to changed: its result, the query in braces in it, and the statements of its
/// parts.
pub proof fn law_graph_in_use<
    V: Fn(&Scope, &Source) -> BindResult<BoundExpr>,
    I: Fn(&Source) -> BindResult<usize>,
    G: Fn(u64, &String) -> BindResult<Option<u64>>,
    R: Fn(&Scope, &Source) -> BindResult<NamedGraphRef>,
    P: Fn(&Scope, &Source) -> BindResult<BoundProcedure>,
    C: Fn(&Scope, &Source) -> BindResult<BoundCallProcedureStatement>,
>(
    others: Resolver<V, I, G, R, P, C>,
    scope: ScopeView,
    statement: FocusedLinearQueryStatement,
    graph: NamedGraphRef,
    after: ScopeView,
    bound: BoundLinearQueryStatement,
)
    requires
        others.focused_binds(scope, statement, after, Ok(bound)),
        statement matches FocusedLinearQueryStatement::Result { use_graph, result }
            ==> forall|found: NamedGraphRef| #[trigger]
            others.graph_binds(scope, use_graph, Ok(found)) ==> found@ == graph@,
        statement matches FocusedLinearQueryStatement::Nested { use_graph, query }
            ==> forall|found: NamedGraphRef| #[trigger]
            others.graph_binds(scope, use_graph, Ok(found)) ==> found@ == graph@,
    ensures
        !(statement is Select),
        bound is Nested <==> statement is Nested,
        statement matches FocusedLinearQueryStatement::Nested { use_graph, query } ==> after
            == scope && others.procedure_binds(
            (ScopeView { current_graph: Some(graph@), ..scope }),
            query,
            Ok(*bound->Nested_0),
        ),
        statement matches FocusedLinearQueryStatement::Result { use_graph, result }
            ==> bound->Query_statements@.len() == 0 && exists|last: ScopeView| #[trigger]
            others.result_binds(
                (ScopeView { current_graph: Some(graph@), ..scope }),
                result,
                last,
                Ok(bound->Query_result),
            ) && after == (ScopeView { current_graph: scope.current_graph, ..last }),
{
}

/// The statements of a part are bound with the graph of the part as the current one. A graph that is
/// not found is the error of the part.
pub proof fn law_part_uses_graph<
    V: Fn(&Scope, &Source) -> BindResult<BoundExpr>,
    I: Fn(&Source) -> BindResult<usize>,
    G: Fn(u64, &String) -> BindResult<Option<u64>>,
    R: Fn(&Scope, &Source) -> BindResult<NamedGraphRef>,
    P: Fn(&Scope, &Source) -> BindResult<BoundProcedure>,
    C: Fn(&Scope, &Source) -> BindResult<BoundCallProcedureStatement>,
>(
    others: Resolver<V, I, G, R, P, C>,
    scope: ScopeView,
    part: FocusedLinearQueryStatementPart,
    after: ScopeView,
    result: Statements,
)
    requires
        others.part_binds(scope, part, after, result),
    ensures
        result is Ok ==> exists|graph: NamedGraphRef| #[trigger]
            others.graph_binds(scope, part.use_graph, Ok(graph)) && after.current_graph == Some(
                graph@,
            ) && others.statements_bind(
                (ScopeView { current_graph: Some(graph@), ..scope }),
                part.statements@,
                after,
                result,
            ),
        (forall|graph: NamedGraphRef|
            !(#[trigger] others.graph_binds(scope, part.use_graph, Ok(graph)))) ==> after == scope
            && result is Err && others.graph_binds(scope, part.use_graph, Err(result->Err_0)),
{
    if let Ok(bound) = result {
        let graph = choose|graph: NamedGraphRef| #[trigger]
            others.graph_binds(scope, part.use_graph, Ok(graph)) && others.statements_bind(
                with_graph(scope, Some(graph@)),
                part.statements@,
                after,
                result,
            );
        law_statements_one_for_one(
            others,
            with_graph(scope, Some(graph@)),
            part.statements@,
            after,
            result,
        );
    }
}

} // verus!
