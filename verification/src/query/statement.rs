//! Binding of the statements of a query.

use vstd::prelude::*;

use super::ast::{
    AmbientLinearQueryStatement, CompositeQueryStatement, FocusedLinearQueryStatement,
    FocusedLinearQueryStatementPart, LinearQueryStatement, MatchStatement, SimpleQueryStatement,
    Source,
};
use super::binder::{duplicate_graph, Binder, Resolver, Scope};
#[allow(unused_imports)]
use super::binder::ScopeView;
use super::bound::{
    BoundCallProcedureStatement, BoundCompositeQueryStatement, BoundExpr,
    BoundLinearQueryStatement, BoundMatchStatement, BoundProcedure, BoundResultStatement,
    BoundSimpleQueryStatement, NamedGraphRef,
};
#[allow(unused_imports)]
use super::error::bind_refused;
use super::error::{not_implemented, BindError, BindResult};

verus! {

/// What binding statements came to.
pub type Statements = Result<Seq<BoundSimpleQueryStatement>, BindError>;

/// The scope with another current graph.
pub open spec fn with_graph(scope: ScopeView, graph: Option<(Seq<char>, u64)>) -> ScopeView {
    ScopeView { current_graph: graph, ..scope }
}

impl<
    V: Fn(&Scope, &Source) -> BindResult<BoundExpr>,
    I: Fn(&Source) -> BindResult<usize>,
    G: Fn(u64, &String) -> BindResult<Option<u64>>,
    R: Fn(&Scope, &Source) -> BindResult<NamedGraphRef>,
    P: Fn(&Scope, &Source) -> BindResult<BoundProcedure>,
    C: Fn(&Scope, &Source) -> BindResult<BoundCallProcedureStatement>,
> Resolver<V, I, G, R, P, C> {
    /// Whether binding a call can come to a result.
    pub open spec fn call_binds(
        self,
        scope: ScopeView,
        source: Source,
        result: BindResult<BoundCallProcedureStatement>,
    ) -> bool {
        exists|within: Scope| #[trigger]
            call_ensures(self.call, (&within, &source), result) && within@ == scope
    }

    /// Whether binding a procedure can come to a result.
    pub open spec fn procedure_binds(
        self,
        scope: ScopeView,
        source: Source,
        result: BindResult<BoundProcedure>,
    ) -> bool {
        exists|within: Scope| #[trigger]
            call_ensures(self.procedure, (&within, &source), result) && within@ == scope
    }

    /// Whether binding a match can come to an end.
    pub open spec fn match_safe(self, scope: ScopeView, statement: MatchStatement) -> bool {
        statement matches MatchStatement::Simple(table) ==> self.table_safe(scope, table)
    }

    /// Whether binding a match can come to a result.
    pub open spec fn match_binds(
        self,
        scope: ScopeView,
        statement: MatchStatement,
        after: ScopeView,
        result: BindResult<BoundMatchStatement>,
    ) -> bool {
        match statement {
            MatchStatement::Simple(table) => match result {
                Ok(BoundMatchStatement::Simple(pattern)) => self.table_binds(
                    scope,
                    table,
                    after,
                    Ok(pattern),
                ),
                Err(error) => self.table_binds(scope, table, after, Err(error)),
            },
            MatchStatement::Optional(_) => {
                &&& after == scope
                &&& bind_refused(result, "optional match statement"@)
            },
        }
    }

    /// Whether binding a statement can come to an end. A procedure that yields rows can be called
    /// only while there are no columns.
    pub open spec fn simple_safe(self, scope: ScopeView, statement: SimpleQueryStatement) -> bool {
        match statement {
            SimpleQueryStatement::Match(statement) => self.match_safe(scope, statement),
            SimpleQueryStatement::Call(source) => scope.active is Some ==> forall|
                call: BoundCallProcedureStatement,
            | #[trigger]
                self.call_binds(scope, source, Ok(call)) ==> call.schema is None,
            SimpleQueryStatement::OrderByAndPage(_) => true,
        }
    }

    /// Whether binding a statement can come to a result. Behind a call there are the columns that
    /// the procedure yields.
    pub open spec fn simple_binds(
        self,
        scope: ScopeView,
        statement: SimpleQueryStatement,
        after: ScopeView,
        result: BindResult<BoundSimpleQueryStatement>,
    ) -> bool {
        match statement {
            SimpleQueryStatement::Match(statement) => match result {
                Ok(BoundSimpleQueryStatement::Match(bound)) => self.match_binds(
                    scope,
                    statement,
                    after,
                    Ok(bound),
                ),
                Ok(BoundSimpleQueryStatement::Call(_)) => false,
                Err(error) => self.match_binds(scope, statement, after, Err(error)),
            },
            SimpleQueryStatement::Call(source) => match result {
                Ok(BoundSimpleQueryStatement::Call(call)) => {
                    &&& self.call_binds(scope, source, Ok(call))
                    &&& call.schema matches Some(schema) && after == (ScopeView {
                        active: Some(schema@),
                        ..scope
                    })
                },
                Ok(BoundSimpleQueryStatement::Match(_)) => false,
                Err(error) => {
                    &&& after == scope
                    &&& {
                        ||| self.call_binds(scope, source, Err(error))
                        ||| exists|call: BoundCallProcedureStatement| #[trigger]
                            self.call_binds(scope, source, Ok(call)) && call.schema is None && (
                            error matches BindError::DataSchemaNotProvided(name) && name@
                                == call.name@)
                    }
                },
            },
            SimpleQueryStatement::OrderByAndPage(_) => {
                &&& after == scope
                &&& bind_refused(result, "standalone order by and page statement"@)
            },
        }
    }

    /// Whether binding one more statement can lead from one state to another. Behind one that failed
    /// nothing is bound.
    pub open spec fn statement_step(
        self,
        scope: ScopeView,
        before: Statements,
        statement: SimpleQueryStatement,
        after: ScopeView,
        result: Statements,
    ) -> bool {
        match before {
            Err(error) => after == scope && result == before,
            Ok(list) => match result {
                Ok(longer) => {
                    &&& longer.len() == list.len() + 1
                    &&& longer.drop_last() == list
                    &&& self.simple_binds(scope, statement, after, Ok(longer.last()))
                },
                Err(error) => self.simple_binds(scope, statement, after, Err(error)),
            },
        }
    }

    /// Whether binding statements in turn can come to a result.
    pub open spec fn statements_bind(
        self,
        scope: ScopeView,
        statements: Seq<SimpleQueryStatement>,
        after: ScopeView,
        result: Statements,
    ) -> bool
        decreases statements.len(),
    {
        if statements.len() == 0 {
            after == scope && result == Ok::<Seq<BoundSimpleQueryStatement>, BindError>(
                Seq::empty(),
            )
        } else {
            exists|between: ScopeView, before: Statements|
                self.statements_bind(scope, statements.drop_last(), between, before)
                    && #[trigger] self.statement_step(
                    between,
                    before,
                    statements.last(),
                    after,
                    result,
                )
        }
    }

    /// Whether binding statements in turn can come to an end.
    pub open spec fn statements_safe(
        self,
        scope: ScopeView,
        statements: Seq<SimpleQueryStatement>,
    ) -> bool {
        forall|i: int, between: ScopeView, before: Seq<BoundSimpleQueryStatement>|
            0 <= i < statements.len() && #[trigger] self.statements_bind(
                scope,
                statements.take(i),
                between,
                Ok(before),
            ) ==> self.simple_safe(between, statements[i])
    }

    proof fn lemma_statements_failure(
        self,
        scope: ScopeView,
        statements: Seq<SimpleQueryStatement>,
        after: ScopeView,
        error: BindError,
        n: int,
    )
        requires
            0 <= n <= statements.len(),
            self.statements_bind(scope, statements.take(n), after, Err(error)),
        ensures
            self.statements_bind(scope, statements, after, Err(error)),
        decreases statements.len() - n,
    {
        if n < statements.len() {
            let more = statements.take(n + 1);
            assert(more.drop_last() =~= statements.take(n));
            assert(self.statement_step(after, Err(error), more.last(), after, Err(error)));
            assert(self.statements_bind(scope, more, after, Err(error)));
            self.lemma_statements_failure(scope, statements, after, error, n + 1);
        } else {
            assert(statements.take(n) =~= statements);
        }
    }

    /// Whether binding a part of a query can come to an end.
    pub open spec fn part_safe(
        self,
        scope: ScopeView,
        part: FocusedLinearQueryStatementPart,
    ) -> bool {
        forall|graph: NamedGraphRef| #[trigger]
            self.graph_binds(scope, part.use_graph, Ok(graph)) ==> self.statements_safe(
                with_graph(scope, Some(graph@)),
                part.statements@,
            )
    }

    /// Whether binding a part of a query can come to a result. Its graph stays the current one.
    pub open spec fn part_binds(
        self,
        scope: ScopeView,
        part: FocusedLinearQueryStatementPart,
        after: ScopeView,
        result: Statements,
    ) -> bool {
        ||| exists|graph: NamedGraphRef| #[trigger]
            self.graph_binds(scope, part.use_graph, Ok(graph)) && self.statements_bind(
                with_graph(scope, Some(graph@)),
                part.statements@,
                after,
                result,
            )
        ||| {
            &&& result matches Err(error) && self.graph_binds(scope, part.use_graph, Err(error))
            &&& after == scope
        }
    }

    /// Whether binding one more part can lead from one state to another. A part is bound even where
    /// one before it failed, and the first failure counts.
    pub open spec fn part_step(
        self,
        scope: ScopeView,
        before: Statements,
        part: FocusedLinearQueryStatementPart,
        after: ScopeView,
        result: Statements,
    ) -> bool {
        exists|more: Statements| #[trigger]
            self.part_binds(scope, part, after, more) && result == match before {
                Err(error) => Err(error),
                Ok(list) => match more {
                    Ok(added) => Ok(list + added),
                    Err(error) => Err(error),
                },
            }
    }

    /// Whether binding the parts of a query can come to a result.
    pub open spec fn parts_bind(
        self,
        scope: ScopeView,
        parts: Seq<FocusedLinearQueryStatementPart>,
        after: ScopeView,
        result: Statements,
    ) -> bool
        decreases parts.len(),
    {
        if parts.len() == 0 {
            after == scope && result == Ok::<Seq<BoundSimpleQueryStatement>, BindError>(
                Seq::empty(),
            )
        } else {
            exists|between: ScopeView, before: Statements|
                self.parts_bind(scope, parts.drop_last(), between, before)
                    && #[trigger] self.part_step(between, before, parts.last(), after, result)
        }
    }

    /// Whether binding the parts of a query can come to an end.
    pub open spec fn parts_safe(
        self,
        scope: ScopeView,
        parts: Seq<FocusedLinearQueryStatementPart>,
    ) -> bool {
        forall|i: int, between: ScopeView, before: Statements|
            0 <= i < parts.len() && #[trigger] self.parts_bind(
                scope,
                parts.take(i),
                between,
                before,
            ) ==> self.part_safe(between, parts[i])
    }

    /// Whether binding a query on graphs that it names can come to an end.
    pub open spec fn focused_safe(
        self,
        scope: ScopeView,
        statement: FocusedLinearQueryStatement,
    ) -> bool {
        statement matches FocusedLinearQueryStatement::Parts { parts, .. } ==> self.parts_safe(
            scope,
            parts@,
        )
    }

    /// Whether binding a query on graphs that it names can come to a result. The current graph is
    /// what it was before, unless the query fails on the way.
    pub open spec fn focused_binds(
        self,
        scope: ScopeView,
        statement: FocusedLinearQueryStatement,
        after: ScopeView,
        bound: BindResult<BoundLinearQueryStatement>,
    ) -> bool {
        match statement {
            FocusedLinearQueryStatement::Parts { parts, result } => match bound {
                Ok(BoundLinearQueryStatement::Query { statements, result: rows }) => exists|
                    between: ScopeView,
                    last: ScopeView,
                |
                    {
                        &&& #[trigger] self.parts_bind(
                            scope,
                            parts@,
                            between,
                            Ok(statements@),
                        )
                        &&& #[trigger] self.result_binds(between, result, last, Ok(rows))
                        &&& after == with_graph(last, scope.current_graph)
                    },
                Ok(_) => false,
                Err(error) => {
                    ||| self.parts_bind(scope, parts@, after, Err(error))
                    ||| exists|between: ScopeView, list: Seq<BoundSimpleQueryStatement>| #[trigger]
                        self.parts_bind(scope, parts@, between, Ok(list)) && self.result_binds(
                            between,
                            result,
                            after,
                            Err(error),
                        )
                },
            },
            FocusedLinearQueryStatement::Result { use_graph, result } => {
                ||| {
                    &&& bound matches Err(error) && self.graph_binds(scope, use_graph, Err(error))
                    &&& after == scope
                }
                ||| exists|graph: NamedGraphRef| #[trigger]
                    self.graph_binds(scope, use_graph, Ok(graph)) && match bound {
                        Ok(BoundLinearQueryStatement::Query { statements, result: rows }) => {
                            &&& statements@.len() == 0
                            &&& exists|last: ScopeView| #[trigger]
                                self.result_binds(
                                    with_graph(scope, Some(graph@)),
                                    result,
                                    last,
                                    Ok(rows),
                                ) && after == with_graph(last, scope.current_graph)
                        },
                        Ok(_) => false,
                        Err(error) => self.result_binds(
                            with_graph(scope, Some(graph@)),
                            result,
                            after,
                            Err(error),
                        ),
                    }
            },
            FocusedLinearQueryStatement::Nested { use_graph, query } => {
                ||| {
                    &&& bound matches Err(error) && self.graph_binds(scope, use_graph, Err(error))
                    &&& after == scope
                }
                ||| exists|graph: NamedGraphRef| #[trigger]
                    self.graph_binds(scope, use_graph, Ok(graph)) && match bound {
                        Ok(BoundLinearQueryStatement::Nested(procedure)) => {
                            &&& self.procedure_binds(
                                with_graph(scope, Some(graph@)),
                                query,
                                Ok(*procedure),
                            )
                            &&& after == scope
                        },
                        Ok(_) => false,
                        Err(error) => {
                            &&& self.procedure_binds(
                                with_graph(scope, Some(graph@)),
                                query,
                                Err(error),
                            )
                            &&& after == with_graph(scope, Some(graph@))
                        },
                    }
            },
            FocusedLinearQueryStatement::Select { .. } => {
                &&& after == scope
                &&& bind_refused(bound, "select statement"@)
            },
        }
    }

    /// Whether binding a query on the current graph can come to an end.
    pub open spec fn ambient_safe(
        self,
        scope: ScopeView,
        statement: AmbientLinearQueryStatement,
    ) -> bool {
        statement matches AmbientLinearQueryStatement::Parts { parts, .. } ==> self.statements_safe(
            scope,
            parts@,
        )
    }

    /// Whether binding a query on the current graph can come to a result.
    pub open spec fn ambient_binds(
        self,
        scope: ScopeView,
        statement: AmbientLinearQueryStatement,
        after: ScopeView,
        bound: BindResult<BoundLinearQueryStatement>,
    ) -> bool {
        match statement {
            AmbientLinearQueryStatement::Parts { parts, result } => match bound {
                Ok(BoundLinearQueryStatement::Query { statements, result: rows }) => exists|
                    between: ScopeView,
                | #[trigger]
                    self.statements_bind(scope, parts@, between, Ok(statements@))
                        && self.result_binds(between, result, after, Ok(rows)),
                Ok(_) => false,
                Err(error) => {
                    ||| self.statements_bind(scope, parts@, after, Err(error))
                    ||| exists|between: ScopeView, list: Seq<BoundSimpleQueryStatement>| #[trigger]
                        self.statements_bind(scope, parts@, between, Ok(list))
                            && self.result_binds(between, result, after, Err(error))
                },
            },
            AmbientLinearQueryStatement::Nested(query) => {
                &&& after == scope
                &&& match bound {
                    Ok(BoundLinearQueryStatement::Nested(procedure)) => self.procedure_binds(
                        scope,
                        query,
                        Ok(*procedure),
                    ),
                    Ok(_) => false,
                    Err(error) => self.procedure_binds(scope, query, Err(error)),
                }
            },
        }
    }

    /// Whether binding a query can come to an end.
    pub open spec fn linear_safe(self, scope: ScopeView, statement: LinearQueryStatement) -> bool {
        match statement {
            LinearQueryStatement::Focused(statement) => self.focused_safe(scope, statement),
            LinearQueryStatement::Ambient(statement) => self.ambient_safe(scope, statement),
        }
    }

    /// Whether binding a query can come to a result.
    pub open spec fn linear_binds(
        self,
        scope: ScopeView,
        statement: LinearQueryStatement,
        after: ScopeView,
        bound: BindResult<BoundLinearQueryStatement>,
    ) -> bool {
        match statement {
            LinearQueryStatement::Focused(statement) => self.focused_binds(
                scope,
                statement,
                after,
                bound,
            ),
            LinearQueryStatement::Ambient(statement) => self.ambient_binds(
                scope,
                statement,
                after,
                bound,
            ),
        }
    }
}

impl<
    V: Fn(&Scope, &Source) -> BindResult<BoundExpr>,
    I: Fn(&Source) -> BindResult<usize>,
    G: Fn(u64, &String) -> BindResult<Option<u64>>,
    R: Fn(&Scope, &Source) -> BindResult<NamedGraphRef>,
    P: Fn(&Scope, &Source) -> BindResult<BoundProcedure>,
    C: Fn(&Scope, &Source) -> BindResult<BoundCallProcedureStatement>,
> Binder<V, I, G, R, P, C> {
    /// Binds queries that are connected, or one query. Connections are not implemented.
    pub fn bind_composite_query_statement(&mut self, statement: &CompositeQueryStatement) -> (
    result: BindResult<BoundCompositeQueryStatement>)
        requires
            old(self).others.ready(),
            *statement matches CompositeQueryStatement::Primary(query) ==> old(
                self,
            ).others.linear_safe(old(self).scope@, query),
        ensures
            final(self).others == old(self).others,
            match *statement {
                CompositeQueryStatement::Conjunction { .. } => {
                    &&& final(self).scope@ == old(self).scope@
                    &&& bind_refused(result, "query conjunction"@)
                },
                CompositeQueryStatement::Primary(query) => match result {
                    Ok(BoundCompositeQueryStatement::Primary(bound)) => old(
                        self,
                    ).others.linear_binds(
                        old(self).scope@,
                        query,
                        final(self).scope@,
                        Ok(bound),
                    ),
                    Ok(_) => false,
                    Err(error) => old(self).others.linear_binds(
                        old(self).scope@,
                        query,
                        final(self).scope@,
                        Err(error),
                    ),
                },
            },
    {
        match statement {
            CompositeQueryStatement::Conjunction { .. } => not_implemented("query conjunction"),
            CompositeQueryStatement::Primary(query) => match self.bind_linear_query_statement(
                query,
            ) {
                Ok(bound) => Ok(BoundCompositeQueryStatement::Primary(bound)),
                Err(error) => Err(error),
            },
        }
    }

    /// Binds a query.
    pub fn bind_linear_query_statement(&mut self, statement: &LinearQueryStatement) -> (result:
        BindResult<BoundLinearQueryStatement>)
        requires
            old(self).others.ready(),
            old(self).others.linear_safe(old(self).scope@, *statement),
        ensures
            final(self).others == old(self).others,
            old(self).others.linear_binds(
                old(self).scope@,
                *statement,
                final(self).scope@,
                result,
            ),
    {
        match statement {
            LinearQueryStatement::Focused(statement) => self.bind_focused_linear_query_statement(
                statement,
            ),
            LinearQueryStatement::Ambient(statement) => self.bind_ambient_linear_query_statement(
                statement,
            ),
        }
    }

    /// Binds a query on graphs that it names.
    pub fn bind_focused_linear_query_statement(
        &mut self,
        statement: &FocusedLinearQueryStatement,
    ) -> (bound: BindResult<BoundLinearQueryStatement>)
        requires
            old(self).others.ready(),
            old(self).others.focused_safe(old(self).scope@, *statement),
        ensures
            final(self).others == old(self).others,
            old(self).others.focused_binds(
                old(self).scope@,
                *statement,
                final(self).scope@,
                bound,
            ),
    {
        let ghost scope = self.scope@;
        match statement {
            FocusedLinearQueryStatement::Parts { parts, result } => {
                let old_graph = duplicate_graph(&self.scope.current_graph);
                let statements = match self.bind_parts(parts) {
                    Ok(statements) => statements,
                    Err(error) => {
                        return Err(error);
                    },
                };
                let ghost between = self.scope@;
                assert(self.others.parts_bind(scope, parts@, between, Ok(statements@)));
                let rows = match self.bind_result_statement(result) {
                    Ok(rows) => rows,
                    Err(error) => {
                        return Err(error);
                    },
                };
                let ghost last = self.scope@;
                assert(self.others.result_binds(between, *result, last, Ok(rows)));
                self.scope.current_graph = old_graph;
                assert(self.scope@ == with_graph(last, scope.current_graph));
                let query = Ok(BoundLinearQueryStatement::Query { statements, result: rows });
                assert(query matches Ok(BoundLinearQueryStatement::Query { statements: list, .. })
                    && list@ == statements@);
                assert(old(self).others.focused_binds(scope, *statement, self.scope@, query));
                query
            },
            FocusedLinearQueryStatement::Result { use_graph, result } => {
                let graph = match self.bind_graph_expr(use_graph) {
                    Ok(graph) => graph,
                    Err(error) => {
                        return Err(error);
                    },
                };
                let ghost found = graph;
                assert(self.others.graph_binds(scope, *use_graph, Ok(found)));
                let old_graph = duplicate_graph(&self.scope.current_graph);
                self.scope.current_graph = Some(graph);
                assert(self.scope@ == with_graph(scope, Some(found@)));
                let rows = match self.bind_result_statement(result) {
                    Ok(rows) => rows,
                    Err(error) => {
                        return Err(error);
                    },
                };
                let ghost last = self.scope@;
                assert(self.others.result_binds(
                    with_graph(scope, Some(found@)),
                    *result,
                    last,
                    Ok(rows),
                ));
                self.scope.current_graph = old_graph;
                assert(self.scope@ == with_graph(last, scope.current_graph));
                let query = Ok(
                    BoundLinearQueryStatement::Query { statements: Vec::new(), result: rows },
                );
                assert(old(self).others.focused_binds(scope, *statement, self.scope@, query));
                query
            },
            FocusedLinearQueryStatement::Nested { use_graph, query } => {
                let graph = match self.bind_graph_expr(use_graph) {
                    Ok(graph) => graph,
                    Err(error) => {
                        return Err(error);
                    },
                };
                let ghost found = graph;
                assert(self.others.graph_binds(scope, *use_graph, Ok(found)));
                let old_graph = duplicate_graph(&self.scope.current_graph);
                self.scope.current_graph = Some(graph);
                assert(self.scope@ == with_graph(scope, Some(found@)));
                let procedure = &self.others.procedure;
                let nested = match procedure(&self.scope, query) {
                    Ok(nested) => nested,
                    Err(error) => {
                        assert(self.others.procedure_binds(self.scope@, *query, Err(error)));
                        return Err(error);
                    },
                };
                assert(self.others.procedure_binds(self.scope@, *query, Ok(nested)));
                self.scope.current_graph = old_graph;
                assert(self.scope@ == scope);
                let bound = Ok(BoundLinearQueryStatement::Nested(Box::new(nested)));
                assert(old(self).others.focused_binds(scope, *statement, self.scope@, bound));
                bound
            },
            FocusedLinearQueryStatement::Select { .. } => not_implemented("select statement"),
        }
    }

    /// Binds the parts of a query. All of them are bound, and the first failure counts.
    fn bind_parts(&mut self, parts: &Vec<FocusedLinearQueryStatementPart>) -> (result: BindResult<
        Vec<BoundSimpleQueryStatement>,
    >)
        requires
            old(self).others.ready(),
            old(self).others.parts_safe(old(self).scope@, parts@),
        ensures
            final(self).others == old(self).others,
            old(self).others.parts_bind(
                old(self).scope@,
                parts@,
                final(self).scope@,
                statements_view(result),
            ),
    {
        let ghost others = self.others;
        let ghost scope = self.scope@;
        let mut bound: BindResult<Vec<BoundSimpleQueryStatement>> = Ok(Vec::new());
        proof {
            assert(parts@.take(0) =~= Seq::empty());
            assert(bound->Ok_0@ =~= Seq::empty());
        }
        for i in 0..parts.len()
            invariant
                self.others == others,
                others == old(self).others,
                scope == old(self).scope@,
                others.ready(),
                others.parts_safe(scope, parts@),
                others.parts_bind(
                    scope,
                    parts@.take(i as int),
                    self.scope@,
                    statements_view(bound),
                ),
        {
            let ghost before = statements_view(bound);
            let ghost between = self.scope@;
            assert(others.part_safe(between, parts@[i as int]));
            let more = self.bind_focused_linear_query_statement_part(&parts[i]);
            let ghost added = statements_view(more);
            assert(others.part_binds(between, parts@[i as int], self.scope@, added));
            bound = match bound {
                Err(error) => Err(error),
                Ok(mut list) => match more {
                    Ok(mut statements) => {
                        list.append(&mut statements);
                        Ok(list)
                    },
                    Err(error) => Err(error),
                },
            };
            proof {
                let seen = parts@.take(i + 1);
                assert(seen.drop_last() =~= parts@.take(i as int));
                assert(seen.last() == parts@[i as int]);
                assert(others.part_step(
                    between,
                    before,
                    seen.last(),
                    self.scope@,
                    statements_view(bound),
                ));
                assert(others.parts_bind(scope, seen, self.scope@, statements_view(bound)));
            }
        }
        assert(parts@.take(parts@.len() as int) =~= parts@);
        bound
    }

    /// Binds a part of a query. Its graph becomes the current one.
    pub fn bind_focused_linear_query_statement_part(
        &mut self,
        part: &FocusedLinearQueryStatementPart,
    ) -> (result: BindResult<Vec<BoundSimpleQueryStatement>>)
        requires
            old(self).others.ready(),
            old(self).others.part_safe(old(self).scope@, *part),
        ensures
            final(self).others == old(self).others,
            old(self).others.part_binds(
                old(self).scope@,
                *part,
                final(self).scope@,
                statements_view(result),
            ),
    {
        let ghost scope = self.scope@;
        let graph = match self.bind_graph_expr(&part.use_graph) {
            Ok(graph) => graph,
            Err(error) => {
                return Err(error);
            },
        };
        let ghost found = graph;
        assert(self.others.graph_binds(scope, part.use_graph, Ok(found)));
        self.scope.current_graph = Some(graph);
        assert(self.scope@ == with_graph(scope, Some(found@)));
        self.bind_statements(&part.statements)
    }

    /// Binds statements in turn, up to the first that fails.
    fn bind_statements(&mut self, statements: &Vec<SimpleQueryStatement>) -> (result: BindResult<
        Vec<BoundSimpleQueryStatement>,
    >)
        requires
            old(self).others.ready(),
            old(self).others.statements_safe(old(self).scope@, statements@),
        ensures
            final(self).others == old(self).others,
            old(self).others.statements_bind(
                old(self).scope@,
                statements@,
                final(self).scope@,
                statements_view(result),
            ),
    {
        let ghost others = self.others;
        let ghost scope = self.scope@;
        let mut bound: Vec<BoundSimpleQueryStatement> = Vec::new();
        proof {
            assert(statements@.take(0) =~= Seq::empty());
            assert(bound@ =~= Seq::empty());
        }
        for i in 0..statements.len()
            invariant
                self.others == others,
                others == old(self).others,
                scope == old(self).scope@,
                others.ready(),
                others.statements_safe(scope, statements@),
                others.statements_bind(
                    scope,
                    statements@.take(i as int),
                    self.scope@,
                    Ok(bound@),
                ),
        {
            let ghost before = bound@;
            let ghost between = self.scope@;
            let ghost seen = statements@.take(i + 1);
            proof {
                assert(others.simple_safe(between, statements@[i as int]));
                assert(seen.drop_last() =~= statements@.take(i as int));
                assert(seen.last() == statements@[i as int]);
            }
            match self.bind_simple_query_statement(&statements[i]) {
                Ok(statement) => {
                    bound.push(statement);
                    proof {
                        assert(bound@.drop_last() =~= before);
                        assert(others.statement_step(
                            between,
                            Ok(before),
                            seen.last(),
                            self.scope@,
                            Ok(bound@),
                        ));
                        assert(others.statements_bind(scope, seen, self.scope@, Ok(bound@)));
                    }
                },
                Err(error) => {
                    proof {
                        assert(others.statement_step(
                            between,
                            Ok(before),
                            seen.last(),
                            self.scope@,
                            Err(error),
                        ));
                        assert(others.statements_bind(scope, seen, self.scope@, Err(error)));
                        others.lemma_statements_failure(
                            scope,
                            statements@,
                            self.scope@,
                            error,
                            i + 1,
                        );
                    }
                    return Err(error);
                },
            }
        }
        assert(statements@.take(statements@.len() as int) =~= statements@);
        Ok(bound)
    }

    /// Binds a query on the current graph.
    pub fn bind_ambient_linear_query_statement(
        &mut self,
        statement: &AmbientLinearQueryStatement,
    ) -> (bound: BindResult<BoundLinearQueryStatement>)
        requires
            old(self).others.ready(),
            old(self).others.ambient_safe(old(self).scope@, *statement),
        ensures
            final(self).others == old(self).others,
            old(self).others.ambient_binds(
                old(self).scope@,
                *statement,
                final(self).scope@,
                bound,
            ),
    {
        let ghost scope = self.scope@;
        match statement {
            AmbientLinearQueryStatement::Parts { parts, result } => {
                let statements = match self.bind_statements(parts) {
                    Ok(statements) => statements,
                    Err(error) => {
                        return Err(error);
                    },
                };
                assert(self.others.statements_bind(
                    scope,
                    parts@,
                    self.scope@,
                    Ok(statements@),
                ));
                let bound = match self.bind_result_statement(result) {
                    Ok(rows) => Ok(BoundLinearQueryStatement::Query { statements, result: rows }),
                    Err(error) => Err(error),
                };
                assert(bound matches Ok(BoundLinearQueryStatement::Query { statements: list, .. })
                    ==> list@ == statements@);
                assert(old(self).others.ambient_binds(scope, *statement, self.scope@, bound));
                bound
            },
            AmbientLinearQueryStatement::Nested(query) => {
                let procedure = &self.others.procedure;
                match procedure(&self.scope, query) {
                    Ok(nested) => {
                        assert(self.others.procedure_binds(scope, *query, Ok(nested)));
                        Ok(BoundLinearQueryStatement::Nested(Box::new(nested)))
                    },
                    Err(error) => {
                        assert(self.others.procedure_binds(scope, *query, Err(error)));
                        Err(error)
                    },
                }
            },
        }
    }

    /// Binds a statement.
    pub fn bind_simple_query_statement(&mut self, statement: &SimpleQueryStatement) -> (result:
        BindResult<BoundSimpleQueryStatement>)
        requires
            old(self).others.ready(),
            old(self).others.simple_safe(old(self).scope@, *statement),
        ensures
            final(self).others == old(self).others,
            old(self).others.simple_binds(
                old(self).scope@,
                *statement,
                final(self).scope@,
                result,
            ),
    {
        let ghost scope = self.scope@;
        match statement {
            SimpleQueryStatement::Match(statement) => match self.bind_match_statement(statement) {
                Ok(bound) => Ok(BoundSimpleQueryStatement::Match(bound)),
                Err(error) => Err(error),
            },
            SimpleQueryStatement::Call(source) => {
                let call = &self.others.call;
                let bound = match call(&self.scope, source) {
                    Ok(bound) => bound,
                    Err(error) => {
                        assert(self.others.call_binds(scope, *source, Err(error)));
                        return Err(error);
                    },
                };
                assert(self.others.call_binds(scope, *source, Ok(bound)));
                let schema = match &bound.schema {
                    Some(schema) => schema.duplicate(),
                    None => {
                        return Err(BindError::DataSchemaNotProvided(bound.name));
                    },
                };
                self.scope.active_data_schema = Some(schema);
                Ok(BoundSimpleQueryStatement::Call(bound))
            },
            SimpleQueryStatement::OrderByAndPage(_) => not_implemented(
                "standalone order by and page statement",
            ),
        }
    }

    /// Binds a match.
    pub fn bind_match_statement(&mut self, statement: &MatchStatement) -> (result: BindResult<
        BoundMatchStatement,
    >)
        requires
            old(self).others.ready(),
            old(self).others.match_safe(old(self).scope@, *statement),
        ensures
            final(self).others == old(self).others,
            old(self).others.match_binds(
                old(self).scope@,
                *statement,
                final(self).scope@,
                result,
            ),
    {
        match statement {
            MatchStatement::Simple(table) => match self.bind_graph_pattern_binding_table(table) {
                Ok(pattern) => Ok(BoundMatchStatement::Simple(pattern)),
                Err(error) => Err(error),
            },
            MatchStatement::Optional(_) => not_implemented("optional match statement"),
        }
    }
}

/// A query on graphs that it names leaves the current graph as it was.
pub proof fn law_focused_restores_graph<
    V: Fn(&Scope, &Source) -> BindResult<BoundExpr>,
    I: Fn(&Source) -> BindResult<usize>,
    G: Fn(u64, &String) -> BindResult<Option<u64>>,
    R: Fn(&Scope, &Source) -> BindResult<NamedGraphRef>,
    P: Fn(&Scope, &Source) -> BindResult<BoundProcedure>,
    C: Fn(&Scope, &Source) -> BindResult<BoundCallProcedureStatement>,
>(
    others: Resolver<V, I, G, R, P, C>,
    scope: ScopeView,
    statement: FocusedLinearQueryStatement,
    after: ScopeView,
    bound: BindResult<BoundLinearQueryStatement>,
)
    requires
        others.focused_binds(scope, statement, after, bound),
        bound is Ok,
    ensures
        after.current_graph == scope.current_graph,
{
}

/// What binding statements came to.
pub open spec fn statements_view(result: BindResult<Vec<BoundSimpleQueryStatement>>) -> Statements {
    match result {
        Ok(list) => Ok(list@),
        Err(error) => Err(error),
    }
}

} // verus!
