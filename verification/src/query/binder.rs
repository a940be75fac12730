//! Resolving the names of a query: graphs, columns, and what is returned.

use std::sync::Arc;

use vstd::prelude::*;

use super::ast::{
    GraphExpr, NullPosition, OrderByAndPageStatement, QueryConjunction, ResultStatement, Return,
    ReturnItem, ReturnStatement, SetOp, SetOpKind, SetQuantifier, SortDirection, SortSpec, Source,
};
use super::bound::{
    BoundCallProcedureStatement, BoundExpr, BoundOrderByAndPageStatement, BoundProcedure,
    BoundQueryConjunction, BoundResultStatement, BoundReturnStatement, BoundSetOp, BoundSetOpKind,
    BoundSetQuantifier, BoundSortSpec, NamedGraphRef, NullOrdering, SortOrdering,
};
#[allow(unused_imports)]
use super::error::bind_refused;
use super::error::{not_implemented, BindError, BindResult};
use crate::common::data_type::{DataField, DataSchema, DataSchemaRef};
#[allow(unused_imports)]
use crate::common::data_type::{fields_model, FieldView};

verus! {

/// What names refer to while a query is bound.
#[derive(Debug)]
pub struct Scope {
    /// The number of the current schema.
    pub current_schema: Option<u64>,
    /// The number of the schema that a session starts in.
    pub home_schema: Option<u64>,
    /// The current graph.
    pub current_graph: Option<NamedGraphRef>,
    /// The graph that a session starts with.
    pub home_graph: Option<NamedGraphRef>,
    /// The columns that there are so far.
    pub active_data_schema: Option<DataSchema>,
}

/// What names refer to while a query is bound.
pub struct ScopeView {
    /// The number of the current schema.
    pub current_schema: Option<u64>,
    /// The number of the schema that a session starts in.
    pub home_schema: Option<u64>,
    /// The current graph.
    pub current_graph: Option<(Seq<char>, u64)>,
    /// The graph that a session starts with.
    pub home_graph: Option<(Seq<char>, u64)>,
    /// The columns that there are so far.
    pub active: Option<Seq<FieldView>>,
}

/// What an optional graph is.
pub open spec fn graph_view(graph: Option<NamedGraphRef>) -> Option<(Seq<char>, u64)> {
    match graph {
        Some(graph) => Some(graph@),
        None => None,
    }
}

/// A copy of an optional graph.
pub fn duplicate_graph(graph: &Option<NamedGraphRef>) -> (copy: Option<NamedGraphRef>)
    ensures
        graph_view(copy) == graph_view(*graph),
{
    match graph {
        Some(graph) => Some(graph.duplicate()),
        None => None,
    }
}

impl View for Scope {
    type V = ScopeView;

    open spec fn view(&self) -> ScopeView {
        ScopeView {
            current_schema: self.current_schema,
            home_schema: self.home_schema,
            current_graph: graph_view(self.current_graph),
            home_graph: graph_view(self.home_graph),
            active: match self.active_data_schema {
                Some(schema) => Some(schema@),
                None => None,
            },
        }
    }
}

/// What is asked of others while a query is bound: expressions, numbers, procedures, and what the
/// catalog holds.
pub struct Resolver<V, I, G, R, P, C> {
    /// Binds an expression.
    pub value: V,
    /// Binds a number that is not negative.
    pub integer: I,
    /// Looks for a graph in a schema of the catalog.
    pub graph: G,
    /// Looks for a graph at some place in the catalog.
    pub graph_ref: R,
    /// Binds a procedure.
    pub procedure: P,
    /// Binds the call of a procedure.
    pub call: C,
}

/// Binds a query.
pub struct Binder<V, I, G, R, P, C> {
    /// What names refer to.
    pub scope: Scope,
    /// What is asked of others.
    pub others: Resolver<V, I, G, R, P, C>,
}

impl<
    V: Fn(&Scope, &Source) -> BindResult<BoundExpr>,
    I: Fn(&Source) -> BindResult<usize>,
    G: Fn(u64, &String) -> BindResult<Option<u64>>,
    R: Fn(&Scope, &Source) -> BindResult<NamedGraphRef>,
    P: Fn(&Scope, &Source) -> BindResult<BoundProcedure>,
    C: Fn(&Scope, &Source) -> BindResult<BoundCallProcedureStatement>,
> Resolver<V, I, G, R, P, C> {
    /// Whether everything can be asked for.
    pub open spec fn ready(self) -> bool {
        &&& forall|scope: &Scope, source: &Source| #[trigger]
            call_requires(self.value, (scope, source))
        &&& forall|source: &Source| #[trigger] call_requires(self.integer, (source,))
        &&& forall|schema: u64, name: &String| #[trigger]
            call_requires(self.graph, (schema, name))
        &&& forall|scope: &Scope, source: &Source| #[trigger]
            call_requires(self.graph_ref, (scope, source))
        &&& forall|scope: &Scope, source: &Source| #[trigger]
            call_requires(self.procedure, (scope, source))
        &&& forall|scope: &Scope, source: &Source| #[trigger]
            call_requires(self.call, (scope, source))
    }

    /// Whether binding an expression can come to a result.
    pub open spec fn value_binds(
        self,
        scope: ScopeView,
        source: Source,
        result: BindResult<BoundExpr>,
    ) -> bool {
        exists|within: Scope| #[trigger]
            call_ensures(self.value, (&within, &source), result) && within@ == scope
    }

    /// Whether looking for a graph can come to a result.
    pub open spec fn graph_binds(
        self,
        scope: ScopeView,
        expr: GraphExpr,
        result: BindResult<NamedGraphRef>,
    ) -> bool {
        match expr {
            GraphExpr::Name(name) => match scope.current_schema {
                None => result matches Err(BindError::CurrentSchemaNotSpecified),
                Some(schema) => exists|answer: BindResult<Option<u64>>| #[trigger]
                    call_ensures(self.graph, (schema, &name), answer) && match answer {
                        Ok(Some(graph)) => result matches Ok(found) && found@ == (name@, graph),
                        Ok(None) => result matches Err(BindError::GraphNotFound(text)) && text@
                            == name@,
                        Err(error) => result == Err::<NamedGraphRef, BindError>(error),
                    },
            },
            GraphExpr::Object(_) => bind_refused(
                result,
                "graph expression from object expression"@,
            ),
            GraphExpr::Ref(source) => exists|within: Scope| #[trigger]
                call_ensures(self.graph_ref, (&within, &source), result) && within@ == scope,
            GraphExpr::Current => match scope.current_graph {
                Some(current) => result matches Ok(found) && found@ == current,
                None => result matches Err(BindError::CurrentGraphNotSpecified),
            },
        }
    }

    /// Whether binding what rows are ordered by can come to a result.
    pub open spec fn sort_binds(
        self,
        scope: ScopeView,
        spec: SortSpec,
        result: BindResult<BoundSortSpec>,
    ) -> bool {
        match result {
            Ok(bound) => {
                &&& self.value_binds(scope, spec.key, Ok(bound.key))
                &&& bound.ordering == match spec.ordering {
                    Some(ordering) => ordering_of(ordering),
                    None => SortOrdering::Ascending,
                }
                &&& bound.null_ordering == match spec.null_ordering {
                    Some(position) => null_ordering_of(position),
                    None => NullOrdering::First,
                }
            },
            Err(error) => self.value_binds(scope, spec.key, Err(error)),
        }
    }

    /// Whether binding the order of rows can come to a result: all parts are bound in turn, up to
    /// the first that fails.
    pub open spec fn sorts_bind(
        self,
        scope: ScopeView,
        specs: Seq<SortSpec>,
        result: Result<Seq<BoundSortSpec>, BindError>,
    ) -> bool {
        match result {
            Ok(bound) => {
                &&& bound.len() == specs.len()
                &&& forall|i: int|
                    0 <= i < specs.len() ==> self.sort_binds(
                        scope,
                        specs[i],
                        Ok(#[trigger] bound[i]),
                    )
            },
            Err(error) => exists|bound: Seq<BoundSortSpec>| #[trigger]
                self.sorts_fail(scope, specs, bound, error),
        }
    }

    /// Whether some parts of an order are bound and the next fails.
    pub open spec fn sorts_fail(
        self,
        scope: ScopeView,
        specs: Seq<SortSpec>,
        bound: Seq<BoundSortSpec>,
        error: BindError,
    ) -> bool {
        &&& bound.len() < specs.len()
        &&& forall|i: int|
            0 <= i < bound.len() ==> self.sort_binds(scope, specs[i], Ok(#[trigger] bound[i]))
        &&& self.sort_binds(scope, specs[bound.len() as int], Err(error))
    }

    /// Whether binding an optional number can come to a result.
    pub open spec fn integer_binds(
        self,
        source: Option<Source>,
        result: BindResult<Option<usize>>,
    ) -> bool {
        match source {
            None => result == Ok::<Option<usize>, BindError>(None),
            Some(source) => match result {
                Ok(Some(number)) => call_ensures(self.integer, (&source,), Ok(number)),
                Ok(None) => false,
                Err(error) => call_ensures(self.integer, (&source,), Err(error)),
            },
        }
    }

    /// Whether binding the order and the number of rows can come to a result: the order first, then
    /// how many are passed over, then how many are returned.
    pub open spec fn page_binds(
        self,
        scope: ScopeView,
        page: OrderByAndPageStatement,
        result: BindResult<BoundOrderByAndPageStatement>,
    ) -> bool {
        match result {
            Ok(bound) => {
                &&& self.sorts_bind(scope, page.order_by@, Ok(bound.order_by@))
                &&& self.integer_binds(page.offset, Ok(bound.offset))
                &&& self.integer_binds(page.limit, Ok(bound.limit))
            },
            Err(error) => {
                ||| self.sorts_bind(scope, page.order_by@, Err(error))
                ||| {
                    &&& exists|bound: Seq<BoundSortSpec>| #[trigger]
                        self.sorts_bind(scope, page.order_by@, Ok(bound))
                    &&& {
                        ||| self.integer_binds(page.offset, Err(error))
                        ||| {
                            &&& exists|offset: Option<usize>| #[trigger]
                                self.integer_binds(page.offset, Ok(offset))
                            &&& self.integer_binds(page.limit, Err(error))
                        }
                    }
                }
            },
        }
    }

    /// Whether the columns that are returned are those of expressions: each with the expression's
    /// type, named by its alias or else by the expression's text.
    pub open spec fn columns_of(
        items: Seq<ReturnItem>,
        exprs: Seq<BoundExpr>,
        fields: Seq<FieldView>,
    ) -> bool {
        &&& fields.len() == exprs.len()
        &&& forall|i: int|
            0 <= i < exprs.len() ==> #[trigger] fields[i] == (FieldView {
                name: match items[i].alias {
                    Some(alias) => alias@,
                    None => exprs[i].text@,
                },
                ty: exprs[i].logical_type.model(),
                nullable: exprs[i].nullable,
            })
    }

    /// Whether the first of the items that are returned can be bound to expressions.
    pub open spec fn items_bind(
        self,
        scope: ScopeView,
        items: Seq<ReturnItem>,
        exprs: Seq<BoundExpr>,
    ) -> bool {
        &&& exprs.len() <= items.len()
        &&& forall|i: int|
            0 <= i < exprs.len() ==> self.value_binds(
                scope,
                items[i].value,
                Ok(#[trigger] exprs[i]),
            )
    }

    /// Whether binding the columns that are returned can come to a result.
    pub open spec fn return_binds(
        self,
        scope: ScopeView,
        ret: Return,
        result: BindResult<(Option<Vec<BoundExpr>>, DataSchemaRef)>,
    ) -> bool {
        match ret {
            Return::Items(items) => match result {
                Ok((Some(exprs), schema)) => {
                    &&& exprs@.len() == items@.len()
                    &&& self.items_bind(scope, items@, exprs@)
                    &&& Self::columns_of(items@, exprs@, schema@)
                },
                Ok((None, _)) => false,
                Err(error) => exists|exprs: Seq<BoundExpr>| #[trigger]
                    self.items_bind(scope, items@, exprs) && exprs.len() < items@.len()
                        && self.value_binds(scope, items@[exprs.len() as int].value, Err(error)),
            },
            Return::All => match scope.active {
                Some(active) => result matches Ok((None, schema)) && schema@ == active,
                None => result matches Err(BindError::NoColumnInReturnStatement),
            },
        }
    }

    /// Whether binding which rows are returned can come to a result.
    pub open spec fn return_statement_binds(
        self,
        scope: ScopeView,
        statement: ReturnStatement,
        result: BindResult<BoundReturnStatement>,
    ) -> bool {
        match result {
            Ok(bound) => {
                &&& bound.quantifier == match statement.quantifier {
                    Some(quantifier) => Some(quantifier_of(quantifier)),
                    None => None,
                }
                &&& self.return_binds(scope, statement.items, Ok((bound.items, bound.schema)))
            },
            Err(error) => self.return_binds(scope, statement.items, Err(error)),
        }
    }

    /// Whether binding what is returned can come to a result. From then on there are the columns
    /// that are returned, and the order of the rows is bound with them.
    pub open spec fn result_binds(
        self,
        scope: ScopeView,
        statement: ResultStatement,
        after: ScopeView,
        result: BindResult<BoundResultStatement>,
    ) -> bool {
        match statement {
            ResultStatement::Finish => {
                &&& after == scope
                &&& result matches Ok(BoundResultStatement::Finish)
            },
            ResultStatement::Return { statement, order_by } => match result {
                Ok(BoundResultStatement::Return { statement: bound, order_by_and_page }) => {
                    &&& self.return_statement_binds(scope, statement, Ok(bound))
                    &&& after == (ScopeView { active: Some(bound.schema@), ..scope })
                    &&& match (order_by, order_by_and_page) {
                        (Some(page), Some(bound_page)) => self.page_binds(
                            after,
                            page,
                            Ok(bound_page),
                        ),
                        (None, None) => true,
                        _ => false,
                    }
                },
                Ok(BoundResultStatement::Finish) => false,
                Err(error) => {
                    ||| {
                        &&& self.return_statement_binds(scope, statement, Err(error))
                        &&& after == scope
                    }
                    ||| exists|bound: BoundReturnStatement| #[trigger]
                        self.return_statement_binds(scope, statement, Ok(bound)) && after == (
                        ScopeView { active: Some(bound.schema@), ..scope })
                            && (order_by matches Some(page) && self.page_binds(
                            after,
                            page,
                            Err(error),
                        ))
                },
            },
        }
    }
}

impl<
    V: Fn(&Scope, &Source) -> BindResult<BoundExpr>,
    I: Fn(&Source) -> BindResult<usize>,
    G: Fn(u64, &String) -> BindResult<Option<u64>>,
    R: Fn(&Scope, &Source) -> BindResult<NamedGraphRef>,
    P: Fn(&Scope, &Source) -> BindResult<BoundProcedure>,
    C: Fn(&Scope, &Source) -> BindResult<BoundCallProcedureStatement>,
> Binder<V, I, G, R, P, C> {
    /// Looks for a graph.
    pub fn bind_graph_expr(&self, expr: &GraphExpr) -> (result: BindResult<NamedGraphRef>)
        requires
            self.others.ready(),
        ensures
            self.others.graph_binds(self.scope@, *expr, result),
    {
        match expr {
            GraphExpr::Name(name) => {
                let schema: u64 = match self.scope.current_schema {
                    Some(schema) => schema,
                    None => {
                        return Err(BindError::CurrentSchemaNotSpecified);
                    },
                };
                let graph = &self.others.graph;
                match graph(schema, name) {
                    Ok(Some(found)) => Ok(NamedGraphRef::new(name.as_str(), found)),
                    Ok(None) => Err(BindError::GraphNotFound(name.clone())),
                    Err(error) => Err(error),
                }
            },
            GraphExpr::Object(_) => not_implemented("graph expression from object expression"),
            GraphExpr::Ref(source) => {
                let graph_ref = &self.others.graph_ref;
                graph_ref(&self.scope, source)
            },
            GraphExpr::Current => match &self.scope.current_graph {
                Some(current) => Ok(current.duplicate()),
                None => Err(BindError::CurrentGraphNotSpecified),
            },
        }
    }

    /// Binds what rows are ordered by.
    pub fn bind_sort_spec(&self, sort_spec: &SortSpec) -> (result: BindResult<BoundSortSpec>)
        requires
            self.others.ready(),
        ensures
            self.others.sort_binds(self.scope@, *sort_spec, result),
    {
        let value = &self.others.value;
        let key = match value(&self.scope, &sort_spec.key) {
            Ok(key) => key,
            Err(error) => {
                assert(self.others.value_binds(self.scope@, sort_spec.key, Err(error)));
                return Err(error);
            },
        };
        assert(self.others.value_binds(self.scope@, sort_spec.key, Ok(key)));
        let ordering = match &sort_spec.ordering {
            Some(ordering) => bind_ordering(ordering),
            None => SortOrdering::default(),
        };
        let null_ordering = match &sort_spec.null_ordering {
            Some(position) => bind_null_ordering(position),
            None => NullOrdering::default(),
        };
        Ok(BoundSortSpec { key, ordering, null_ordering })
    }

    /// Binds an optional number.
    fn bind_optional_integer(&self, source: &Option<Source>) -> (result: BindResult<
        Option<usize>,
    >)
        requires
            self.others.ready(),
        ensures
            self.others.integer_binds(*source, result),
    {
        match source {
            None => Ok(None),
            Some(source) => {
                let integer = &self.others.integer;
                match integer(source) {
                    Ok(number) => Ok(Some(number)),
                    Err(error) => Err(error),
                }
            },
        }
    }

    /// Binds the order and the number of rows.
    pub fn bind_order_by_and_page_statement(
        &self,
        order_by_and_page: &OrderByAndPageStatement,
    ) -> (result: BindResult<BoundOrderByAndPageStatement>)
        requires
            self.others.ready(),
        ensures
            self.others.page_binds(self.scope@, *order_by_and_page, result),
    {
        let ghost specs = order_by_and_page.order_by@;
        let mut order_by: Vec<BoundSortSpec> = Vec::new();
        for i in 0..order_by_and_page.order_by.len()
            invariant
                self.others.ready(),
                specs == order_by_and_page.order_by@,
                order_by@.len() == i,
                forall|j: int|
                    0 <= j < i ==> self.others.sort_binds(
                        self.scope@,
                        specs[j],
                        Ok(#[trigger] order_by@[j]),
                    ),
        {
            match self.bind_sort_spec(&order_by_and_page.order_by[i]) {
                Ok(spec) => {
                    order_by.push(spec);
                },
                Err(error) => {
                    assert(self.others.sorts_fail(self.scope@, specs, order_by@, error));
                    return Err(error);
                },
            }
        }
        assert(self.others.sorts_bind(self.scope@, specs, Ok(order_by@)));
        let offset = match self.bind_optional_integer(&order_by_and_page.offset) {
            Ok(offset) => offset,
            Err(error) => {
                return Err(error);
            },
        };
        assert(self.others.integer_binds(order_by_and_page.offset, Ok(offset)));
        let limit = match self.bind_optional_integer(&order_by_and_page.limit) {
            Ok(limit) => limit,
            Err(error) => {
                return Err(error);
            },
        };
        Ok(BoundOrderByAndPageStatement { order_by, offset, limit })
    }

    /// Binds the columns that are returned.
    pub fn bind_return(&self, ret: &Return) -> (result: BindResult<
        (Option<Vec<BoundExpr>>, DataSchemaRef),
    >)
        requires
            self.others.ready(),
        ensures
            self.others.return_binds(self.scope@, *ret, result),
    {
        match ret {
            Return::Items(items) => {
                let mut fields: Vec<DataField> = Vec::new();
                let mut exprs: Vec<BoundExpr> = Vec::new();
                for i in 0..items.len()
                    invariant
                        self.others.ready(),
                        *ret == Return::Items(*items),
                        exprs@.len() == i,
                        self.others.items_bind(self.scope@, items@, exprs@),
                        Resolver::<V, I, G, R, P, C>::columns_of(items@, exprs@, fields_model(fields@)),
                {
                    let item = &items[i];
                    let value = &self.others.value;
                    let expr = match value(&self.scope, &item.value) {
                        Ok(expr) => expr,
                        Err(error) => {
                            assert(self.others.value_binds(
                                self.scope@,
                                items@[exprs@.len() as int].value,
                                Err(error),
                            ));
                            return Err(error);
                        },
                    };
                    assert(self.others.value_binds(self.scope@, item.value, Ok(expr)));
                    let name = match &item.alias {
                        Some(alias) => alias.clone(),
                        None => expr.text.clone(),
                    };
                    let ghost before = exprs@;
                    let ghost before_fields = fields_model(fields@);
                    fields.push(
                        DataField::new(name, expr.logical_type.duplicate(), expr.nullable),
                    );
                    exprs.push(expr);
                    proof {
                        let after = fields_model(fields@);
                        assert forall|j: int| 0 <= j < exprs@.len() implies self.others.value_binds(
                            self.scope@,
                            items@[j].value,
                            Ok(#[trigger] exprs@[j]),
                        ) by {
                            if j < i {
                                assert(exprs@[j] == before[j]);
                            }
                        }
                        assert forall|j: int| 0 <= j < exprs@.len() implies #[trigger] after[j] == (
                        FieldView {
                            name: match items@[j].alias {
                                Some(alias) => alias@,
                                None => exprs@[j].text@,
                            },
                            ty: exprs@[j].logical_type.model(),
                            nullable: exprs@[j].nullable,
                        }) by {
                            if j < i {
                                assert(after[j] == before_fields[j]);
                            }
                        }
                    }
                }
                let schema = Arc::new(DataSchema::new(fields));
                Ok((Some(exprs), schema))
            },
            Return::All => match &self.scope.active_data_schema {
                Some(schema) => Ok((None, Arc::new(schema.duplicate()))),
                None => Err(BindError::NoColumnInReturnStatement),
            },
        }
    }

    /// Binds which rows are returned.
    pub fn bind_return_statement(&self, statement: &ReturnStatement) -> (result: BindResult<
        BoundReturnStatement,
    >)
        requires
            self.others.ready(),
        ensures
            self.others.return_statement_binds(self.scope@, *statement, result),
    {
        let quantifier = match &statement.quantifier {
            Some(quantifier) => Some(bind_set_quantifier(quantifier)),
            None => None,
        };
        match self.bind_return(&statement.items) {
            Ok((items, schema)) => Ok(BoundReturnStatement { quantifier, items, schema }),
            Err(error) => Err(error),
        }
    }

    /// Binds what is returned.
    pub fn bind_result_statement(&mut self, statement: &ResultStatement) -> (result: BindResult<
        BoundResultStatement,
    >)
        requires
            old(self).others.ready(),
        ensures
            final(self).others == old(self).others,
            old(self).others.result_binds(old(self).scope@, *statement, final(self).scope@, result),
    {
        match statement {
            ResultStatement::Finish => Ok(BoundResultStatement::Finish),
            ResultStatement::Return { statement, order_by } => {
                let bound = match self.bind_return_statement(statement) {
                    Ok(bound) => bound,
                    Err(error) => {
                        return Err(error);
                    },
                };
                self.scope.active_data_schema = Some(bound.schema.duplicate());
                assert(self.scope@ == (ScopeView {
                    active: Some(bound.schema@),
                    ..old(self).scope@
                }));
                let order_by_and_page = match order_by {
                    None => None,
                    Some(page) => match self.bind_order_by_and_page_statement(page) {
                        Ok(bound_page) => Some(bound_page),
                        Err(error) => {
                            return Err(error);
                        },
                    },
                };
                Ok(BoundResultStatement::Return { statement: bound, order_by_and_page })
            },
        }
    }
}

/// The direction that is meant.
pub open spec fn ordering_of(ordering: SortDirection) -> SortOrdering {
    match ordering {
        SortDirection::Asc => SortOrdering::Ascending,
        SortDirection::Desc => SortOrdering::Descending,
    }
}

/// Where missing values are meant to go.
pub open spec fn null_ordering_of(position: NullPosition) -> NullOrdering {
    match position {
        NullPosition::First => NullOrdering::First,
        NullPosition::Last => NullOrdering::Last,
    }
}

/// What is meant to become of equal rows.
pub open spec fn quantifier_of(quantifier: SetQuantifier) -> BoundSetQuantifier {
    match quantifier {
        SetQuantifier::Distinct => BoundSetQuantifier::Distinct,
        SetQuantifier::All => BoundSetQuantifier::All,
    }
}

/// To what results are meant to be joined.
pub open spec fn kind_of(kind: SetOpKind) -> BoundSetOpKind {
    match kind {
        SetOpKind::Union => BoundSetOpKind::Union,
        SetOpKind::Except => BoundSetOpKind::Except,
        SetOpKind::Intersect => BoundSetOpKind::Intersect,
    }
}

/// How results are meant to be joined.
pub open spec fn set_op_of(set_op: SetOp) -> BoundSetOp {
    BoundSetOp {
        kind: kind_of(set_op.kind),
        quantifier: match set_op.quantifier {
            Some(quantifier) => Some(quantifier_of(quantifier)),
            None => None,
        },
    }
}

/// Binds a direction.
pub fn bind_ordering(ordering: &SortDirection) -> (bound: SortOrdering)
    ensures
        bound == ordering_of(*ordering),
{
    match ordering {
        SortDirection::Asc => SortOrdering::Ascending,
        SortDirection::Desc => SortOrdering::Descending,
    }
}

/// Binds where missing values go.
pub fn bind_null_ordering(null_ordering: &NullPosition) -> (bound: NullOrdering)
    ensures
        bound == null_ordering_of(*null_ordering),
{
    match null_ordering {
        NullPosition::First => NullOrdering::First,
        NullPosition::Last => NullOrdering::Last,
    }
}

/// Binds how two queries are connected.
pub fn bind_query_conjunction(conjunction: &QueryConjunction) -> (result: BindResult<
    BoundQueryConjunction,
>)
    ensures
        result matches Ok(bound) && bound == match *conjunction {
            QueryConjunction::SetOp(set_op) => BoundQueryConjunction::SetOp(set_op_of(set_op)),
            QueryConjunction::Otherwise => BoundQueryConjunction::Otherwise,
        },
{
    match conjunction {
        QueryConjunction::SetOp(set_op) => Ok(BoundQueryConjunction::SetOp(bind_set_op(set_op))),
        QueryConjunction::Otherwise => Ok(BoundQueryConjunction::Otherwise),
    }
}

/// Binds how results are joined.
pub fn bind_set_op(set_op: &SetOp) -> (bound: BoundSetOp)
    ensures
        bound == set_op_of(*set_op),
{
    let kind = bind_set_op_kind(&set_op.kind);
    let quantifier = match &set_op.quantifier {
        Some(quantifier) => Some(bind_set_quantifier(quantifier)),
        None => None,
    };
    BoundSetOp { kind, quantifier }
}

/// Binds what becomes of equal rows.
pub fn bind_set_quantifier(quantifier: &SetQuantifier) -> (bound: BoundSetQuantifier)
    ensures
        bound == quantifier_of(*quantifier),
{
    match quantifier {
        SetQuantifier::Distinct => BoundSetQuantifier::Distinct,
        SetQuantifier::All => BoundSetQuantifier::All,
    }
}

/// Binds to what results are joined.
pub fn bind_set_op_kind(kind: &SetOpKind) -> (bound: BoundSetOpKind)
    ensures
        bound == kind_of(*kind),
{
    match kind {
        SetOpKind::Union => BoundSetOpKind::Union,
        SetOpKind::Except => BoundSetOpKind::Except,
        SetOpKind::Intersect => BoundSetOpKind::Intersect,
    }
}

} // verus!
