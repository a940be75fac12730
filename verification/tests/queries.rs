//! Binding and planning of queries, sessions, and the lines of a shell.

use std::sync::Arc;

use minigu::common::data_type::{DataField, DataSchema, LogicalType};
use minigu::common::chunk::{count_rows, DataChunk};
use minigu::common::value::ScalarValue;
use minigu::execution::collect::scalar_values_to_array;
use minigu::execution::error::{ExecutionError, ExecutionResult};
use minigu::execution::executor::{collect_chunks, IntoExecutor};
use minigu::query::ast::{
    AmbientLinearQueryStatement, CompositeQueryStatement, FocusedLinearQueryStatement,
    FocusedLinearQueryStatementPart, GraphExpr, GraphPattern, GraphPatternBindingTable,
    LinearQueryStatement, MatchMode, MatchStatement, NullPosition, OrderByAndPageStatement,
    PathMode, PathPattern, PathPatternExpr, PathPatternPrefix, QueryConjunction, ResultStatement,
    Return, ReturnItem, ReturnStatement, SetOp, SetOpKind, SetQuantifier, SimpleQueryStatement,
    SortDirection, SortSpec, Source,
};
use minigu::query::binder::{
    bind_null_ordering, bind_ordering, bind_query_conjunction, bind_set_op_kind,
    bind_set_quantifier, Binder, Resolver, Scope,
};
use minigu::query::bound::{
    BoundCallProcedureStatement, BoundCompositeQueryStatement, BoundExpr,
    BoundLinearQueryStatement, BoundMatchMode, BoundMatchStatement, BoundOrderByAndPageStatement,
    BoundPathMode, BoundPathPatternExpr, BoundProcedure, BoundQueryConjunction,
    BoundResultStatement, BoundReturnStatement, BoundSetOp, BoundSetOpKind, BoundSetQuantifier,
    BoundSimpleQueryStatement, BoundSortSpec, NamedGraphRef, NullOrdering, SortOrdering,
};
use minigu::query::error::{BindError, BindResult, NotImplemented, PlanError};
use minigu::query::pattern::{bind_match_mode, bind_path_mode, bind_path_pattern_prefix};
use minigu::query::plan::{LogicalPlanner, PlanNode};
use minigu::session::{
    Program, ProgramActivity, Session, SessionActivity, SessionError, SessionReset,
    SessionResetArgs, SessionSet, Steps, TransactionActivity,
};
use minigu::shell::{next_step, split_query, LineInput, ShellStep, Token};

fn text(source: &str) -> Source {
    source.to_string()
}

fn schema_of(names: &[&str]) -> DataSchema {
    DataSchema::new(
        names
            .iter()
            .map(|name| DataField::new(name.to_string(), LogicalType::Int32, false))
            .collect(),
    )
}

fn column_names(schema: &DataSchema) -> Vec<String> {
    schema.fields().iter().map(|field| field.name().to_string()).collect()
}

fn resolver() -> Resolver<
    impl Fn(&Scope, &Source) -> BindResult<BoundExpr>,
    impl Fn(&Source) -> BindResult<usize>,
    impl Fn(u64, &String) -> BindResult<Option<u64>>,
    impl Fn(&Scope, &Source) -> BindResult<NamedGraphRef>,
    impl Fn(&Scope, &Source) -> BindResult<BoundProcedure>,
    impl Fn(&Scope, &Source) -> BindResult<BoundCallProcedureStatement>,
> {
    Resolver {
        value: |_scope: &Scope, source: &Source| {
            if source == "bad" {
                Err(BindError::VariableNotFound(source.clone()))
            } else {
                Ok(BoundExpr {
                    text: source.clone(),
                    logical_type: LogicalType::Int64,
                    nullable: true,
                })
            }
        },
        integer: |source: &Source| {
            source.parse::<usize>().map_err(|_| BindError::InvalidInteger(source.clone()))
        },
        graph: |schema: u64, name: &String| match name.as_str() {
            "people" => Ok(Some(schema * 10 + 1)),
            "broken" => Err(BindError::Catalog(text("unreachable"))),
            _ => Ok(None),
        },
        graph_ref: |_scope: &Scope, source: &Source| Ok(NamedGraphRef::new(source, 99)),
        procedure: |_scope: &Scope, source: &Source| {
            if source == "bad" {
                Err(BindError::Unexpected)
            } else {
                Ok(BoundProcedure { schema: None })
            }
        },
        call: |_scope: &Scope, source: &Source| {
            if source == "bad" {
                return Err(BindError::ProcedureNotFound(source.clone()));
            }
            let schema = if source == "silent" {
                None
            } else {
                Some(Arc::new(schema_of(&[source.as_str(), "other"])))
            };
            Ok(BoundCallProcedureStatement { name: source.clone(), schema })
        },
    }
}

fn scope() -> Scope {
    Scope {
        current_schema: Some(3),
        home_schema: Some(3),
        current_graph: Some(NamedGraphRef::new("current", 7)),
        home_graph: None,
        active_data_schema: None,
    }
}

fn refused<T>(result: BindResult<T>) -> String {
    match result {
        Err(BindError::NotImplemented(NotImplemented { feature })) => feature,
        _ => panic!("the feature should not be implemented"),
    }
}

fn return_items(items: Vec<(&str, Option<&str>)>) -> ResultStatement {
    ResultStatement::Return {
        statement: ReturnStatement {
            quantifier: None,
            items: Return::Items(
                items
                    .into_iter()
                    .map(|(value, alias)| ReturnItem {
                        value: text(value),
                        alias: alias.map(|alias| alias.to_string()),
                    })
                    .collect(),
            ),
        },
        order_by: None,
    }
}

fn return_all() -> ResultStatement {
    ResultStatement::Return {
        statement: ReturnStatement { quantifier: None, items: Return::All },
        order_by: None,
    }
}

#[test]
fn graphs_are_found_by_name() {
    let mut binder = Binder { scope: scope(), others: resolver() };
    let found = binder.bind_graph_expr(&GraphExpr::Name(text("people"))).unwrap();
    assert_eq!((found.name.as_str(), found.graph), ("people", 31));
    match binder.bind_graph_expr(&GraphExpr::Name(text("nothing"))) {
        Err(BindError::GraphNotFound(name)) => assert_eq!(name, "nothing"),
        other => panic!("unexpected outcome {:?}", other),
    }
    match binder.bind_graph_expr(&GraphExpr::Name(text("broken"))) {
        Err(BindError::Catalog(_)) => {}
        other => panic!("unexpected outcome {:?}", other),
    }
    let found = binder.bind_graph_expr(&GraphExpr::Ref(text("/a/b"))).unwrap();
    assert_eq!((found.name.as_str(), found.graph), ("/a/b", 99));
    let found = binder.bind_graph_expr(&GraphExpr::Current).unwrap();
    assert_eq!((found.name.as_str(), found.graph), ("current", 7));
    assert_eq!(
        refused(binder.bind_graph_expr(&GraphExpr::Object(text("x")))),
        "graph expression from object expression"
    );
    binder.scope.current_schema = None;
    binder.scope.current_graph = None;
    match binder.bind_graph_expr(&GraphExpr::Name(text("people"))) {
        Err(BindError::CurrentSchemaNotSpecified) => {}
        other => panic!("unexpected outcome {:?}", other),
    }
    match binder.bind_graph_expr(&GraphExpr::Current) {
        Err(BindError::CurrentGraphNotSpecified) => {}
        other => panic!("unexpected outcome {:?}", other),
    }
}

#[test]
fn columns_are_named_by_alias_or_text() {
    let mut binder = Binder { scope: scope(), others: resolver() };
    let bound = binder
        .bind_result_statement(&return_items(vec![("a + 1", None), ("b", Some("c"))]))
        .unwrap();
    assert_eq!(column_names(bound.schema().unwrap()), vec!["a + 1", "c"]);
    match bound {
        BoundResultStatement::Return { statement, order_by_and_page } => {
            assert_eq!(statement.items.unwrap().len(), 2);
            assert!(order_by_and_page.is_none());
        }
        BoundResultStatement::Finish => panic!("there should be columns"),
    }
    let active = binder.scope.active_data_schema.as_ref().unwrap();
    assert_eq!(column_names(active), vec!["a + 1", "c"]);
    assert_eq!(*active.fields()[0].ty(), LogicalType::Int64);
    assert!(active.fields()[0].is_nullable());

    match binder.bind_result_statement(&return_items(vec![("a", None), ("bad", None)])) {
        Err(BindError::VariableNotFound(name)) => assert_eq!(name, "bad"),
        other => panic!("unexpected outcome {:?}", other),
    }
    assert!(matches!(
        binder.bind_result_statement(&ResultStatement::Finish),
        Ok(BoundResultStatement::Finish)
    ));
}

#[test]
fn returning_everything_needs_columns() {
    let mut binder = Binder { scope: scope(), others: resolver() };
    match binder.bind_result_statement(&return_all()) {
        Err(BindError::NoColumnInReturnStatement) => {}
        other => panic!("unexpected outcome {:?}", other),
    }
    let query = AmbientLinearQueryStatement::Parts {
        parts: vec![SimpleQueryStatement::Call(text("rows"))],
        result: return_all(),
    };
    let bound = binder.bind_ambient_linear_query_statement(&query).unwrap();
    assert_eq!(column_names(&bound.schema().unwrap()), vec!["rows", "other"]);
}

#[test]
fn rows_are_ordered_and_counted() {
    let mut binder = Binder { scope: scope(), others: resolver() };
    let page = |key: &str, offset: &str, limit: &str| OrderByAndPageStatement {
        order_by: vec![
            SortSpec { key: text("a"), ordering: None, null_ordering: None },
            SortSpec {
                key: text(key),
                ordering: Some(SortDirection::Desc),
                null_ordering: Some(NullPosition::Last),
            },
        ],
        offset: Some(text(offset)),
        limit: Some(text(limit)),
    };
    let bound = binder.bind_order_by_and_page_statement(&page("b", "4", "20")).unwrap();
    assert_eq!((bound.offset, bound.limit), (Some(4), Some(20)));
    assert_eq!(bound.order_by[0].ordering, SortOrdering::Ascending);
    assert_eq!(bound.order_by[0].null_ordering, NullOrdering::First);
    assert_eq!(bound.order_by[1].ordering, SortOrdering::Descending);
    assert_eq!(bound.order_by[1].null_ordering, NullOrdering::Last);
    assert_eq!(bound.order_by[1].key.text, "b");
    match binder.bind_order_by_and_page_statement(&page("bad", "x", "y")) {
        Err(BindError::VariableNotFound(_)) => {}
        other => panic!("unexpected outcome {:?}", other),
    }
    match binder.bind_order_by_and_page_statement(&page("b", "x", "y")) {
        Err(BindError::InvalidInteger(number)) => assert_eq!(number, "x"),
        other => panic!("unexpected outcome {:?}", other),
    }
    match binder.bind_order_by_and_page_statement(&page("b", "1", "y")) {
        Err(BindError::InvalidInteger(number)) => assert_eq!(number, "y"),
        other => panic!("unexpected outcome {:?}", other),
    }
    let statement = ResultStatement::Return {
        statement: ReturnStatement {
            quantifier: Some(SetQuantifier::Distinct),
            items: Return::Items(vec![ReturnItem { value: text("a"), alias: None }]),
        },
        order_by: Some(page("b", "0", "1")),
    };
    match binder.bind_result_statement(&statement).unwrap() {
        BoundResultStatement::Return { statement, order_by_and_page } => {
            assert_eq!(statement.quantifier, Some(BoundSetQuantifier::Distinct));
            assert_eq!(order_by_and_page.unwrap().limit, Some(1));
        }
        BoundResultStatement::Finish => panic!("there should be rows"),
    }
}

#[test]
fn words_of_the_language_are_bound() {
    assert_eq!(bind_ordering(&SortDirection::Asc), SortOrdering::Ascending);
    assert_eq!(bind_ordering(&SortDirection::Desc), SortOrdering::Descending);
    assert_eq!(bind_null_ordering(&NullPosition::First), NullOrdering::First);
    assert_eq!(bind_null_ordering(&NullPosition::Last), NullOrdering::Last);
    assert_eq!(SortOrdering::default(), SortOrdering::Ascending);
    assert_eq!(NullOrdering::default(), NullOrdering::First);
    assert_eq!(bind_set_op_kind(&SetOpKind::Union), BoundSetOpKind::Union);
    assert_eq!(bind_set_op_kind(&SetOpKind::Except), BoundSetOpKind::Except);
    assert_eq!(bind_set_op_kind(&SetOpKind::Intersect), BoundSetOpKind::Intersect);
    assert_eq!(bind_set_quantifier(&SetQuantifier::All), BoundSetQuantifier::All);
    assert_eq!(
        bind_query_conjunction(&QueryConjunction::SetOp(SetOp {
            kind: SetOpKind::Except,
            quantifier: Some(SetQuantifier::All),
        }))
        .unwrap(),
        BoundQueryConjunction::SetOp(BoundSetOp {
            kind: BoundSetOpKind::Except,
            quantifier: Some(BoundSetQuantifier::All),
        })
    );
    assert_eq!(
        bind_query_conjunction(&QueryConjunction::Otherwise).unwrap(),
        BoundQueryConjunction::Otherwise
    );
    assert_eq!(bind_path_mode(&PathMode::Walk), BoundPathMode::Walk);
    assert_eq!(bind_path_mode(&PathMode::Trail), BoundPathMode::Trail);
    assert_eq!(bind_path_mode(&PathMode::Simple), BoundPathMode::Simple);
    assert_eq!(bind_path_mode(&PathMode::Acyclic), BoundPathMode::Acyclic);
    assert_eq!(bind_match_mode(&MatchMode::Repeatable), BoundMatchMode::Repeatable);
    assert_eq!(bind_match_mode(&MatchMode::Different), BoundMatchMode::Different);
    assert_eq!(
        bind_path_pattern_prefix(&PathPatternPrefix::PathMode(PathMode::Trail)).unwrap(),
        BoundPathMode::Trail
    );
    assert_eq!(
        refused(bind_path_pattern_prefix(&PathPatternPrefix::PathSearch(text("any")))),
        "path search prefix"
    );
}

fn match_paths(patterns: Vec<PathPattern>, keep: Option<PathPatternPrefix>) -> MatchStatement {
    MatchStatement::Simple(GraphPatternBindingTable {
        pattern: GraphPattern {
            match_mode: Some(MatchMode::Different),
            patterns,
            keep,
            where_clause: Some(text("x")),
        },
        yield_clause: vec![],
    })
}

fn path(variable: Option<&str>, expr: PathPatternExpr) -> PathPattern {
    PathPattern { variable: variable.map(|name| name.to_string()), prefix: None, expr }
}

#[test]
fn paths_are_bound() {
    let mut binder = Binder { scope: scope(), others: resolver() };
    let statement = match_paths(
        vec![
            path(
                Some("p"),
                PathPatternExpr::Concat(vec![
                    PathPatternExpr::Concat(vec![]),
                    PathPatternExpr::Concat(vec![]),
                ]),
            ),
            path(Some("q"), PathPatternExpr::Concat(vec![])),
        ],
        None,
    );
    let BoundMatchStatement::Simple(bound) = binder.bind_match_statement(&statement).unwrap();
    assert_eq!(bound.match_mode, Some(BoundMatchMode::Different));
    assert_eq!(bound.paths.len(), 2);
    match &bound.paths[0].expr {
        BoundPathPatternExpr::Concat(parts) => assert_eq!(parts.len(), 2),
        other => panic!("unexpected path {:?}", other),
    }
    assert_eq!(column_names(&bound.schema), vec!["p", "q"]);
    assert_eq!(bound.predicate.unwrap().text, "x");
    // A variable is declared once.
    let again = match_paths(vec![path(Some("q"), PathPatternExpr::Concat(vec![]))], None);
    match binder.bind_match_statement(&again) {
        Err(BindError::VariableAlreadyDeclared(name)) => assert_eq!(name, "q"),
        other => panic!("unexpected outcome {:?}", other),
    }
}

#[test]
fn paths_that_are_refused() {
    let mut binder = Binder { scope: scope(), others: resolver() };
    let part = || Box::new(PathPatternExpr::Concat(vec![]));
    for (expr, feature) in [
        (PathPatternExpr::Union(vec![]), "union path pattern"),
        (PathPatternExpr::Alternation(vec![]), "multiset alternation path pattern"),
        (
            PathPatternExpr::Quantified { path: part(), quantifier: text("*") },
            "quantified path pattern",
        ),
        (PathPatternExpr::Optional(part()), "optional path pattern"),
        (PathPatternExpr::Grouped(text("()")), "sub-path pattern"),
    ] {
        let nested = PathPatternExpr::Concat(vec![PathPatternExpr::Concat(vec![]), expr]);
        assert_eq!(refused(binder.bind_path_pattern_expr(&nested)), feature);
    }
    let keep = match_paths(vec![], Some(PathPatternPrefix::PathMode(PathMode::Walk)));
    assert_eq!(refused(binder.bind_match_statement(&keep)), "keep clause in graph pattern");
    assert_eq!(
        refused(binder.bind_match_statement(&MatchStatement::Optional(text("x")))),
        "optional match statement"
    );
    let mut yields = match_paths(vec![], None);
    if let MatchStatement::Simple(table) = &mut yields {
        table.yield_clause.push(text("x"));
    }
    assert_eq!(refused(binder.bind_match_statement(&yields)), "graph pattern yield clause");
}

#[test]
fn focused_queries_leave_the_graph_as_it_was() {
    let mut binder = Binder { scope: scope(), others: resolver() };
    let query = CompositeQueryStatement::Primary(LinearQueryStatement::Focused(
        FocusedLinearQueryStatement::Parts {
            parts: vec![
                FocusedLinearQueryStatementPart {
                    use_graph: GraphExpr::Name(text("people")),
                    statements: vec![SimpleQueryStatement::Call(text("one"))],
                },
                FocusedLinearQueryStatementPart {
                    use_graph: GraphExpr::Ref(text("elsewhere")),
                    statements: vec![SimpleQueryStatement::Call(text("two"))],
                },
            ],
            result: return_all(),
        },
    ));
    match binder.bind_composite_query_statement(&query).unwrap() {
        BoundCompositeQueryStatement::Primary(BoundLinearQueryStatement::Query {
            statements,
            result,
        }) => {
            assert_eq!(statements.len(), 2);
            assert_eq!(column_names(result.schema().unwrap()), vec!["two", "other"]);
        }
        other => panic!("unexpected query {:?}", other),
    }
    assert_eq!(binder.scope.current_graph.as_ref().unwrap().graph, 7);

    let query = FocusedLinearQueryStatement::Nested {
        use_graph: GraphExpr::Name(text("people")),
        query: text("inner"),
    };
    assert!(matches!(
        binder.bind_focused_linear_query_statement(&query),
        Ok(BoundLinearQueryStatement::Nested(_))
    ));
    assert_eq!(binder.scope.current_graph.as_ref().unwrap().graph, 7);

    let query = FocusedLinearQueryStatement::Result {
        use_graph: GraphExpr::Name(text("nothing")),
        result: ResultStatement::Finish,
    };
    match binder.bind_focused_linear_query_statement(&query) {
        Err(BindError::GraphNotFound(_)) => {}
        other => panic!("unexpected outcome {:?}", other),
    }
    let query = FocusedLinearQueryStatement::Select { statement: text("select") };
    assert_eq!(
        refused(binder.bind_focused_linear_query_statement(&query)),
        "select statement"
    );
}

#[test]
fn statements_that_fail() {
    let mut binder = Binder { scope: scope(), others: resolver() };
    match binder.bind_simple_query_statement(&SimpleQueryStatement::Call(text("silent"))) {
        Err(BindError::DataSchemaNotProvided(name)) => assert_eq!(name, "silent"),
        other => panic!("unexpected outcome {:?}", other),
    }
    match binder.bind_simple_query_statement(&SimpleQueryStatement::Call(text("bad"))) {
        Err(BindError::ProcedureNotFound(name)) => assert_eq!(name, "bad"),
        other => panic!("unexpected outcome {:?}", other),
    }
    let page = OrderByAndPageStatement { order_by: vec![], offset: None, limit: None };
    assert_eq!(
        refused(binder.bind_simple_query_statement(&SimpleQueryStatement::OrderByAndPage(page))),
        "standalone order by and page statement"
    );
    let leaf = || {
        Box::new(CompositeQueryStatement::Primary(LinearQueryStatement::Ambient(
            AmbientLinearQueryStatement::Nested(text("inner")),
        )))
    };
    let both = CompositeQueryStatement::Conjunction {
        conjunction: QueryConjunction::Otherwise,
        left: leaf(),
        right: leaf(),
    };
    assert_eq!(refused(binder.bind_composite_query_statement(&both)), "query conjunction");
    match binder
        .bind_ambient_linear_query_statement(&AmbientLinearQueryStatement::Nested(text("bad")))
    {
        Err(BindError::Unexpected) => {}
        other => panic!("unexpected outcome {:?}", other),
    }
}

fn expr(text: &str) -> BoundExpr {
    BoundExpr { text: text.to_string(), logical_type: LogicalType::Int32, nullable: false }
}

fn returned(quantifier: Option<BoundSetQuantifier>) -> BoundReturnStatement {
    BoundReturnStatement {
        quantifier,
        items: Some(vec![expr("a")]),
        schema: Arc::new(schema_of(&["a"])),
    }
}

fn page_of(order_by: Vec<BoundSortSpec>, offset: Option<usize>, limit: Option<usize>) ->
    BoundOrderByAndPageStatement {
    BoundOrderByAndPageStatement { order_by, offset, limit }
}

fn unplanned(plan: Result<PlanNode, PlanError>) -> String {
    match plan {
        Err(PlanError::NotImplemented(error)) => error.feature,
        Ok(plan) => panic!("unexpected plan {:?}", plan),
    }
}

#[test]
fn queries_are_planned_from_the_rows_up() {
    let planner = LogicalPlanner {
        plan_call: |call: BoundCallProcedureStatement| Ok(PlanNode::LogicalCall(call)),
    };
    let sort = BoundSortSpec {
        key: expr("a"),
        ordering: SortOrdering::Descending,
        null_ordering: NullOrdering::First,
    };
    let query = BoundCompositeQueryStatement::Primary(BoundLinearQueryStatement::Query {
        statements: vec![],
        result: BoundResultStatement::Return {
            statement: returned(None),
            order_by_and_page: Some(page_of(vec![sort], None, Some(5))),
        },
    });
    match planner.plan_composite_query_statement(query).unwrap() {
        PlanNode::LogicalLimit(limit) => {
            assert_eq!(limit.limit, 5);
            match *limit.child {
                PlanNode::LogicalSort(sort) => {
                    assert_eq!(sort.specs.len(), 1);
                    match *sort.child {
                        PlanNode::LogicalProject(project) => {
                            assert_eq!(project.exprs[0].text, "a");
                            assert!(matches!(*project.child, PlanNode::LogicalOneRow));
                        }
                        other => panic!("unexpected plan {:?}", other),
                    }
                }
                other => panic!("unexpected plan {:?}", other),
            }
        }
        other => panic!("unexpected plan {:?}", other),
    }
    let call = BoundCallProcedureStatement { name: text("rows"), schema: None };
    let query = BoundLinearQueryStatement::Query {
        statements: vec![BoundSimpleQueryStatement::Call(call)],
        result: BoundResultStatement::Return {
            statement: BoundReturnStatement {
                quantifier: None,
                items: None,
                schema: Arc::new(schema_of(&[])),
            },
            order_by_and_page: Some(page_of(vec![], None, None)),
        },
    };
    match planner.plan_linear_query_statement(query).unwrap() {
        PlanNode::LogicalCall(call) => assert_eq!(call.name, "rows"),
        other => panic!("unexpected plan {:?}", other),
    }
}

#[test]
fn plans_that_are_refused() {
    let planner = LogicalPlanner {
        plan_call: |_call: BoundCallProcedureStatement| -> Result<PlanNode, PlanError> {
            Err(PlanError::NotImplemented(NotImplemented::new("calls")))
        },
    };
    let row = || PlanNode::LogicalOneRow;
    assert_eq!(
        unplanned(
            planner.plan_return_statement(returned(Some(BoundSetQuantifier::Distinct)), row())
        ),
        "set quantifier in return statement"
    );
    assert_eq!(
        unplanned(planner.plan_order_by_and_page_statement(
            page_of(vec![], Some(1), Some(2)),
            row()
        )),
        "offset clause"
    );
    assert_eq!(
        unplanned(planner.plan_result_statement(BoundResultStatement::Finish, row())),
        "finish statement"
    );
    let call = || {
        BoundSimpleQueryStatement::Call(BoundCallProcedureStatement {
            name: text("rows"),
            schema: None,
        })
    };
    assert_eq!(unplanned(planner.plan_simple_query_statement(call())), "calls");
    let query = BoundLinearQueryStatement::Query {
        statements: vec![call(), call()],
        result: BoundResultStatement::Finish,
    };
    assert_eq!(unplanned(planner.plan_linear_query_statement(query)), "multiple statements");
    let nested = || BoundLinearQueryStatement::Nested(Box::new(BoundProcedure { schema: None }));
    assert_eq!(unplanned(planner.plan_linear_query_statement(nested())), "nested query");
    assert_eq!(
        unplanned(planner.plan_linear_query_statement(BoundLinearQueryStatement::Select)),
        "select statement"
    );
    let both = BoundCompositeQueryStatement::Conjunction {
        conjunction: BoundQueryConjunction::Otherwise,
        left: Box::new(BoundCompositeQueryStatement::Primary(nested())),
        right: Box::new(BoundCompositeQueryStatement::Primary(nested())),
    };
    assert_eq!(unplanned(planner.plan_composite_query_statement(both)), "query conjunction");
}

fn session_program(set: Vec<SessionSet>, reset: Vec<SessionReset>) -> Program {
    Program {
        activity: Some(ProgramActivity::Session(SessionActivity { set, reset })),
        session_close: false,
    }
}

fn parse(query: &str) -> Result<Program, String> {
    let reset = |args| session_program(vec![], vec![SessionReset(args)]);
    let transaction = |start: Option<&str>, end: Option<&str>, procedure: Option<&str>| Program {
        activity: Some(ProgramActivity::Transaction(TransactionActivity {
            start: start.map(text),
            procedure: procedure.map(text),
            end: end.map(text),
        })),
        session_close: false,
    };
    match query {
        "nothing" => Ok(Program { activity: None, session_close: false }),
        "close" => Ok(Program { activity: None, session_close: true }),
        "fail and close" => Ok(Program {
            activity: Some(ProgramActivity::Session(SessionActivity {
                set: vec![SessionSet::Schema(text("x"))],
                reset: vec![],
            })),
            session_close: true,
        }),
        "set people" => {
            Ok(session_program(vec![SessionSet::Graph(GraphExpr::Name(text("people")))], vec![]))
        }
        "set nowhere" => {
            Ok(session_program(vec![SessionSet::Graph(GraphExpr::Name(text("nowhere")))], vec![]))
        }
        "set zone" => Ok(session_program(vec![SessionSet::TimeZone(text("x"))], vec![])),
        "set parameter" => Ok(session_program(vec![SessionSet::Parameter(text("x"))], vec![])),
        "set and reset" => Ok(session_program(
            vec![SessionSet::Graph(GraphExpr::Name(text("people")))],
            vec![SessionReset(None)],
        )),
        "reset" => Ok(reset(None)),
        "reset all" => Ok(reset(Some(SessionResetArgs::AllCharacteristics))),
        "reset graph" => Ok(reset(Some(SessionResetArgs::Graph))),
        "reset schema" => Ok(reset(Some(SessionResetArgs::Schema))),
        "reset zone" => Ok(reset(Some(SessionResetArgs::TimeZone))),
        "reset parameter" => Ok(reset(Some(SessionResetArgs::Parameter(text("x"))))),
        "reset parameters" => Ok(reset(Some(SessionResetArgs::AllParameters))),
        "run" => Ok(transaction(None, None, Some("procedure"))),
        "run badly" => Ok(transaction(None, None, Some("bad"))),
        "run nothing" => Ok(transaction(None, None, None)),
        "start" => Ok(transaction(Some("start"), None, None)),
        "end" => Ok(transaction(None, Some("end"), None)),
        other => Err(format!("cannot parse {}", other)),
    }
}

#[test]
fn sessions_run_programs() {
    let execute = |scope: &Scope, source: &Source| -> Result<(Option<u64>, String), SessionError> {
        if source == "bad" {
            Err(SessionError::Execution(ExecutionError::new(text("failed"))))
        } else {
            Ok((scope.current_graph.as_ref().map(|graph| graph.graph), source.clone()))
        }
    };
    let mut session = Session::new(resolver(), 4);
    assert!(session.query("nothing", &parse, &execute).unwrap().is_none());
    assert_eq!(
        session.query("run", &parse, &execute).unwrap(),
        Some((None, text("procedure")))
    );
    assert!(session.query("set people", &parse, &execute).unwrap().is_none());
    assert_eq!(
        session.query("run", &parse, &execute).unwrap(),
        Some((Some(41), text("procedure")))
    );
    match session.query("set nowhere", &parse, &execute) {
        Err(SessionError::Bind(BindError::GraphNotFound(name))) => assert_eq!(name, "nowhere"),
        other => panic!("unexpected outcome {:?}", other),
    }
    match session.query("run badly", &parse, &execute) {
        Err(SessionError::Execution(error)) => assert_eq!(error.message(), "failed"),
        other => panic!("unexpected outcome {:?}", other),
    }
    match session.query("??", &parse, &execute) {
        Err(SessionError::Parse(message)) => assert_eq!(message, "cannot parse ??"),
        other => panic!("unexpected outcome {:?}", other),
    }
    assert!(session.query("run nothing", &parse, &execute).unwrap().is_none());
    for (query, feature) in [
        ("fail and close", "session set schema"),
        ("set zone", "session set timezone"),
        ("set parameter", "session set parameter"),
        ("reset zone", "session reset timezone"),
        ("reset parameter", "session reset parameter"),
        ("reset parameters", "session reset all parameters"),
        ("start", "start transaction"),
        ("end", "end transaction"),
    ] {
        match session.query(query, &parse, &execute) {
            Err(SessionError::NotImplemented(error)) => assert_eq!(error.feature, feature),
            other => panic!("unexpected outcome {:?}", other),
        }
    }
    assert!(!session.closed);
    assert!(session.query("close", &parse, &execute).unwrap().is_none());
    match session.query("nothing", &parse, &execute) {
        Err(SessionError::SessionClosed) => {}
        other => panic!("unexpected outcome {:?}", other),
    }
}

#[test]
fn resetting_goes_back_to_the_start() {
    let execute = |_scope: &Scope, _source: &Source| -> Result<(), SessionError> { Ok(()) };
    for reset in ["reset", "reset all", "reset graph"] {
        let mut session = Session::new(resolver(), 4);
        session.query("set people", &parse, &execute).unwrap();
        assert_eq!(session.binder.scope.current_graph.as_ref().unwrap().graph, 41);
        session.query(reset, &parse, &execute).unwrap();
        assert!(session.binder.scope.current_graph.is_none());
        assert_eq!(session.binder.scope.current_schema, Some(4));
    }
    let mut session = Session::new(resolver(), 4);
    session.binder.scope.current_schema = Some(9);
    session.query("reset schema", &parse, &execute).unwrap();
    assert_eq!(session.binder.scope.current_schema, Some(4));
    session.query("set and reset", &parse, &execute).unwrap();
    assert!(session.binder.scope.current_graph.is_none());
    session.query("reset", &parse, &execute).unwrap();
    assert_eq!(session.binder.scope.current_schema, Some(4));
}

fn chunk_of(rows: i64) -> DataChunk {
    DataChunk::new(vec![scalar_values_to_array(
        (0..rows).map(|n| ScalarValue::Int64(Some(n))).collect(),
    )])
}

fn failure(message: &str) -> ExecutionError {
    ExecutionError::new(message.to_string())
}

#[test]
fn chunks_are_collected_up_to_an_error() {
    let mut executor = vec![Ok(chunk_of(2)), Ok(chunk_of(3))].into_executor();
    let chunks = collect_chunks(&mut executor).unwrap();
    assert_eq!(chunks.len(), 2);
    assert_eq!(count_rows(&chunks), 5);
    assert_eq!(count_rows(&vec![]), 0);
    let mut executor =
        vec![Ok(chunk_of(2)), Err(failure("stop")), Ok(chunk_of(1))].into_executor();
    assert_eq!(collect_chunks(&mut executor).unwrap_err().message(), "stop");
    assert_eq!(collect_chunks(&mut executor).unwrap().len(), 1);
}

#[test]
fn procedures_go_through_all_steps() {
    let steps = Steps {
        bind: |scope: &Scope, source: &Source| {
            if source == "unbound" {
                Err(BindError::Unexpected)
            } else {
                assert_eq!(scope.current_schema, Some(3));
                Ok(source.clone())
            }
        },
        plan: |bound: String| {
            if bound == "unplanned" {
                Err(PlanError::NotImplemented(NotImplemented::new("plan")))
            } else {
                Ok(bound)
            }
        },
        optimize: |plan: &String| {
            if plan == "unchosen" {
                Err(PlanError::NotImplemented(NotImplemented::new("choice")))
            } else {
                Ok(plan.clone())
            }
        },
        schema: |plan: &String| Some(Arc::new(schema_of(&[plan.as_str()]))),
        build: |_scope: &Scope, plan: &String| {
            let chunks: Vec<ExecutionResult<DataChunk>> = if plan == "failing" {
                vec![Ok(chunk_of(1)), Err(failure("stop"))]
            } else {
                vec![Ok(chunk_of(1)), Ok(chunk_of(4))]
            };
            chunks.into_executor()
        },
    };
    let scope = scope();
    let result = steps.handle_procedure(&scope, &text("fine")).unwrap();
    assert_eq!(column_names(&result.schema.unwrap()), vec!["fine"]);
    assert_eq!(count_rows(&result.chunks), 5);
    assert!(matches!(
        steps.handle_procedure(&scope, &text("unbound")),
        Err(SessionError::Bind(BindError::Unexpected))
    ));
    for (source, feature) in [("unplanned", "plan"), ("unchosen", "choice")] {
        match steps.handle_procedure(&scope, &text(source)) {
            Err(SessionError::Plan(PlanError::NotImplemented(error))) => {
                assert_eq!(error.feature, feature);
            }
            other => panic!("unexpected outcome {:?}", other),
        }
    }
    match steps.handle_procedure(&scope, &text("failing")) {
        Err(SessionError::Execution(error)) => assert_eq!(error.message(), "stop"),
        other => panic!("unexpected outcome {:?}", other),
    }
}

/// Words and semicolons of a line, and a semicolon at its end.
fn tokens_of(input: &str) -> Vec<Token> {
    let mut tokens = Vec::new();
    let mut start = None;
    for (i, c) in input.char_indices() {
        let in_word = c != ';' && !c.is_whitespace();
        if !in_word {
            if let Some(from) = start {
                tokens.push(Token { is_semicolon: false, start: from, end: i });
                start = None;
            }
        } else if start.is_none() {
            start = Some(i);
        }
        if c == ';' {
            tokens.push(Token { is_semicolon: true, start: i, end: i + 1 });
        }
    }
    tokens
}

#[test]
fn test_split_query_1() {
    let input = "match (n) return n; ";
    let segments = split_query(input, &tokens_of(input));
    assert_eq!(segments, vec!["match (n) return n"]);
}

#[test]
fn test_split_query_2() {
    let input = " match (n) return n;; ; commit;";
    let segments = split_query(input, &tokens_of(input));
    assert_eq!(segments, vec![" match (n) return n", " commit"]);
}

#[test]
fn lines_are_split_between_characters() {
    let input = "return 'é';\u{3000};ü;";
    let segments = split_query(input, &tokens_of(input));
    assert_eq!(segments, vec!["return 'é'", "ü"]);
}

#[test]
fn lines_are_commands_or_queries() {
    let line = |text: &str| LineInput::Line(text.to_string());
    assert!(matches!(next_step(&line("")), ShellStep::Again));
    assert!(matches!(next_step(&line(" \t\u{a0}")), ShellStep::Again));
    assert!(matches!(next_step(&line("  :help x")), ShellStep::Command(":help x")));
    assert!(matches!(next_step(&line(" return 1; ")), ShellStep::Query("return 1; ")));
    assert!(matches!(next_step(&LineInput::Interrupted), ShellStep::Again));
    assert!(matches!(next_step(&LineInput::Eof), ShellStep::Stop));
    assert!(matches!(next_step(&LineInput::Failed), ShellStep::Fail));
}
