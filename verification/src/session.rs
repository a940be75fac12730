//! Sessions: what a client sets, resets and runs.

use vstd::prelude::*;

use crate::common::chunk::DataChunk;
use crate::common::data_type::DataSchemaRef;
#[allow(unused_imports)]
use crate::execution::error::ExecutionResult;
use crate::execution::error::ExecutionError;
#[allow(unused_imports)]
use crate::execution::executor::came_out;
use crate::execution::executor::{collect_chunks, Executor};
use crate::query::ast::{GraphExpr, Source};
use crate::query::binder::{duplicate_graph, Binder, Resolver, Scope};
#[allow(unused_imports)]
use crate::query::binder::ScopeView;
use crate::query::bound::{BoundCallProcedureStatement, BoundExpr, BoundProcedure, NamedGraphRef};
use crate::query::error::{BindError, BindResult, NotImplemented, PlanError, PlanResult};

verus! {

/// A program of a client.
#[derive(Debug)]
pub struct Program {
    /// What it does, if anything.
    pub activity: Option<ProgramActivity>,
    /// Whether the session is closed behind it.
    pub session_close: bool,
}

/// What a program does.
#[derive(Debug)]
pub enum ProgramActivity {
    /// It changes the session.
    Session(SessionActivity),
    /// It runs a procedure.
    Transaction(TransactionActivity),
}

/// Changes of a session.
#[derive(Debug)]
pub struct SessionActivity {
    /// What is set.
    pub set: Vec<SessionSet>,
    /// What is reset.
    pub reset: Vec<SessionReset>,
}

/// Something that is set.
#[derive(Debug)]
pub enum SessionSet {
    /// The current schema.
    Schema(Source),
    /// The current graph.
    Graph(GraphExpr),
    /// The time zone.
    TimeZone(Source),
    /// A parameter.
    Parameter(Source),
}

/// Something that is reset: what is named, or everything.
#[derive(Debug)]
pub struct SessionReset(pub Option<SessionResetArgs>);

/// Something that is named to be reset.
#[derive(Debug)]
pub enum SessionResetArgs {
    /// The schema and the graph.
    AllCharacteristics,
    /// All parameters.
    AllParameters,
    /// The schema.
    Schema,
    /// The graph.
    Graph,
    /// The time zone.
    TimeZone,
    /// A parameter.
    Parameter(Source),
}

/// A procedure, and a transaction that it starts or ends.
#[derive(Debug)]
pub struct TransactionActivity {
    /// How a transaction is started before it.
    pub start: Option<Source>,
    /// The procedure.
    pub procedure: Option<Source>,
    /// How the transaction is ended behind it.
    pub end: Option<Source>,
}

/// Why a program fails.
#[derive(Debug)]
pub enum SessionError {
    /// The session is closed.
    SessionClosed,
    /// The program cannot be parsed.
    Parse(String),
    /// A name cannot be resolved.
    Bind(BindError),
    /// The procedure cannot be planned.
    Plan(PlanError),
    /// Something is not implemented.
    NotImplemented(NotImplemented),
    /// The procedure fails.
    Execution(ExecutionError),
}

/// Whether a program was refused because a feature is not implemented.
pub open spec fn session_refused<T>(result: Result<T, SessionError>, feature: Seq<char>) -> bool {
    result matches Err(SessionError::NotImplemented(error)) && error.feature@ == feature
}

/// Refuses a feature that is not implemented.
fn refuse<T>(feature: &str) -> (result: Result<T, SessionError>)
    ensures
        session_refused(result, feature@),
{
    Err(SessionError::NotImplemented(NotImplemented::new(feature)))
}

/// A session of a client.
pub struct Session<V, I, G, R, P, C> {
    /// What names refer to, and what is asked of others.
    pub binder: Binder<V, I, G, R, P, C>,
    /// Whether the session is closed.
    pub closed: bool,
}

/// The scope with the schema and the graph that the session started with.
pub open spec fn reset_scope(scope: ScopeView) -> ScopeView {
    ScopeView { current_schema: scope.home_schema, current_graph: scope.home_graph, ..scope }
}

/// What resetting one thing comes to: the scope behind it, or the feature that is not implemented.
pub open spec fn reset_outcome(scope: ScopeView, reset: SessionReset) -> Result<
    ScopeView,
    Seq<char>,
> {
    match reset.0 {
        None => Ok(reset_scope(scope)),
        Some(SessionResetArgs::AllCharacteristics) => Ok(reset_scope(scope)),
        Some(SessionResetArgs::AllParameters) => Err("session reset all parameters"@),
        Some(SessionResetArgs::Schema) => Ok(
            ScopeView { current_schema: scope.home_schema, ..scope },
        ),
        Some(SessionResetArgs::Graph) => Ok(ScopeView { current_graph: scope.home_graph, ..scope }),
        Some(SessionResetArgs::TimeZone) => Err("session reset timezone"@),
        Some(SessionResetArgs::Parameter(_)) => Err("session reset parameter"@),
    }
}

/// What resetting several things in turn comes to, from the `i`th on: the scope behind them, and the
/// feature that stopped it, if one did.
pub open spec fn resets_outcome(scope: ScopeView, resets: Seq<SessionReset>, i: int) -> (
    ScopeView,
    Option<Seq<char>>,
)
    decreases resets.len() - i,
{
    if i < 0 || i >= resets.len() {
        (scope, None)
    } else {
        match reset_outcome(scope, resets[i]) {
            Ok(after) => resets_outcome(after, resets, i + 1),
            Err(feature) => (scope, Some(feature)),
        }
    }
}

impl<
    V: Fn(&Scope, &Source) -> BindResult<BoundExpr>,
    I: Fn(&Source) -> BindResult<usize>,
    G: Fn(u64, &String) -> BindResult<Option<u64>>,
    R: Fn(&Scope, &Source) -> BindResult<NamedGraphRef>,
    P: Fn(&Scope, &Source) -> BindResult<BoundProcedure>,
    C: Fn(&Scope, &Source) -> BindResult<BoundCallProcedureStatement>,
> Resolver<V, I, G, R, P, C> {
    /// Whether setting one thing can come to a result.
    pub open spec fn set_applies(
        self,
        scope: ScopeView,
        set: SessionSet,
        after: ScopeView,
        result: Result<(), SessionError>,
    ) -> bool {
        match set {
            SessionSet::Schema(_) => after == scope && session_refused(
                result,
                "session set schema"@,
            ),
            SessionSet::TimeZone(_) => after == scope && session_refused(
                result,
                "session set timezone"@,
            ),
            SessionSet::Parameter(_) => after == scope && session_refused(
                result,
                "session set parameter"@,
            ),
            SessionSet::Graph(expr) => {
                ||| {
                    &&& result matches Err(SessionError::Bind(error)) && self.graph_binds(
                        scope,
                        expr,
                        Err(error),
                    )
                    &&& after == scope
                }
                ||| {
                    &&& result is Ok
                    &&& exists|graph: NamedGraphRef| #[trigger]
                        self.graph_binds(scope, expr, Ok(graph)) && after == (ScopeView {
                            current_graph: Some(graph@),
                            ..scope
                        })
                }
            },
        }
    }

    /// Whether setting one more thing can lead from one state to another. Behind a failure nothing
    /// is set.
    pub open spec fn set_step(
        self,
        scope: ScopeView,
        before: Result<(), SessionError>,
        set: SessionSet,
        after: ScopeView,
        result: Result<(), SessionError>,
    ) -> bool {
        match before {
            Err(_) => after == scope && result == before,
            Ok(_) => self.set_applies(scope, set, after, result),
        }
    }

    /// Whether setting several things in turn can come to a result.
    pub open spec fn sets_apply(
        self,
        scope: ScopeView,
        sets: Seq<SessionSet>,
        after: ScopeView,
        result: Result<(), SessionError>,
    ) -> bool
        decreases sets.len(),
    {
        if sets.len() == 0 {
            after == scope && result is Ok
        } else {
            exists|between: ScopeView, before: Result<(), SessionError>|
                self.sets_apply(scope, sets.drop_last(), between, before)
                    && #[trigger] self.set_step(between, before, sets.last(), after, result)
        }
    }

    proof fn lemma_sets_failure(
        self,
        scope: ScopeView,
        sets: Seq<SessionSet>,
        after: ScopeView,
        error: SessionError,
        n: int,
    )
        requires
            0 <= n <= sets.len(),
            self.sets_apply(scope, sets.take(n), after, Err(error)),
        ensures
            self.sets_apply(scope, sets, after, Err(error)),
        decreases sets.len() - n,
    {
        if n < sets.len() {
            let more = sets.take(n + 1);
            assert(more.drop_last() =~= sets.take(n));
            assert(self.set_step(after, Err(error), more.last(), after, Err(error)));
            assert(self.sets_apply(scope, more, after, Err(error)));
            self.lemma_sets_failure(scope, sets, after, error, n + 1);
        } else {
            assert(sets.take(n) =~= sets);
        }
    }

    /// Whether changing a session can come to a result: all that is set is set before anything is
    /// reset.
    pub open spec fn session_changes(
        self,
        scope: ScopeView,
        activity: SessionActivity,
        after: ScopeView,
        result: Result<(), SessionError>,
    ) -> bool {
        ||| {
            &&& result is Err
            &&& self.sets_apply(scope, activity.set@, after, result)
        }
        ||| exists|between: ScopeView| #[trigger]
            self.sets_apply(scope, activity.set@, between, Ok(())) && {
                let outcome = resets_outcome(between, activity.reset@, 0);
                &&& after == outcome.0
                &&& match outcome.1 {
                    Some(feature) => session_refused(result, feature),
                    None => result is Ok,
                }
            }
    }
}

impl<
    V: Fn(&Scope, &Source) -> BindResult<BoundExpr>,
    I: Fn(&Source) -> BindResult<usize>,
    G: Fn(u64, &String) -> BindResult<Option<u64>>,
    R: Fn(&Scope, &Source) -> BindResult<NamedGraphRef>,
    P: Fn(&Scope, &Source) -> BindResult<BoundProcedure>,
    C: Fn(&Scope, &Source) -> BindResult<BoundCallProcedureStatement>,
> Session<V, I, G, R, P, C> {
    /// A session that starts in a schema.
    pub fn new(others: Resolver<V, I, G, R, P, C>, default_schema: u64) -> (session: Self)
        ensures
            !session.closed,
            session.binder.others == others,
            session.binder.scope@ == (ScopeView {
                current_schema: Some(default_schema),
                home_schema: Some(default_schema),
                current_graph: None,
                home_graph: None,
                active: None,
            }),
    {
        Session {
            binder: Binder {
                scope: Scope {
                    current_schema: Some(default_schema),
                    home_schema: Some(default_schema),
                    current_graph: None,
                    home_graph: None,
                    active_data_schema: None,
                },
                others,
            },
            closed: false,
        }
    }

    /// What running a program that was parsed can come to. It says whether there is a result.
    pub open spec fn runs<T, X: Fn(&Scope, &Source) -> Result<T, SessionError>>(
        self,
        activity: Option<ProgramActivity>,
        execute: X,
        after: ScopeView,
        result: Result<Option<T>, SessionError>,
    ) -> bool {
        let scope = self.binder.scope@;
        match activity {
            None => after == scope && result == Ok::<Option<T>, SessionError>(None),
            Some(ProgramActivity::Session(activity)) => match result {
                Ok(Some(_)) => false,
                Ok(None) => self.binder.others.session_changes(scope, activity, after, Ok(())),
                Err(error) => self.binder.others.session_changes(
                    scope,
                    activity,
                    after,
                    Err(error),
                ),
            },
            Some(ProgramActivity::Transaction(activity)) => {
                &&& after == scope
                &&& transaction_runs(self.binder.scope, activity, execute, result)
            },
        }
    }

    /// Runs a program: it is parsed, does what it does, and closes the session if it is to. A
    /// session that is closed runs nothing, and a program that fails does not close it.
    pub fn query<
        T,
        Y: Fn(&str) -> Result<Program, String>,
        X: Fn(&Scope, &Source) -> Result<T, SessionError>,
    >(&mut self, query: &str, parse: &Y, execute: &X) -> (result: Result<Option<T>, SessionError>)
        requires
            old(self).binder.others.ready(),
            call_requires(*parse, (query,)),
            forall|scope: &Scope, source: &Source| #[trigger]
                call_requires(*execute, (scope, source)),
        ensures
            final(self).binder.others == old(self).binder.others,
            if old(self).closed {
                &&& result matches Err(SessionError::SessionClosed)
                &&& *final(self) == *old(self)
            } else {
                exists|program: Result<Program, String>| #[trigger]
                    call_ensures(*parse, (query,), program) && match program {
                        Err(text) => {
                            &&& result == Err::<Option<T>, SessionError>(
                                SessionError::Parse(text),
                            )
                            &&& *final(self) == *old(self)
                        },
                        Ok(program) => {
                            &&& old(self).runs(
                                program.activity,
                                *execute,
                                final(self).binder.scope@,
                                result,
                            )
                            &&& final(self).closed == (result is Ok && program.session_close)
                        },
                    }
            },
    {
        if self.closed {
            return Err(SessionError::SessionClosed);
        }
        let program = match parse(query) {
            Ok(program) => program,
            Err(text) => {
                return Err(SessionError::Parse(text));
            },
        };
        let result = match &program.activity {
            None => Ok(None),
            Some(ProgramActivity::Session(activity)) => match self.handle_session_activity(
                activity,
            ) {
                Ok(unit) => {
                    assert(unit == ());
                    Ok(None)
                },
                Err(error) => Err(error),
            },
            Some(ProgramActivity::Transaction(activity)) => self.handle_transaction_activity(
                activity,
                execute,
            ),
        };
        assert(old(self).runs(program.activity, *execute, self.binder.scope@, result));
        let outcome = match result {
            Ok(outcome) => outcome,
            Err(error) => {
                return Err(error);
            },
        };
        if program.session_close {
            self.closed = true;
        }
        Ok(outcome)
    }

    /// Sets what is to be set, then resets what is to be reset.
    fn handle_session_activity(&mut self, activity: &SessionActivity) -> (result: Result<
        (),
        SessionError,
    >)
        requires
            old(self).binder.others.ready(),
        ensures
            final(self).binder.others == old(self).binder.others,
            final(self).closed == old(self).closed,
            old(self).binder.others.session_changes(
                old(self).binder.scope@,
                *activity,
                final(self).binder.scope@,
                result,
            ),
    {
        let ghost others = self.binder.others;
        let ghost scope = self.binder.scope@;
        let ghost sets = activity.set@;
        assert(sets.take(0) =~= Seq::empty());
        for i in 0..activity.set.len()
            invariant
                others == old(self).binder.others,
                self.binder.others == others,
                self.closed == old(self).closed,
                others.ready(),
                sets == activity.set@,
                scope == old(self).binder.scope@,
                others.sets_apply(scope, sets.take(i as int), self.binder.scope@, Ok(())),
        {
            let ghost between = self.binder.scope@;
            let ghost seen = sets.take(i + 1);
            proof {
                assert(seen.drop_last() =~= sets.take(i as int));
                assert(seen.last() == sets[i as int]);
            }
            let result = self.apply_set(&activity.set[i]);
            proof {
                assert(others.set_step(
                    between,
                    Ok(()),
                    seen.last(),
                    self.binder.scope@,
                    result,
                ));
                assert(others.sets_apply(scope, seen, self.binder.scope@, result));
            }
            match result {
                Ok(unit) => {
                    assert(unit == ());
                },
                Err(error) => {
                    proof {
                        others.lemma_sets_failure(
                            scope,
                            sets,
                            self.binder.scope@,
                            error,
                            i + 1,
                        );
                    }
                    return Err(error);
                },
            }
        }
        assert(sets.take(sets.len() as int) =~= sets);
        let ghost between = self.binder.scope@;
        assert(others.sets_apply(scope, sets, between, Ok(())));
        for i in 0..activity.reset.len()
            invariant
                others == old(self).binder.others,
                self.binder.others == others,
                self.closed == old(self).closed,
                scope == old(self).binder.scope@,
                others.sets_apply(scope, activity.set@, between, Ok(())),
                resets_outcome(between, activity.reset@, 0) == resets_outcome(
                    self.binder.scope@,
                    activity.reset@,
                    i as int,
                ),
        {
            match self.apply_reset(&activity.reset[i]) {
                Ok(_) => {},
                Err(error) => {
                    return Err(error);
                },
            }
        }
        Ok(())
    }

    /// Sets one thing.
    fn apply_set(&mut self, set: &SessionSet) -> (result: Result<(), SessionError>)
        requires
            old(self).binder.others.ready(),
        ensures
            final(self).binder.others == old(self).binder.others,
            final(self).closed == old(self).closed,
            old(self).binder.others.set_applies(
                old(self).binder.scope@,
                *set,
                final(self).binder.scope@,
                result,
            ),
    {
        match set {
            SessionSet::Schema(_) => refuse("session set schema"),
            SessionSet::Graph(expr) => match self.binder.bind_graph_expr(expr) {
                Ok(graph) => {
                    let ghost found = graph;
                    self.binder.scope.current_graph = Some(graph);
                    assert(self.binder.others.graph_binds(
                        old(self).binder.scope@,
                        *expr,
                        Ok(found),
                    ));
                    Ok(())
                },
                Err(error) => Err(SessionError::Bind(error)),
            },
            SessionSet::TimeZone(_) => refuse("session set timezone"),
            SessionSet::Parameter(_) => refuse("session set parameter"),
        }
    }

    /// Resets one thing.
    fn apply_reset(&mut self, reset: &SessionReset) -> (result: Result<(), SessionError>)
        ensures
            final(self).binder.others == old(self).binder.others,
            final(self).closed == old(self).closed,
            match reset_outcome(old(self).binder.scope@, *reset) {
                Ok(after) => final(self).binder.scope@ == after && result is Ok,
                Err(feature) => final(self).binder.scope@ == old(self).binder.scope@
                    && session_refused(result, feature),
            },
    {
        match &reset.0 {
            None => {
                self.reset_session();
            },
            Some(SessionResetArgs::AllCharacteristics) => {
                self.reset_session();
            },
            Some(SessionResetArgs::AllParameters) => {
                return refuse("session reset all parameters");
            },
            Some(SessionResetArgs::Schema) => {
                self.binder.scope.current_schema = self.binder.scope.home_schema;
            },
            Some(SessionResetArgs::Graph) => {
                self.binder.scope.current_graph = duplicate_graph(&self.binder.scope.home_graph);
            },
            Some(SessionResetArgs::TimeZone) => {
                return refuse("session reset timezone");
            },
            Some(SessionResetArgs::Parameter(_)) => {
                return refuse("session reset parameter");
            },
        }
        Ok(())
    }

    /// Goes back to the schema and the graph that the session started with.
    fn reset_session(&mut self)
        ensures
            final(self).binder.others == old(self).binder.others,
            final(self).closed == old(self).closed,
            final(self).binder.scope@ == reset_scope(old(self).binder.scope@),
    {
        self.binder.scope.current_schema = self.binder.scope.home_schema;
        self.binder.scope.current_graph = duplicate_graph(&self.binder.scope.home_graph);
    }

    /// Runs a procedure, if there is one. Transactions over several programs are not implemented.
    fn handle_transaction_activity<T, X: Fn(&Scope, &Source) -> Result<T, SessionError>>(
        &self,
        activity: &TransactionActivity,
        execute: &X,
    ) -> (result: Result<Option<T>, SessionError>)
        requires
            forall|scope: &Scope, source: &Source| #[trigger]
                call_requires(*execute, (scope, source)),
        ensures
            transaction_runs(self.binder.scope, *activity, *execute, result),
    {
        if activity.start.is_some() {
            return refuse("start transaction");
        }
        if activity.end.is_some() {
            return refuse("end transaction");
        }
        match &activity.procedure {
            None => Ok(None),
            Some(procedure) => match execute(&self.binder.scope, procedure) {
                Ok(rows) => Ok(Some(rows)),
                Err(error) => Err(error),
            },
        }
    }
}

/// What running a procedure can come to.
pub open spec fn transaction_runs<T, X: Fn(&Scope, &Source) -> Result<T, SessionError>>(
    scope: Scope,
    activity: TransactionActivity,
    execute: X,
    result: Result<Option<T>, SessionError>,
) -> bool {
    if activity.start is Some {
        session_refused(result, "start transaction"@)
    } else if activity.end is Some {
        session_refused(result, "end transaction"@)
    } else {
        match activity.procedure {
            None => result == Ok::<Option<T>, SessionError>(None),
            Some(procedure) => match result {
                Ok(Some(rows)) => call_ensures(execute, (&scope, &procedure), Ok(rows)),
                Ok(None) => false,
                Err(error) => call_ensures(execute, (&scope, &procedure), Err(error)),
            },
        }
    }
}

/// The rows that a procedure yields.
#[derive(Debug)]
pub struct QueryResult {
    /// Their columns, if there are any.
    pub schema: Option<DataSchemaRef>,
    /// The rows, in chunks.
    pub chunks: Vec<DataChunk>,
}

/// The steps from a procedure to what it yields.
pub struct Steps<B, L, O, D, U> {
    /// Binds a procedure.
    pub bind: B,
    /// Plans what was bound.
    pub plan: L,
    /// Chooses how a plan is carried out.
    pub optimize: O,
    /// The columns that a plan yields, if any.
    pub schema: D,
    /// Builds the executor of a plan.
    pub build: U,
}

impl<
    A,
    P,
    Q,
    E: Executor,
    B: Fn(&Scope, &Source) -> BindResult<A>,
    L: Fn(A) -> PlanResult<P>,
    O: Fn(&P) -> PlanResult<Q>,
    D: Fn(&Q) -> Option<DataSchemaRef>,
    U: Fn(&Scope, &Q) -> E,
> Steps<B, L, O, D, U> {
    /// Whether all steps can be taken.
    pub open spec fn ready(self) -> bool {
        &&& forall|scope: &Scope, source: &Source| #[trigger]
            call_requires(self.bind, (scope, source))
        &&& forall|bound: A| #[trigger] call_requires(self.plan, (bound,))
        &&& forall|plan: &P| #[trigger] call_requires(self.optimize, (plan,))
        &&& forall|plan: &Q| #[trigger] call_requires(self.schema, (plan,))
        &&& forall|scope: &Scope, plan: &Q| #[trigger] call_requires(self.build, (scope, plan))
    }

    /// Whether carrying out a plan can come to a result: all the chunks of its executor, or the
    /// first error among them.
    pub open spec fn carries_out(
        self,
        scope: Scope,
        plan: Q,
        result: Result<QueryResult, SessionError>,
    ) -> bool {
        exists|executor: E| #[trigger]
            call_ensures(self.build, (&scope, &plan), executor) && match result {
                Ok(rows) => {
                    &&& call_ensures(self.schema, (&plan,), rows.schema)
                    &&& came_out(executor.pending(), rows.chunks@, rows.chunks@.len() as int)
                    &&& rows.chunks@.len() == executor.pending().len()
                },
                Err(SessionError::Execution(error)) => exists|chunks: Seq<DataChunk>| #[trigger]
                    came_out(executor.pending(), chunks, chunks.len() as int) && chunks.len()
                        < executor.pending().len() && executor.pending()[chunks.len() as int]
                        == Err::<DataChunk, ExecutionError>(error),
                Err(_) => false,
            }
    }

    /// Whether what was bound can come to a result.
    pub open spec fn goes_on(
        self,
        scope: Scope,
        bound: A,
        result: Result<QueryResult, SessionError>,
    ) -> bool {
        exists|planned: PlanResult<P>| #[trigger]
            call_ensures(self.plan, (bound,), planned) && match planned {
                Err(error) => result == Err::<QueryResult, SessionError>(
                    SessionError::Plan(error),
                ),
                Ok(plan) => exists|chosen: PlanResult<Q>| #[trigger]
                    call_ensures(self.optimize, (&plan,), chosen) && match chosen {
                        Err(error) => result == Err::<QueryResult, SessionError>(
                            SessionError::Plan(error),
                        ),
                        Ok(chosen) => self.carries_out(scope, chosen, result),
                    },
            }
    }

    /// Whether a procedure can come to a result. The first step that fails ends it.
    pub open spec fn yields(
        self,
        scope: Scope,
        procedure: Source,
        result: Result<QueryResult, SessionError>,
    ) -> bool {
        exists|answer: BindResult<A>| #[trigger]
            call_ensures(self.bind, (&scope, &procedure), answer) && match answer {
                Err(error) => result == Err::<QueryResult, SessionError>(
                    SessionError::Bind(error),
                ),
                Ok(bound) => self.goes_on(scope, bound, result),
            }
    }

    /// Binds a procedure, plans it, and carries the plan out.
    pub fn handle_procedure(&self, scope: &Scope, procedure: &Source) -> (result: Result<
        QueryResult,
        SessionError,
    >)
        requires
            self.ready(),
        ensures
            self.yields(*scope, *procedure, result),
    {
        let bind = &self.bind;
        let bound = match bind(scope, procedure) {
            Ok(bound) => bound,
            Err(error) => {
                return Err(SessionError::Bind(error));
            },
        };
        let ghost found = bound;
        let plan = &self.plan;
        let logical = match plan(bound) {
            Ok(logical) => logical,
            Err(error) => {
                let result = Err(SessionError::Plan(error));
                assert(self.goes_on(*scope, found, result));
                return result;
            },
        };
        let optimize = &self.optimize;
        let physical = match optimize(&logical) {
            Ok(physical) => physical,
            Err(error) => {
                let result = Err(SessionError::Plan(error));
                assert(self.goes_on(*scope, found, result));
                return result;
            },
        };
        let result = self.carry_out(scope, &physical);
        assert(self.goes_on(*scope, found, result));
        result
    }

    /// Carries a plan out.
    fn carry_out(&self, scope: &Scope, plan: &Q) -> (result: Result<QueryResult, SessionError>)
        requires
            self.ready(),
        ensures
            self.carries_out(*scope, *plan, result),
    {
        let columns = &self.schema;
        let schema = columns(plan);
        let build = &self.build;
        let mut executor = build(scope, plan);
        let ghost start = executor;
        match collect_chunks(&mut executor) {
            Ok(chunks) => {
                assert(call_ensures(self.build, (scope, plan), start));
                Ok(QueryResult { schema, chunks })
            },
            Err(error) => {
                assert(call_ensures(self.build, (scope, plan), start));
                Err(SessionError::Execution(error))
            },
        }
    }
}

/// Resetting everything undoes whatever was set: the session is where it started.
pub proof fn law_reset_restores(scope: ScopeView, changed: ScopeView)
    requires
        changed.home_schema == scope.home_schema,
        changed.home_graph == scope.home_graph,
        changed.active == scope.active,
        scope.current_schema == scope.home_schema,
        scope.current_graph == scope.home_graph,
    ensures
        reset_scope(changed) == scope,
{
}

/// Resetting everything twice is resetting it once.
pub proof fn law_reset_twice(scope: ScopeView)
    ensures
        reset_scope(reset_scope(scope)) == reset_scope(scope),
{
}

} // verus!
