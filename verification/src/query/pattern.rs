//! Binding of graph patterns.

use std::sync::Arc;

use vstd::prelude::*;

use super::ast::{
    GraphPattern, GraphPatternBindingTable, MatchMode, PathMode, PathPattern, PathPatternExpr,
    PathPatternPrefix, Source,
};
use super::binder::{Binder, Resolver, Scope};
#[allow(unused_imports)]
use super::binder::ScopeView;
use super::bound::{
    BoundCallProcedureStatement, BoundExpr, BoundGraphPattern, BoundMatchMode, BoundPathMode,
    BoundPathPattern, BoundPathPatternExpr, BoundProcedure, NamedGraphRef,
};
#[allow(unused_imports)]
use super::error::bind_refused;
use super::error::{not_implemented, BindError, BindResult};
#[allow(unused_imports)]
use crate::common::data_type::{first_named, FieldView, TypeView};
use crate::common::data_type::{DataField, DataSchema, LogicalType};

verus! {

/// What a bound path looks like, of what can be bound.
pub enum PathShape {
    /// Like several, one behind the other.
    Concat(Seq<PathShape>),
    /// Like something else.
    Other,
}

/// What a bound path looks like.
pub open spec fn shape_of(expr: BoundPathPatternExpr) -> PathShape
    decreases expr,
{
    match expr {
        BoundPathPatternExpr::Concat(paths) => PathShape::Concat(
            Seq::new(
                paths@.len(),
                |i: int|
                    if 0 <= i < paths@.len() {
                        shape_of(paths@[i])
                    } else {
                        arbitrary()
                    },
            ),
        ),
        _ => PathShape::Other,
    }
}

/// Why a path cannot be bound.
pub enum PathFailure {
    /// Its variable is there already.
    Declared(Seq<char>),
    /// It has a feature that is not implemented.
    Refused(Seq<char>),
    /// It holds a vertex or an edge, for which there is nothing yet.
    Unfinished,
}

/// What binding the form of a path comes to.
pub open spec fn path_outcome(expr: PathPatternExpr) -> Result<PathShape, PathFailure>
    decreases expr,
{
    match expr {
        PathPatternExpr::Union(_) => Err(PathFailure::Refused("union path pattern"@)),
        PathPatternExpr::Alternation(_) => Err(
            PathFailure::Refused("multiset alternation path pattern"@),
        ),
        PathPatternExpr::Concat(paths) => match concat_outcome(paths@) {
            Ok(shapes) => Ok(PathShape::Concat(shapes)),
            Err(failure) => Err(failure),
        },
        PathPatternExpr::Quantified { .. } => Err(PathFailure::Refused("quantified path pattern"@)),
        PathPatternExpr::Optional(_) => Err(PathFailure::Refused("optional path pattern"@)),
        PathPatternExpr::Grouped(_) => Err(PathFailure::Refused("sub-path pattern"@)),
        PathPatternExpr::Pattern(_) => Err(PathFailure::Unfinished),
    }
}

/// What binding paths one behind the other comes to: up to the first that fails.
pub open spec fn concat_outcome(paths: Seq<PathPatternExpr>) -> Result<Seq<PathShape>, PathFailure>
    decreases paths,
{
    if paths.len() == 0 {
        Ok(Seq::empty())
    } else {
        match concat_outcome(paths.drop_last()) {
            Ok(shapes) => match path_outcome(paths.last()) {
                Ok(shape) => Ok(shapes.push(shape)),
                Err(failure) => Err(failure),
            },
            Err(failure) => Err(failure),
        }
    }
}

proof fn lemma_concat_failure(paths: Seq<PathPatternExpr>, n: int)
    requires
        0 <= n <= paths.len(),
        concat_outcome(paths.take(n)) is Err,
    ensures
        concat_outcome(paths) == concat_outcome(paths.take(n)),
    decreases paths.len() - n,
{
    if n < paths.len() {
        assert(paths.take(n + 1).drop_last() =~= paths.take(n));
        lemma_concat_failure(paths, n + 1);
    } else {
        assert(paths.take(n) =~= paths);
    }
}

/// Whether binding failed for a reason.
pub open spec fn fails_with<T>(result: BindResult<T>, failure: PathFailure) -> bool {
    match failure {
        PathFailure::Declared(name) => result matches Err(
            BindError::VariableAlreadyDeclared(text),
        ) && text@ == name,
        PathFailure::Refused(feature) => bind_refused(result, feature),
        PathFailure::Unfinished => false,
    }
}

/// What a bound path is.
pub struct PatternShape {
    /// What may be met twice.
    pub mode: Option<BoundPathMode>,
    /// What it looks like.
    pub expr: PathShape,
}

/// What a bound path is.
pub open spec fn pattern_shape(pattern: BoundPathPattern) -> PatternShape {
    PatternShape { mode: pattern.mode, expr: shape_of(pattern.expr) }
}

/// What may be met twice on a path.
pub open spec fn path_mode_of(mode: PathMode) -> BoundPathMode {
    match mode {
        PathMode::Walk => BoundPathMode::Walk,
        PathMode::Trail => BoundPathMode::Trail,
        PathMode::Simple => BoundPathMode::Simple,
        PathMode::Acyclic => BoundPathMode::Acyclic,
    }
}

/// How often an edge may be met in a match.
pub open spec fn match_mode_of(mode: MatchMode) -> BoundMatchMode {
    match mode {
        MatchMode::Repeatable => BoundMatchMode::Repeatable,
        MatchMode::Different => BoundMatchMode::Different,
    }
}

/// The columns that there are, or none.
pub open spec fn columns(scope: ScopeView) -> Seq<FieldView> {
    match scope.active {
        Some(fields) => fields,
        None => Seq::empty(),
    }
}

/// The scope after a path has been given a variable.
pub open spec fn with_path(scope: ScopeView, name: Seq<char>) -> ScopeView {
    ScopeView {
        active: Some(
            columns(scope).push(FieldView { name, ty: TypeView::Path, nullable: true }),
        ),
        ..scope
    }
}

/// What binding what stands before a path comes to.
pub open spec fn prefix_outcome(prefix: Option<PathPatternPrefix>) -> Result<
    Option<BoundPathMode>,
    PathFailure,
> {
    match prefix {
        None => Ok(None),
        Some(PathPatternPrefix::PathMode(mode)) => Ok(Some(path_mode_of(mode))),
        Some(PathPatternPrefix::PathSearch(_)) => Err(
            PathFailure::Refused("path search prefix"@),
        ),
    }
}

/// What binding a path comes to, and the scope behind it. A variable must be new. It is there from
/// then on, even where the rest of the path fails.
pub open spec fn pattern_outcome(scope: ScopeView, pattern: PathPattern) -> (
    ScopeView,
    Result<PatternShape, PathFailure>,
) {
    let after = match pattern.variable {
        Some(name) => with_path(scope, name@),
        None => scope,
    };
    if pattern.variable matches Some(name) && first_named(columns(scope), name@, 0) is Some {
        (scope, Err(PathFailure::Declared(pattern.variable->0@)))
    } else {
        match prefix_outcome(pattern.prefix) {
            Err(failure) => (after, Err(failure)),
            Ok(mode) => match path_outcome(pattern.expr) {
                Err(failure) => (after, Err(failure)),
                Ok(expr) => (after, Ok(PatternShape { mode, expr })),
            },
        }
    }
}

/// What binding paths in turn comes to, and the scope behind them: up to the first that fails.
pub open spec fn patterns_outcome(scope: ScopeView, patterns: Seq<PathPattern>) -> (
    ScopeView,
    Result<Seq<PatternShape>, PathFailure>,
)
    decreases patterns.len(),
{
    if patterns.len() == 0 {
        (scope, Ok(Seq::empty()))
    } else {
        let before = patterns_outcome(scope, patterns.drop_last());
        match before.1 {
            Err(failure) => before,
            Ok(shapes) => {
                let last = pattern_outcome(before.0, patterns.last());
                match last.1 {
                    Err(failure) => (last.0, Err(failure)),
                    Ok(shape) => (last.0, Ok(shapes.push(shape))),
                }
            },
        }
    }
}

proof fn lemma_patterns_failure(scope: ScopeView, patterns: Seq<PathPattern>, n: int)
    requires
        0 <= n <= patterns.len(),
        patterns_outcome(scope, patterns.take(n)).1 is Err,
    ensures
        patterns_outcome(scope, patterns) == patterns_outcome(scope, patterns.take(n)),
    decreases patterns.len() - n,
{
    if n < patterns.len() {
        assert(patterns.take(n + 1).drop_last() =~= patterns.take(n));
        lemma_patterns_failure(scope, patterns, n + 1);
    } else {
        assert(patterns.take(n) =~= patterns);
    }
}

/// What bound paths are.
pub open spec fn pattern_shapes(paths: Seq<BoundPathPattern>) -> Seq<PatternShape> {
    paths.map_values(|path: BoundPathPattern| pattern_shape(path))
}

impl<
    V: Fn(&Scope, &Source) -> BindResult<BoundExpr>,
    I: Fn(&Source) -> BindResult<usize>,
    G: Fn(u64, &String) -> BindResult<Option<u64>>,
    R: Fn(&Scope, &Source) -> BindResult<NamedGraphRef>,
    P: Fn(&Scope, &Source) -> BindResult<BoundProcedure>,
    C: Fn(&Scope, &Source) -> BindResult<BoundCallProcedureStatement>,
> Resolver<V, I, G, R, P, C> {
    /// Whether binding patterns can come to an end: no vertex or edge is come to, and where all
    /// paths and the condition can be bound there are columns.
    pub open spec fn pattern_safe(self, scope: ScopeView, pattern: GraphPattern) -> bool {
        let outcome = patterns_outcome(scope, pattern.patterns@);
        pattern.keep is None ==> {
            &&& outcome.1 != Err::<Seq<PatternShape>, PathFailure>(PathFailure::Unfinished)
            &&& {
                ||| outcome.1 is Err
                ||| outcome.0.active is Some
                ||| (pattern.where_clause matches Some(source) && forall|expr: BoundExpr|
                    !#[trigger] self.value_binds(outcome.0, source, Ok(expr)))
            }
        }
    }

    /// Whether binding a condition can come to a result.
    pub open spec fn condition_binds(
        self,
        scope: ScopeView,
        condition: Option<Source>,
        result: BindResult<Option<BoundExpr>>,
    ) -> bool {
        match condition {
            None => result == Ok::<Option<BoundExpr>, BindError>(None),
            Some(source) => match result {
                Ok(Some(expr)) => self.value_binds(scope, source, Ok(expr)),
                Ok(None) => false,
                Err(error) => self.value_binds(scope, source, Err(error)),
            },
        }
    }

    /// Whether binding patterns can come to a result: the paths first, then the condition with
    /// the columns that there are then.
    pub open spec fn graph_pattern_binds(
        self,
        scope: ScopeView,
        pattern: GraphPattern,
        after: ScopeView,
        result: BindResult<BoundGraphPattern>,
    ) -> bool {
        let outcome = patterns_outcome(scope, pattern.patterns@);
        if pattern.keep is Some {
            after == scope && bind_refused(result, "keep clause in graph pattern"@)
        } else {
            &&& after == outcome.0
            &&& match outcome.1 {
                Err(failure) => fails_with(result, failure),
                Ok(shapes) => match result {
                    Ok(bound) => {
                        &&& bound.match_mode == match pattern.match_mode {
                            Some(mode) => Some(match_mode_of(mode)),
                            None => None,
                        }
                        &&& pattern_shapes(bound.paths@) == shapes
                        &&& self.condition_binds(after, pattern.where_clause, Ok(bound.predicate))
                        &&& after.active == Some(bound.schema@)
                    },
                    Err(error) => self.condition_binds(after, pattern.where_clause, Err(error)),
                },
            }
        }
    }

    /// Whether binding patterns, and which of their variables are kept, can come to an end.
    pub open spec fn table_safe(self, scope: ScopeView, table: GraphPatternBindingTable) -> bool {
        table.yield_clause@.len() == 0 ==> self.pattern_safe(scope, table.pattern)
    }

    /// Whether binding patterns, and which of their variables are kept, can come to a result.
    pub open spec fn table_binds(
        self,
        scope: ScopeView,
        table: GraphPatternBindingTable,
        after: ScopeView,
        result: BindResult<BoundGraphPattern>,
    ) -> bool {
        if table.yield_clause@.len() > 0 {
            after == scope && bind_refused(result, "graph pattern yield clause"@)
        } else {
            self.graph_pattern_binds(scope, table.pattern, after, result)
        }
    }
}

impl<
    V: Fn(&Scope, &Source) -> BindResult<BoundExpr>,
    I: Fn(&Source) -> BindResult<usize>,
    G: Fn(u64, &String) -> BindResult<Option<u64>>,
    R: Fn(&Scope, &Source) -> BindResult<NamedGraphRef>,
    P: Fn(&Scope, &Source) -> BindResult<BoundProcedure>,
    C: Fn(&Scope, &Source) -> BindResult<BoundCallProcedureStatement>,
> Binder<V, I, G, R, P, C> {
    /// Binds the form of a path. It must not come to a vertex or an edge.
    pub fn bind_path_pattern_expr(&mut self, expr: &PathPatternExpr) -> (result: BindResult<
        BoundPathPatternExpr,
    >)
        requires
            path_outcome(*expr) != Err::<PathShape, PathFailure>(PathFailure::Unfinished),
        ensures
            *final(self) == *old(self),
            match path_outcome(*expr) {
                Ok(shape) => result matches Ok(bound) && shape_of(bound) == shape,
                Err(failure) => fails_with(result, failure),
            },
        decreases *expr,
    {
        match expr {
            PathPatternExpr::Union(_) => not_implemented("union path pattern"),
            PathPatternExpr::Alternation(_) => not_implemented(
                "multiset alternation path pattern",
            ),
            PathPatternExpr::Concat(paths) => {
                let mut bound: Vec<BoundPathPatternExpr> = Vec::new();
                proof {
                    assert(paths@.take(0) =~= Seq::empty());
                    assert(Seq::new(0, |j: int| shape_of(bound@[j])) =~= Seq::empty());
                }
                for i in 0..paths.len()
                    invariant
                        *self == *old(self),
                        *expr == PathPatternExpr::Concat(*paths),
                        path_outcome(*expr) != Err::<PathShape, PathFailure>(
                            PathFailure::Unfinished,
                        ),
                        bound@.len() == i,
                        concat_outcome(paths@.take(i as int)) == Ok::<Seq<PathShape>, PathFailure>(
                            Seq::new(i as nat, |j: int| shape_of(bound@[j])),
                        ),
                {
                    let ghost seen = paths@.take(i + 1);
                    proof {
                        assert(seen.drop_last() =~= paths@.take(i as int));
                        assert(seen.last() == paths@[i as int]);
                        if path_outcome(paths@[i as int]) is Err {
                            lemma_concat_failure(paths@, i + 1);
                        }
                    }
                    let ghost before = bound@;
                    match self.bind_path_pattern_expr(&paths[i]) {
                        Ok(path) => {
                            bound.push(path);
                            assert(Seq::new((i + 1) as nat, |j: int| shape_of(bound@[j]))
                                =~= Seq::new(i as nat, |j: int| shape_of(before[j])).push(
                                shape_of(path),
                            ));
                        },
                        Err(error) => {
                            return Err(error);
                        },
                    }
                }
                proof {
                    assert(paths@.take(paths@.len() as int) =~= paths@);
                }
                let concat = BoundPathPatternExpr::Concat(bound);
                proof {
                    let shapes = Seq::new(bound@.len(), |j: int| shape_of(bound@[j]));
                    assert(shape_of(concat) == PathShape::Concat(shapes)) by {
                        assert(shape_of(concat)->Concat_0 =~= shapes);
                    }
                }
                Ok(concat)
            },
            PathPatternExpr::Quantified { .. } => not_implemented("quantified path pattern"),
            PathPatternExpr::Optional(_) => not_implemented("optional path pattern"),
            PathPatternExpr::Grouped(_) => not_implemented("sub-path pattern"),
            PathPatternExpr::Pattern(_) => Err(BindError::Unexpected),
        }
    }

    /// Checks the form of a bound path. Every form is accepted.
    pub fn validate_bound_path_pattern_expr(&self, _expr: &BoundPathPatternExpr) -> (result:
        BindResult<()>)
        ensures
            result is Ok,
    {
        Ok(())
    }

    /// Binds a path, and declares its variable.
    pub fn bind_path_pattern(&mut self, pattern: &PathPattern) -> (result: BindResult<
        BoundPathPattern,
    >)
        requires
            old(self).others.ready(),
            pattern_outcome(old(self).scope@, *pattern).1 != Err::<PatternShape, PathFailure>(
                PathFailure::Unfinished,
            ),
        ensures
            final(self).others == old(self).others,
            final(self).scope@ == pattern_outcome(old(self).scope@, *pattern).0,
            match pattern_outcome(old(self).scope@, *pattern).1 {
                Ok(shape) => result matches Ok(bound) && pattern_shape(bound) == shape,
                Err(failure) => fails_with(result, failure),
            },
    {
        if let Some(variable) = &pattern.variable {
            let mut schema = match &self.scope.active_data_schema {
                Some(schema) => schema.duplicate(),
                None => DataSchema::default(),
            };
            assert(schema@ == columns(self.scope@));
            if schema.get_field_by_name(variable.as_str()).is_some() {
                return Err(BindError::VariableAlreadyDeclared(variable.clone()));
            }
            let field = DataField::new(variable.clone(), LogicalType::Path, true);
            schema.push(field);
            self.scope.active_data_schema = Some(schema);
            assert(self.scope@ == with_path(old(self).scope@, variable@));
        }
        let mode = match &pattern.prefix {
            None => None,
            Some(prefix) => match bind_path_pattern_prefix(prefix) {
                Ok(mode) => Some(mode),
                Err(error) => {
                    return Err(error);
                },
            },
        };
        let expr = match self.bind_path_pattern_expr(&pattern.expr) {
            Ok(expr) => expr,
            Err(error) => {
                return Err(error);
            },
        };
        match self.validate_bound_path_pattern_expr(&expr) {
            Ok(_) => {},
            Err(error) => {
                return Err(error);
            },
        }
        Ok(BoundPathPattern { mode, expr })
    }

    /// Binds patterns.
    pub fn bind_graph_pattern(&mut self, pattern: &GraphPattern) -> (result: BindResult<
        BoundGraphPattern,
    >)
        requires
            old(self).others.ready(),
            old(self).others.pattern_safe(old(self).scope@, *pattern),
        ensures
            final(self).others == old(self).others,
            old(self).others.graph_pattern_binds(
                old(self).scope@,
                *pattern,
                final(self).scope@,
                result,
            ),
    {
        if pattern.keep.is_some() {
            return not_implemented("keep clause in graph pattern");
        }
        let match_mode = match &pattern.match_mode {
            Some(mode) => Some(bind_match_mode(mode)),
            None => None,
        };
        let ghost scope = self.scope@;
        let ghost patterns = pattern.patterns@;
        let mut paths: Vec<BoundPathPattern> = Vec::new();
        proof {
            assert(patterns.take(0) =~= Seq::empty());
            assert(pattern_shapes(paths@) =~= Seq::empty());
        }
        for i in 0..pattern.patterns.len()
            invariant
                self.others.ready(),
                self.others == old(self).others,
                scope == old(self).scope@,
                patterns == pattern.patterns@,
                pattern.keep is None,
                old(self).others.pattern_safe(scope, *pattern),
                patterns_outcome(scope, patterns.take(i as int)) == (
                    self.scope@,
                    Ok::<Seq<PatternShape>, PathFailure>(pattern_shapes(paths@)),
                ),
        {
            let ghost before = paths@;
            proof {
                let seen = patterns.take(i + 1);
                assert(seen.drop_last() =~= patterns.take(i as int));
                assert(seen.last() == patterns[i as int]);
                if pattern_outcome(self.scope@, patterns[i as int]).1 is Err {
                    lemma_patterns_failure(scope, patterns, i + 1);
                }
            }
            match self.bind_path_pattern(&pattern.patterns[i]) {
                Ok(path) => {
                    paths.push(path);
                    assert(pattern_shapes(paths@) =~= pattern_shapes(before).push(
                        pattern_shape(path),
                    ));
                },
                Err(error) => {
                    return Err(error);
                },
            }
        }
        assert(patterns.take(patterns.len() as int) =~= patterns);
        let predicate = match &pattern.where_clause {
            None => None,
            Some(source) => {
                let value = &self.others.value;
                match value(&self.scope, source) {
                    Ok(expr) => {
                        assert(old(self).others.value_binds(self.scope@, *source, Ok(expr)));
                        Some(expr)
                    },
                    Err(error) => {
                        assert(old(self).others.value_binds(self.scope@, *source, Err(error)));
                        return Err(error);
                    },
                }
            },
        };
        let schema = match &self.scope.active_data_schema {
            Some(schema) => Arc::new(schema.duplicate()),
            None => Arc::new(DataSchema::default()),
        };
        Ok(BoundGraphPattern { match_mode, paths, predicate, schema })
    }

    /// Binds patterns, and which of their variables are kept.
    pub fn bind_graph_pattern_binding_table(&mut self, table: &GraphPatternBindingTable) -> (result:
        BindResult<BoundGraphPattern>)
        requires
            old(self).others.ready(),
            old(self).others.table_safe(old(self).scope@, *table),
        ensures
            final(self).others == old(self).others,
            old(self).others.table_binds(old(self).scope@, *table, final(self).scope@, result),
    {
        if table.yield_clause.len() > 0 {
            return not_implemented("graph pattern yield clause");
        }
        self.bind_graph_pattern(&table.pattern)
    }
}

/// Binds what stands before a path.
pub fn bind_path_pattern_prefix(prefix: &PathPatternPrefix) -> (result: BindResult<BoundPathMode>)
    ensures
        match *prefix {
            PathPatternPrefix::PathMode(mode) => result matches Ok(bound) && bound == path_mode_of(
                mode,
            ),
            PathPatternPrefix::PathSearch(_) => bind_refused(result, "path search prefix"@),
        },
{
    match prefix {
        PathPatternPrefix::PathMode(mode) => Ok(bind_path_mode(mode)),
        PathPatternPrefix::PathSearch(_) => not_implemented("path search prefix"),
    }
}

/// Binds what may be met twice on a path.
pub fn bind_path_mode(mode: &PathMode) -> (bound: BoundPathMode)
    ensures
        bound == path_mode_of(*mode),
{
    match mode {
        PathMode::Walk => BoundPathMode::Walk,
        PathMode::Trail => BoundPathMode::Trail,
        PathMode::Simple => BoundPathMode::Simple,
        PathMode::Acyclic => BoundPathMode::Acyclic,
    }
}

/// Binds how often an edge may be met in a match.
pub fn bind_match_mode(mode: &MatchMode) -> (bound: BoundMatchMode)
    ensures
        bound == match_mode_of(*mode),
{
    match mode {
        MatchMode::Repeatable => BoundMatchMode::Repeatable,
        MatchMode::Different => BoundMatchMode::Different,
    }
}

} // verus!
