//! Queries as they are written.

use vstd::prelude::*;

verus! {

/// A part of a query that is bound by others, as its text.
pub type Source = String;

/// Which graph is meant.
#[derive(Debug)]
pub enum GraphExpr {
    /// The graph of a name in the current schema.
    Name(String),
    /// The graph that an object is.
    Object(Source),
    /// The graph at some place in the catalog.
    Ref(Source),
    /// The current graph.
    Current,
}

/// How a result set treats rows that are equal.
#[derive(Debug, Clone, Copy, PartialEq, Eq, Structural)]
pub enum SetQuantifier {
    /// One of them is kept.
    Distinct,
    /// All are kept.
    All,
}

/// What two result sets are joined to.
#[derive(Debug, Clone, Copy, PartialEq, Eq, Structural)]
pub enum SetOpKind {
    /// The rows of either.
    Union,
    /// The rows of the first that are not in the second.
    Except,
    /// The rows of both.
    Intersect,
}

/// How two result sets are joined.
#[derive(Debug, Clone, Copy, PartialEq, Eq, Structural)]
pub struct SetOp {
    /// To what.
    pub kind: SetOpKind,
    /// What becomes of equal rows.
    pub quantifier: Option<SetQuantifier>,
}

/// How two queries are connected.
#[derive(Debug, Clone, Copy, PartialEq, Eq, Structural)]
pub enum QueryConjunction {
    /// Their results are joined.
    SetOp(SetOp),
    /// The second counts where the first has no result.
    Otherwise,
}

/// Queries that are connected, or one query.
#[derive(Debug)]
pub enum CompositeQueryStatement {
    /// Two queries.
    Conjunction {
        /// How they are connected.
        conjunction: QueryConjunction,
        /// The first.
        left: Box<CompositeQueryStatement>,
        /// The second.
        right: Box<CompositeQueryStatement>,
    },
    /// One query.
    Primary(LinearQueryStatement),
}

/// One query.
#[derive(Debug)]
pub enum LinearQueryStatement {
    /// On graphs that it names.
    Focused(FocusedLinearQueryStatement),
    /// On the current graph.
    Ambient(AmbientLinearQueryStatement),
}

/// A query on graphs that it names.
#[derive(Debug)]
pub enum FocusedLinearQueryStatement {
    /// Parts, each on a graph, and what is returned.
    Parts {
        /// The parts.
        parts: Vec<FocusedLinearQueryStatementPart>,
        /// What is returned.
        result: ResultStatement,
    },
    /// Only what is returned.
    Result {
        /// The graph.
        use_graph: GraphExpr,
        /// What is returned.
        result: ResultStatement,
    },
    /// A procedure in braces.
    Nested {
        /// The graph.
        use_graph: GraphExpr,
        /// The procedure.
        query: Source,
    },
    /// A selection.
    Select {
        /// The selection.
        statement: Source,
    },
}

/// A part of a query, on a graph that it names.
#[derive(Debug)]
pub struct FocusedLinearQueryStatementPart {
    /// The graph.
    pub use_graph: GraphExpr,
    /// The statements.
    pub statements: Vec<SimpleQueryStatement>,
}

/// A query on the current graph.
#[derive(Debug)]
pub enum AmbientLinearQueryStatement {
    /// Statements, and what is returned.
    Parts {
        /// The statements.
        parts: Vec<SimpleQueryStatement>,
        /// What is returned.
        result: ResultStatement,
    },
    /// A procedure in braces.
    Nested(Source),
}

/// A statement of a query.
#[derive(Debug)]
pub enum SimpleQueryStatement {
    /// Patterns are looked for.
    Match(MatchStatement),
    /// A procedure is called.
    Call(Source),
    /// The rows are ordered.
    OrderByAndPage(OrderByAndPageStatement),
}

/// Patterns that are looked for.
#[derive(Debug)]
pub enum MatchStatement {
    /// They must be found.
    Simple(GraphPatternBindingTable),
    /// They may be missing.
    Optional(Source),
}

/// Patterns, and which of their variables are kept.
#[derive(Debug)]
pub struct GraphPatternBindingTable {
    /// The patterns.
    pub pattern: GraphPattern,
    /// The variables that are kept.
    pub yield_clause: Vec<String>,
}

/// How often an edge may be met in a match.
#[derive(Debug, Clone, Copy, PartialEq, Eq, Structural)]
pub enum MatchMode {
    /// As often as wanted.
    Repeatable,
    /// Once.
    Different,
}

/// What may be met twice on a path.
#[derive(Debug, Clone, Copy, PartialEq, Eq, Structural)]
pub enum PathMode {
    /// Everything.
    Walk,
    /// Vertices, but no edges.
    Trail,
    /// The first vertex, as the last.
    Simple,
    /// Nothing.
    Acyclic,
}

/// What stands before a path pattern.
#[derive(Debug)]
pub enum PathPatternPrefix {
    /// What may be met twice.
    PathMode(PathMode),
    /// Which paths are kept.
    PathSearch(Source),
}

/// Patterns of paths.
#[derive(Debug)]
pub struct GraphPattern {
    /// How often an edge may be met.
    pub match_mode: Option<MatchMode>,
    /// The paths.
    pub patterns: Vec<PathPattern>,
    /// Which paths are kept.
    pub keep: Option<PathPatternPrefix>,
    /// What must hold of them.
    pub where_clause: Option<Source>,
}

/// A pattern of a path.
#[derive(Debug)]
pub struct PathPattern {
    /// The variable that stands for the path.
    pub variable: Option<String>,
    /// What stands before the pattern.
    pub prefix: Option<PathPatternPrefix>,
    /// What the path looks like.
    pub expr: PathPatternExpr,
}

/// What a path looks like.
#[derive(Debug)]
pub enum PathPatternExpr {
    /// Like one of several.
    Union(Vec<PathPatternExpr>),
    /// Like one of several, each counted for itself.
    Alternation(Vec<PathPatternExpr>),
    /// Like several, one behind the other.
    Concat(Vec<PathPatternExpr>),
    /// Like another, several times.
    Quantified {
        /// The other.
        path: Box<PathPatternExpr>,
        /// How many times.
        quantifier: Source,
    },
    /// Like another, or nothing.
    Optional(Box<PathPatternExpr>),
    /// Like another, in parentheses.
    Grouped(Source),
    /// A vertex or an edge.
    Pattern(ElementPattern),
}

/// A pattern of a vertex or an edge.
#[derive(Debug)]
pub enum ElementPattern {
    /// Of a vertex.
    Node(Source),
    /// Of an edge.
    Edge(Source),
}

/// What a query returns.
#[derive(Debug)]
pub enum ResultStatement {
    /// Rows.
    Return {
        /// Which.
        statement: ReturnStatement,
        /// In what order, and how many.
        order_by: Option<OrderByAndPageStatement>,
    },
    /// Nothing.
    Finish,
}

/// Which rows a query returns.
#[derive(Debug)]
pub struct ReturnStatement {
    /// What becomes of equal rows.
    pub quantifier: Option<SetQuantifier>,
    /// The columns.
    pub items: Return,
}

/// Which columns a query returns.
#[derive(Debug)]
pub enum Return {
    /// The given ones.
    Items(Vec<ReturnItem>),
    /// All that there are.
    All,
}

/// A column that a query returns.
#[derive(Debug)]
pub struct ReturnItem {
    /// Its value.
    pub value: Source,
    /// Its name.
    pub alias: Option<String>,
}

/// In what order rows are returned, and how many.
#[derive(Debug)]
pub struct OrderByAndPageStatement {
    /// By what they are ordered.
    pub order_by: Vec<SortSpec>,
    /// How many are passed over.
    pub offset: Option<Source>,
    /// How many are returned at most.
    pub limit: Option<Source>,
}

/// In which direction rows are ordered.
#[derive(Debug, Clone, Copy, PartialEq, Eq, Structural)]
pub enum SortDirection {
    /// Upwards.
    Asc,
    /// Downwards.
    Desc,
}

/// Where missing values go.
#[derive(Debug, Clone, Copy, PartialEq, Eq, Structural)]
pub enum NullPosition {
    /// Before all others.
    First,
    /// Behind all others.
    Last,
}

/// By what rows are ordered.
#[derive(Debug)]
pub struct SortSpec {
    /// By which value.
    pub key: Source,
    /// In which direction.
    pub ordering: Option<SortDirection>,
    /// Where missing values go.
    pub null_ordering: Option<NullPosition>,
}

} // verus!
