//! Queries whose names have been resolved.

use vstd::prelude::*;

use crate::common::data_type::{DataSchemaRef, LogicalType};
use crate::common::share::share;
use crate::common::types::LabelId;

verus! {

/// A graph of the catalog, and the name under which it was found.
#[derive(Debug)]
pub struct NamedGraphRef {
    /// The name.
    pub name: String,
    /// The number under which the catalog keeps the graph.
    pub graph: u64,
}

impl View for NamedGraphRef {
    type V = (Seq<char>, u64);

    open spec fn view(&self) -> (Seq<char>, u64) {
        (self.name@, self.graph)
    }
}

impl NamedGraphRef {
    /// A graph of a name.
    pub fn new(name: &str, graph: u64) -> (named: Self)
        ensures
            named@ == (name@, graph),
    {
        NamedGraphRef { name: name.to_string(), graph }
    }

    /// A copy.
    pub fn duplicate(&self) -> (copy: Self)
        ensures
            copy@ == self@,
    {
        NamedGraphRef { name: self.name.clone(), graph: self.graph }
    }
}

/// An expression: its text, and what is known of its value.
#[derive(Debug)]
pub struct BoundExpr {
    /// The text.
    pub text: String,
    /// The type of the value.
    pub logical_type: LogicalType,
    /// Whether the value may be missing.
    pub nullable: bool,
}

/// A condition on labels.
#[derive(Debug)]
pub enum BoundLabelExpr {
    /// Both hold.
    Conjunction(Box<BoundLabelExpr>, Box<BoundLabelExpr>),
    /// One of them holds.
    Disjunction(Box<BoundLabelExpr>, Box<BoundLabelExpr>),
    /// It does not hold.
    Negation(Box<BoundLabelExpr>),
    /// The label is there.
    Label(LabelId),
    /// Some label is there.
    Any,
}

/// A pattern of a path.
#[derive(Debug)]
pub struct BoundPathPattern {
    /// What may be met twice.
    pub mode: Option<BoundPathMode>,
    /// What the path looks like.
    pub expr: BoundPathPatternExpr,
}

/// What a path looks like.
#[derive(Debug)]
pub enum BoundPathPatternExpr {
    /// Like one of several.
    Union(Vec<BoundPathPatternExpr>),
    /// Like one of several, each counted for itself.
    Alternation(Vec<BoundPathPatternExpr>),
    /// Like several, one behind the other.
    Concat(Vec<BoundPathPatternExpr>),
    /// Like another, several times.
    Quantified {
        /// The other.
        path: Box<BoundPathPatternExpr>,
        /// How many times.
        quantifier: BoundPatternQuantifier,
    },
    /// Like another, or nothing.
    Optional(Box<BoundPathPatternExpr>),
    /// Like another, in parentheses.
    Subpath(Box<BoundSubpathPattern>),
    /// A vertex or an edge.
    Pattern(BoundElementPattern),
}

/// How many times a part of a path is repeated.
#[derive(Debug, Clone, Copy, PartialEq, Eq, Structural)]
pub struct BoundPatternQuantifier {
    /// At least.
    pub lower_bound: Option<usize>,
    /// At most.
    pub upper_bound: Option<usize>,
}

/// A part of a path in parentheses.
#[derive(Debug)]
pub struct BoundSubpathPattern {
    /// What may be met twice.
    pub mode: Option<BoundPathMode>,
    /// What it looks like.
    pub expr: BoundPathPatternExpr,
    /// What must hold of it.
    pub predicate: Option<BoundExpr>,
}

/// How often an edge may be met in a match.
#[derive(Debug, Clone, Copy, PartialEq, Eq, Structural)]
pub enum BoundMatchMode {
    /// As often as wanted.
    Repeatable,
    /// Once.
    Different,
}

/// What may be met twice on a path.
#[derive(Debug, Clone, Copy, PartialEq, Eq, Structural)]
pub enum BoundPathMode {
    /// Everything.
    Walk,
    /// Vertices, but no edges.
    Trail,
    /// The first vertex, as the last.
    Simple,
    /// Nothing.
    Acyclic,
}

/// A pattern of a vertex or an edge.
#[derive(Debug)]
pub enum BoundElementPattern {
    /// Of a vertex.
    Vertex(Box<BoundVertexPattern>),
    /// Of an edge.
    Edge(Box<BoundEdgePattern>),
}

/// A pattern of a vertex.
#[derive(Debug)]
pub struct BoundVertexPattern {
    /// What must hold of its labels.
    pub label: Option<BoundLabelExpr>,
    /// What must hold of it.
    pub predicate: Option<BoundExpr>,
}

/// In which direction an edge is met.
#[derive(Debug, Clone, Copy, PartialEq, Eq, Structural)]
pub enum BoundEdgePatternKind {
    /// Against its direction.
    Left,
    /// Against its direction, or it has none.
    LeftUndirected,
    /// In either direction.
    LeftRight,
    /// In its direction.
    Right,
    /// In its direction, or it has none.
    RightUndirected,
    /// It has none.
    Undirected,
    /// In any.
    Any,
}

/// A pattern of an edge.
#[derive(Debug)]
pub struct BoundEdgePattern {
    /// In which direction it is met.
    pub kind: BoundEdgePatternKind,
    /// What must hold of its labels.
    pub label: Option<BoundLabelExpr>,
    /// What must hold of it.
    pub predicate: Option<BoundExpr>,
}

/// Patterns of paths.
#[derive(Debug)]
pub struct BoundGraphPattern {
    /// How often an edge may be met.
    pub match_mode: Option<BoundMatchMode>,
    /// The paths.
    pub paths: Vec<BoundPathPattern>,
    /// What must hold of them.
    pub predicate: Option<BoundExpr>,
    /// The columns of the rows.
    pub schema: DataSchemaRef,
}

/// A procedure of which only the columns are known here.
#[derive(Debug)]
pub struct BoundProcedure {
    /// The columns of the rows that it yields.
    pub schema: Option<DataSchemaRef>,
}

/// A call of a procedure of which only the name and the columns are known here.
#[derive(Debug)]
pub struct BoundCallProcedureStatement {
    /// The name of the procedure.
    pub name: String,
    /// The columns of the rows that it yields.
    pub schema: Option<DataSchemaRef>,
}

/// Queries that are connected, or one query.
#[derive(Debug)]
pub enum BoundCompositeQueryStatement {
    /// Two queries.
    Conjunction {
        /// How they are connected.
        conjunction: BoundQueryConjunction,
        /// The first.
        left: Box<BoundCompositeQueryStatement>,
        /// The second.
        right: Box<BoundCompositeQueryStatement>,
    },
    /// One query.
    Primary(BoundLinearQueryStatement),
}

/// One query.
#[derive(Debug)]
pub enum BoundLinearQueryStatement {
    /// Statements, and what is returned.
    Query {
        /// The statements.
        statements: Vec<BoundSimpleQueryStatement>,
        /// What is returned.
        result: BoundResultStatement,
    },
    /// A procedure in braces.
    Nested(Box<BoundProcedure>),
    /// A selection.
    Select,
}

/// What a query returns.
#[derive(Debug)]
pub enum BoundResultStatement {
    /// Rows.
    Return {
        /// Which.
        statement: BoundReturnStatement,
        /// In what order, and how many.
        order_by_and_page: Option<BoundOrderByAndPageStatement>,
    },
    /// Nothing.
    Finish,
}

/// Which rows a query returns.
#[derive(Debug)]
pub struct BoundReturnStatement {
    /// What becomes of equal rows.
    pub quantifier: Option<BoundSetQuantifier>,
    /// The columns, or all that there are.
    pub items: Option<Vec<BoundExpr>>,
    /// The columns of the rows that are returned.
    pub schema: DataSchemaRef,
}

/// In what order rows are returned, and how many.
#[derive(Debug)]
pub struct BoundOrderByAndPageStatement {
    /// By what they are ordered.
    pub order_by: Vec<BoundSortSpec>,
    /// How many are passed over.
    pub offset: Option<usize>,
    /// How many are returned at most.
    pub limit: Option<usize>,
}

/// In which direction rows are ordered.
#[derive(Debug, Clone, Copy, PartialEq, Eq, Structural)]
pub enum SortOrdering {
    /// Upwards.
    Ascending,
    /// Downwards.
    Descending,
}

impl Default for SortOrdering {
    fn default() -> (ordering: Self)
        ensures
            ordering == SortOrdering::Ascending,
    {
        SortOrdering::Ascending
    }
}

/// Where missing values go.
#[derive(Debug, Clone, Copy, PartialEq, Eq, Structural)]
pub enum NullOrdering {
    /// Before all others.
    First,
    /// Behind all others.
    Last,
}

impl Default for NullOrdering {
    fn default() -> (ordering: Self)
        ensures
            ordering == NullOrdering::First,
    {
        NullOrdering::First
    }
}

/// By what rows are ordered.
#[derive(Debug)]
pub struct BoundSortSpec {
    /// By which value.
    pub key: BoundExpr,
    /// In which direction.
    pub ordering: SortOrdering,
    /// Where missing values go.
    pub null_ordering: NullOrdering,
}

/// A statement of a query.
#[derive(Debug)]
pub enum BoundSimpleQueryStatement {
    /// Patterns are looked for.
    Match(BoundMatchStatement),
    /// A procedure is called.
    Call(BoundCallProcedureStatement),
}

/// How a result set treats rows that are equal.
#[derive(Debug, Clone, Copy, PartialEq, Eq, Structural)]
pub enum BoundSetQuantifier {
    /// One of them is kept.
    Distinct,
    /// All are kept.
    All,
}

/// How two queries are connected.
#[derive(Debug, Clone, Copy, PartialEq, Eq, Structural)]
pub enum BoundQueryConjunction {
    /// Their results are joined.
    SetOp(BoundSetOp),
    /// The second counts where the first has no result.
    Otherwise,
}

/// What two result sets are joined to.
#[derive(Debug, Clone, Copy, PartialEq, Eq, Structural)]
pub enum BoundSetOpKind {
    /// The rows of either.
    Union,
    /// The rows of the first that are not in the second.
    Except,
    /// The rows of both.
    Intersect,
}

/// How two result sets are joined.
#[derive(Debug, Clone, Copy, PartialEq, Eq, Structural)]
pub struct BoundSetOp {
    /// To what.
    pub kind: BoundSetOpKind,
    /// What becomes of equal rows.
    pub quantifier: Option<BoundSetQuantifier>,
}

/// Patterns that are looked for.
#[derive(Debug)]
pub enum BoundMatchStatement {
    /// They must be found.
    Simple(BoundGraphPattern),
}

impl BoundResultStatement {
    /// The columns of the rows that are returned, if any are.
    pub fn schema(&self) -> (schema: Option<&DataSchemaRef>)
        ensures
            match *self {
                BoundResultStatement::Return { statement, .. } => schema == Some(
                    &statement.schema,
                ),
                BoundResultStatement::Finish => schema is None,
            },
    {
        match self {
            BoundResultStatement::Return { statement, .. } => Some(&statement.schema),
            BoundResultStatement::Finish => None,
        }
    }
}

impl BoundLinearQueryStatement {
    /// The columns of the rows that a query yields, if it yields any. It is not known of a
    /// selection.
    pub fn schema(&self) -> (schema: Option<DataSchemaRef>)
        requires
            *self !is Select,
        ensures
            match *self {
                BoundLinearQueryStatement::Query { result, .. } => match result {
                    BoundResultStatement::Return { statement, .. } => schema == Some(
                        statement.schema,
                    ),
                    BoundResultStatement::Finish => schema is None,
                },
                BoundLinearQueryStatement::Nested(query) => schema == query.schema,
                BoundLinearQueryStatement::Select => true,
            },
    {
        match self {
            BoundLinearQueryStatement::Query { result, .. } => match result.schema() {
                Some(schema) => Some(share(schema)),
                None => None,
            },
            BoundLinearQueryStatement::Nested(query) => match &query.schema {
                Some(schema) => Some(share(schema)),
                None => None,
            },
            BoundLinearQueryStatement::Select => None,
        }
    }
}

} // verus!
