//! Errors of binding and planning.

use vstd::prelude::*;

use crate::common::data_type::LogicalType;

verus! {

/// Something that the language has and the database does not.
#[derive(Debug)]
pub struct NotImplemented {
    /// What it is.
    pub feature: String,
}

impl NotImplemented {
    /// The given feature.
    pub fn new(feature: &str) -> (error: Self)
        ensures
            error.feature@ == feature@,
    {
        NotImplemented { feature: feature.to_string() }
    }
}

/// Why a query cannot be bound.
#[derive(Debug)]
pub enum BindError {
    /// The catalog failed.
    Catalog(String),
    /// Something is not a directory.
    NotDirectory(String),
    /// Something is not a schema.
    NotSchema(String),
    /// There is no such directory or schema.
    DirectoryOrSchemaNotFound(String),
    /// No current graph is set.
    CurrentGraphNotSpecified,
    /// No current schema is set.
    CurrentSchemaNotSpecified,
    /// No home schema is set.
    HomeSchemaNotSpecified,
    /// No home graph is set.
    HomeGraphNotSpecified,
    /// There is no such procedure.
    ProcedureNotFound(String),
    /// There is no such graph.
    GraphNotFound(String),
    /// A name has too many parts.
    InvalidObjectReference(Vec<String>),
    /// A procedure has no schema.
    ProcedureWithoutSchema(String),
    /// A procedure does not yield such a column.
    YieldItemNotFound(String),
    /// There is no such variable.
    VariableNotFound(String),
    /// A number is not an integer.
    InvalidInteger(String),
    /// A procedure is called with other arguments than it takes.
    IncorrectArguments {
        /// The procedure.
        procedure: String,
        /// The types that it takes.
        expected: Vec<LogicalType>,
        /// The types that it was given.
        actual: Vec<LogicalType>,
    },
    /// Columns are asked of a procedure that yields none.
    YieldAfterSchemalessProcedure(String),
    /// A procedure does not say which columns it yields.
    DataSchemaNotProvided(String),
    /// A procedure yields another number of columns.
    IncorrectNumberOfYieldItems {
        /// How many columns it yields.
        expected: usize,
        /// How many were asked for.
        actual: usize,
    },
    /// There is no column to return.
    NoColumnInReturnStatement,
    /// A procedure does not modify the catalog.
    NotCatalogProcedure(String),
    /// A variable is there already.
    VariableAlreadyDeclared(String),
    /// Something unexpected happened.
    Unexpected,
    /// Something is not implemented.
    NotImplemented(NotImplemented),
}

/// The outcome of binding.
pub type BindResult<T> = Result<T, BindError>;

/// Whether binding was refused because a feature is not implemented.
pub open spec fn bind_refused<T>(result: BindResult<T>, feature: Seq<char>) -> bool {
    result matches Err(BindError::NotImplemented(error)) && error.feature@ == feature
}

/// Refuses a feature that is not implemented.
pub fn not_implemented<T>(feature: &str) -> (result: BindResult<T>)
    ensures
        bind_refused(result, feature@),
{
    Err(BindError::NotImplemented(NotImplemented::new(feature)))
}

/// Why a query cannot be planned.
#[derive(Debug)]
pub enum PlanError {
    /// Something is not implemented.
    NotImplemented(NotImplemented),
}

/// The outcome of planning.
pub type PlanResult<T> = Result<T, PlanError>;

/// Whether planning was refused because a feature is not implemented.
pub open spec fn plan_refused<T>(result: PlanResult<T>, feature: Seq<char>) -> bool {
    result matches Err(PlanError::NotImplemented(error)) && error.feature@ == feature
}

/// Refuses a feature that is not implemented.
pub fn not_planned<T>(feature: &str) -> (result: PlanResult<T>)
    ensures
        plan_refused(result, feature@),
{
    Err(PlanError::NotImplemented(NotImplemented::new(feature)))
}

} // verus!
