//! Expressions over chunks of rows.

use vstd::prelude::*;

#[allow(unused_imports)]
use crate::common::array::Column;
use crate::common::array::ArrayRef;
use crate::common::chunk::DataChunk;
use crate::execution::error::ExecutionResult;

verus! {

/// The columns of a chunk.
pub type Columns = Seq<Column>;

/// The column that an expression gives, or the message of its error.
pub type Evaluated = Result<Column, Seq<char>>;

/// An expression that is evaluated over the rows of a chunk.
pub trait Evaluator: Sized {
    /// What the expression gives for a chunk.
    spec fn value(&self, chunk: Columns) -> Evaluated;

    /// Evaluates the expression.
    fn evaluate(&self, chunk: &DataChunk) -> (result: ExecutionResult<ArrayRef>)
        ensures
            evaluated(result) == self.value(chunk@),
    ;
}

/// What an evaluation gave.
pub open spec fn evaluated(result: ExecutionResult<ArrayRef>) -> Evaluated {
    match result {
        Ok(array) => Ok(array@),
        Err(error) => Err(error@),
    }
}

} // verus!
