//! Errors of execution.

use vstd::prelude::*;

verus! {

/// Why an execution was given up.
#[derive(Debug)]
pub struct ExecutionError {
    message: String,
}

/// The outcome of a step of execution.
pub type ExecutionResult<T> = Result<T, ExecutionError>;

impl View for ExecutionError {
    type V = Seq<char>;

    closed spec fn view(&self) -> Seq<char> {
        self.message@
    }
}

impl ExecutionError {
    /// An error with the given message.
    pub fn new(message: String) -> (error: Self)
        ensures
            error@ == message@,
    {
        ExecutionError { message }
    }

    /// The message.
    pub fn message(&self) -> (message: &String)
        ensures
            message@ == self@,
    {
        &self.message
    }
}

} // verus!
