//! The tasks subsystem: its error type and its start-up.
use vstd::prelude::*;

verus! {

/// Errors of the tasks subsystem.
#[derive(Debug)]
pub enum TasksLibError {
    /// The subsystem could not start; the message says why.
    CannotInitialize(String),
    /// An error of no known kind.
    Unknown,
}

/// A specialized `Result` type for tasks operations.
pub type TasksLibResult<T = ()> = Result<T, TasksLibError>;

/// Starts the tasks subsystem. It needs no resources of its own, so it
/// always succeeds.
pub fn init() -> (r: TasksLibResult)
    ensures
        r is Ok,
{
    Ok(())
}

} // verus!
