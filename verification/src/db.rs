//! Records of the local database: cached subtasks, per-occurrence payment
//! tracking of recurring finance items, saved budget scenarios, and the
//! error type of todo operations.
use vstd::prelude::*;

verus! {

/// Errors of todo operations in the database layer.
#[derive(Debug)]
pub enum TodoLibError {
    /// The todo system could not start; the message says why.
    CannotInitialize(String),
    /// An error of no known kind.
    Unknown,
}

/// A specialized `Result` type for todo database operations.
pub type TodoLibResult<T = ()> = Result<T, TodoLibError>;

/// A cached subtask of a todo item.
#[derive(Debug, Clone)]
pub struct CachedSubtask {
    pub id: Option<i64>,
    pub title: String,
    pub done: bool,
}

/// Whether one occurrence of a recurring item or transfer was paid.
/// `period_start` and `paid_date` are ISO `YYYY-MM-DD` dates.
#[derive(Debug, Clone)]
pub struct RecurringOccurrenceRow {
    pub recurring_id: String,
    /// `"item"` or `"transfer"`.
    pub kind: String,
    pub period_start: String,
    pub paid: bool,
    pub paid_date: Option<String>,
    pub updated_at: String,
}

/// A named, saved budget scenario.
#[derive(Debug, Clone)]
pub struct BudgetScenario {
    pub id: String,
    pub name: String,
    pub created_at: String,
}

} // verus!
