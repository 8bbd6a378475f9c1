//! Shopping lists: their records and their printed ticket, which has the
//! layout of a general list's.
use vstd::prelude::*;
use crate::date::is_list_time_text;
use crate::lists::{ListEntry, print_job_now, list_job, uppercase, entry_views, job_view};
use crate::printer::{PrintJob, PrinterLibError};

verus! {

/// Errors of the shopping subsystem.
#[derive(Debug)]
pub enum ShoppingLibError {
    CannotInitialize(String),
    CategoryNotFound(i64),
    ItemNotFound(i64),
    /// A database error, by its message.
    Db(String),
    Print(PrinterLibError),
    Unknown,
}

/// A specialized `Result` type for shopping operations.
pub type ShoppingLibResult<T = ()> = Result<T, ShoppingLibError>;

/// A named shopping list (such as "Groceries").
#[derive(Debug, Clone)]
pub struct ShoppingCategory {
    pub id: i64,
    pub name: String,
}

/// The ticket of a shopping list, titled `SHOPPING: ` and the list's name
/// in capitals, printed now: the items still to get, then those already
/// obtained.
pub fn print_list(category_name: &str, items: &Vec<ListEntry>, width: usize) -> (r: PrintJob)
    ensures
        exists|printed: Seq<char>|
            is_list_time_text(printed) && job_view(r) == list_job(
                "SHOPPING: "@,
                uppercase(category_name@),
                entry_views(items@),
                width as nat,
                printed,
            ),
{
    print_job_now("SHOPPING: ", category_name, items, width)
}

} // verus!
