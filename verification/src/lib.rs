use vstd::prelude::*;

pub mod project;
pub mod status;
pub mod datatypes;
pub mod finances;
pub mod date;
pub mod notes;
pub mod printer;
pub mod receipt;
pub mod text;
pub mod tasks;
pub mod db;
pub mod logging;
pub mod config;
pub mod ui;
pub mod lists;
pub mod shopping;
pub mod startup;
pub mod api;
pub mod watch;

verus! {

} // verus!
