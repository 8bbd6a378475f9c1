//! Personal finances kept in an hledger journal: the records, and the
//! journal text this library writes and reads back.
pub mod models;
pub mod money;
pub mod journal_writer;
pub mod journal_edits;
pub mod journal_parser;
pub mod journal_laws;
pub mod journal_file_laws;
pub mod occurrences;
pub mod reports;
pub mod payoff;
pub mod forecast;
