//! Application-wide logging to the database: which events are kept, and
//! what row each kept event becomes.
use vstd::prelude::*;
use crate::text::{chars_of, string_of, eq_str};

verus! {

/// Errors of the logging subsystem.
#[derive(Debug)]
pub enum LogLibError {
    /// Logging could not start; the message says why.
    CannotInitialize(String),
    /// An error of no known kind.
    Unknown,
}

/// A specialized `Result` type for logging operations.
pub type LogLibResult<T = ()> = Result<T, LogLibError>;

/// The severity of a log event, least severe first.
#[derive(Debug, Clone, Copy, PartialEq, Eq, Structural)]
pub enum LogLevel {
    Trace,
    Debug,
    Info,
    Warn,
    Error,
}

/// The name of a level, in capitals (`"INFO"`).
pub open spec fn level_name(l: LogLevel) -> Seq<char> {
    match l {
        LogLevel::Trace => "TRACE"@,
        LogLevel::Debug => "DEBUG"@,
        LogLevel::Info => "INFO"@,
        LogLevel::Warn => "WARN"@,
        LogLevel::Error => "ERROR"@,
    }
}

impl LogLevel {
    /// The name of the level, in capitals.
    pub fn name(&self) -> (r: &'static str)
        ensures
            r@ == level_name(*self),
    {
        match self {
            LogLevel::Trace => "TRACE",
            LogLevel::Debug => "DEBUG",
            LogLevel::Info => "INFO",
            LogLevel::Warn => "WARN",
            LogLevel::Error => "ERROR",
        }
    }
}

/// Collects the `message` field of a log event.
pub struct LogVisitor {
    pub message: Option<String>,
}

impl LogVisitor {
    /// A visitor that has seen no message yet.
    pub fn new() -> (r: Self)
        ensures
            r.message is None,
    {
        LogVisitor { message: None }
    }

    /// Takes in one field of the event, given by its name and its value as
    /// debug text: the `message` field is kept, any other ignored.
    pub fn record(&mut self, field_name: &str, value_text: String)
        ensures
            field_name@ == "message"@ ==> final(self).message == Some(value_text),
            field_name@ != "message"@ ==> final(self).message == old(self).message,
    {
        let name = chars_of(field_name);
        if eq_str(&name, "message") {
            self.message = Some(value_text);
        }
    }
}

/// The tracing layer that writes significant events (INFO and above) to
/// the database.
pub struct DbLayer;

/// The events written to the database: those at INFO, WARN or ERROR.
pub open spec fn is_recorded(level: LogLevel) -> bool {
    level == LogLevel::Info || level == LogLevel::Warn || level == LogLevel::Error
}

/// The message stored for an event: its own, or `"No message"`.
pub open spec fn stored_message(message: Option<Seq<char>>) -> Seq<char> {
    match message {
        Some(m) => m,
        None => "No message"@,
    }
}

impl DbLayer {
    /// Whether an event of this level is written to the database.
    pub fn records(level: LogLevel) -> (r: bool)
        ensures
            r == is_recorded(level),
    {
        match level {
            LogLevel::Info | LogLevel::Warn | LogLevel::Error => true,
            _ => false,
        }
    }

    /// The database row of an event, as level name, target and message:
    /// `None` for an event below INFO, which is not recorded.
    pub fn on_event(&self, level: LogLevel, target: &str, visitor: LogVisitor) -> (r: Option<(String, String, String)>)
        ensures
            r is None <==> !is_recorded(level),
            r matches Some(row) ==> row.0@ == level_name(level) && row.1@ == target@ && row.2@ == stored_message(
                match visitor.message {
                    Some(m) => Some(m@),
                    None => None,
                },
            ),
    {
        if !DbLayer::records(level) {
            return None;
        }
        let level_text = string_of(&chars_of(level.name()));
        let target_text = string_of(&chars_of(target));
        let message = match visitor.message {
            Some(m) => m,
            None => string_of(&chars_of("No message")),
        };
        Some((level_text, target_text, message))
    }
}

} // verus!
