//! Application settings and their defaults. Reading them from files and the
//! environment is left to the program.
use vstd::prelude::*;
use crate::text::{chars_of, string_of};

verus! {

/// Settings of the USB receipt printer.
#[derive(Debug, Clone)]
pub struct PrinterConfig {
    pub vendor_id: u16,
    pub product_id: u16,
    /// `"usb"` for the physical printer, `"terminal"` for standard output.
    pub mode: String,
    /// Characters that fit on one printed line.
    pub characters_per_line: u8,
}

/// Settings of the todo subsystem.
#[derive(Debug, Clone)]
pub struct TodoConfig {
    /// The nb notebook todo items are kept in.
    pub nb_notebook: String,
}

/// Settings of the project subsystem.
#[derive(Debug, Clone)]
pub struct ProjectConfig {
    /// Where project folders are created; a leading `~/` stands for the
    /// home directory.
    pub base_dir: String,
}

/// Settings of file logging.
#[derive(Debug, Clone)]
pub struct LoggingConfig {
    /// The log file.
    pub file: String,
}

/// All application settings.
#[derive(Debug, Clone)]
pub struct AppConfig {
    pub environment: String,
    pub printer: PrinterConfig,
    pub todo: TodoConfig,
    pub project: ProjectConfig,
    /// The port the HTTP API listens on.
    pub api_port: u16,
    /// Seconds between two polls of nb for changes.
    pub monitor_interval_secs: u64,
    /// Local hour (0 to 23) at which the daily summary is printed.
    pub summary_hour: u32,
    /// Detail of the daily summary: `"minimal"`, `"standard"` or `"full"`.
    pub summary_level: String,
    /// Local hour (0 to 23) at which the completed-task summary is printed.
    pub completed_summary_hour: u32,
    /// Whether the completed-task summary is printed.
    pub completed_summary_enabled: bool,
    pub logging: LoggingConfig,
}

/// The text of a literal, as an owned string.
fn owned(s: &str) -> (r: String)
    ensures
        r@ == s@,
{
    string_of(&chars_of(s))
}

impl AppConfig {
    /// The settings in force where no file or environment variable sets
    /// another value.
    pub fn defaults() -> (r: AppConfig)
        ensures
            r.environment@ == "development"@,
            r.printer.vendor_id == 0x0fe6,
            r.printer.product_id == 0x811e,
            r.printer.mode@ == "terminal"@,
            r.printer.characters_per_line == 42,
            r.todo.nb_notebook@ == "todo"@,
            r.project.base_dir@ == "~/projects"@,
            r.api_port == 8080,
            r.monitor_interval_secs == 30,
            r.summary_hour == 8,
            r.summary_level@ == "full"@,
            r.completed_summary_hour == 20,
            r.completed_summary_enabled,
            r.logging.file@ == "data/logs/app.log"@,
    {
        AppConfig {
            environment: owned("development"),
            printer: PrinterConfig {
                vendor_id: 0x0fe6,
                product_id: 0x811e,
                mode: owned("terminal"),
                characters_per_line: 42,
            },
            todo: TodoConfig { nb_notebook: owned("todo") },
            project: ProjectConfig { base_dir: owned("~/projects") },
            api_port: 8080,
            monitor_interval_secs: 30,
            summary_hour: 8,
            summary_level: owned("full"),
            completed_summary_hour: 20,
            completed_summary_enabled: true,
            logging: LoggingConfig { file: owned("data/logs/app.log") },
        }
    }
}

} // verus!
