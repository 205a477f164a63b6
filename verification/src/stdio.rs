//! Setting up stdio reporting: a stdio reporter and, optionally, the live
//! status display.

use vstd::prelude::*;
use crate::level::Level;
use crate::reporters::StdioReporter;

verus! {

/// The settings of stdio reporting.
pub struct Builder {
    pub log_task_start: bool,
    pub max_log_level: Level,
    pub term_status: bool,
}

/// What setting up stdio reporting installs: the reporter to register,
/// and whether to show the live status display (on a terminal).
pub struct StdioSetup {
    pub reporter: StdioReporter,
    pub show_status: bool,
}

impl Builder {
    /// Starts logged, levels up to `L1`, status display on.
    pub fn new() -> (r: Builder)
        ensures
            r.log_task_start,
            r.max_log_level == Level::L1,
            r.term_status,
    {
        Builder { log_task_start: true, max_log_level: Level::L1, term_status: true }
    }

    /// Whether task starts are logged.
    pub fn log_task_start(self, val: bool) -> (r: Builder)
        ensures
            r.log_task_start == val,
            r.max_log_level == self.max_log_level,
            r.term_status == self.term_status,
    {
        Builder { log_task_start: val, ..self }
    }

    /// The most verbose level logged.
    pub fn max_log_level(self, level: Level) -> (r: Builder)
        ensures
            r.max_log_level == level,
            r.log_task_start == self.log_task_start,
            r.term_status == self.term_status,
    {
        Builder { max_log_level: level, ..self }
    }

    /// Whether the live status display is shown.
    pub fn term_status(self, val: bool) -> (r: Builder)
        ensures
            r.term_status == val,
            r.log_task_start == self.log_task_start,
            r.max_log_level == self.max_log_level,
    {
        Builder { term_status: val, ..self }
    }

    /// The reporter these settings give (stderr, UTC timestamps) and
    /// whether the status display is to be shown.
    pub fn init(self) -> (r: StdioSetup)
        ensures
            r.reporter.log_task_start == self.log_task_start,
            r.reporter.max_log_level == self.max_log_level,
            r.reporter.timestamp_format is None,
            !r.reporter.use_stdout,
            r.show_status == self.term_status,
    {
        let mut reporter = StdioReporter::new();
        reporter.log_task_start = self.log_task_start;
        reporter.max_log_level = self.max_log_level;
        StdioSetup { reporter, show_status: self.term_status }
    }
}

impl Default for Builder {
    fn default() -> (r: Builder)
        ensures
            r.log_task_start,
            r.max_log_level == Level::L1,
            r.term_status,
    {
        Builder::new()
    }
}

/// Stdio reporting with the default settings.
pub fn builder() -> (r: Builder)
    ensures
        r.log_task_start,
        r.max_log_level == Level::L1,
        r.term_status,
{
    Builder::new()
}

/// The default setup: start lines logged, levels up to `L1`, the status
/// display shown.
pub fn init() -> (r: StdioSetup)
    ensures
        r.reporter.log_task_start,
        r.reporter.max_log_level == Level::L1,
        r.reporter.timestamp_format is None,
        !r.reporter.use_stdout,
        r.show_status,
{
    Builder::new().init()
}

} // verus!
