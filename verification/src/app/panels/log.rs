//! Application log view.

use vstd::prelude::*;

use crate::config::LogLevel;

verus! {

/// What the log view remembers.
#[derive(Debug, Clone, Copy, PartialEq, Eq, Structural)]
pub struct LogPanel {
    /// Whether the view stays at the newest record.
    pub follow: bool,
}

impl Default for LogPanel {
    fn default() -> (panel: Self)
        ensures
            panel.follow,
    {
        LogPanel { follow: true }
    }
}

/// The level of a record, padded to one width.
pub fn level_label(level: LogLevel) -> (label: &'static str)
    ensures
        label@ == match level {
            LogLevel::Error => "ERROR"@,
            LogLevel::Warn => "WARN "@,
            LogLevel::Info => "INFO "@,
            LogLevel::Debug => "DEBUG"@,
            LogLevel::Trace => "TRACE"@,
        },
{
    match level {
        LogLevel::Error => "ERROR",
        LogLevel::Warn => "WARN ",
        LogLevel::Info => "INFO ",
        LogLevel::Debug => "DEBUG",
        LogLevel::Trace => "TRACE",
    }
}

} // verus!
