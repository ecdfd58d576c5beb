//! Configuration decisions of the CLI that do not depend on how it is parsed.
use vstd::prelude::*;

pub mod commands;

verus! {

/// Log levels, from the least to the most verbose.
#[derive(Debug, Clone, Copy, PartialEq, Eq, Structural)]
pub enum LogLevel {
    Error,
    Warn,
    Info,
    Debug,
    Trace,
}

/// The log level for a verbosity flag: 0 to 4 select a level; any larger value selects
/// the most verbose level and is reported as out of range (the second component).
pub fn log_level_for_verbosity(verbosity: u8) -> (r: (LogLevel, bool))
    ensures
        verbosity == 0 ==> r == (LogLevel::Error, false),
        verbosity == 1 ==> r == (LogLevel::Warn, false),
        verbosity == 2 ==> r == (LogLevel::Info, false),
        verbosity == 3 ==> r == (LogLevel::Debug, false),
        verbosity == 4 ==> r == (LogLevel::Trace, false),
        verbosity > 4 ==> r == (LogLevel::Trace, true),
{
    match verbosity {
        0 => (LogLevel::Error, false),
        1 => (LogLevel::Warn, false),
        2 => (LogLevel::Info, false),
        3 => (LogLevel::Debug, false),
        4 => (LogLevel::Trace, false),
        _ => (LogLevel::Trace, true),
    }
}

} // verus!
