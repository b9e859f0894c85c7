//! Logging levels.
//!
//! A log line is emitted when its level is at least as severe as the
//! current level of the logger.  The kernel keeps the logger as a global
//! behind a lock; here it is an explicit owned value handed to the caller.

use vstd::prelude::*;

verus! {

/// Verbosity level of a log line, from most to least severe.
#[derive(Debug, Clone, Copy, PartialEq, Eq, Structural)]
pub enum Level {
    Error,
    Info,
    Warning,
    Debug,
}

/// Rank of a level: lower ranks are more severe and are shown first.
pub open spec fn spec_level_rank(level: Level) -> int {
    match level {
        Level::Error => 0,
        Level::Info => 1,
        Level::Warning => 2,
        Level::Debug => 3,
    }
}

impl Level {
    /// Rank of the level; lower is more severe.
    pub fn rank(&self) -> (r: u8)
        ensures
            r == spec_level_rank(*self),
    {
        match self {
            Level::Error => 0,
            Level::Info => 1,
            Level::Warning => 2,
            Level::Debug => 3,
        }
    }
}

/// The logger: holds the current logging level.
pub struct Logger {
    level: Level,
}

impl Logger {
    /// The current logging level.
    pub closed spec fn current(&self) -> Level {
        self.level
    }

    /// A logger showing lines at `level` and more severe.
    pub fn new(level: Level) -> (r: Logger)
        ensures
            r.current() == level,
    {
        Logger { level: level }
    }
}

/// Sets the current logging level.
pub fn set_logging_level(logger: &mut Logger, level: Level)
    ensures
        final(logger).current() == level,
{
    logger.level = level;
}

/// The current logging level.
pub fn get_logging_level(logger: &Logger) -> (r: Level)
    ensures
        r == logger.current(),
{
    logger.level
}

/// Whether a line at `level` is emitted under the logger's current level:
/// exactly when it is at least as severe.
pub fn enabled(level: Level, logger: &Logger) -> (r: bool)
    ensures
        r == (spec_level_rank(level) <= spec_level_rank(logger.current())),
{
    level.rank() <= get_logging_level(logger).rank()
}

} // verus!
