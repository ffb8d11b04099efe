//! Counters of the events that were logged, one for each level.

use crate::log_event::LogLevel;
use vstd::prelude::*;

verus! {

/// How many events of each level were logged. A counter that is full starts
/// again at zero.
#[derive(Debug, Clone, Copy, PartialEq, Eq, Structural)]
pub struct LogsStatistics {
    pub debugs: u64,
    pub fatal_errors: u64,
    pub errors: u64,
    pub warnings: u64,
    pub info: u64,
}

/// The count after one more; a full counter starts again at zero.
pub open spec fn one_more(count: u64) -> u64 {
    if count == u64::MAX {
        0
    } else {
        (count + 1) as u64
    }
}

/// Counts one more.
fn increment(count: u64) -> (next: u64)
    ensures
        next == one_more(count),
{
    if count == u64::MAX {
        0
    } else {
        count + 1
    }
}

impl LogsStatistics {
    /// The counters after one more event of `level`: the counter of that
    /// level counts one more, the others stay.
    pub open spec fn counted(self, level: LogLevel) -> LogsStatistics {
        match level {
            LogLevel::Info => LogsStatistics { info: one_more(self.info), ..self },
            LogLevel::Warning => LogsStatistics { warnings: one_more(self.warnings), ..self },
            LogLevel::Error => LogsStatistics { errors: one_more(self.errors), ..self },
            LogLevel::FatalError => LogsStatistics {
                fatal_errors: one_more(self.fatal_errors),
                ..self
            },
            LogLevel::Debug => LogsStatistics { debugs: one_more(self.debugs), ..self },
        }
    }

    pub fn new() -> (statistics: Self)
        ensures
            statistics == (LogsStatistics {
                debugs: 0,
                fatal_errors: 0,
                errors: 0,
                warnings: 0,
                info: 0,
            }),
    {
        Self { debugs: 0, fatal_errors: 0, errors: 0, warnings: 0, info: 0 }
    }

    /// Counts one more event of `level`.
    pub fn update_statistics(&mut self, level: LogLevel)
        ensures
            *final(self) == old(self).counted(level),
    {
        match level {
            LogLevel::Info => {
                self.info = increment(self.info);
            },
            LogLevel::Warning => {
                self.warnings = increment(self.warnings);
            },
            LogLevel::Error => {
                self.errors = increment(self.errors);
            },
            LogLevel::FatalError => {
                self.fatal_errors = increment(self.fatal_errors);
            },
            LogLevel::Debug => {
                self.debugs = increment(self.debugs);
            },
        }
    }
}

} // verus!
