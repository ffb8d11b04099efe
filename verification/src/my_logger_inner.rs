//! The state of the logger: the console switches, the counters, and the
//! registry of the readers.

use crate::console_printer::ConsoleFilter;
use crate::date_time::Timestamp;
use crate::log_event::LogLevel;
use crate::log_readers::LogReaders;
use crate::log_statistics::LogsStatistics;
use crate::logger_reader::MyLoggerReader;
use crate::populated_params::PopulatedParams;
use vstd::prelude::*;

verus! {

/// The state of the logger.
pub struct MyLoggerInner<R: MyLoggerReader> {
    pub console_printer: ConsoleFilter,
    pub statistics: LogsStatistics,
    pub log_readers: LogReaders<R>,
    /// When the process started.
    pub start_time: Timestamp,
}

impl<R: MyLoggerReader> MyLoggerInner<R> {
    /// Every registered reader is valid.
    pub open spec fn wf(&self) -> bool {
        self.log_readers.wf()
    }

    /// A logger state with every console switch on, all counters at zero and
    /// no reader.
    pub fn new(populated_params: Vec<(String, String)>, start_time: Timestamp) -> (inner: Self)
        ensures
            inner.console_printer == (ConsoleFilter {
                print_debug: true,
                print_fatal_errors: true,
                print_errors: true,
                print_warnings: true,
                print_infos: true,
            }),
            inner.statistics == (LogsStatistics {
                debugs: 0,
                fatal_errors: 0,
                errors: 0,
                warnings: 0,
                info: 0,
            }),
            inner.start_time == start_time,
            inner.log_readers.readers().len() == 0,
            inner.log_readers.params() == populated_params.deep_view(),
            inner.wf(),
    {
        Self {
            console_printer: ConsoleFilter::new(),
            statistics: LogsStatistics::new(),
            start_time,
            log_readers: LogReaders::new(populated_params),
        }
    }

    /// Counts one more event of `level`.
    pub fn update_statistics(&mut self, level: LogLevel)
        ensures
            final(self).statistics == old(self).statistics.counted(level),
            final(self).console_printer == old(self).console_printer,
            final(self).log_readers == old(self).log_readers,
            final(self).start_time == old(self).start_time,
    {
        self.statistics.update_statistics(level);
    }

    pub fn populate_params(&mut self, key: String, value: String)
        ensures
            final(self).log_readers.params() == old(self).log_readers.params().push(
                (key@, value@),
            ),
            final(self).log_readers.readers() == old(self).log_readers.readers(),
            final(self).statistics == old(self).statistics,
            final(self).console_printer == old(self).console_printer,
            final(self).start_time == old(self).start_time,
    {
        self.log_readers.populate_params(key, value);
    }

    pub fn register_reader(&mut self, reader: R)
        ensures
            final(self).log_readers.readers() == old(self).log_readers.readers().push(reader),
            final(self).log_readers.params() == old(self).log_readers.params(),
            final(self).statistics == old(self).statistics,
            final(self).console_printer == old(self).console_printer,
            final(self).start_time == old(self).start_time,
    {
        self.log_readers.register_reader(reader);
    }

    pub fn get_readers(&self) -> (readers: &[R])
        ensures
            readers@ == self.log_readers.readers(),
    {
        self.log_readers.get_readers()
    }

    pub fn get_populated_params(&self) -> (params: &PopulatedParams)
        ensures
            params@ == self.log_readers.params(),
    {
        self.log_readers.get_populated_params()
    }
}

} // verus!
