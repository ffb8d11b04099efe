//! The entry point for logging: an event is counted, shown on the console if
//! its level is switched on, and handed to every registered reader.

use crate::console_printer::{console_block, ConsoleFilter, ConsoleOutput};
use crate::date_time::Timestamp;
use crate::log_event::{ContextModel, LogLevel, MyLogEvent, MyLogEventModel};
use crate::log_event_ctx::LogEventCtx;
use crate::log_statistics::LogsStatistics;
use crate::logger_reader::MyLoggerReader;
use crate::my_logger_inner::MyLoggerInner;
use crate::populated_params::PopulatedParams;
use std::sync::Arc;
use vstd::prelude::*;

verus! {

/// The logger. It is made once by the process and handed to the places that
/// log.
pub struct MyLogger<R: MyLoggerReader> {
    inner: MyLoggerInner<R>,
}

impl<R: MyLoggerReader> MyLogger<R> {
    /// The registered readers, in the order of their registration.
    pub closed spec fn readers(&self) -> Seq<R> {
        self.inner.log_readers.readers()
    }

    /// The parameters of the process.
    pub closed spec fn params(&self) -> ContextModel {
        self.inner.log_readers.params()
    }

    /// The counters.
    pub closed spec fn statistics(&self) -> LogsStatistics {
        self.inner.statistics
    }

    /// The console switches.
    pub closed spec fn console_filter(&self) -> ConsoleFilter {
        self.inner.console_printer
    }

    /// When the process started.
    pub closed spec fn start_time(&self) -> Timestamp {
        self.inner.start_time
    }

    /// Every registered reader is valid.
    pub open spec fn wf(&self) -> bool {
        forall|i: int| 0 <= i < self.readers().len() ==> (#[trigger] self.readers()[i]).reader_wf()
    }

    /// Nothing but the counters and what the readers have taken in differs
    /// between `self` and `before`.
    pub open spec fn same_setup(&self, before: &Self) -> bool {
        &&& self.params() == before.params()
        &&& self.console_filter() == before.console_filter()
        &&& self.start_time() == before.start_time()
        &&& self.readers().len() == before.readers().len()
    }

    /// What logging `event` does to a logger that was `before`: the counter of
    /// the event's level counts one more, every reader has taken the event in
    /// (in the sense that the reader gives to that), and the rest is as it
    /// was.
    pub open spec fn has_logged(&self, before: &Self, event: MyLogEventModel) -> bool {
        &&& self.wf()
        &&& self.same_setup(before)
        &&& self.statistics() == before.statistics().counted(event.level)
        &&& forall|i: int|
            0 <= i < before.readers().len() ==> (#[trigger] self.readers()[i]).has_taken(
                &before.readers()[i],
                event,
            )
    }

    /// What the console shows for `event` under the switches of `self`.
    pub open spec fn shows(&self, event: MyLogEventModel, output: Option<ConsoleOutput>) -> bool {
        &&& output is Some == self.console_filter().allows(event.level)
        &&& output matches Some(block) ==> {
            &&& block.text@ == console_block(event)
            &&& block.to_stderr == (event.level == LogLevel::Error || event.level
                == LogLevel::FatalError)
        }
    }

    /// A logger with every console switch on, all counters at zero, no
    /// parameters and no reader, for a process that started at `start_time`.
    pub fn new(start_time: Timestamp) -> (logger: Self)
        ensures
            logger.wf(),
            logger.readers().len() == 0,
            logger.params() == ContextModel::empty(),
            logger.statistics() == (LogsStatistics {
                debugs: 0,
                fatal_errors: 0,
                errors: 0,
                warnings: 0,
                info: 0,
            }),
            logger.console_filter() == (ConsoleFilter {
                print_debug: true,
                print_fatal_errors: true,
                print_errors: true,
                print_warnings: true,
                print_infos: true,
            }),
            logger.start_time() == start_time,
    {
        let params: Vec<(String, String)> = Vec::new();
        assert(params.deep_view() == ContextModel::empty());
        Self { inner: MyLoggerInner::new(params, start_time) }
    }

    /// Adds the parameters `Application` and `Version`.
    pub fn populate_app_and_version(&mut self, app_name: &str, app_version: &str)
        ensures
            final(self).params() == old(self).params().push(("Application"@, app_name@)).push(
                ("Version"@, app_version@),
            ),
            final(self).readers() == old(self).readers(),
            final(self).statistics() == old(self).statistics(),
            final(self).console_filter() == old(self).console_filter(),
            final(self).start_time() == old(self).start_time(),
            old(self).wf() ==> final(self).wf(),
    {
        self.inner.populate_params("Application".to_owned(), app_name.to_owned());
        self.inner.populate_params("Version".to_owned(), app_version.to_owned());
    }

    /// Registers a reader: it takes in every event that is logged from now on.
    pub fn plug_reader(&mut self, reader: R)
        requires
            old(self).wf(),
            reader.reader_wf(),
        ensures
            final(self).wf(),
            final(self).readers() == old(self).readers().push(reader),
            final(self).params() == old(self).params(),
            final(self).statistics() == old(self).statistics(),
            final(self).console_filter() == old(self).console_filter(),
            final(self).start_time() == old(self).start_time(),
    {
        self.inner.register_reader(reader);
        assert forall|i: int| 0 <= i < self.readers().len() implies (
        #[trigger] self.readers()[i]).reader_wf() by {
            if i < old(self).readers().len() {
                assert(self.readers()[i] == old(self).readers()[i]);
            }
        }
    }

    /// Adds one parameter of the process.
    pub fn populate_params(&mut self, key: &str, value: &str)
        ensures
            final(self).params() == old(self).params().push((key@, value@)),
            final(self).readers() == old(self).readers(),
            final(self).statistics() == old(self).statistics(),
            final(self).console_filter() == old(self).console_filter(),
            final(self).start_time() == old(self).start_time(),
            old(self).wf() ==> final(self).wf(),
    {
        self.inner.populate_params(key.to_owned(), value.to_owned());
    }

    pub fn get_populated_params(&self) -> (params: &PopulatedParams)
        ensures
            params@ == self.params(),
    {
        self.inner.get_populated_params()
    }

    /// The registered readers.
    pub fn get_readers(&self) -> (readers: &[R])
        ensures
            readers@ == self.readers(),
    {
        self.inner.get_readers()
    }

    /// The console switches.
    pub fn get_console_filter(&self) -> (filter: ConsoleFilter)
        ensures
            filter == self.console_filter(),
    {
        self.inner.console_printer
    }

    /// Sets the console switches.
    pub fn set_console_filter(&mut self, filter: ConsoleFilter)
        ensures
            final(self).console_filter() == filter,
            final(self).readers() == old(self).readers(),
            final(self).params() == old(self).params(),
            final(self).statistics() == old(self).statistics(),
            final(self).start_time() == old(self).start_time(),
            old(self).wf() ==> final(self).wf(),
    {
        self.inner.console_printer = filter;
    }

    /// Logs an event that is already made: counts it, hands it to every
    /// reader, and returns what the console is to show for it.
    pub fn write_log_async(&mut self, log_event: Arc<MyLogEvent>) -> (output: Option<
        ConsoleOutput,
    >)
        requires
            old(self).wf(),
        ensures
            final(self).has_logged(old(self), log_event@),
            old(self).shows(log_event@, output),
    {
        self.inner.update_statistics(log_event.level);
        let output = self.inner.console_printer.print_to_console(&log_event);
        self.inner.log_readers.write_log(&log_event);
        output
    }

    /// Logs an event of `level` that happened at `dt`: counts it, hands it to
    /// every reader, and returns what the console is to show for it.
    pub fn write_log(
        &mut self,
        dt: Timestamp,
        level: LogLevel,
        process: String,
        message: String,
        context: Option<Vec<(String, String)>>,
    ) -> (output: Option<ConsoleOutput>)
        requires
            old(self).wf(),
        ensures
            final(self).has_logged(
                old(self),
                MyLogEventModel {
                    dt: dt.unix_microseconds as int,
                    level,
                    process: process@,
                    message: message@,
                    context: context.deep_view(),
                },
            ),
            old(self).shows(
                MyLogEventModel {
                    dt: dt.unix_microseconds as int,
                    level,
                    process: process@,
                    message: message@,
                    context: context.deep_view(),
                },
                output,
            ),
    {
        let log_event = MyLogEvent { dt, context, level, message, process };
        self.write_log_async(Arc::new(log_event))
    }

    pub fn write_info(&mut self, dt: Timestamp, process: &str, message: &str, ctx: LogEventCtx) -> (output:
        Option<ConsoleOutput>)
        requires
            old(self).wf(),
        ensures
            final(self).has_logged(
                old(self),
                MyLogEventModel {
                    dt: dt.unix_microseconds as int,
                    level: LogLevel::Info,
                    process: process@,
                    message: message@,
                    context: ctx@,
                },
            ),
            old(self).shows(
                MyLogEventModel {
                    dt: dt.unix_microseconds as int,
                    level: LogLevel::Info,
                    process: process@,
                    message: message@,
                    context: ctx@,
                },
                output,
            ),
    {
        self.write_log(
            dt,
            LogLevel::Info,
            process.to_owned(),
            message.to_owned(),
            ctx.get_result(),
        )
    }

    pub fn write_warning(&mut self, dt: Timestamp, process: &str, message: &str, ctx: LogEventCtx) -> (output:
        Option<ConsoleOutput>)
        requires
            old(self).wf(),
        ensures
            final(self).has_logged(
                old(self),
                MyLogEventModel {
                    dt: dt.unix_microseconds as int,
                    level: LogLevel::Warning,
                    process: process@,
                    message: message@,
                    context: ctx@,
                },
            ),
            old(self).shows(
                MyLogEventModel {
                    dt: dt.unix_microseconds as int,
                    level: LogLevel::Warning,
                    process: process@,
                    message: message@,
                    context: ctx@,
                },
                output,
            ),
    {
        self.write_log(
            dt,
            LogLevel::Warning,
            process.to_owned(),
            message.to_owned(),
            ctx.get_result(),
        )
    }

    pub fn write_error(&mut self, dt: Timestamp, process: &str, message: &str, ctx: LogEventCtx) -> (output:
        Option<ConsoleOutput>)
        requires
            old(self).wf(),
        ensures
            final(self).has_logged(
                old(self),
                MyLogEventModel {
                    dt: dt.unix_microseconds as int,
                    level: LogLevel::Error,
                    process: process@,
                    message: message@,
                    context: ctx@,
                },
            ),
            old(self).shows(
                MyLogEventModel {
                    dt: dt.unix_microseconds as int,
                    level: LogLevel::Error,
                    process: process@,
                    message: message@,
                    context: ctx@,
                },
                output,
            ),
    {
        self.write_log(
            dt,
            LogLevel::Error,
            process.to_owned(),
            message.to_owned(),
            ctx.get_result(),
        )
    }

    pub fn write_fatal_error(
        &mut self,
        dt: Timestamp,
        process: &str,
        message: &str,
        ctx: LogEventCtx,
    ) -> (output: Option<ConsoleOutput>)
        requires
            old(self).wf(),
        ensures
            final(self).has_logged(
                old(self),
                MyLogEventModel {
                    dt: dt.unix_microseconds as int,
                    level: LogLevel::FatalError,
                    process: process@,
                    message: message@,
                    context: ctx@,
                },
            ),
            old(self).shows(
                MyLogEventModel {
                    dt: dt.unix_microseconds as int,
                    level: LogLevel::FatalError,
                    process: process@,
                    message: message@,
                    context: ctx@,
                },
                output,
            ),
    {
        self.write_log(
            dt,
            LogLevel::FatalError,
            process.to_owned(),
            message.to_owned(),
            ctx.get_result(),
        )
    }

    pub fn write_debug(&mut self, dt: Timestamp, process: &str, message: &str, ctx: LogEventCtx) -> (output:
        Option<ConsoleOutput>)
        requires
            old(self).wf(),
        ensures
            final(self).has_logged(
                old(self),
                MyLogEventModel {
                    dt: dt.unix_microseconds as int,
                    level: LogLevel::Debug,
                    process: process@,
                    message: message@,
                    context: ctx@,
                },
            ),
            old(self).shows(
                MyLogEventModel {
                    dt: dt.unix_microseconds as int,
                    level: LogLevel::Debug,
                    process: process@,
                    message: message@,
                    context: ctx@,
                },
                output,
            ),
    {
        self.write_log(
            dt,
            LogLevel::Debug,
            process.to_owned(),
            message.to_owned(),
            ctx.get_result(),
        )
    }

    /// Same as [`MyLogger::write_debug`]; kept for callers that use the old
    /// name.
    pub fn write_fatal_debug(
        &mut self,
        dt: Timestamp,
        process: &str,
        message: &str,
        ctx: LogEventCtx,
    ) -> (output: Option<ConsoleOutput>)
        requires
            old(self).wf(),
        ensures
            final(self).has_logged(
                old(self),
                MyLogEventModel {
                    dt: dt.unix_microseconds as int,
                    level: LogLevel::Debug,
                    process: process@,
                    message: message@,
                    context: ctx@,
                },
            ),
            old(self).shows(
                MyLogEventModel {
                    dt: dt.unix_microseconds as int,
                    level: LogLevel::Debug,
                    process: process@,
                    message: message@,
                    context: ctx@,
                },
                output,
            ),
    {
        self.write_debug(dt, process, message, ctx)
    }

    pub fn get_errors_amount(&self) -> (amount: u64)
        ensures
            amount == self.statistics().errors,
    {
        self.inner.statistics.errors
    }

    pub fn get_warnings_amount(&self) -> (amount: u64)
        ensures
            amount == self.statistics().warnings,
    {
        self.inner.statistics.warnings
    }

    pub fn get_fatal_errors_amount(&self) -> (amount: u64)
        ensures
            amount == self.statistics().fatal_errors,
    {
        self.inner.statistics.fatal_errors
    }

    pub fn get_debugs_amount(&self) -> (amount: u64)
        ensures
            amount == self.statistics().debugs,
    {
        self.inner.statistics.debugs
    }

    pub fn get_infos_amount(&self) -> (amount: u64)
        ensures
            amount == self.statistics().info,
    {
        self.inner.statistics.info
    }
}

} // verus!
