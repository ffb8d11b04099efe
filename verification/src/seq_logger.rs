//! The reader that ships events to the log service, and what a panic of the
//! process is turned into.

use crate::console_printer::ConsoleOutput;
use crate::date_time::Timestamp;
use crate::log_event::{LogLevel, MyLogEvent, MyLogEventModel};
use crate::log_event_ctx::{with_entry, LogEventCtx};
use crate::log_events_queue::QueueModel;
use crate::logger::MyLogger;
use crate::logger_reader::MyLoggerReader;
use crate::populated_params::{first_with_key, lemma_first_with_key};
use crate::seq_logger_inner::SeqLoggerInner;
use std::sync::Arc;
use vstd::prelude::*;

verus! {

/// The name of the process under which a panic is logged.
pub const PANIC_PROCESS: &'static str = "Panic Handler";

/// During this time after its start, in microseconds, a process that panics
/// waits for the event of the panic to be sent.
pub const STARTUP_GRACE_MICROS: i64 = 15_000_000;

/// How often at most a process that panics looks whether the event of the
/// panic has been sent.
pub const PANIC_WAIT_POLLS: u32 = 10;

/// Milliseconds between two such looks.
pub const PANIC_POLL_MILLIS: u64 = 100;

/// The reader that ships events to the log service.
pub struct SeqLogger {
    pub inner: SeqLoggerInner,
}

impl SeqLogger {
    /// A reader in which nothing waits.
    pub fn new() -> (reader: Self)
        ensures
            reader.inner.wf(),
            reader.inner.cycle() is None,
            reader.inner.queue() == QueueModel::empty(),
            !reader.inner.queue().has_pending(),
    {
        Self { inner: SeqLoggerInner::new() }
    }
}

impl MyLoggerReader for SeqLogger {
    open spec fn reader_wf(&self) -> bool {
        self.inner.wf()
    }

    /// The event waits in the queue behind what waited before, and the cycle
    /// that is under way is as it was.
    open spec fn has_taken(&self, before: &Self, event: MyLogEventModel) -> bool {
        &&& self.inner.queue() == before.inner.queue().enqueue(event)
        &&& self.inner.cycle() == before.inner.cycle()
        &&& self.inner.max_attempts() == before.inner.max_attempts()
    }

    /// Puts the event into the queue of the shipping loop.
    fn write_log(&mut self, log_event: Arc<MyLogEvent>) {
        let _ = self.inner.enqueue(log_event);
    }

    /// Whether nothing waits and nothing is in flight unconfirmed.
    fn has_no_events(&self) -> (answer: bool)
        ensures
            answer == !self.inner.queue().has_pending(),
    {
        !self.inner.has_pending()
    }
}

/// The context of the event of a panic: where it happened, if that is known,
/// and what the panic says of itself.
pub open spec fn panic_context(panic_info: Seq<char>, location: Option<Seq<char>>) -> Seq<
    (Seq<char>, Seq<char>),
> {
    match location {
        Some(place) => seq![("Location"@, place), ("PanicInfo"@, panic_info)],
        None => seq![("PanicInfo"@, panic_info)],
    }
}

/// The event of a panic.
pub open spec fn panic_event(
    dt: Timestamp,
    message: Seq<char>,
    panic_info: Seq<char>,
    location: Option<Seq<char>>,
) -> MyLogEventModel {
    MyLogEventModel {
        dt: dt.unix_microseconds as int,
        level: LogLevel::FatalError,
        process: "Panic Handler"@,
        message,
        context: Some(panic_context(panic_info, location)),
    }
}

/// The text of an optional string.
pub open spec fn text_of(text: Option<&str>) -> Option<Seq<char>> {
    match text {
        Some(text) => Some(text@),
        None => None,
    }
}

/// Logs a panic of the process: a fatal error of the process
/// `Panic Handler` with the message of the panic, and in its context what the
/// panic says of itself and, where it is known, the place where it happened.
/// It goes through the logger as every other event does.
pub fn on_fatal<R: MyLoggerReader>(
    logger: &mut MyLogger<R>,
    dt: Timestamp,
    message: &str,
    panic_info: &str,
    location: Option<&str>,
) -> (output: Option<ConsoleOutput>)
    requires
        old(logger).wf(),
    ensures
        final(logger).has_logged(
            old(logger),
            panic_event(dt, message@, panic_info@, text_of(location)),
        ),
        old(logger).shows(panic_event(dt, message@, panic_info@, text_of(location)), output),
{
    let ctx = match location {
        Some(place) => LogEventCtx::new().add("Location", place),
        None => LogEventCtx::new(),
    };
    let ctx = ctx.add("PanicInfo", panic_info);
    proof {
        reveal_strlit("Location");
        reveal_strlit("PanicInfo");
        assert("Location"@.len() != "PanicInfo"@.len());
        let empty = Seq::<(Seq<char>, Seq<char>)>::empty();
        match location {
            Some(place) => {
                let first = with_entry(empty, "Location"@, place@);
                assert(first == seq![("Location"@, place@)]);
                lemma_first_with_key(first, "PanicInfo"@);
                if first_with_key(first, "PanicInfo"@) < first.len() {
                    assert(first[0].0 == "Location"@);
                }
                assert(with_entry(first, "PanicInfo"@, panic_info@) == panic_context(
                    panic_info@,
                    text_of(location),
                ));
            },
            None => {
                assert(with_entry(empty, "PanicInfo"@, panic_info@) == panic_context(
                    panic_info@,
                    text_of(location),
                ));
            },
        }
    }
    logger.write_fatal_error(dt, PANIC_PROCESS, message, ctx)
}

/// What a process that panics does next while it waits for the event of the
/// panic to be sent.
#[derive(Debug, Clone, Copy, PartialEq, Eq, Structural)]
pub enum PanicWait {
    /// Wait no longer: let the panic take its course.
    Return,
    /// Wait `after_millis` milliseconds, then look again.
    Poll { after_millis: u64 },
}

/// Whether a process that panics waits on: not once the event is sent, not
/// after `PANIC_WAIT_POLLS` looks, and not at all if the process has been up
/// for `STARTUP_GRACE_MICROS` or longer. Between two looks it waits
/// `PANIC_POLL_MILLIS` milliseconds, so that all looks together take about a
/// second.
pub open spec fn panic_wait_of(started: int, now: int, polls_done: u32, sent: bool) -> PanicWait {
    if sent || polls_done >= PANIC_WAIT_POLLS || now - started >= STARTUP_GRACE_MICROS {
        PanicWait::Return
    } else {
        PanicWait::Poll { after_millis: PANIC_POLL_MILLIS }
    }
}

/// Decides whether a process that panics waits on for the event of the panic
/// to be sent. `polls_done` counts the looks that the process has taken so
/// far.
pub fn panic_wait(started: Timestamp, now: Timestamp, polls_done: u32, sent: bool) -> (next:
    PanicWait)
    ensures
        next == panic_wait_of(
            started.unix_microseconds as int,
            now.unix_microseconds as int,
            polls_done,
            sent,
        ),
{
    let uptime: i128 = now.unix_microseconds as i128 - started.unix_microseconds as i128;
    if sent || polls_done >= PANIC_WAIT_POLLS || uptime >= STARTUP_GRACE_MICROS as i128 {
        PanicWait::Return
    } else {
        PanicWait::Poll { after_millis: PANIC_POLL_MILLIS }
    }
}

} // verus!
