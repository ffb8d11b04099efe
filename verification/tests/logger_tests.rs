use my_logger::seq_logger::{PANIC_POLL_MILLIS, PANIC_PROCESS, PANIC_WAIT_POLLS, STARTUP_GRACE_MICROS};
use my_logger::{
    on_fatal, panic_wait, ConsoleFilter, LogEventCtx, LogLevel, LogReaders, MyLogEvent, MyLogger,
    MyLoggerInner, MyLoggerReader, PanicWait, PopulatedParams, SeqLogger, TickAction, Timestamp,
    UploadOutcome,
};
use std::sync::Arc;

fn pair(key: &str, value: &str) -> (String, String) {
    (key.to_string(), value.to_string())
}

fn logger_with_readers(count: usize) -> MyLogger<SeqLogger> {
    let mut logger = MyLogger::new(Timestamp::new(0));
    for _ in 0..count {
        logger.plug_reader(SeqLogger::new());
    }
    logger
}

#[test]
fn a_new_logger_has_no_readers_and_no_counts() {
    let logger: MyLogger<SeqLogger> = MyLogger::new(Timestamp::new(5));
    assert_eq!(0, logger.get_readers().len());
    assert!(logger.get_populated_params().is_empty());
    assert_eq!(0, logger.get_infos_amount());
    assert_eq!(0, logger.get_warnings_amount());
    assert_eq!(0, logger.get_errors_amount());
    assert_eq!(0, logger.get_fatal_errors_amount());
    assert_eq!(0, logger.get_debugs_amount());
    assert_eq!(ConsoleFilter::new(), logger.get_console_filter());
}

#[test]
fn logging_counts_shows_and_hands_on() {
    let mut logger = logger_with_readers(2);
    let output = logger.write_info(
        Timestamp::new(1_000_000),
        "App",
        "Started",
        LogEventCtx::new().add("k", "v"),
    );
    let output = output.unwrap();
    assert!(!output.to_stderr);
    assert_eq!(
        "1970-01-01T00:00:01.000000+00:00 Info\nProcess: App\nMessage: Started\nContext: {\"k\": \"v\"}\n-------------------\n",
        output.text
    );
    assert_eq!(1, logger.get_infos_amount());
    assert_eq!(0, logger.get_errors_amount());
    for reader in logger.get_readers() {
        assert!(!reader.has_no_events());
        assert!(reader.inner.has_pending());
        assert_eq!(1, reader.inner.next_ticket());
    }
}

#[test]
fn every_level_has_its_entry_point_and_its_counter() {
    let mut logger = logger_with_readers(1);
    let dt = Timestamp::new(0);
    logger.write_info(dt, "p", "m", LogEventCtx::new());
    logger.write_warning(dt, "p", "m", LogEventCtx::new());
    logger.write_warning(dt, "p", "m", LogEventCtx::new());
    logger.write_error(dt, "p", "m", LogEventCtx::new());
    logger.write_fatal_error(dt, "p", "m", LogEventCtx::new());
    logger.write_debug(dt, "p", "m", LogEventCtx::new());
    logger.write_fatal_debug(dt, "p", "m", LogEventCtx::new());
    logger.write_log(dt, LogLevel::Error, "p".to_string(), "m".to_string(), None);
    assert_eq!(1, logger.get_infos_amount());
    assert_eq!(2, logger.get_warnings_amount());
    assert_eq!(2, logger.get_errors_amount());
    assert_eq!(1, logger.get_fatal_errors_amount());
    assert_eq!(2, logger.get_debugs_amount());
    assert_eq!(8, logger.get_readers()[0].inner.next_ticket());
}

#[test]
fn the_console_filter_decides_what_is_shown_but_not_what_is_shipped() {
    let mut logger = logger_with_readers(1);
    let mut filter = logger.get_console_filter();
    filter.set_print_debug(false);
    logger.set_console_filter(filter);
    let shown = logger.write_debug(Timestamp::new(0), "p", "m", LogEventCtx::new());
    assert!(shown.is_none());
    assert_eq!(1, logger.get_debugs_amount());
    assert!(logger.get_readers()[0].inner.has_pending());
    let shown = logger.write_error(Timestamp::new(0), "p", "m", LogEventCtx::new());
    assert!(shown.unwrap().to_stderr);
}

#[test]
fn an_event_that_is_already_made_is_logged_as_it_is() {
    let mut logger = logger_with_readers(1);
    let event = Arc::new(MyLogEvent {
        dt: Timestamp::new(2_000_000),
        level: LogLevel::Warning,
        process: "App".to_string(),
        message: "Careful".to_string(),
        context: None,
    });
    let output = logger.write_log_async(event).unwrap();
    assert_eq!(
        "1970-01-01T00:00:02.000000+00:00 Warning\nProcess: App\nMessage: Careful\n-------------------\n",
        output.text
    );
    assert_eq!(1, logger.get_warnings_amount());
}

#[test]
fn parameters_are_kept_in_the_order_they_were_given() {
    let mut logger = logger_with_readers(0);
    logger.populate_app_and_version("demo", "1.2.3");
    logger.populate_params("Location", "here");
    assert_eq!(
        &[pair("Application", "demo"), pair("Version", "1.2.3"), pair("Location", "here")][..],
        logger.get_populated_params().get_data()
    );
}

#[test]
fn the_registry_keeps_readers_and_parameters() {
    let mut registry: LogReaders<SeqLogger> = LogReaders::new(vec![pair("a", "1")]);
    assert_eq!(0, registry.get_readers().len());
    registry.register_reader(SeqLogger::new());
    registry.populate_params("b".to_string(), "2".to_string());
    assert_eq!(1, registry.get_readers().len());
    assert_eq!(&[pair("a", "1"), pair("b", "2")][..], registry.get_populated_params().get_data());
    let event = Arc::new(MyLogEvent {
        dt: Timestamp::new(0),
        level: LogLevel::Info,
        process: "p".to_string(),
        message: "m".to_string(),
        context: None,
    });
    registry.write_log(&event);
    registry.write_log(&event);
    assert_eq!(2, registry.get_readers()[0].inner.next_ticket());
}

#[test]
fn the_logger_state_counts_and_registers() {
    let mut inner: MyLoggerInner<SeqLogger> = MyLoggerInner::new(vec![pair("a", "1")], Timestamp::new(9));
    assert_eq!(Timestamp::new(9), inner.start_time);
    inner.update_statistics(LogLevel::FatalError);
    assert_eq!(1, inner.statistics.fatal_errors);
    inner.populate_params("b".to_string(), "2".to_string());
    inner.register_reader(SeqLogger::new());
    assert_eq!(1, inner.get_readers().len());
    assert_eq!(2, inner.get_populated_params().len());
}

#[test]
fn a_reader_takes_events_in_and_reports_when_all_is_dealt_with() {
    let mut reader = SeqLogger::new();
    assert!(reader.has_no_events());
    reader.write_log(Arc::new(MyLogEvent {
        dt: Timestamp::new(0),
        level: LogLevel::Info,
        process: "p".to_string(),
        message: "m".to_string(),
        context: None,
    }));
    assert!(!reader.has_no_events());
    let params = PopulatedParams::new_empty();
    assert!(matches!(reader.inner.tick("url=x", &params), TickAction::Upload));
    assert!(!reader.has_no_events());
    reader.inner.upload_finished(UploadOutcome::Status(200));
    assert!(reader.has_no_events());
}

#[test]
fn a_panic_is_logged_as_a_fatal_error_of_the_panic_handler() {
    assert_eq!("Panic Handler", PANIC_PROCESS);
    let mut logger = logger_with_readers(1);
    let output = on_fatal(
        &mut logger,
        Timestamp::new(0),
        "\"boom\"",
        "panicked at src/main.rs:3:5: boom",
        Some("src/main.rs:3:5"),
    )
    .unwrap();
    assert!(output.to_stderr);
    assert_eq!(
        "1970-01-01T00:00:00.000000+00:00 FatalError\n\
Process: Panic Handler\n\
Message: \"boom\"\n\
Context: {\"Location\": \"src/main.rs:3:5\", \"PanicInfo\": \"panicked at src/main.rs:3:5: boom\"}\n\
-------------------\n",
        output.text
    );
    assert_eq!(1, logger.get_fatal_errors_amount());
    assert!(logger.get_readers()[0].inner.has_pending());
    let output = on_fatal(&mut logger, Timestamp::new(0), "m", "info", None).unwrap();
    assert!(output.text.contains("Context: {\"PanicInfo\": \"info\"}\n"));
}

#[test]
fn a_panicking_process_waits_only_during_its_first_seconds_and_not_for_long() {
    assert_eq!(15_000_000, STARTUP_GRACE_MICROS);
    assert_eq!(10, PANIC_WAIT_POLLS);
    assert_eq!(100, PANIC_POLL_MILLIS);
    let started = Timestamp::new(1_000_000_000);
    let early = Timestamp::new(1_000_000_000 + 14_999_999);
    let late = Timestamp::new(1_000_000_000 + 15_000_000);
    assert_eq!(PanicWait::Poll { after_millis: 100 }, panic_wait(started, early, 0, false));
    assert_eq!(PanicWait::Poll { after_millis: 100 }, panic_wait(started, early, 9, false));
    assert_eq!(PanicWait::Return, panic_wait(started, early, 10, false));
    assert_eq!(PanicWait::Return, panic_wait(started, early, 3, true));
    assert_eq!(PanicWait::Return, panic_wait(started, late, 0, false));
    assert_eq!(PanicWait::Poll { after_millis: 100 }, panic_wait(started, Timestamp::new(0), 0, false));
    assert_eq!(
        PanicWait::Return,
        panic_wait(Timestamp::new(i64::MIN), Timestamp::new(i64::MAX), 0, false)
    );
    assert_eq!(
        PanicWait::Poll { after_millis: 100 },
        panic_wait(Timestamp::new(i64::MAX), Timestamp::new(i64::MIN), 0, false)
    );
}
