use my_logger::console_printer::write_log;
use my_logger::{ConsoleFilter, LogLevel, MyLogEvent, Timestamp};

fn event(micros: i64, level: LogLevel) -> MyLogEvent {
    MyLogEvent {
        dt: Timestamp::new(micros),
        level,
        process: "App".to_string(),
        message: "Something happened".to_string(),
        context: None,
    }
}

#[test]
fn a_new_filter_lets_every_level_through() {
    let filter = ConsoleFilter::new();
    assert!(filter.print_debug);
    assert!(filter.print_fatal_errors);
    assert!(filter.print_errors);
    assert!(filter.print_warnings);
    assert!(filter.print_infos);
    for level in [
        LogLevel::Info,
        LogLevel::Warning,
        LogLevel::Error,
        LogLevel::FatalError,
        LogLevel::Debug,
    ] {
        assert!(filter.print_to_console(&event(0, level)).is_some());
    }
}

#[test]
fn each_switch_sets_its_own_level_only() {
    let mut filter = ConsoleFilter::new();
    filter.set_print_fatal_errors(false);
    assert_eq!(
        ConsoleFilter {
            print_debug: true,
            print_fatal_errors: false,
            print_errors: true,
            print_warnings: true,
            print_infos: true
        },
        filter
    );
    filter.set_print_errors(false);
    filter.set_print_warnings(false);
    filter.set_print_infos(false);
    filter.set_print_debug(false);
    assert_eq!(
        ConsoleFilter {
            print_debug: false,
            print_fatal_errors: false,
            print_errors: false,
            print_warnings: false,
            print_infos: false
        },
        filter
    );
    filter.set_print_warnings(true);
    assert!(filter.print_to_console(&event(0, LogLevel::Warning)).is_some());
    assert!(filter.print_to_console(&event(0, LogLevel::Info)).is_none());
    assert!(filter.print_to_console(&event(0, LogLevel::Error)).is_none());
    assert!(filter.print_to_console(&event(0, LogLevel::FatalError)).is_none());
    assert!(filter.print_to_console(&event(0, LogLevel::Debug)).is_none());
}

#[test]
fn with_debug_switched_off_two_of_three_events_are_shown() {
    let mut filter = ConsoleFilter::new();
    filter.set_print_debug(false);
    let events = [
        event(1_000_000, LogLevel::Info),
        event(2_000_000, LogLevel::Error),
        event(3_000_000, LogLevel::Debug),
    ];
    let mut blocks = Vec::new();
    for e in &events {
        if let Some(block) = filter.print_to_console(e) {
            blocks.push(block);
        }
    }
    assert_eq!(2, blocks.len());
    assert!(blocks[0].text.starts_with("1970-01-01T00:00:01.000000+00:00 Info\n"));
    assert!(!blocks[0].to_stderr);
    assert!(blocks[1].text.starts_with("1970-01-01T00:00:02.000000+00:00 Error\n"));
    assert!(blocks[1].to_stderr);
}

#[test]
fn block_without_context() {
    let output = write_log(&event(1_619_371_843_602_432, LogLevel::Warning));
    assert_eq!(
        "2021-04-25T17:30:43.602432+00:00 Warning\n\
Process: App\n\
Message: Something happened\n\
-------------------\n",
        output.text
    );
    assert!(!output.to_stderr);
}

#[test]
fn block_with_context() {
    let mut e = event(0, LogLevel::FatalError);
    e.context = Some(vec![
        ("HostPort".to_string(), "10.0.0.3:5125".to_string()),
        ("Quote".to_string(), "say \"hi\"\n".to_string()),
    ]);
    let output = write_log(&e);
    assert_eq!(
        "1970-01-01T00:00:00.000000+00:00 FatalError\n\
Process: App\n\
Message: Something happened\n\
Context: {\"HostPort\": \"10.0.0.3:5125\", \"Quote\": \"say \\\"hi\\\"\\n\"}\n\
-------------------\n",
        output.text
    );
    assert!(output.to_stderr);
}

#[test]
fn block_with_empty_context() {
    let mut e = event(0, LogLevel::Debug);
    e.context = Some(vec![]);
    let output = write_log(&e);
    assert_eq!(
        "1970-01-01T00:00:00.000000+00:00 Debug\n\
Process: App\n\
Message: Something happened\n\
Context: {}\n\
-------------------\n",
        output.text
    );
}

#[test]
fn errors_go_to_standard_error() {
    assert!(write_log(&event(0, LogLevel::Error)).to_stderr);
    assert!(write_log(&event(0, LogLevel::FatalError)).to_stderr);
    assert!(!write_log(&event(0, LogLevel::Info)).to_stderr);
    assert!(!write_log(&event(0, LogLevel::Warning)).to_stderr);
    assert!(!write_log(&event(0, LogLevel::Debug)).to_stderr);
}
