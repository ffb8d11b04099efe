use my_logger::seq_logger_inner::CONFIG_RETRY_SECS;
use my_logger::{
    serialize, LogLevel, MyLogEvent, PopulatedParams, SeqLoggerInner, SettingsError, TickAction,
    Timestamp, UploadAction, UploadOutcome, UploadStep,
};
use std::sync::Arc;
use std::time::Duration;

fn event(number: i64) -> Arc<MyLogEvent> {
    Arc::new(MyLogEvent {
        dt: Timestamp::new(number),
        level: LogLevel::Info,
        process: "test".to_string(),
        message: format!("event {}", number),
        context: None,
    })
}

fn record(number: i64, params: &PopulatedParams) -> String {
    serialize(String::new(), &event(number), params)
}

fn failed(action: UploadAction) -> UploadStep {
    UploadStep { dropped: false, action }
}

const OK: UploadOutcome = UploadOutcome::Status(200);

const RETRY: UploadAction = UploadAction::Retry { delay_secs: 1 };

#[test]
fn a_tick_with_nothing_queued_sleeps_for_the_flush_delay() {
    let mut inner = SeqLoggerInner::new();
    let params = PopulatedParams::new_empty();
    match inner.tick("url=x.test;flushdelay=7", &params) {
        TickAction::Sleep(delay) => assert_eq!(Duration::from_secs(7), delay),
        other => panic!("unexpected action {:?}", other),
    }
    match inner.tick("url=x.test", &params) {
        TickAction::Sleep(delay) => assert_eq!(Duration::from_secs(1), delay),
        other => panic!("unexpected action {:?}", other),
    }
    assert!(inner.get_cycle().is_none());
    assert!(inner.current_body().is_none());
}

#[test]
fn a_refused_connection_string_changes_nothing() {
    assert_eq!(5, CONFIG_RETRY_SECS);
    let mut inner = SeqLoggerInner::new();
    let ticket = inner.enqueue(event(1));
    let params = PopulatedParams::new_empty();
    match inner.tick("apikey=k", &params) {
        TickAction::ConfigError { error: SettingsError::NoUrl, retry_after_secs } => {
            assert_eq!(5, retry_after_secs)
        }
        other => panic!("unexpected action {:?}", other),
    }
    match inner.tick("url=x;colour=red", &params) {
        TickAction::ConfigError { error: SettingsError::InvalidKey(key), retry_after_secs } => {
            assert_eq!("colour", key);
            assert_eq!(CONFIG_RETRY_SECS, retry_after_secs);
        }
        other => panic!("unexpected action {:?}", other),
    }
    assert!(inner.get_cycle().is_none());
    assert!(inner.has_pending());
    assert!(!inner.is_sent(ticket));
    match inner.tick("url=x", &params) {
        TickAction::Upload => {}
        other => panic!("unexpected action {:?}", other),
    }
}

#[test]
fn five_events_are_pending_until_one_cycle_has_shipped_them() {
    let mut inner = SeqLoggerInner::new();
    let mut tickets = Vec::new();
    for i in 0..5 {
        tickets.push(inner.enqueue(event(i)));
    }
    assert!(inner.has_pending());
    let params = PopulatedParams::new(vec![("Application".to_string(), "demo".to_string())]);
    let action = inner.tick("url=http://seq.test;apikey=secret;flushlogschunk=100000", &params);
    assert!(matches!(action, TickAction::Upload));
    assert!(inner.has_pending());
    let cycle = inner.get_cycle().unwrap();
    assert_eq!("http://seq.test", cycle.url);
    assert_eq!(Some("secret".to_string()), cycle.api_key);
    assert_eq!(tickets, cycle.tickets);
    assert_eq!(1, cycle.chunks.len());
    assert_eq!(0, cycle.current);
    assert_eq!(1, cycle.attempt_no);
    assert_eq!(3, cycle.max_attempts);
    let expected: Vec<String> = (0..5).map(|i| record(i, &params)).collect();
    assert_eq!(expected.join("\r\n").as_bytes(), inner.current_body().unwrap());
    let step = inner.upload_finished(OK);
    assert_eq!(failed(UploadAction::Done), step);
    assert!(inner.get_cycle().is_none());
    assert!(!inner.has_pending());
    for ticket in tickets {
        assert!(inner.is_sent(ticket));
    }
    assert!(matches!(inner.tick("url=http://seq.test", &params), TickAction::Sleep(_)));
}

#[test]
fn a_chunk_that_keeps_failing_is_dropped_after_its_last_attempt() {
    let mut inner = SeqLoggerInner::new();
    let first = inner.enqueue(event(1));
    let second = inner.enqueue(event(2));
    let params = PopulatedParams::new_empty();
    assert!(matches!(inner.tick("url=x;flushlogschunk=100000", &params), TickAction::Upload));
    assert_eq!(failed(RETRY), inner.upload_finished(UploadOutcome::TransportError));
    assert_eq!(2, inner.get_cycle().unwrap().attempt_no);
    assert!(!inner.is_sent(first));
    assert_eq!(failed(RETRY), inner.upload_finished(UploadOutcome::Status(500)));
    assert_eq!(3, inner.get_cycle().unwrap().attempt_no);
    assert!(inner.has_pending());
    let step = inner.upload_finished(UploadOutcome::TransportError);
    assert_eq!(UploadStep { dropped: true, action: UploadAction::Done }, step);
    assert!(inner.get_cycle().is_none());
    assert!(inner.is_sent(first));
    assert!(inner.is_sent(second));
    assert!(!inner.has_pending());
    assert_eq!(failed(UploadAction::Done), inner.upload_finished(OK));
}

#[test]
fn a_retry_that_succeeds_delivers_the_chunk() {
    let mut inner = SeqLoggerInner::new();
    let ticket = inner.enqueue(event(1));
    let params = PopulatedParams::new_empty();
    inner.tick("url=x", &params);
    assert_eq!(failed(RETRY), inner.upload_finished(UploadOutcome::Status(503)));
    let body_before = inner.current_body().unwrap().to_vec();
    assert_eq!(record(1, &params).into_bytes(), body_before);
    assert_eq!(failed(UploadAction::Done), inner.upload_finished(UploadOutcome::Status(201)));
    assert!(inner.is_sent(ticket));
    assert!(!inner.has_pending());
}

#[test]
fn a_dropped_chunk_does_not_stall_the_chunks_behind_it() {
    let mut inner = SeqLoggerInner::new();
    let mut tickets = Vec::new();
    for i in 0..3 {
        tickets.push(inner.enqueue(event(i)));
    }
    let params = PopulatedParams::new_empty();
    // The default budget of 50 bytes is less than one record: every record is a chunk.
    assert!(matches!(inner.tick("url=x", &params), TickAction::Upload));
    assert_eq!(3, inner.get_cycle().unwrap().chunks.len());
    assert_eq!(record(0, &params).as_bytes(), inner.current_body().unwrap());
    inner.upload_finished(UploadOutcome::TransportError);
    inner.upload_finished(UploadOutcome::TransportError);
    let step = inner.upload_finished(UploadOutcome::TransportError);
    assert_eq!(UploadStep { dropped: true, action: UploadAction::Next }, step);
    assert!(inner.is_sent(tickets[0]));
    assert!(!inner.is_sent(tickets[1]));
    assert!(!inner.is_sent(tickets[2]));
    assert_eq!(1, inner.get_cycle().unwrap().current);
    assert_eq!(1, inner.get_cycle().unwrap().attempt_no);
    assert_eq!(record(1, &params).as_bytes(), inner.current_body().unwrap());
    assert_eq!(failed(UploadAction::Next), inner.upload_finished(OK));
    assert!(inner.is_sent(tickets[1]));
    assert_eq!(record(2, &params).as_bytes(), inner.current_body().unwrap());
    assert!(inner.has_pending());
    assert_eq!(failed(UploadAction::Done), inner.upload_finished(OK));
    assert!(!inner.has_pending());
}

#[test]
fn chunks_stay_within_the_budget_of_the_settings() {
    let mut inner = SeqLoggerInner::new();
    for i in 0..10 {
        inner.enqueue(event(i));
    }
    let params = PopulatedParams::new_empty();
    let one = record(0, &params).len();
    let budget = 3 * one + 4;
    let conn = format!("url=x;flushlogschunk={}", budget);
    assert!(matches!(inner.tick(&conn, &params), TickAction::Upload));
    let cycle = inner.get_cycle().unwrap();
    assert_eq!(4, cycle.chunks.len());
    for chunk in &cycle.chunks {
        assert!(chunk.body.len() <= budget);
    }
    assert_eq!(vec![3, 3, 3, 1], cycle.chunks.iter().map(|c| c.count).collect::<Vec<usize>>());
}

#[test]
fn events_that_arrive_during_a_cycle_wait_for_the_next_one() {
    let mut inner = SeqLoggerInner::new();
    let first = inner.enqueue(event(1));
    let params = PopulatedParams::new_empty();
    inner.tick("url=x", &params);
    let second = inner.enqueue(event(2));
    assert!(matches!(inner.tick("url=other", &params), TickAction::Upload));
    assert_eq!("x", inner.get_cycle().unwrap().url);
    assert_eq!(failed(UploadAction::Done), inner.upload_finished(OK));
    assert!(inner.is_sent(first));
    assert!(!inner.is_sent(second));
    assert!(inner.has_pending());
    assert!(matches!(inner.tick("url=other", &params), TickAction::Upload));
    assert_eq!("other", inner.get_cycle().unwrap().url);
    assert_eq!(record(2, &params).as_bytes(), inner.current_body().unwrap());
    inner.upload_finished(OK);
    assert!(!inner.has_pending());
}

#[test]
fn the_queue_size_of_the_settings_caps_the_queue() {
    let mut inner = SeqLoggerInner::new();
    let mut tickets = Vec::new();
    for i in 0..5 {
        tickets.push(inner.enqueue(event(i)));
    }
    let params = PopulatedParams::new_empty();
    assert!(matches!(inner.tick("url=x;queuesize=2;flushlogschunk=100000", &params), TickAction::Upload));
    assert_eq!(vec![tickets[3], tickets[4]], inner.get_cycle().unwrap().tickets);
    let expected = format!("{}\r\n{}", record(3, &params), record(4, &params));
    assert_eq!(expected.as_bytes(), inner.current_body().unwrap());
    inner.upload_finished(OK);
    for i in 5..10 {
        inner.enqueue(event(i));
    }
    assert!(matches!(inner.tick("url=x;queuesize=2;flushlogschunk=100000", &params), TickAction::Upload));
    assert_eq!(2, inner.get_cycle().unwrap().tickets.len());
}

#[test]
fn the_number_of_attempts_can_be_set() {
    let mut inner = SeqLoggerInner::new();
    inner.set_max_attempts(1);
    inner.enqueue(event(1));
    let params = PopulatedParams::new_empty();
    inner.tick("url=x", &params);
    let step = inner.upload_finished(UploadOutcome::TransportError);
    assert_eq!(UploadStep { dropped: true, action: UploadAction::Done }, step);
    inner.set_max_attempts(0);
    inner.enqueue(event(2));
    inner.tick("url=x", &params);
    assert_eq!(1, inner.get_cycle().unwrap().max_attempts);
    inner.upload_finished(OK);
    inner.set_max_attempts(10);
    inner.enqueue(event(3));
    inner.tick("url=x", &params);
    for _ in 0..9 {
        assert_eq!(failed(RETRY), inner.upload_finished(UploadOutcome::TransportError));
    }
    let step = inner.upload_finished(UploadOutcome::TransportError);
    assert_eq!(UploadStep { dropped: true, action: UploadAction::Done }, step);
    assert!(!inner.has_pending());
}

#[test]
fn a_chunk_is_never_larger_than_two_mebibytes_unless_it_is_one_record() {
    let mut inner = SeqLoggerInner::new();
    let big = "x".repeat(1_200_000);
    for i in 0..3 {
        inner.enqueue(Arc::new(MyLogEvent {
            dt: Timestamp::new(i),
            level: LogLevel::Info,
            process: "test".to_string(),
            message: big.clone(),
            context: None,
        }));
    }
    let params = PopulatedParams::new_empty();
    assert!(matches!(inner.tick("url=x;flushlogschunk=100000000", &params), TickAction::Upload));
    let cycle = inner.get_cycle().unwrap();
    assert_eq!(3, cycle.chunks.len());
    for chunk in &cycle.chunks {
        assert!(chunk.body.len() <= 2 * 1024 * 1024);
    }
}
