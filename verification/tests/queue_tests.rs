use my_logger::{LogEventsQueue, LogLevel, MyLogEvent, Timestamp};
use std::sync::Arc;

fn event(number: i64) -> Arc<MyLogEvent> {
    Arc::new(MyLogEvent {
        dt: Timestamp::new(number),
        level: LogLevel::Info,
        process: "test".to_string(),
        message: format!("event {}", number),
        context: None,
    })
}

fn numbers(batch: &[my_logger::QueuedEvent]) -> Vec<i64> {
    batch.iter().map(|queued| queued.event.dt.unix_microseconds).collect()
}

#[test]
fn a_new_queue_is_empty() {
    let mut queue = LogEventsQueue::new();
    assert_eq!(0, queue.len());
    assert!(!queue.has_pending());
    assert!(queue.dequeue(10).is_none());
    assert_eq!(0, queue.next_ticket());
}

#[test]
fn events_come_out_in_arrival_order() {
    let mut queue = LogEventsQueue::new();
    for i in 0..10 {
        assert_eq!(i as u64, queue.enqueue(event(i)));
    }
    assert_eq!(10, queue.len());
    let mut seen = Vec::new();
    let mut batches = 0;
    loop {
        match queue.dequeue(3) {
            Some(batch) => {
                assert!(batch.len() <= 3);
                seen.extend(numbers(&batch));
                batches += 1;
            }
            None => break,
        }
    }
    assert_eq!((0..10).collect::<Vec<i64>>(), seen);
    assert_eq!(4, batches);
    assert_eq!(0, queue.len());
}

#[test]
fn a_batch_takes_the_oldest_and_leaves_the_rest() {
    let mut queue = LogEventsQueue::new();
    for i in 0..5 {
        queue.enqueue(event(i));
    }
    let batch = queue.dequeue(2).unwrap();
    assert_eq!(vec![0, 1], numbers(&batch));
    assert_eq!(vec![0u64, 1], batch.iter().map(|q| q.ticket).collect::<Vec<u64>>());
    assert_eq!(3, queue.len());
    let batch = queue.dequeue(100).unwrap();
    assert_eq!(vec![2, 3, 4], numbers(&batch));
    assert!(queue.dequeue(1).is_none());
}

#[test]
fn a_batch_of_no_events_from_a_queue_that_holds_some() {
    let mut queue = LogEventsQueue::new();
    queue.enqueue(event(1));
    let batch = queue.dequeue(0).unwrap();
    assert!(batch.is_empty());
    assert_eq!(1, queue.len());
}

#[test]
fn what_is_taken_is_in_flight_until_confirmed() {
    let mut queue = LogEventsQueue::new();
    let first = queue.enqueue(event(1));
    let second = queue.enqueue(event(2));
    assert!(queue.has_pending());
    assert!(!queue.is_sent(first));
    let batch = queue.dequeue(10).unwrap();
    assert_eq!(2, batch.len());
    assert_eq!(0, queue.len());
    assert!(queue.has_pending());
    assert!(!queue.is_sent(first));
    queue.confirm(first);
    assert!(queue.is_sent(first));
    assert!(!queue.is_sent(second));
    assert!(queue.has_pending());
    queue.collect_garbage();
    assert!(queue.is_sent(first));
    assert!(!queue.is_sent(second));
    assert!(queue.has_pending());
    queue.confirm(second);
    assert!(!queue.has_pending());
    queue.collect_garbage();
    assert!(!queue.has_pending());
    assert!(queue.is_sent(second));
}

#[test]
fn pruning_leaves_unconfirmed_entries() {
    let mut queue = LogEventsQueue::new();
    let ticket = queue.enqueue(event(1));
    queue.dequeue(1);
    queue.collect_garbage();
    assert!(queue.has_pending());
    assert!(!queue.is_sent(ticket));
}

#[test]
fn a_cap_evicts_the_oldest() {
    let mut queue = LogEventsQueue::new();
    queue.set_queue_size(Some(3));
    for i in 0..5 {
        queue.enqueue(event(i));
    }
    assert_eq!(3, queue.len());
    let batch = queue.dequeue(10).unwrap();
    assert_eq!(vec![2, 3, 4], numbers(&batch));
}

#[test]
fn setting_a_cap_evicts_at_once_and_lifting_it_lets_the_queue_grow() {
    let mut queue = LogEventsQueue::new();
    for i in 0..5 {
        queue.enqueue(event(i));
    }
    queue.set_queue_size(Some(2));
    assert_eq!(2, queue.len());
    queue.set_queue_size(None);
    for i in 5..10 {
        queue.enqueue(event(i));
    }
    assert_eq!(7, queue.len());
    let batch = queue.dequeue(10).unwrap();
    assert_eq!(vec![3, 4, 5, 6, 7, 8, 9], numbers(&batch));
}

#[test]
fn a_cap_of_zero_keeps_nothing() {
    let mut queue = LogEventsQueue::new();
    queue.set_queue_size(Some(0));
    let ticket = queue.enqueue(event(1));
    assert_eq!(0, queue.len());
    assert!(!queue.has_pending());
    assert!(queue.is_sent(ticket));
}
