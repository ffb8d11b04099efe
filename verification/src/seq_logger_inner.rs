//! The shipping loop as a state machine. The loop itself, with its waits and
//! its uploads, runs outside; here is what it decides: what a tick starts,
//! and what follows each attempt to upload a chunk.

use crate::log_event::MyLogEvent;
use crate::log_events_queue::{
    events_of, payloads, unsent, InFlight, LogEventsQueue, QueueModel, QueuedEventModel,
};
use crate::populated_params::PopulatedParams;
use crate::serializer::{record_bytes, serialize};
use crate::settings::{duration_of_secs, parse_conn_string, SeqLoggerSettings, SettingsError};
use crate::upload_logs_chunk::{
    is_packing, pack_chunks, records_of, upload_verdict, verdict_of, LogsChunk, UploadOutcome,
    UploadVerdict, MAX_CHUNK_SIZE, MAX_UPLOAD_ATTEMPTS, RETRY_DELAY_SECS,
};
use std::sync::Arc;
use std::time::Duration;
use vstd::prelude::*;
use vstd::string::StrSliceExecFns;
use vstd::utf8::encode_utf8;

verus! {

/// Seconds to wait before the settings are read again after a connection
/// string was refused.
pub const CONFIG_RETRY_SECS: u64 = 5;

/// What one shipping cycle works on: the settings it began with, the chunks
/// of the batch it took, and how far it has come.
#[derive(Debug)]
pub struct ShippingCycle {
    /// Where the chunks go.
    pub url: String,
    /// The key that goes with each upload, if there is one.
    pub api_key: Option<String>,
    /// The chunks of the batch.
    pub chunks: Vec<LogsChunk>,
    /// The tickets of the events of the batch, in the order of the records.
    pub tickets: Vec<u64>,
    /// The index of the chunk that is being uploaded.
    pub current: usize,
    /// The number of the attempt that is under way; the first one has the
    /// number 1.
    pub attempt_no: u32,
    /// How many attempts a chunk gets.
    pub max_attempts: u32,
}

impl ShippingCycle {
    /// A chunk is being uploaded, its attempt is one of those it gets, and
    /// the chunks divide the records of the batch, of which each has its
    /// ticket, among themselves: each chunk holds at least one record and
    /// starts where the one before it ends, and the last one ends with the
    /// batch.
    pub open spec fn wf(&self) -> bool {
        &&& self.current < self.chunks@.len()
        &&& 1 <= self.attempt_no <= self.max_attempts
        &&& forall|k: int|
            0 <= k < self.chunks@.len() ==> (#[trigger] self.chunks@[k]).count >= 1
                && self.chunks@[k].end() <= self.tickets@.len()
        &&& forall|k: int|
            0 <= k < self.chunks@.len() - 1 ==> self.chunks@[k + 1].first == (
            #[trigger] self.chunks@[k]).end()
        &&& self.chunks@[0].first == 0
        &&& self.chunks@.last().end() == self.tickets@.len()
    }

    /// The tickets of the events in the chunk that is being uploaded.
    pub open spec fn chunk_tickets(&self) -> Seq<u64> {
        self.tickets@.subrange(
            self.chunks@[self.current as int].first as int,
            self.chunks@[self.current as int].end(),
        )
    }

    /// The cycle when the next attempt at the same chunk is under way.
    pub open spec fn retrying(self) -> ShippingCycle {
        ShippingCycle { attempt_no: (self.attempt_no + 1) as u32, ..self }
    }

    /// The cycle when the chunk is done with: the next chunk is being
    /// uploaded, or the cycle is over.
    pub open spec fn advanced(self) -> Option<ShippingCycle> {
        if self.current + 1 < self.chunks@.len() {
            Some(ShippingCycle { current: (self.current + 1) as usize, attempt_no: 1, ..self })
        } else {
            None
        }
    }
}

/// The tickets of queued events.
pub open spec fn tickets_of(batch: Seq<QueuedEventModel>) -> Seq<u64> {
    batch.map_values(|queued: QueuedEventModel| queued.ticket)
}

/// The queue after the uploads of the events with these tickets were
/// confirmed.
pub open spec fn confirm_all(queue: QueueModel, tickets: Seq<u64>) -> QueueModel
    decreases tickets.len(),
{
    if tickets.len() == 0 {
        queue
    } else {
        confirm_all(queue, tickets.drop_last()).confirm(tickets.last())
    }
}

/// The queue after a chunk is done with: its events are confirmed, and the
/// confirmed in-flight entries are pruned.
pub open spec fn settled(queue: QueueModel, cycle: ShippingCycle) -> QueueModel {
    confirm_all(queue, cycle.chunk_tickets()).collect_garbage()
}

/// The budget of a chunk: what the settings say, but no more than
/// `MAX_CHUNK_SIZE`.
pub open spec fn chunk_budget(max_logs_flush_chunk: usize) -> usize {
    if max_logs_flush_chunk < MAX_CHUNK_SIZE {
        max_logs_flush_chunk
    } else {
        MAX_CHUNK_SIZE
    }
}

/// The queue and the cycle after an attempt to upload the current chunk has
/// ended with `outcome`. A failed attempt that was not the last one leaves
/// the chunk to be tried again. Otherwise the chunk is done with, delivered
/// or dropped: its events are confirmed either way, and the cycle goes on to
/// the next chunk or ends.
pub open spec fn after_upload(queue: QueueModel, cycle: ShippingCycle, outcome: UploadOutcome) -> (
    QueueModel,
    Option<ShippingCycle>,
) {
    if verdict_of(cycle.attempt_no, cycle.max_attempts, outcome) == UploadVerdict::Retry {
        (queue, Some(cycle.retrying()))
    } else {
        (settled(queue, cycle), cycle.advanced())
    }
}

/// The queue and the cycle after one attempt after another has ended with
/// these outcomes. Outcomes that come when no cycle is under way change
/// nothing.
pub open spec fn after_uploads(
    queue: QueueModel,
    cycle: Option<ShippingCycle>,
    outcomes: Seq<UploadOutcome>,
) -> (QueueModel, Option<ShippingCycle>)
    decreases outcomes.len(),
{
    if outcomes.len() == 0 {
        (queue, cycle)
    } else {
        match cycle {
            None => (queue, cycle),
            Some(current) => {
                let next = after_upload(queue, current, outcomes[0]);
                after_uploads(next.0, next.1, outcomes.drop_first())
            },
        }
    }
}

/// What a tick tells the loop to do.
#[derive(Debug)]
pub enum TickAction {
    /// The connection string was refused: report the error, wait
    /// `retry_after_secs` seconds, and tick again.
    ConfigError { error: SettingsError, retry_after_secs: u64 },
    /// Nothing waits: wait this long, and tick again.
    Sleep(Duration),
    /// A cycle is under way: upload its current chunk, and report how the
    /// attempt ended.
    Upload,
}

/// What the loop is to do next after an attempt to upload.
#[derive(Debug, Clone, Copy, PartialEq, Eq, Structural)]
pub enum UploadAction {
    /// Wait `delay_secs` seconds, then upload the current chunk again.
    Retry { delay_secs: u64 },
    /// Upload the current chunk: it is the next one of the batch.
    Next,
    /// The cycle is over: tick again.
    Done,
}

/// What follows an attempt to upload.
#[derive(Debug, Clone, Copy, PartialEq, Eq, Structural)]
pub struct UploadStep {
    /// Whether the chunk was dropped: its last attempt has failed. The loop
    /// reports that.
    pub dropped: bool,
    pub action: UploadAction,
}

/// The state of the shipping loop of one reader.
pub struct SeqLoggerInner {
    log_events: LogEventsQueue,
    cycle: Option<ShippingCycle>,
    max_attempts: u32,
}

impl SeqLoggerInner {
    /// The queue.
    pub closed spec fn queue(&self) -> QueueModel {
        self.log_events@
    }

    /// The cycle that is under way, if one is.
    pub closed spec fn cycle(&self) -> Option<ShippingCycle> {
        self.cycle
    }

    /// How many attempts a chunk gets.
    pub closed spec fn max_attempts(&self) -> u32 {
        self.max_attempts
    }

    /// The queue is valid, a chunk gets at least one attempt, and a cycle
    /// that is under way is valid.
    pub open spec fn wf(&self) -> bool {
        &&& self.queue().wf()
        &&& self.max_attempts() >= 1
        &&& self.cycle() matches Some(cycle) ==> cycle.wf()
    }

    /// A shipping loop in which nothing waits and no cycle is under way, and
    /// which gives every chunk `MAX_UPLOAD_ATTEMPTS` attempts.
    pub fn new() -> (inner: Self)
        ensures
            inner.wf(),
            inner.queue() == QueueModel::empty(),
            inner.cycle() is None,
            inner.max_attempts() == MAX_UPLOAD_ATTEMPTS,
    {
        Self {
            log_events: LogEventsQueue::new(),
            cycle: None,
            max_attempts: MAX_UPLOAD_ATTEMPTS,
        }
    }

    /// Sets how many attempts a chunk gets from the next cycle on; a cycle
    /// that is under way goes on as it began. Zero is taken as one.
    pub fn set_max_attempts(&mut self, max_attempts: u32)
        requires
            old(self).wf(),
        ensures
            final(self).wf(),
            final(self).max_attempts() == if max_attempts == 0 {
                1
            } else {
                max_attempts
            },
            final(self).queue() == old(self).queue(),
            final(self).cycle() == old(self).cycle(),
    {
        self.max_attempts = if max_attempts == 0 {
            1
        } else {
            max_attempts
        };
    }

    /// Takes an event into the queue and returns its ticket.
    pub fn enqueue(&mut self, log_event: Arc<MyLogEvent>) -> (ticket: u64)
        requires
            old(self).wf(),
        ensures
            final(self).wf(),
            ticket == old(self).queue().next_ticket,
            final(self).queue() == old(self).queue().enqueue(log_event@),
            final(self).cycle() == old(self).cycle(),
            final(self).max_attempts() == old(self).max_attempts(),
    {
        self.log_events.enqueue(log_event)
    }

    /// Whether anything waits or is in flight unconfirmed.
    pub fn has_pending(&self) -> (answer: bool)
        ensures
            answer == self.queue().has_pending(),
    {
        self.log_events.has_pending()
    }

    /// Whether the event with `ticket` neither waits nor is in flight
    /// unconfirmed.
    pub fn is_sent(&self, ticket: u64) -> (answer: bool)
        ensures
            answer == self.queue().is_sent(ticket),
    {
        self.log_events.is_sent(ticket)
    }

    /// The ticket that the next event gets.
    pub fn next_ticket(&self) -> (ticket: u64)
        ensures
            ticket == self.queue().next_ticket,
    {
        self.log_events.next_ticket()
    }

    /// The cycle that is under way, if one is: it says where the current
    /// chunk goes and what it holds.
    pub fn get_cycle(&self) -> (cycle: Option<&ShippingCycle>)
        ensures
            match cycle {
                Some(under_way) => self.cycle() == Some(*under_way),
                None => self.cycle() is None,
            },
    {
        self.cycle.as_ref()
    }

    /// The body of the chunk that is being uploaded, if a cycle is under way.
    pub fn current_body(&self) -> (body: Option<&[u8]>)
        requires
            self.wf(),
        ensures
            match body {
                Some(bytes) => self.cycle() matches Some(cycle) && bytes@
                    == cycle.chunks@[cycle.current as int].body@,
                None => self.cycle() is None,
            },
    {
        match &self.cycle {
            Some(cycle) => Some(cycle.chunks[cycle.current].body.as_slice()),
            None => None,
        }
    }

    /// Starts a shipping cycle. The settings are read from the connection
    /// string; a string that is refused changes nothing. Otherwise the cap of
    /// the queue is set, and everything that waits is taken: if that is
    /// nothing, the loop is to sleep; else the events are rendered with the
    /// parameters, the records are packed into chunks within the budget, and
    /// the first chunk is to be uploaded. A tick while a cycle is under way
    /// changes nothing.
    pub fn tick(&mut self, conn_string: &str, populated_params: &PopulatedParams) -> (action:
        TickAction)
        requires
            old(self).wf(),
        ensures
            final(self).wf(),
            final(self).max_attempts() == old(self).max_attempts(),
            old(self).cycle() is Some ==> action is Upload && final(self).cycle() == old(
                self,
            ).cycle() && final(self).queue() == old(self).queue(),
            old(self).cycle() is None ==> match parse_conn_string(conn_string@) {
                Err(fault) => {
                    &&& action matches TickAction::ConfigError { error, retry_after_secs }
                    &&& error@ == fault
                    &&& retry_after_secs == CONFIG_RETRY_SECS
                    &&& final(self).queue() == old(self).queue()
                    &&& final(self).cycle() is None
                },
                Ok(settings) => {
                    let capped = old(self).queue().set_queue_size(settings.queue_size);
                    if capped.pending.len() == 0 {
                        &&& action matches TickAction::Sleep(delay)
                        &&& delay == duration_of_secs(settings.flush_delay)
                        &&& final(self).queue() == capped
                        &&& final(self).cycle() is None
                    } else {
                        &&& action is Upload
                        &&& final(self).queue() == capped.dequeue(capped.pending.len())
                        &&& final(self).cycle() matches Some(cycle)
                        &&& settings.url == Some(cycle.url@)
                        &&& settings.api_key == cycle.api_key.deep_view()
                        &&& cycle.tickets@ == tickets_of(capped.pending)
                        &&& is_packing(
                            record_bytes(payloads(capped.pending), populated_params@),
                            chunk_budget(settings.max_logs_flush_chunk) as nat,
                            cycle.chunks@,
                        )
                        &&& cycle.current == 0
                        &&& cycle.attempt_no == 1
                        &&& cycle.max_attempts == old(self).max_attempts()
                    }
                },
            },
    {
        if self.cycle.is_some() {
            return TickAction::Upload;
        }
        let settings = match SeqLoggerSettings::try_parse(conn_string) {
            Err(error) => {
                return TickAction::ConfigError { error, retry_after_secs: CONFIG_RETRY_SECS };
            },
            Ok(settings) => settings,
        };
        self.log_events.set_queue_size(settings.queue_size);
        let ghost capped = self.log_events@;
        let backlog = self.log_events.len();
        let batch = match self.log_events.dequeue(backlog) {
            None => {
                return TickAction::Sleep(settings.flush_delay);
            },
            Some(batch) => batch,
        };
        assert(events_of(batch@) == capped.pending);
        let ghost records = record_bytes(payloads(capped.pending), populated_params@);
        let mut rendered: Vec<Vec<u8>> = Vec::new();
        let mut tickets: Vec<u64> = Vec::new();
        let mut buffer = String::new();
        let mut i: usize = 0;
        while i < batch.len()
            invariant
                i <= batch.len(),
                events_of(batch@) == capped.pending,
                records == record_bytes(payloads(capped.pending), populated_params@),
                rendered@.len() == i,
                tickets@.len() == i,
                forall|j: int| 0 <= j < i ==> (#[trigger] rendered@[j])@ == records[j],
                forall|j: int| 0 <= j < i ==> #[trigger] tickets@[j] == capped.pending[j].ticket,
            decreases batch.len() - i,
        {
            buffer = serialize(buffer, &batch[i].event, populated_params);
            assert(events_of(batch@)[i as int] == batch@[i as int]@);
            assert(records[i as int] == encode_utf8(buffer@));
            rendered.push(buffer.as_str().as_bytes_vec());
            tickets.push(batch[i].ticket);
            i += 1;
        }
        assert(records_of(rendered@) == records);
        assert(tickets@ == tickets_of(capped.pending));
        let budget = if settings.max_logs_flush_chunk < MAX_CHUNK_SIZE {
            settings.max_logs_flush_chunk
        } else {
            MAX_CHUNK_SIZE
        };
        let chunks = pack_chunks(&rendered, budget);
        assert(chunks@.len() > 0);
        self.cycle = Some(
            ShippingCycle {
                url: settings.url,
                api_key: settings.api_key,
                chunks,
                tickets,
                current: 0,
                attempt_no: 1,
                max_attempts: self.max_attempts,
            },
        );
        TickAction::Upload
    }

    /// Takes note of how an attempt to upload the current chunk ended, and
    /// says what is next. Where no cycle is under way, nothing changes and
    /// the answer is `Done`.
    pub fn upload_finished(&mut self, outcome: UploadOutcome) -> (step: UploadStep)
        requires
            old(self).wf(),
        ensures
            final(self).wf(),
            final(self).max_attempts() == old(self).max_attempts(),
            match old(self).cycle() {
                None => {
                    &&& final(self).cycle() is None
                    &&& final(self).queue() == old(self).queue()
                    &&& step == (UploadStep { dropped: false, action: UploadAction::Done })
                },
                Some(cycle) => {
                    let verdict = verdict_of(cycle.attempt_no, cycle.max_attempts, outcome);
                    &&& (final(self).queue(), final(self).cycle()) == after_upload(
                        old(self).queue(),
                        cycle,
                        outcome,
                    )
                    &&& step.dropped == (verdict == UploadVerdict::GiveUp)
                    &&& step.action == if verdict == UploadVerdict::Retry {
                        UploadAction::Retry { delay_secs: RETRY_DELAY_SECS }
                    } else if cycle.advanced() is Some {
                        UploadAction::Next
                    } else {
                        UploadAction::Done
                    }
                },
            },
    {
        let cycle = match self.cycle.take() {
            None => {
                return UploadStep { dropped: false, action: UploadAction::Done };
            },
            Some(cycle) => cycle,
        };
        assert(cycle.wf());
        assert(cycle.chunks@[cycle.current as int].end() <= cycle.tickets@.len());
        let verdict = upload_verdict(cycle.attempt_no, cycle.max_attempts, outcome);
        if verdict == UploadVerdict::Retry {
            self.cycle = Some(ShippingCycle { attempt_no: cycle.attempt_no + 1, ..cycle });
            return UploadStep {
                dropped: false,
                action: UploadAction::Retry { delay_secs: RETRY_DELAY_SECS },
            };
        }
        let chunk_count = cycle.chunks.len();
        let ticket_count = cycle.tickets.len();
        let first = cycle.chunks[cycle.current].first;
        let end = first + cycle.chunks[cycle.current].count;
        let ghost queue = self.log_events@;
        let mut i: usize = first;
        assert(cycle.tickets@.subrange(first as int, first as int) == Seq::<u64>::empty());
        while i < end
            invariant
                first <= i <= end <= ticket_count,
                ticket_count == cycle.tickets@.len(),
                self.log_events.wf(),
                self.max_attempts == old(self).max_attempts,
                self.cycle is None,
                self.log_events@ == confirm_all(
                    queue,
                    cycle.tickets@.subrange(first as int, i as int),
                ),
            decreases end - i,
        {
            self.log_events.confirm(cycle.tickets[i]);
            proof {
                let longer = cycle.tickets@.subrange(first as int, i as int + 1);
                assert(longer.drop_last() == cycle.tickets@.subrange(first as int, i as int));
                assert(longer.last() == cycle.tickets@[i as int]);
            }
            i += 1;
        }
        self.log_events.collect_garbage();
        let dropped = verdict == UploadVerdict::GiveUp;
        if cycle.current + 1 < chunk_count {
            self.cycle = Some(ShippingCycle { current: cycle.current + 1, attempt_no: 1, ..cycle });
            UploadStep { dropped, action: UploadAction::Next }
        } else {
            UploadStep { dropped, action: UploadAction::Done }
        }
    }
}

/// Confirming tickets leaves the waiting events alone, keeps every in-flight
/// entry in its place with its ticket, and marks as sent exactly those that
/// were sent already or have one of the tickets.
pub proof fn lemma_confirm_all(queue: QueueModel, tickets: Seq<u64>)
    ensures
        confirm_all(queue, tickets).pending == queue.pending,
        confirm_all(queue, tickets).next_ticket == queue.next_ticket,
        confirm_all(queue, tickets).queue_size == queue.queue_size,
        confirm_all(queue, tickets).in_flight.len() == queue.in_flight.len(),
        forall|i: int|
            0 <= i < queue.in_flight.len() ==> {
                &&& (#[trigger] confirm_all(queue, tickets).in_flight[i]).ticket
                    == queue.in_flight[i].ticket
                &&& confirm_all(queue, tickets).in_flight[i].sent == (queue.in_flight[i].sent
                    || tickets.contains(queue.in_flight[i].ticket))
            },
    decreases tickets.len(),
{
    if tickets.len() > 0 {
        let shorter = tickets.drop_last();
        lemma_confirm_all(queue, shorter);
        let before = confirm_all(queue, shorter);
        assert forall|i: int| 0 <= i < queue.in_flight.len() implies {
            &&& (#[trigger] confirm_all(queue, tickets).in_flight[i]).ticket
                == queue.in_flight[i].ticket
            &&& confirm_all(queue, tickets).in_flight[i].sent == (queue.in_flight[i].sent
                || tickets.contains(queue.in_flight[i].ticket))
        } by {
            let ticket = queue.in_flight[i].ticket;
            assert(before.in_flight[i].ticket == ticket);
            if shorter.contains(ticket) {
                let at = choose|at: int| 0 <= at < shorter.len() && shorter[at] == ticket;
                assert(tickets[at] == ticket);
            }
            if ticket == tickets.last() {
                assert(tickets[tickets.len() - 1] == ticket);
            }
            if tickets.contains(ticket) && ticket != tickets.last() {
                let at = choose|at: int| 0 <= at < tickets.len() && tickets[at] == ticket;
                assert(shorter[at] == ticket);
            }
        }
    }
}

/// Every entry that pruning leaves was there before, unconfirmed.
pub proof fn lemma_unsent(entries: Seq<InFlight>)
    ensures
        forall|i: int|
            0 <= i < unsent(entries).len() ==> !(#[trigger] unsent(entries)[i]).sent
                && entries.contains(unsent(entries)[i]),
    decreases entries.len(),
{
    if entries.len() > 0 {
        let shorter = entries.drop_last();
        lemma_unsent(shorter);
        assert forall|i: int| 0 <= i < unsent(entries).len() implies !(#[trigger] unsent(
            entries,
        )[i]).sent && entries.contains(unsent(entries)[i]) by {
            if i < unsent(shorter).len() {
                let entry = unsent(shorter)[i];
                assert(unsent(entries)[i] == entry);
                let at = choose|at: int| 0 <= at < shorter.len() && shorter[at] == entry;
                assert(entries[at] == entry);
            } else {
                assert(unsent(entries)[i] == entries.last());
                assert(entries[entries.len() - 1] == entries.last());
            }
        }
    }
}

/// When a chunk is done with, none of its events is in flight any more, and
/// what waits in the queue is untouched.
pub proof fn lemma_settled_chunk_has_left(queue: QueueModel, cycle: ShippingCycle, ticket: u64)
    requires
        cycle.chunk_tickets().contains(ticket),
    ensures
        settled(queue, cycle).pending == queue.pending,
        forall|i: int|
            0 <= i < settled(queue, cycle).in_flight.len() ==> (#[trigger] settled(
                queue,
                cycle,
            ).in_flight[i]).ticket != ticket,
{
    let confirmed = confirm_all(queue, cycle.chunk_tickets());
    lemma_confirm_all(queue, cycle.chunk_tickets());
    lemma_unsent(confirmed.in_flight);
    assert forall|i: int| 0 <= i < settled(queue, cycle).in_flight.len() implies (
    #[trigger] settled(queue, cycle).in_flight[i]).ticket != ticket by {
        let entry = settled(queue, cycle).in_flight[i];
        let at = choose|at: int|
            0 <= at < confirmed.in_flight.len() && confirmed.in_flight[at] == entry;
        assert(confirmed.in_flight[at].ticket == queue.in_flight[at].ticket);
    }
}

/// Everything in flight is confirmed or belongs to a record of the batch
/// that the cycle has not done with yet.
pub open spec fn awaits(queue: QueueModel, cycle: ShippingCycle) -> bool {
    forall|i: int|
        0 <= i < queue.in_flight.len() ==> (#[trigger] queue.in_flight[i]).sent || exists|r: int|
            cycle.chunks@[cycle.current as int].first <= r < cycle.tickets@.len()
                && cycle.tickets@[r] == queue.in_flight[i].ticket
}

/// A cycle that begins with a batch taken from a queue in which nothing was
/// in flight unconfirmed has everything in flight to deal with, and nothing
/// else.
pub proof fn lemma_fresh_cycle_awaits(before: QueueModel, cycle: ShippingCycle)
    requires
        cycle.wf(),
        cycle.current == 0,
        cycle.tickets@ == tickets_of(before.pending),
        forall|i: int| 0 <= i < before.in_flight.len() ==> (#[trigger] before.in_flight[i]).sent,
    ensures
        awaits(before.dequeue(before.pending.len()), cycle),
        before.dequeue(before.pending.len()).pending.len() == 0,
{
    let after = before.dequeue(before.pending.len());
    let flying = before.in_flight.len() as int;
    assert(before.batch(before.pending.len()) == before.pending);
    assert forall|i: int| 0 <= i < after.in_flight.len() implies (
    #[trigger] after.in_flight[i]).sent || exists|r: int|
        cycle.chunks@[cycle.current as int].first <= r < cycle.tickets@.len() && cycle.tickets@[r]
            == after.in_flight[i].ticket by {
        if i < flying {
            assert(after.in_flight[i] == before.in_flight[i]);
        } else {
            let r = i - flying;
            assert(after.in_flight[i].ticket == before.pending[r].ticket);
            assert(cycle.tickets@[r] == before.pending[r].ticket);
        }
    }
}

/// The records behind the current chunk of a cycle have a ticket equal to
/// `ticket`.
pub open spec fn is_behind(cycle: ShippingCycle, ticket: u64) -> bool {
    exists|r: int|
        cycle.chunks@[cycle.current as int].end() <= r < cycle.tickets@.len() && cycle.tickets@[r]
            == ticket
}

/// An entry that is in flight unconfirmed, of a record at or behind the
/// current chunk, and with a ticket that the chunk does not have, is of a
/// record behind the chunk.
proof fn lemma_not_of_chunk_is_behind(cycle: ShippingCycle, ticket: u64)
    requires
        cycle.wf(),
        exists|r: int|
            cycle.chunks@[cycle.current as int].first <= r < cycle.tickets@.len()
                && cycle.tickets@[r] == ticket,
        !cycle.chunk_tickets().contains(ticket),
    ensures
        is_behind(cycle, ticket),
{
    let chunk = cycle.chunks@[cycle.current as int];
    let r = choose|r: int|
        chunk.first <= r < cycle.tickets@.len() && cycle.tickets@[r] == ticket;
    assert(chunk.end() <= cycle.tickets@.len());
    if r < chunk.end() {
        assert(cycle.chunk_tickets()[r - chunk.first] == cycle.tickets@[r]);
    }
}

/// When a chunk is done with, what waits is untouched, and everything that
/// is still in flight belongs to a record behind the chunk.
proof fn lemma_settled_in_flight(queue: QueueModel, cycle: ShippingCycle, i: int)
    requires
        cycle.wf(),
        awaits(queue, cycle),
        0 <= i < settled(queue, cycle).in_flight.len(),
    ensures
        is_behind(cycle, settled(queue, cycle).in_flight[i].ticket),
{
    let tickets = cycle.chunk_tickets();
    let confirmed = confirm_all(queue, tickets);
    let after = settled(queue, cycle);
    lemma_confirm_all(queue, tickets);
    lemma_unsent(confirmed.in_flight);
    let entry = after.in_flight[i];
    assert(!entry.sent && confirmed.in_flight.contains(entry));
    let at = choose|at: int| 0 <= at < confirmed.in_flight.len() && confirmed.in_flight[at] == entry;
    let was = queue.in_flight[at];
    assert(confirmed.in_flight[at].ticket == was.ticket);
    assert(!was.sent && !tickets.contains(was.ticket));
    lemma_not_of_chunk_is_behind(cycle, was.ticket);
}

/// When a chunk is done with, everything in flight is still confirmed or
/// belongs to a record behind the chunk; and nothing at all is in flight if
/// the chunk was the last one.
pub proof fn lemma_settled_chunk_leaves_the_rest(queue: QueueModel, cycle: ShippingCycle)
    requires
        cycle.wf(),
        awaits(queue, cycle),
    ensures
        settled(queue, cycle).pending == queue.pending,
        match cycle.advanced() {
            Some(next) => next.wf() && awaits(settled(queue, cycle), next),
            None => settled(queue, cycle).in_flight.len() == 0,
        },
{
    let chunk = cycle.chunks@[cycle.current as int];
    let after = settled(queue, cycle);
    lemma_confirm_all(queue, cycle.chunk_tickets());
    assert(cycle.chunks@.len() == cycle.chunks.len());
    match cycle.advanced() {
        Some(next) => {
            assert(next.current == cycle.current + 1);
            assert(cycle.chunks@[cycle.current as int + 1].first == chunk.end());
            assert forall|i: int| 0 <= i < after.in_flight.len() implies (
            #[trigger] after.in_flight[i]).sent || exists|r: int|
                next.chunks@[next.current as int].first <= r < next.tickets@.len()
                    && next.tickets@[r] == after.in_flight[i].ticket by {
                lemma_settled_in_flight(queue, cycle, i);
                let ticket = after.in_flight[i].ticket;
                let r = choose|r: int|
                    chunk.end() <= r < cycle.tickets@.len() && cycle.tickets@[r] == ticket;
                assert(next.chunks@[next.current as int].first <= r < next.tickets@.len()
                    && next.tickets@[r] == ticket);
            }
        },
        None => {
            assert(cycle.current == cycle.chunks@.len() - 1);
            assert(chunk.end() == cycle.tickets@.len());
            if after.in_flight.len() > 0 {
                lemma_settled_in_flight(queue, cycle, 0);
            }
        },
    }
}

/// When a cycle is over, nothing is in flight any more, whatever the
/// outcomes of the attempts were, and what waits in the queue is untouched
/// by the uploads: if nothing has arrived since the cycle began, nothing is
/// pending.
pub proof fn lemma_finished_cycle_leaves_nothing_in_flight(
    queue: QueueModel,
    cycle: ShippingCycle,
    outcomes: Seq<UploadOutcome>,
)
    requires
        cycle.wf(),
        awaits(queue, cycle),
        after_uploads(queue, Some(cycle), outcomes).1 is None,
    ensures
        after_uploads(queue, Some(cycle), outcomes).0.in_flight.len() == 0,
        after_uploads(queue, Some(cycle), outcomes).0.pending == queue.pending,
        queue.pending.len() == 0 ==> !after_uploads(queue, Some(cycle), outcomes).0.has_pending(),
    decreases outcomes.len(),
{
    if outcomes.len() > 0 {
        let rest = outcomes.drop_first();
        let next = after_upload(queue, cycle, outcomes[0]);
        assert(after_uploads(queue, Some(cycle), outcomes) == after_uploads(next.0, next.1, rest));
        if verdict_of(cycle.attempt_no, cycle.max_attempts, outcomes[0]) == UploadVerdict::Retry {
            let again = cycle.retrying();
            assert(again.wf());
            assert(awaits(queue, again));
            lemma_finished_cycle_leaves_nothing_in_flight(queue, again, rest);
        } else {
            lemma_settled_chunk_leaves_the_rest(queue, cycle);
            match cycle.advanced() {
                Some(following) => {
                    lemma_finished_cycle_leaves_nothing_in_flight(
                        settled(queue, cycle),
                        following,
                        rest,
                    );
                },
                None => {
                    assert(after_uploads(next.0, next.1, rest) == next);
                },
            }
        }
    }
}

/// A cycle ships everything: if nothing was in flight unconfirmed when the
/// cycle took all that waited, and nothing arrives while it runs, then
/// nothing is pending when the cycle is over, whether its chunks were
/// delivered or dropped.
pub proof fn lemma_cycle_leaves_nothing_pending(
    before: QueueModel,
    cycle: ShippingCycle,
    outcomes: Seq<UploadOutcome>,
)
    requires
        cycle.wf(),
        cycle.current == 0,
        cycle.tickets@ == tickets_of(before.pending),
        forall|i: int| 0 <= i < before.in_flight.len() ==> (#[trigger] before.in_flight[i]).sent,
        after_uploads(before.dequeue(before.pending.len()), Some(cycle), outcomes).1 is None,
    ensures
        !after_uploads(before.dequeue(before.pending.len()), Some(cycle), outcomes).0.has_pending(),
{
    lemma_fresh_cycle_awaits(before, cycle);
    lemma_finished_cycle_leaves_nothing_in_flight(
        before.dequeue(before.pending.len()),
        cycle,
        outcomes,
    );
}

/// A chunk that is done with has its events confirmed whatever the outcome
/// of the last attempt was: delivered or dropped, the queue is the same.
pub proof fn lemma_events_are_confirmed_either_way(
    queue: QueueModel,
    cycle: ShippingCycle,
    outcome: UploadOutcome,
)
    requires
        verdict_of(cycle.attempt_no, cycle.max_attempts, outcome) != UploadVerdict::Retry,
    ensures
        after_upload(queue, cycle, outcome) == (settled(queue, cycle), cycle.advanced()),
{
}

/// A chunk whose attempts fail one after another is tried again until its
/// attempts are used up, and then dropped: as many failures as there are
/// attempts left end with the chunk done with, its events confirmed, and
/// the cycle at the next chunk or over. Fewer failures leave the chunk to be
/// tried again.
pub proof fn lemma_chunk_is_dropped_after_last_attempt(
    queue: QueueModel,
    cycle: ShippingCycle,
    outcomes: Seq<UploadOutcome>,
)
    requires
        cycle.wf(),
        outcomes.len() <= cycle.max_attempts - cycle.attempt_no + 1,
        forall|i: int| 0 <= i < outcomes.len() ==> !(#[trigger] outcomes[i]).succeeded(),
    ensures
        after_uploads(queue, Some(cycle), outcomes) == if outcomes.len() == cycle.max_attempts
            - cycle.attempt_no + 1 {
            (settled(queue, cycle), cycle.advanced())
        } else {
            (
                queue,
                Some(
                    ShippingCycle {
                        attempt_no: (cycle.attempt_no + outcomes.len()) as u32,
                        ..cycle
                    },
                ),
            )
        },
    decreases outcomes.len(),
{
    if outcomes.len() > 0 {
        assert(!outcomes[0].succeeded());
        let rest = outcomes.drop_first();
        assert forall|i: int| 0 <= i < rest.len() implies !(#[trigger] rest[i]).succeeded() by {
            assert(rest[i] == outcomes[i + 1]);
        }
        if cycle.attempt_no < cycle.max_attempts {
            let next = cycle.retrying();
            assert(after_upload(queue, cycle, outcomes[0]) == (queue, Some(next)));
            lemma_chunk_is_dropped_after_last_attempt(queue, next, rest);
            assert(next.chunk_tickets() == cycle.chunk_tickets());
            assert(next.advanced() == cycle.advanced());
            assert(settled(queue, next) == settled(queue, cycle));
            assert(after_uploads(queue, Some(cycle), outcomes) == after_uploads(
                queue,
                Some(next),
                rest,
            ));
            if rest.len() < next.max_attempts - next.attempt_no + 1 {
                assert(ShippingCycle { attempt_no: (next.attempt_no + rest.len()) as u32, ..next }
                    == ShippingCycle {
                    attempt_no: (cycle.attempt_no + outcomes.len()) as u32,
                    ..cycle
                });
            }
        } else {
            assert(rest.len() == 0);
            assert(after_upload(queue, cycle, outcomes[0]) == (
                settled(queue, cycle),
                cycle.advanced(),
            ));
            assert(after_uploads(queue, Some(cycle), outcomes) == after_uploads(
                settled(queue, cycle),
                cycle.advanced(),
                rest,
            ));
        }
    } else {
        assert(ShippingCycle { attempt_no: (cycle.attempt_no + outcomes.len()) as u32, ..cycle }
            == cycle);
    }
}

} // verus!
