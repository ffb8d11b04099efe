//! The queue between the callers that log and the shipping loop: events wait
//! in arrival order, leave in batches, and stay accounted for as "in flight"
//! until their upload has been confirmed.

use crate::log_event::{MyLogEvent, MyLogEventModel};
use std::sync::Arc;
use vstd::prelude::*;

verus! {

/// An event that waits in the queue, as a mathematical value.
pub struct QueuedEventModel {
    pub ticket: u64,
    pub event: MyLogEventModel,
}

/// An event that waits in the queue, with the ticket it was given on arrival.
#[derive(Debug)]
pub struct QueuedEvent {
    pub ticket: u64,
    pub event: Arc<MyLogEvent>,
}

impl View for QueuedEvent {
    type V = QueuedEventModel;

    open spec fn view(&self) -> QueuedEventModel {
        QueuedEventModel { ticket: self.ticket, event: self.event@ }
    }
}

/// An event that has left the queue: `sent` says whether its upload has been
/// confirmed.
#[derive(Debug, Clone, Copy, PartialEq, Eq, Structural)]
pub struct InFlight {
    pub ticket: u64,
    pub sent: bool,
}

/// The events of a batch as mathematical values.
pub open spec fn events_of(batch: Seq<QueuedEvent>) -> Seq<QueuedEventModel> {
    batch.map_values(|queued: QueuedEvent| queued@)
}

/// The unconfirmed in-flight entries of the events of a batch.
pub open spec fn taken(batch: Seq<QueuedEventModel>) -> Seq<InFlight> {
    batch.map_values(|queued: QueuedEventModel| InFlight { ticket: queued.ticket, sent: false })
}

/// The entries that are not confirmed, in their order.
pub open spec fn unsent(entries: Seq<InFlight>) -> Seq<InFlight>
    decreases entries.len(),
{
    if entries.len() == 0 {
        entries
    } else if entries.last().sent {
        unsent(entries.drop_last())
    } else {
        unsent(entries.drop_last()).push(entries.last())
    }
}

/// The ticket after `ticket`; after the largest ticket the count starts again
/// at zero.
pub open spec fn ticket_after(ticket: u64) -> u64 {
    if ticket == u64::MAX {
        0
    } else {
        (ticket + 1) as u64
    }
}

/// The state of a queue as a mathematical value.
pub struct QueueModel {
    /// The events that wait, oldest first.
    pub pending: Seq<QueuedEventModel>,
    /// The events that have left the queue and were not pruned yet.
    pub in_flight: Seq<InFlight>,
    /// The ticket that the next event gets.
    pub next_ticket: u64,
    /// The largest number of events that may wait, if there is a cap.
    pub queue_size: Option<usize>,
}

impl QueueModel {
    /// A queue in which nothing waits, nothing is in flight, and no cap is set.
    pub open spec fn empty() -> QueueModel {
        QueueModel {
            pending: Seq::empty(),
            in_flight: Seq::empty(),
            next_ticket: 0,
            queue_size: None,
        }
    }

    /// What a cap leaves of the waiting events: the newest ones, as many as
    /// the cap allows.
    pub open spec fn capped(pending: Seq<QueuedEventModel>, queue_size: Option<usize>) -> Seq<
        QueuedEventModel,
    > {
        match queue_size {
            Some(cap) => if pending.len() > cap {
                pending.skip(pending.len() - cap)
            } else {
                pending
            },
            None => pending,
        }
    }

    /// No more events wait than the cap allows.
    pub open spec fn wf(self) -> bool {
        self.queue_size matches Some(cap) ==> self.pending.len() <= cap
    }

    /// The queue after `event` has arrived: it waits behind the others, and
    /// where that is more than the cap allows, the oldest ones are gone.
    pub open spec fn enqueue(self, event: MyLogEventModel) -> QueueModel {
        QueueModel {
            pending: Self::capped(
                self.pending.push(QueuedEventModel { ticket: self.next_ticket, event }),
                self.queue_size,
            ),
            next_ticket: ticket_after(self.next_ticket),
            ..self
        }
    }

    /// The next batch: the oldest waiting events, at most `max_amount`.
    pub open spec fn batch(self, max_amount: nat) -> Seq<QueuedEventModel> {
        if max_amount < self.pending.len() {
            self.pending.take(max_amount as int)
        } else {
            self.pending
        }
    }

    /// The queue after the next batch has left: the rest waits on, in order,
    /// and the batch is in flight, unconfirmed.
    pub open spec fn dequeue(self, max_amount: nat) -> QueueModel {
        QueueModel {
            pending: self.pending.skip(self.batch(max_amount).len() as int),
            in_flight: self.in_flight + taken(self.batch(max_amount)),
            ..self
        }
    }

    /// Something waits, or something in flight is unconfirmed.
    pub open spec fn has_pending(self) -> bool {
        self.pending.len() > 0 || exists|i: int|
            0 <= i < self.in_flight.len() && !(#[trigger] self.in_flight[i]).sent
    }

    /// The queue after the upload of the event with `ticket` was confirmed.
    pub open spec fn confirm(self, ticket: u64) -> QueueModel {
        QueueModel {
            in_flight: self.in_flight.map_values(
                |entry: InFlight|
                    if entry.ticket == ticket {
                        InFlight { ticket: entry.ticket, sent: true }
                    } else {
                        entry
                    },
            ),
            ..self
        }
    }

    /// The queue after pruning: only the confirmed in-flight entries are gone.
    pub open spec fn collect_garbage(self) -> QueueModel {
        QueueModel { in_flight: unsent(self.in_flight), ..self }
    }

    /// The queue after the cap was set: where more events wait than the new
    /// cap allows, the oldest ones are gone.
    pub open spec fn set_queue_size(self, queue_size: Option<usize>) -> QueueModel {
        QueueModel { pending: Self::capped(self.pending, queue_size), queue_size, ..self }
    }

    /// The event with `ticket` neither waits nor is in flight unconfirmed.
    pub open spec fn is_sent(self, ticket: u64) -> bool {
        &&& forall|i: int| 0 <= i < self.pending.len() ==> (#[trigger] self.pending[i]).ticket != ticket
        &&& forall|i: int|
            0 <= i < self.in_flight.len() && (#[trigger] self.in_flight[i]).ticket == ticket
                ==> self.in_flight[i].sent
    }
}

/// The queue of the shipping pipeline.
pub struct LogEventsQueue {
    queue: Vec<QueuedEvent>,
    in_flight: Vec<InFlight>,
    next_ticket: u64,
    queue_size: Option<usize>,
}

impl View for LogEventsQueue {
    type V = QueueModel;

    closed spec fn view(&self) -> QueueModel {
        QueueModel {
            pending: events_of(self.queue@),
            in_flight: self.in_flight@,
            next_ticket: self.next_ticket,
            queue_size: self.queue_size,
        }
    }
}

impl LogEventsQueue {
    /// The invariant of the queue: see [`QueueModel::wf`].
    pub open spec fn wf(&self) -> bool {
        self@.wf()
    }

    pub fn new() -> (queue: Self)
        ensures
            queue@ == QueueModel::empty(),
            queue.wf(),
    {
        let queue = Self {
            queue: Vec::new(),
            in_flight: Vec::new(),
            next_ticket: 0,
            queue_size: None,
        };
        assert(events_of(queue.queue@) == Seq::<QueuedEventModel>::empty());
        queue
    }

    /// Drops the oldest waiting events until no more wait than `queue_size`
    /// allows.
    fn evict(&mut self, Ghost(with_all): Ghost<Seq<QueuedEventModel>>)
        requires
            events_of(old(self).queue@) == with_all,
        ensures
            final(self).in_flight == old(self).in_flight,
            final(self).next_ticket == old(self).next_ticket,
            final(self).queue_size == old(self).queue_size,
            events_of(final(self).queue@) == QueueModel::capped(with_all, old(self).queue_size),
    {
        match self.queue_size {
            Some(cap) => {
                if self.queue.len() > cap {
                    let excess = self.queue.len() - cap;
                    let mut kept = self.queue.split_off(excess);
                    std::mem::swap(&mut self.queue, &mut kept);
                    assert(events_of(self.queue@) == with_all.skip(with_all.len() - cap));
                }
            },
            None => {},
        }
    }

    /// Sets or lifts the cap on the number of waiting events.
    pub fn set_queue_size(&mut self, queue_size: Option<usize>)
        ensures
            final(self)@ == old(self)@.set_queue_size(queue_size),
            final(self).wf(),
    {
        self.queue_size = queue_size;
        self.evict(Ghost(events_of(self.queue@)));
    }

    /// Takes an event into the queue and returns the ticket by which the
    /// event is known until its upload is confirmed. Never waits for delivery.
    pub fn enqueue(&mut self, log_event: Arc<MyLogEvent>) -> (ticket: u64)
        ensures
            ticket == old(self)@.next_ticket,
            final(self)@ == old(self)@.enqueue(log_event@),
            final(self).wf(),
    {
        let ticket = self.next_ticket;
        self.queue.push(QueuedEvent { ticket, event: log_event });
        self.next_ticket = if ticket == u64::MAX {
            0
        } else {
            ticket + 1
        };
        let ghost with_all = old(self)@.pending.push(
            QueuedEventModel { ticket, event: log_event@ },
        );
        assert(events_of(self.queue@) == with_all);
        self.evict(Ghost(with_all));
        ticket
    }

    /// Takes the oldest waiting events out of the queue, at most `max_amount`
    /// of them, in arrival order; `None` if nothing waits. What is taken is in
    /// flight from then on, unconfirmed.
    pub fn dequeue(&mut self, max_amount: usize) -> (batch: Option<Vec<QueuedEvent>>)
        requires
            old(self).wf(),
        ensures
            final(self).wf(),
            match batch {
                None => old(self)@.pending.len() == 0 && final(self)@ == old(self)@,
                Some(events) => {
                    &&& old(self)@.pending.len() > 0
                    &&& events_of(events@) == old(self)@.batch(max_amount as nat)
                    &&& final(self)@ == old(self)@.dequeue(max_amount as nat)
                },
            },
    {
        if self.queue.len() == 0 {
            return None;
        }
        let amount = if max_amount < self.queue.len() {
            max_amount
        } else {
            self.queue.len()
        };
        let ghost before = self@;
        let mut batch = self.queue.split_off(amount);
        std::mem::swap(&mut self.queue, &mut batch);
        assert(events_of(batch@) == before.batch(max_amount as nat));
        assert(events_of(self.queue@) == before.pending.skip(amount as int));
        let mut i: usize = 0;
        while i < batch.len()
            invariant
                i <= batch.len(),
                self.next_ticket == old(self).next_ticket,
                self.queue_size == old(self).queue_size,
                events_of(self.queue@) == before.pending.skip(amount as int),
                self.in_flight@ == before.in_flight + taken(events_of(batch@).take(i as int)),
            decreases batch.len() - i,
        {
            self.in_flight.push(InFlight { ticket: batch[i].ticket, sent: false });
            i += 1;
            assert(taken(events_of(batch@).take(i as int)) == taken(
                events_of(batch@).take(i as int - 1),
            ).push(InFlight { ticket: batch@[i as int - 1].ticket, sent: false }));
        }
        assert(events_of(batch@).take(i as int) == events_of(batch@));
        Some(batch)
    }

    /// Whether anything waits or is in flight unconfirmed.
    pub fn has_pending(&self) -> (answer: bool)
        ensures
            answer == self@.has_pending(),
    {
        if self.queue.len() > 0 {
            assert(events_of(self.queue@).len() > 0);
            return true;
        }
        assert(events_of(self.queue@).len() == 0);
        let mut i: usize = 0;
        while i < self.in_flight.len()
            invariant
                i <= self.in_flight.len(),
                forall|j: int| 0 <= j < i ==> (#[trigger] self.in_flight@[j]).sent,
            decreases self.in_flight.len() - i,
        {
            if !self.in_flight[i].sent {
                assert(!self@.in_flight[i as int].sent);
                return true;
            }
            i += 1;
        }
        false
    }

    /// The ticket that the next event gets.
    pub fn next_ticket(&self) -> (ticket: u64)
        ensures
            ticket == self@.next_ticket,
    {
        self.next_ticket
    }

    /// How many events wait.
    pub fn len(&self) -> (count: usize)
        ensures
            count == self@.pending.len(),
    {
        self.queue.len()
    }

    /// Records that the upload of the event with `ticket` has been attempted
    /// to the end: the event counts as sent.
    pub fn confirm(&mut self, ticket: u64)
        ensures
            final(self)@ == old(self)@.confirm(ticket),
            final(self).wf() == old(self).wf(),
    {
        let ghost before = self.in_flight@;
        let mut i: usize = 0;
        while i < self.in_flight.len()
            invariant
                i <= self.in_flight.len(),
                self.queue == old(self).queue,
                self.next_ticket == old(self).next_ticket,
                self.queue_size == old(self).queue_size,
                before == old(self).in_flight@,
                self.in_flight@.len() == before.len(),
                forall|j: int|
                    0 <= j < i ==> #[trigger] self.in_flight@[j] == if before[j].ticket == ticket {
                        InFlight { ticket: before[j].ticket, sent: true }
                    } else {
                        before[j]
                    },
                forall|j: int| i <= j < before.len() ==> #[trigger] self.in_flight@[j] == before[j],
            decreases self.in_flight.len() - i,
        {
            if self.in_flight[i].ticket == ticket {
                self.in_flight.set(i, InFlight { ticket, sent: true });
            }
            i += 1;
        }
        assert(self.in_flight@ == old(self)@.confirm(ticket).in_flight);
    }

    /// Prunes the in-flight entries: those that are confirmed go, all others
    /// stay, in order.
    pub fn collect_garbage(&mut self)
        ensures
            final(self)@ == old(self)@.collect_garbage(),
            final(self).wf() == old(self).wf(),
    {
        let mut kept: Vec<InFlight> = Vec::new();
        let mut i: usize = 0;
        assert(self.in_flight@.take(0) == Seq::<InFlight>::empty());
        while i < self.in_flight.len()
            invariant
                i <= self.in_flight.len(),
                kept@ == unsent(self.in_flight@.take(i as int)),
            decreases self.in_flight.len() - i,
        {
            let entry = self.in_flight[i];
            proof {
                let shorter = self.in_flight@.take(i as int);
                let longer = self.in_flight@.take(i as int + 1);
                assert(longer.drop_last() == shorter);
                assert(longer.last() == entry);
            }
            if !entry.sent {
                kept.push(entry);
            }
            i += 1;
        }
        assert(self.in_flight@.take(i as int) == self.in_flight@);
        self.in_flight = kept;
    }

    /// Whether the event with `ticket` neither waits nor is in flight
    /// unconfirmed.
    pub fn is_sent(&self, ticket: u64) -> (answer: bool)
        ensures
            answer == self@.is_sent(ticket),
    {
        let mut i: usize = 0;
        while i < self.queue.len()
            invariant
                i <= self.queue.len(),
                forall|j: int| 0 <= j < i ==> (#[trigger] events_of(self.queue@)[j]).ticket != ticket,
            decreases self.queue.len() - i,
        {
            if self.queue[i].ticket == ticket {
                assert(events_of(self.queue@)[i as int].ticket == ticket);
                return false;
            }
            i += 1;
        }
        let mut k: usize = 0;
        while k < self.in_flight.len()
            invariant
                k <= self.in_flight.len(),
                forall|j: int|
                    0 <= j < k && (#[trigger] self.in_flight@[j]).ticket == ticket
                        ==> self.in_flight@[j].sent,
            decreases self.in_flight.len() - k,
        {
            if self.in_flight[k].ticket == ticket && !self.in_flight[k].sent {
                assert(self@.in_flight[k as int].ticket == ticket);
                return false;
            }
            k += 1;
        }
        true
    }
}

/// The tickets of in-flight entries.
pub open spec fn in_flight_tickets(entries: Seq<InFlight>) -> Seq<u64> {
    entries.map_values(|entry: InFlight| entry.ticket)
}

/// The tickets of waiting events.
pub open spec fn pending_tickets(pending: Seq<QueuedEventModel>) -> Seq<u64> {
    pending.map_values(|queued: QueuedEventModel| queued.ticket)
}

/// Each ticket is smaller than those behind it.
pub open spec fn increasing(tickets: Seq<u64>) -> bool {
    forall|i: int, j: int| 0 <= i < j < tickets.len() ==> tickets[i] < tickets[j]
}

impl QueueModel {
    /// The tickets of everything that the queue accounts for: of what is in
    /// flight, then of what waits.
    pub open spec fn live_tickets(self) -> Seq<u64> {
        in_flight_tickets(self.in_flight) + pending_tickets(self.pending)
    }

    /// The tickets were given out in order and none was given out twice: what
    /// is in flight is older than what waits, each ticket is smaller than
    /// those behind it, and all are smaller than the ticket that comes next.
    /// This holds of a queue from its making until the tickets run out and
    /// the count starts again at zero.
    pub open spec fn ordered(self) -> bool {
        &&& increasing(self.live_tickets())
        &&& forall|i: int|
            0 <= i < self.live_tickets().len() ==> (#[trigger] self.live_tickets()[i])
                < self.next_ticket
    }
}

/// A new queue has its tickets in order.
pub proof fn lemma_empty_is_ordered()
    ensures
        QueueModel::empty().ordered(),
{
}

/// Where the tickets are in order, no event is accounted for twice: no two
/// entries have the same ticket, be they in flight or waiting.
pub proof fn lemma_ordered_tickets_are_distinct(queue: QueueModel, i: int, j: int)
    requires
        queue.ordered(),
        0 <= i < queue.live_tickets().len(),
        0 <= j < queue.live_tickets().len(),
        i != j,
    ensures
        queue.live_tickets()[i] != queue.live_tickets()[j],
{
}

/// An event that arrives leaves the tickets in order, as long as the
/// tickets have not run out.
pub proof fn lemma_enqueue_keeps_order(queue: QueueModel, event: MyLogEventModel)
    requires
        queue.ordered(),
        queue.next_ticket < u64::MAX,
    ensures
        queue.enqueue(event).ordered(),
{
    let after = queue.enqueue(event);
    let with_all = queue.pending.push(QueuedEventModel { ticket: queue.next_ticket, event });
    let dropped = with_all.len() - after.pending.len();
    assert(after.pending == with_all.skip(dropped));
    let before = queue.live_tickets();
    let tickets = after.live_tickets();
    let flying = queue.in_flight.len() as int;
    assert forall|i: int| 0 <= i < tickets.len() implies {
        &&& #[trigger] tickets[i] < after.next_ticket
        &&& tickets[i] == if i < flying {
            before[i]
        } else if i + dropped < before.len() {
            before[i + dropped]
        } else {
            queue.next_ticket
        }
    } by {
        if i >= flying {
            assert(after.pending[i - flying] == with_all[i - flying + dropped]);
            if i + dropped < before.len() {
                assert(before[i + dropped] == queue.pending[i - flying + dropped].ticket);
            }
        } else {
            assert(before[i] == queue.in_flight[i].ticket);
        }
    }
    assert forall|i: int, j: int| 0 <= i < j < tickets.len() implies tickets[i] < tickets[j] by {
        assert(tickets[i] < after.next_ticket);
        assert(tickets[j] < after.next_ticket);
        if j + dropped < before.len() {
            if i >= flying {
                assert(before[i + dropped] < before[j + dropped]);
            } else {
                assert(before[i] < before[j + dropped]);
            }
        } else {
            if i >= flying {
                if i + dropped < before.len() {
                    assert(before[i + dropped] < queue.next_ticket);
                }
            } else {
                assert(before[i] < queue.next_ticket);
            }
        }
    }
}

/// A batch that leaves the queue leaves the tickets as they are, and so in
/// order.
pub proof fn lemma_dequeue_keeps_order(queue: QueueModel, max_amount: nat)
    requires
        queue.ordered(),
    ensures
        queue.dequeue(max_amount).live_tickets() == queue.live_tickets(),
        queue.dequeue(max_amount).ordered(),
{
    let after = queue.dequeue(max_amount);
    let amount = queue.batch(max_amount).len() as int;
    assert(after.live_tickets() == queue.live_tickets()) by {
        let left = after.live_tickets();
        let right = queue.live_tickets();
        assert(left.len() == right.len());
        assert forall|i: int| 0 <= i < left.len() implies left[i] == right[i] by {
            let flying = queue.in_flight.len() as int;
            if i < flying {
            } else if i < flying + amount {
                assert(after.in_flight[i] == taken(queue.batch(max_amount))[i - flying]);
                assert(queue.batch(max_amount)[i - flying] == queue.pending[i - flying]);
            } else {
                assert(after.pending[i - flying - amount] == queue.pending[i - flying]);
            }
        }
    }
}

/// Confirming a ticket leaves the tickets as they are, and so in order.
pub proof fn lemma_confirm_keeps_order(queue: QueueModel, ticket: u64)
    requires
        queue.ordered(),
    ensures
        queue.confirm(ticket).live_tickets() == queue.live_tickets(),
        queue.confirm(ticket).ordered(),
{
    assert(in_flight_tickets(queue.confirm(ticket).in_flight) == in_flight_tickets(
        queue.in_flight,
    ));
}

/// What pruning leaves of entries whose tickets are in order has its tickets
/// in order, and every ticket it has was there before.
pub proof fn lemma_unsent_keeps_order(entries: Seq<InFlight>)
    requires
        increasing(in_flight_tickets(entries)),
    ensures
        increasing(in_flight_tickets(unsent(entries))),
        forall|i: int|
            0 <= i < unsent(entries).len() ==> in_flight_tickets(entries).contains(
                (#[trigger] unsent(entries)[i]).ticket,
            ),
    decreases entries.len(),
{
    if entries.len() > 0 {
        let shorter = entries.drop_last();
        let all = in_flight_tickets(entries);
        assert forall|i: int, j: int| 0 <= i < j < shorter.len() implies in_flight_tickets(
            shorter,
        )[i] < in_flight_tickets(shorter)[j] by {
            assert(all[i] < all[j]);
        }
        lemma_unsent_keeps_order(shorter);
        let kept = unsent(entries);
        assert forall|i: int| 0 <= i < kept.len() implies all.contains(
            (#[trigger] kept[i]).ticket,
        ) by {
            if i < unsent(shorter).len() {
                let ticket = unsent(shorter)[i].ticket;
                let at = choose|at: int|
                    0 <= at < shorter.len() && in_flight_tickets(shorter)[at] == ticket;
                assert(all[at] == ticket);
            } else {
                assert(all[entries.len() - 1] == kept[i].ticket);
            }
        }
        assert forall|i: int, j: int| 0 <= i < j < kept.len() implies in_flight_tickets(kept)[i]
            < in_flight_tickets(kept)[j] by {
            if j < unsent(shorter).len() {
                assert(in_flight_tickets(unsent(shorter))[i] < in_flight_tickets(
                    unsent(shorter),
                )[j]);
            } else {
                let ticket = unsent(shorter)[i].ticket;
                let at = choose|at: int|
                    0 <= at < shorter.len() && in_flight_tickets(shorter)[at] == ticket;
                assert(all[at] < all[entries.len() - 1]);
            }
        }
    }
}

/// Pruning leaves the tickets in order.
pub proof fn lemma_collect_garbage_keeps_order(queue: QueueModel)
    requires
        queue.ordered(),
    ensures
        queue.collect_garbage().ordered(),
{
    let after = queue.collect_garbage();
    let before = queue.live_tickets();
    let flying = in_flight_tickets(queue.in_flight);
    assert forall|i: int, j: int| 0 <= i < j < flying.len() implies flying[i] < flying[j] by {
        assert(before[i] < before[j]);
    }
    lemma_unsent_keeps_order(queue.in_flight);
    let kept = in_flight_tickets(after.in_flight);
    let tickets = after.live_tickets();
    assert forall|i: int| 0 <= i < kept.len() implies exists|at: int|
        0 <= at < flying.len() && flying[at] == #[trigger] kept[i] by {
        assert(flying.contains(after.in_flight[i].ticket));
    }
    assert forall|i: int| 0 <= i < tickets.len() implies #[trigger] tickets[i]
        < after.next_ticket by {
        if i < kept.len() {
            let at = choose|at: int| 0 <= at < flying.len() && flying[at] == kept[i];
            assert(before[at] == kept[i]);
        } else {
            assert(before[i - kept.len() + flying.len()] == tickets[i]);
        }
    }
    assert forall|i: int, j: int| 0 <= i < j < tickets.len() implies tickets[i] < tickets[j] by {
        if j < kept.len() {
            assert(kept[i] < kept[j]);
        } else {
            let behind = j - kept.len() + flying.len();
            assert(before[behind] == tickets[j]);
            if i < kept.len() {
                let at = choose|at: int| 0 <= at < flying.len() && flying[at] == kept[i];
                assert(before[at] == kept[i]);
                assert(before[at] < before[behind]);
            } else {
                assert(before[i - kept.len() + flying.len()] == tickets[i]);
            }
        }
    }
}

/// Setting the cap leaves the tickets in order.
pub proof fn lemma_set_queue_size_keeps_order(queue: QueueModel, queue_size: Option<usize>)
    requires
        queue.ordered(),
    ensures
        queue.set_queue_size(queue_size).ordered(),
{
    let after = queue.set_queue_size(queue_size);
    let dropped = queue.pending.len() - after.pending.len();
    assert(after.pending == queue.pending.skip(dropped));
    let before = queue.live_tickets();
    let tickets = after.live_tickets();
    let flying = queue.in_flight.len() as int;
    assert forall|i: int| 0 <= i < tickets.len() implies #[trigger] tickets[i] == if i < flying {
        before[i]
    } else {
        before[i + dropped]
    } by {
        if i >= flying {
            assert(after.pending[i - flying] == queue.pending[i - flying + dropped]);
        }
    }
    assert forall|i: int| 0 <= i < tickets.len() implies #[trigger] tickets[i]
        < after.next_ticket by {
        if i < flying {
            assert(before[i] < queue.next_ticket);
        } else {
            assert(before[i + dropped] < queue.next_ticket);
        }
    }
    assert forall|i: int, j: int| 0 <= i < j < tickets.len() implies tickets[i] < tickets[j] by {
        let behind = if j < flying {
            j
        } else {
            j + dropped
        };
        let ahead = if i < flying {
            i
        } else {
            i + dropped
        };
        assert(tickets[i] == before[ahead]);
        assert(tickets[j] == before[behind]);
        assert(before[ahead] < before[behind]);
    }
}

/// The queue after the events have arrived one after another.
pub open spec fn enqueue_all(queue: QueueModel, events: Seq<MyLogEventModel>) -> QueueModel
    decreases events.len(),
{
    if events.len() == 0 {
        queue
    } else {
        enqueue_all(queue, events.drop_last()).enqueue(events.last())
    }
}

/// The batches that repeated calls of `dequeue` with `max_amount` return
/// until nothing waits any more, one after another.
pub open spec fn drain(queue: QueueModel, max_amount: nat) -> Seq<QueuedEventModel>
    decreases queue.pending.len(),
{
    if queue.pending.len() == 0 || max_amount == 0 {
        Seq::empty()
    } else {
        queue.batch(max_amount) + drain(queue.dequeue(max_amount), max_amount)
    }
}

/// The events of queued entries, without their tickets.
pub open spec fn payloads(entries: Seq<QueuedEventModel>) -> Seq<MyLogEventModel> {
    entries.map_values(|queued: QueuedEventModel| queued.event)
}

/// Batches taken until nothing waits are, one after another, exactly what
/// waited, in order.
pub proof fn lemma_drain_is_pending(queue: QueueModel, max_amount: nat)
    requires
        max_amount > 0,
    ensures
        drain(queue, max_amount) == queue.pending,
    decreases queue.pending.len(),
{
    if queue.pending.len() > 0 {
        lemma_drain_is_pending(queue.dequeue(max_amount), max_amount);
        assert(queue.batch(max_amount) + queue.pending.skip(queue.batch(max_amount).len() as int)
            == queue.pending);
    }
}

/// Without a cap, the events that arrive wait behind those that waited, in
/// arrival order.
pub proof fn lemma_enqueue_all_appends(queue: QueueModel, events: Seq<MyLogEventModel>)
    requires
        queue.queue_size is None,
    ensures
        enqueue_all(queue, events).queue_size is None,
        enqueue_all(queue, events).in_flight == queue.in_flight,
        payloads(enqueue_all(queue, events).pending) == payloads(queue.pending) + events,
    decreases events.len(),
{
    if events.len() == 0 {
        assert(payloads(queue.pending) + events == payloads(queue.pending));
    } else {
        lemma_enqueue_all_appends(queue, events.drop_last());
        let before = enqueue_all(queue, events.drop_last());
        assert(payloads(before.enqueue(events.last()).pending) == payloads(before.pending).push(
            events.last(),
        ));
        assert((payloads(queue.pending) + events.drop_last()).push(events.last()) == payloads(
            queue.pending,
        ) + events);
    }
}

/// Events that arrive at an empty queue without a cap come out again in
/// batches, whatever the batch size, as exactly the events that arrived: each
/// once, none missing, in arrival order.
pub proof fn lemma_drain_returns_all_in_order(events: Seq<MyLogEventModel>, max_amount: nat)
    requires
        max_amount > 0,
    ensures
        payloads(drain(enqueue_all(QueueModel::empty(), events), max_amount)) == events,
{
    let filled = enqueue_all(QueueModel::empty(), events);
    lemma_enqueue_all_appends(QueueModel::empty(), events);
    lemma_drain_is_pending(filled, max_amount);
    assert(payloads(QueueModel::empty().pending) + events == events);
}

} // verus!
