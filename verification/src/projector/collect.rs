//! Draining the outbox stream in bounded batches.

use crate::primitives::EntryValues;
use crate::projector::state::{
    event_sequence, from_event_sequence, BalanceProjectorConfig, ProjectorState,
};
use obix::EventSequence;
use vstd::prelude::*;

verus! {

/// What an outbox event carries.
#[derive(Clone, Copy, Debug, PartialEq, Eq, Structural)]
pub enum OutboxEventPayload {
    /// An entry was created.
    EntryCreated { entry: EntryValues },
    /// Anything else.
    Other,
}

/// An event of the outbox stream.
#[derive(Clone, Copy, Debug, PartialEq, Eq, Structural)]
pub struct OutboxEvent {
    /// The number of its position.
    pub sequence: u64,
    pub payload: Option<OutboxEventPayload>,
}

impl OutboxEvent {
    /// The event at `sequence`.
    pub fn new(sequence: EventSequence, payload: Option<OutboxEventPayload>) -> (event: OutboxEvent)
        ensures
            event_sequence(event.sequence) == sequence,
            forall|number: u64| #[trigger]
                event_sequence(number) == sequence ==> event.sequence == number,
            event.payload == payload,
    {
        OutboxEvent { sequence: from_event_sequence(sequence), payload }
    }
}

/// What was drained from the stream.
pub struct CollectedBatch {
    /// The entries that the events carry, in order.
    pub entries: Vec<EntryValues>,
    /// The position of the last event.
    pub last_sequence: i64,
    /// The number of events.
    pub events: usize,
}

/// The entries that `events` carry, in order. Only `EntryCreated` payloads
/// carry one.
pub open spec fn entries_of(events: Seq<OutboxEvent>) -> Seq<EntryValues>
    decreases events.len(),
{
    if events.len() == 0 {
        Seq::empty()
    } else {
        let earlier = entries_of(events.drop_last());
        match events.last().payload {
            Some(OutboxEventPayload::EntryCreated { entry }) => earlier.push(entry),
            _ => earlier,
        }
    }
}

impl CollectedBatch {
    /// Whether the batch is what `events` amount to.
    pub open spec fn collects(&self, events: Seq<OutboxEvent>) -> bool {
        &&& self.entries@ == entries_of(events)
        &&& self.events == events.len()
        &&& self.last_sequence == if events.len() == 0 {
            0
        } else {
            events.last().sequence as i64
        }
    }

    /// The state that consuming the batch leads to; `None` for an empty one.
    pub open spec fn spec_next_state(&self) -> Option<ProjectorState> {
        if self.events > 0 {
            Some(ProjectorState { sequence: self.last_sequence })
        } else {
            None
        }
    }

    /// The state that consuming the batch leads to; `None` for an empty one.
    pub fn next_state(&self) -> (state: Option<ProjectorState>)
        ensures
            state == self.spec_next_state(),
    {
        if self.events > 0 {
            Some(ProjectorState { sequence: self.last_sequence })
        } else {
            None
        }
    }
}

/// What a collector waits for.
#[derive(Clone, Copy, Debug, PartialEq, Eq, Structural)]
pub enum CollectStep {
    /// The next event, however long it takes.
    AwaitNext,
    /// The next event, or a gap of `idle_timeout`.
    AwaitNextOrIdle,
    /// Nothing: the batch is complete.
    Finished,
}

/// Drains up to `batch_size` events, ending the batch at the first
/// `idle_timeout` gap or where the stream ends. With `wait_for_first` the
/// first event is awaited without a timeout; without it a caught-up stream
/// yields an empty batch.
pub struct BatchCollector {
    batch: CollectedBatch,
    batch_size: usize,
    wait_for_first: bool,
    ended: bool,
    consumed: Ghost<Seq<OutboxEvent>>,
}

/// Where a collector stands.
pub struct CollectorModel {
    pub consumed: Seq<OutboxEvent>,
    pub batch_size: nat,
    pub wait_for_first: bool,
    pub ended: bool,
}

impl CollectorModel {
    /// What a collector in this place waits for.
    pub open spec fn step(self) -> CollectStep {
        if self.ended || self.consumed.len() >= self.batch_size {
            CollectStep::Finished
        } else if self.consumed.len() == 0 && self.wait_for_first {
            CollectStep::AwaitNext
        } else {
            CollectStep::AwaitNextOrIdle
        }
    }
}

impl View for BatchCollector {
    type V = CollectorModel;

    closed spec fn view(&self) -> CollectorModel {
        CollectorModel {
            consumed: self.consumed@,
            batch_size: self.batch_size as nat,
            wait_for_first: self.wait_for_first,
            ended: self.ended,
        }
    }
}

impl BatchCollector {
    /// Whether the batch is what was consumed, and no larger than it may be.
    pub closed spec fn well_formed(&self) -> bool {
        self.batch.collects(self.consumed@) && self.batch.events <= self.batch_size
    }

    /// A collector that has consumed nothing.
    pub fn new(config: &BalanceProjectorConfig, wait_for_first: bool) -> (collector: BatchCollector)
        ensures
            collector.well_formed(),
            collector@.consumed == Seq::<OutboxEvent>::empty(),
            collector@.batch_size == config.batch_size,
            collector@.wait_for_first == wait_for_first,
            !collector@.ended,
    {
        BatchCollector {
            batch: CollectedBatch { entries: Vec::new(), last_sequence: 0, events: 0 },
            batch_size: config.batch_size,
            wait_for_first,
            ended: false,
            consumed: Ghost(Seq::empty()),
        }
    }

    /// What the collector waits for.
    pub fn step(&self) -> (step: CollectStep)
        requires
            self.well_formed(),
        ensures
            step == self@.step(),
    {
        if self.ended || self.batch.events >= self.batch_size {
            CollectStep::Finished
        } else if self.batch.events == 0 && self.wait_for_first {
            CollectStep::AwaitNext
        } else {
            CollectStep::AwaitNextOrIdle
        }
    }

    /// The stream has yielded an event.
    pub fn on_event(&mut self, event: &OutboxEvent)
        requires
            old(self).well_formed(),
            old(self)@.step() != CollectStep::Finished,
        ensures
            final(self).well_formed(),
            final(self)@ == (CollectorModel {
                consumed: old(self)@.consumed.push(*event),
                ..old(self)@
            }),
    {
        proof {
            assert(self.consumed@.push(*event).drop_last() =~= self.consumed@);
        }
        self.batch.events += 1;
        self.batch.last_sequence = event.sequence as i64;
        if let Some(OutboxEventPayload::EntryCreated { entry }) = &event.payload {
            self.batch.entries.push(*entry);
        }
        self.consumed = Ghost(self.consumed@.push(*event));
    }

    /// The stream has stayed silent for `idle_timeout`. That ends a batch only
    /// where the next event is not awaited however long it takes.
    pub fn on_idle(&mut self)
        requires
            old(self).well_formed(),
            old(self)@.step() == CollectStep::AwaitNextOrIdle,
        ensures
            final(self).well_formed(),
            final(self)@ == (CollectorModel { ended: true, ..old(self)@ }),
    {
        self.ended = true;
    }

    /// The stream has ended.
    pub fn on_end(&mut self)
        requires
            old(self).well_formed(),
            old(self)@.step() != CollectStep::Finished,
        ensures
            final(self).well_formed(),
            final(self)@ == (CollectorModel { ended: true, ..old(self)@ }),
    {
        self.ended = true;
    }

    /// The batch.
    pub fn finish(self) -> (batch: CollectedBatch)
        requires
            self.well_formed(),
        ensures
            batch.collects(self@.consumed),
            batch.events <= self@.batch_size,
    {
        self.batch
    }
}

} // verus!
