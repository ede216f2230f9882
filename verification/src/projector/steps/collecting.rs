//! What is collected from the stream, and how long it is waited for.

use crate::primitives::EntryValues;
use crate::projector::collect::{
    entries_of, CollectStep, CollectedBatch, CollectorModel, OutboxEvent, OutboxEventPayload,
};
use crate::projector::state::{event_sequence, ProjectorState};
use vstd::prelude::*;

verus! {

/// What one event more adds to the entries that are collected: its entry, as it
/// is and at the end, if it says that one was created, and else nothing.
pub proof fn law_one_event_more_adds_its_entry(
    events: Seq<OutboxEvent>,
    sequence: u64,
    entry: EntryValues,
)
    ensures
        entries_of(Seq::empty()) == Seq::<EntryValues>::empty(),
        entries_of(
            events.push(
                OutboxEvent {
                    sequence,
                    payload: Some(OutboxEventPayload::EntryCreated { entry }),
                },
            ),
        ) == entries_of(events).push(entry),
        entries_of(
            events.push(OutboxEvent { sequence, payload: Some(OutboxEventPayload::Other) }),
        ) == entries_of(events),
        entries_of(events.push(OutboxEvent { sequence, payload: None })) == entries_of(events),
{
    let made = OutboxEvent {
        sequence,
        payload: Some(OutboxEventPayload::EntryCreated { entry }),
    };
    let other = OutboxEvent { sequence, payload: Some(OutboxEventPayload::Other) };
    let none = OutboxEvent { sequence, payload: None };
    assert(events.push(made).drop_last() =~= events);
    assert(events.push(other).drop_last() =~= events);
    assert(events.push(none).drop_last() =~= events);
}

/// The events that say that an entry was created, in order.
spec fn created(events: Seq<OutboxEvent>) -> Seq<OutboxEvent> {
    events.filter(
        |event: OutboxEvent|
            match event.payload {
                Some(OutboxEventPayload::EntryCreated { .. }) => true,
                _ => false,
            },
    )
}

/// The entries of events are those that their payloads carry.
proof fn lemma_entries_of_created(events: Seq<OutboxEvent>)
    ensures
        entries_of(events).len() == created(events).len(),
        forall|k: int|
            0 <= k < entries_of(events).len() ==> (#[trigger] created(events)[k]).payload == Some(
                OutboxEventPayload::EntryCreated { entry: entries_of(events)[k] },
            ),
    decreases events.len(),
{
    reveal(Seq::filter);
    if events.len() > 0 {
        lemma_entries_of_created(events.drop_last());
        assert(events.drop_last().push(events.last()) =~= events);
    }
}

/// A batch holds the entry of every event that says that one was created,
/// whatever the entry is: as many entries as such events, the first that of the
/// first such event, and so on. It counts every event, and knows the position
/// of the last.
pub proof fn law_batch_holds_every_created_entry(batch: CollectedBatch, events: Seq<OutboxEvent>)
    requires
        batch.collects(events),
    ensures
        ({
            let created = events.filter(
                |event: OutboxEvent|
                    match event.payload {
                        Some(OutboxEventPayload::EntryCreated { .. }) => true,
                        _ => false,
                    },
            );
            &&& batch.entries@.len() == created.len()
            &&& forall|k: int|
                0 <= k < created.len() ==> (#[trigger] created[k]).payload == Some(
                    OutboxEventPayload::EntryCreated { entry: batch.entries@[k] },
                )
        }),
        batch.events == events.len(),
        events.len() > 0 ==> batch.last_sequence == events[events.len() - 1].sequence as i64,
        events.len() == 0 ==> batch.last_sequence == 0,
{
    lemma_entries_of_created(events);
    assert(created(events) == events.filter(
        |event: OutboxEvent|
            match event.payload {
                Some(OutboxEventPayload::EntryCreated { .. }) => true,
                _ => false,
            },
    ));
}

/// An event that says that an entry was created puts that entry into the batch.
pub proof fn law_no_created_entry_is_lost(
    batch: CollectedBatch,
    events: Seq<OutboxEvent>,
    i: int,
    entry: EntryValues,
)
    requires
        batch.collects(events),
        0 <= i < events.len(),
        events[i].payload == Some(OutboxEventPayload::EntryCreated { entry }),
    ensures
        batch.entries@.contains(entry),
{
    lemma_entries_of_created(events);
    let is_created = |event: OutboxEvent|
        match event.payload {
            Some(OutboxEventPayload::EntryCreated { .. }) => true,
            _ => false,
        };
    assert(created(events) == events.filter(is_created));
    events.lemma_filter_contains(is_created, i);
    let k = created(events).index_of(events[i]);
    assert(created(events)[k] == events[i]);
    assert(batch.entries@[k] == entry);
}

/// What is waited for, at any batch size. A wait without a timeout happens only
/// where nothing has been consumed and the first event is to be awaited; once
/// an event is consumed, an idle gap ends the batch; and a batch is complete
/// exactly where the stream has ended or been idle, or the batch is full.
pub proof fn law_only_the_first_event_is_awaited_without_a_timeout(collector: CollectorModel)
    ensures
        collector.step() == CollectStep::AwaitNext ==> collector.consumed.len() == 0
            && collector.wait_for_first,
        collector.consumed.len() > 0 && collector.consumed.len() < collector.batch_size
            && !collector.ended ==> collector.step() == CollectStep::AwaitNextOrIdle,
        collector.consumed.len() == 0 && 0 < collector.batch_size && !collector.ended
            ==> collector.step() == if collector.wait_for_first {
            CollectStep::AwaitNext
        } else {
            CollectStep::AwaitNextOrIdle
        },
        collector.step() == CollectStep::Finished <==> collector.ended || collector.consumed.len()
            >= collector.batch_size,
{
}

/// A batch with events leads to the position of its last event; one without
/// leads nowhere.
pub proof fn law_next_state_is_the_last_position(batch: CollectedBatch)
    ensures
        batch.events > 0 ==> batch.spec_next_state() is Some
            && batch.spec_next_state()->0.sequence == batch.last_sequence,
        batch.events == 0 ==> batch.spec_next_state() is None,
{
}

/// The state after an event remembers its number, and the stream is listened to
/// from the number that the state remembers.
pub proof fn law_states_remember_positions(number: u64, state: ProjectorState)
    ensures
        ProjectorState::spec_at(number).sequence as u64 == number,
        state.spec_listen_from() == event_sequence(state.sequence as u64),
        ProjectorState::spec_at(number).spec_listen_from() == event_sequence(number),
{
    assert((number as i64) as u64 == number) by (bit_vector);
}

} // verus!
