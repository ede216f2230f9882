use std::time::Duration;

use cala_projector::balance::amount::Amount;
use cala_projector::primitives::{
    AccountId, Currency, DebitOrCredit, EntryId, EntryValues, JournalId, Layer, TransactionId,
};
use cala_projector::projector::collect::{
    BatchCollector, CollectStep, CollectedBatch, OutboxEvent, OutboxEventPayload,
};
use cala_projector::projector::{BalanceProjectorConfig, ProjectorState};
use obix::EventSequence;

fn config(batch_size: usize) -> BalanceProjectorConfig {
    BalanceProjectorConfig { batch_size, idle_timeout: Duration::from_millis(1_500) }
}

fn entry(id: u128) -> EntryValues {
    EntryValues {
        id: EntryId(id),
        journal_id: JournalId(1),
        transaction_id: TransactionId(2),
        account_id: AccountId(3),
        currency: Currency(840),
        layer: Layer::Settled,
        direction: DebitOrCredit::Credit,
        units: Amount { mantissa: 100, scale: 0 },
    }
}

fn event(number: u64, payload: Option<OutboxEventPayload>) -> OutboxEvent {
    OutboxEvent::new(EventSequence::from(number), payload)
}

fn created(number: u64) -> OutboxEvent {
    let entry = entry(number as u128);
    event(number, Some(OutboxEventPayload::EntryCreated { entry }))
}

#[test]
fn the_default_batch_is_five_hundred_events_and_a_tenth_of_a_second() {
    let config = BalanceProjectorConfig::default();
    assert_eq!(config.batch_size, 500);
    assert_eq!(config.idle_timeout, Duration::from_millis(100));
}

#[test]
fn the_default_state_is_the_beginning() {
    assert_eq!(ProjectorState::default(), ProjectorState { sequence: 0 });
    assert_eq!(ProjectorState::default().listen_from(), EventSequence::BEGIN);
}

#[test]
fn the_stream_is_listened_to_from_the_state() {
    let state = ProjectorState { sequence: 1_000_042 };
    assert_eq!(state.listen_from(), EventSequence::from(1_000_042));
    assert_ne!(state.listen_from(), EventSequence::from(1_000_041));
}

#[test]
fn an_event_has_the_number_of_its_position() {
    assert_eq!(event(1_000_042, None).sequence, 1_000_042);
    assert_eq!(event(u64::MAX, None).sequence, u64::MAX);
}

#[test]
fn the_projector_resumes_after_the_last_event_of_a_batch() {
    let mut collector = BatchCollector::new(&config(10), true);
    collector.on_event(&created(41));
    collector.on_event(&event(57, Some(OutboxEventPayload::Other)));
    let state = collector.finish().next_state().unwrap();
    assert_eq!(state.listen_from(), EventSequence::from(57));
}

#[test]
fn the_first_event_is_awaited_without_a_timeout() {
    let mut collector = BatchCollector::new(&config(3), true);
    assert_eq!(collector.step(), CollectStep::AwaitNext);
    collector.on_event(&created(1));
    assert_eq!(collector.step(), CollectStep::AwaitNextOrIdle);
}

#[test]
fn a_stream_that_is_caught_up_yields_an_empty_batch() {
    let mut collector = BatchCollector::new(&config(3), false);
    assert_eq!(collector.step(), CollectStep::AwaitNextOrIdle);
    collector.on_idle();
    assert_eq!(collector.step(), CollectStep::Finished);
    let batch = collector.finish();
    assert_eq!((batch.events, batch.last_sequence, batch.entries.len()), (0, 0, 0));
    assert_eq!(batch.next_state(), None);
}

#[test]
fn a_batch_takes_no_more_than_its_size() {
    let mut collector = BatchCollector::new(&config(2), true);
    collector.on_event(&created(4));
    assert_eq!(collector.step(), CollectStep::AwaitNextOrIdle);
    collector.on_event(&created(6));
    assert_eq!(collector.step(), CollectStep::Finished);
    let batch = collector.finish();
    assert_eq!(batch.events, 2);
    assert_eq!(batch.next_state(), Some(ProjectorState { sequence: 6 }));
}

#[test]
fn a_batch_of_size_zero_takes_nothing() {
    let collector = BatchCollector::new(&config(0), true);
    assert_eq!(collector.step(), CollectStep::Finished);
    assert_eq!(collector.finish().next_state(), None);
}

#[test]
fn only_created_entries_are_collected_and_every_event_counts() {
    let mut collector = BatchCollector::new(&config(10), false);
    collector.on_event(&event(3, None));
    collector.on_event(&created(5));
    collector.on_event(&event(6, Some(OutboxEventPayload::Other)));
    collector.on_event(&created(8));
    collector.on_event(&event(9, Some(OutboxEventPayload::Other)));
    collector.on_end();
    let batch = collector.finish();
    assert_eq!(batch.entries, vec![entry(5), entry(8)]);
    assert_eq!(batch.events, 5);
    assert_eq!(batch.last_sequence, 9);
    assert_eq!(batch.next_state(), Some(ProjectorState { sequence: 9 }));
}

#[test]
fn the_next_state_is_that_of_the_last_sequence() {
    let batch = CollectedBatch { entries: Vec::new(), last_sequence: 12, events: 1 };
    assert_eq!(batch.next_state(), Some(ProjectorState { sequence: 12 }));
    let empty = CollectedBatch { entries: Vec::new(), last_sequence: 12, events: 0 };
    assert_eq!(empty.next_state(), None);
}

#[test]
fn a_gap_ends_a_batch_that_has_begun() {
    let mut collector = BatchCollector::new(&config(10), true);
    collector.on_event(&created(1));
    assert_eq!(collector.step(), CollectStep::AwaitNextOrIdle);
    collector.on_idle();
    assert_eq!(collector.step(), CollectStep::Finished);
    assert_eq!(collector.finish().next_state(), Some(ProjectorState { sequence: 1 }));
}

#[test]
fn a_stream_that_ends_at_once_yields_an_empty_batch() {
    let mut collector = BatchCollector::new(&config(10), true);
    assert_eq!(collector.step(), CollectStep::AwaitNext);
    collector.on_end();
    assert_eq!(collector.step(), CollectStep::Finished);
    assert_eq!(collector.finish().next_state(), None);
}
