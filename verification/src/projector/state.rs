//! How a projector is configured, and where it stands in the stream.

use obix::EventSequence;
use std::time::Duration;
use vstd::prelude::*;

verus! {

/// The duration of so many milliseconds.
pub uninterp spec fn duration_of_millis(millis: u64) -> Duration;

/// `Duration::from_millis`. Claimed of it: the duration depends on the number
/// of milliseconds alone.
pub assume_specification[ Duration::from_millis ](millis: u64) -> (duration: Duration)
    ensures
        duration == duration_of_millis(millis),
;

/// The position of an event in the outbox.
#[verifier::external_type_specification]
#[verifier::external_body]
pub struct ExEventSequence(obix::EventSequence);

/// The position with this number.
pub uninterp spec fn event_sequence(number: u64) -> EventSequence;

/// `<EventSequence as From<u64>>::from`. Claimed of it: the position depends
/// on the number alone.
#[verifier::external_body]
fn to_event_sequence(number: u64) -> (sequence: EventSequence)
    ensures
        sequence == event_sequence(number),
{
    EventSequence::from(number)
}

/// `<u64 as From<EventSequence>>::from`. Claimed of it: it gives back the
/// number that the position was made from, and no other.
#[verifier::external_body]
pub(crate) fn from_event_sequence(sequence: EventSequence) -> (number: u64)
    ensures
        event_sequence(number) == sequence,
        forall|other: u64| #[trigger] event_sequence(other) == sequence ==> number == other,
{
    u64::from(sequence)
}

/// How a projector takes its batches.
#[derive(Clone, Copy, Debug)]
pub struct BalanceProjectorConfig {
    /// The most events that one batch takes.
    pub batch_size: usize,
    /// The gap in the stream that ends a batch.
    pub idle_timeout: Duration,
}

impl Default for BalanceProjectorConfig {
    fn default() -> (config: Self)
        ensures
            config.batch_size == 500,
            config.idle_timeout == duration_of_millis(100),
    {
        BalanceProjectorConfig { batch_size: 500, idle_timeout: Duration::from_millis(100) }
    }
}

/// The projector's durable stream position: the sequence of the last outbox
/// event whose effect has been committed.
#[derive(Debug, Clone, Copy, PartialEq, Eq, Structural)]
pub struct ProjectorState {
    pub sequence: i64,
}

impl Default for ProjectorState {
    fn default() -> (state: Self)
        ensures
            state.sequence == 0,
    {
        ProjectorState { sequence: 0 }
    }
}

impl ProjectorState {
    /// The state once the event with this number has been consumed.
    pub open spec fn spec_at(number: u64) -> ProjectorState {
        ProjectorState { sequence: number as i64 }
    }

    /// The position after which the stream is listened to.
    pub open spec fn spec_listen_from(self) -> EventSequence {
        event_sequence(self.sequence as u64)
    }

    /// The position after which the stream is listened to.
    pub fn listen_from(&self) -> (sequence: EventSequence)
        ensures
            sequence == self.spec_listen_from(),
    {
        to_event_sequence(self.sequence as u64)
    }
}

} // verus!
