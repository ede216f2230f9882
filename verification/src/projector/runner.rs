//! Running batch after batch, or a single one.

use crate::primitives::JobId;
use crate::projector::batch::{BatchModel, BatchOp};
use crate::projector::collect::{BatchCollector, CollectedBatch, OutboxEvent};
use crate::projector::state::{BalanceProjectorConfig, ProjectorState};
use vstd::prelude::*;

verus! {

/// What a job does next.
#[derive(Clone, Copy, Debug, PartialEq, Eq, Structural)]
pub enum RunStep {
    /// Collect a batch, waiting for its first event, unless a shutdown is
    /// requested before.
    Collect,
    /// Project the batch and commit the operation.
    Persist,
    /// Return, to be scheduled again at once.
    RescheduleNow,
}

/// A run of the projector's job.
#[derive(Clone, Copy, Debug, PartialEq, Eq, Structural)]
pub struct JobRun {
    pub job_id: JobId,
    /// The position up to which everything is committed.
    pub state: ProjectorState,
    pub step: RunStep,
}

impl JobRun {
    /// A run that goes on from the persisted state, or from the beginning of
    /// the stream where there is none.
    pub fn new(job_id: JobId, execution_state: Option<ProjectorState>) -> (run: JobRun)
        ensures
            run.job_id == job_id,
            run.state == match execution_state {
                Some(state) => state,
                None => ProjectorState { sequence: 0 },
            },
            run.step == RunStep::Collect,
    {
        let state = match execution_state {
            Some(state) => state,
            None => ProjectorState::default(),
        };
        JobRun { job_id, state, step: RunStep::Collect }
    }

    /// What collects the next batch: its first event is awaited however long
    /// it takes.
    pub fn collector(&self, config: &BalanceProjectorConfig) -> (collector: BatchCollector)
        ensures
            collector.well_formed(),
            collector@.consumed == Seq::<OutboxEvent>::empty(),
            collector@.batch_size == config.batch_size,
            collector@.wait_for_first,
            !collector@.ended,
    {
        BatchCollector::new(config, true)
    }

    /// A shutdown is requested.
    pub fn on_shutdown(&mut self)
        requires
            old(self).step == RunStep::Collect,
        ensures
            *final(self) == (JobRun { step: RunStep::RescheduleNow, ..*old(self) }),
    {
        self.step = RunStep::RescheduleNow;
    }

    /// A batch is collected. An empty one ends the run; any other is projected
    /// from the committed position.
    pub fn on_batch(&mut self, batch: &CollectedBatch) -> (op: Option<BatchOp>)
        requires
            old(self).step == RunStep::Collect,
        ensures
            match batch.spec_next_state() {
                None => op is None && *final(self) == (JobRun {
                    step: RunStep::RescheduleNow,
                    ..*old(self)
                }),
                Some(new_state) => {
                    &&& op is Some
                    &&& op->0.well_formed()
                    &&& op->0@ == BatchModel::start(
                        old(self).job_id,
                        old(self).state,
                        new_state,
                        batch.entries@,
                    )
                    &&& *final(self) == (JobRun { step: RunStep::Persist, ..*old(self) })
                },
            },
    {
        match batch.next_state() {
            Some(new_state) => {
                self.step = RunStep::Persist;
                Some(BatchOp::new(self.job_id, &self.state, &new_state, &batch.entries))
            },
            None => {
                self.step = RunStep::RescheduleNow;
                None
            },
        }
    }

    /// The batch that the run has collected is projected, and its operation
    /// committed.
    pub fn on_persisted(&mut self, op: &BatchOp)
        requires
            old(self).step == RunStep::Persist,
            op@.stage is Advanced,
            op@.job_id == old(self).job_id,
            op@.expected == old(self).state.sequence,
        ensures
            *final(self) == (JobRun {
                state: op@.new_state,
                step: RunStep::Collect,
                ..*old(self)
            }),
    {
        self.state = op.cursor().new_state;
        self.step = RunStep::Collect;
    }
}

/// What a single batch does next.
#[derive(Clone, Copy, Debug, PartialEq, Eq, Structural)]
pub enum SingleStep {
    /// Collect a batch, without waiting for its first event.
    Collect,
    /// Project the batch.
    Project,
    /// Commit the operation.
    Commit,
    /// Return the number of events.
    Done,
}

/// A single batch, run outside the job host: drained from the cursor in
/// `state`, folded, and the cursor advanced.
#[derive(Clone, Copy, Debug, PartialEq, Eq, Structural)]
pub struct SingleBatchRun {
    pub job_id: JobId,
    /// Whether the run commits its operation itself, rather than leaving that
    /// to its caller.
    pub owns_op: bool,
    pub state: ProjectorState,
    /// The number of events consumed; zero means caught up.
    pub events: usize,
    pub step: SingleStep,
}

impl SingleBatchRun {
    /// A run that has collected nothing yet.
    pub fn new(job_id: JobId, state: &ProjectorState, owns_op: bool) -> (run: SingleBatchRun)
        ensures
            run == (SingleBatchRun {
                job_id,
                owns_op,
                state: *state,
                events: 0,
                step: SingleStep::Collect,
            }),
    {
        SingleBatchRun { job_id, owns_op, state: *state, events: 0, step: SingleStep::Collect }
    }

    /// What collects the batch: its first event is not awaited longer than any
    /// other.
    pub fn collector(&self, config: &BalanceProjectorConfig) -> (collector: BatchCollector)
        ensures
            collector.well_formed(),
            collector@.consumed == Seq::<OutboxEvent>::empty(),
            collector@.batch_size == config.batch_size,
            !collector@.wait_for_first,
            !collector@.ended,
    {
        BatchCollector::new(config, false)
    }

    /// The batch is collected. An empty one is done with at once, and nothing
    /// is committed.
    pub fn on_batch(&mut self, batch: &CollectedBatch) -> (op: Option<BatchOp>)
        requires
            old(self).step == SingleStep::Collect,
        ensures
            match batch.spec_next_state() {
                None => op is None && *final(self) == (SingleBatchRun {
                    events: 0,
                    step: SingleStep::Done,
                    ..*old(self)
                }),
                Some(new_state) => {
                    &&& op is Some
                    &&& op->0.well_formed()
                    &&& op->0@ == BatchModel::start(
                        old(self).job_id,
                        old(self).state,
                        new_state,
                        batch.entries@,
                    )
                    &&& *final(self) == (SingleBatchRun {
                        events: batch.events,
                        step: SingleStep::Project,
                        ..*old(self)
                    })
                },
            },
    {
        match batch.next_state() {
            Some(new_state) => {
                self.events = batch.events;
                self.step = SingleStep::Project;
                Some(BatchOp::new(self.job_id, &self.state, &new_state, &batch.entries))
            },
            None => {
                self.events = 0;
                self.step = SingleStep::Done;
                None
            },
        }
    }

    /// The batch that the run has collected is projected, and the cursor
    /// advanced.
    pub fn on_projected(&mut self, op: &BatchOp)
        requires
            old(self).step == SingleStep::Project,
            op@.stage is Advanced,
            op@.job_id == old(self).job_id,
            op@.expected == old(self).state.sequence,
        ensures
            *final(self) == (SingleBatchRun {
                state: op@.new_state,
                step: if old(self).owns_op {
                    SingleStep::Commit
                } else {
                    SingleStep::Done
                },
                ..*old(self)
            }),
    {
        self.state = op.cursor().new_state;
        self.step = if self.owns_op {
            SingleStep::Commit
        } else {
            SingleStep::Done
        };
    }

    /// The operation is committed.
    pub fn on_committed(&mut self)
        requires
            old(self).step == SingleStep::Commit,
        ensures
            *final(self) == (SingleBatchRun { step: SingleStep::Done, ..*old(self) }),
    {
        self.step = SingleStep::Done;
    }
}

} // verus!
