//! That a batch which can be projected is projected.

use crate::primitives::{AccountId, AccountSetId, EntryValues, JobId, Timestamp};
use crate::projector::batch::{BatchModel, StageModel};
use crate::projector::collect::{entries_of, OutboxEvent};
use crate::projector::effective::lemma_rebuilds_exist;
use crate::projector::fold::{deliveries, sets_of, to_each};
use crate::projector::grouping::{accounts_of, journals};
use crate::projector::laws::{
    exactly_once, is_history, is_log, law_batch_takes_effect_exactly_once, law_stale_cursor_fences_the_batch,
    lemma_states_increase, state_at, Attempt,
};
use crate::projector::mappings::ec_mappings;
use crate::projector::repo::cursor_position;
use crate::projector::state::ProjectorState;
use crate::projector::world::{
    can_project, dates_known, in_journal, inserted, lemma_next_journal, lemma_op_start,
    lemma_op_step, lemma_true_mappings_deliver, op_invariant, op_run, op_step, projects_exactly,
    true_mappings, Ledger, World,
};
use vstd::prelude::*;

verus! {

/// Whether a batch can be projected into the snapshots of `world`: every entry
/// can be folded, the folds add up, and every date that is needed is known.
pub open spec fn can_complete(
    ledger: Ledger,
    time: Timestamp,
    world: World,
    entries: Seq<EntryValues>,
) -> bool {
    &&& can_project(world.snapshots, ledger, time, entries)
    &&& projects_exactly(world.snapshots, ledger, time, entries)
    &&& dates_known(ledger, entries)
}

/// How far a stage is from the end of its journal.
spec fn rank(stage: StageModel) -> nat {
    match stage {
        StageModel::ListEcSets => 8,
        StageModel::FetchMappings => 7,
        StageModel::LoadBalances { .. } => 6,
        StageModel::InsertSnapshots { .. } => 5,
        StageModel::FindJournal { .. } => 4,
        StageModel::FindTransactions { .. } => 3,
        StageModel::RebuildEffective { .. } => 2,
        StageModel::AdvanceCursor => 1,
        StageModel::Advanced => 0,
    }
}

/// The number of sets that are still to be rebuilt in the journal.
spec fn rebuilds_left(stage: StageModel) -> int {
    match stage {
        StageModel::RebuildEffective { rebuilds, next } => rebuilds.len() - next,
        _ => 0,
    }
}

/// The number of journals that are not done.
spec fn journals_left(op: BatchModel) -> int {
    journals(op.entries).len() - op.done
}

/// Whether `next` is nearer to the end than `op`.
spec fn nearer(op: BatchModel, next: BatchModel) -> bool {
    ||| journals_left(next) < journals_left(op)
    ||| journals_left(next) == journals_left(op) && rank(next.stage) < rank(op.stage)
    ||| journals_left(next) == journals_left(op) && rank(next.stage) == rank(op.stage)
        && rebuilds_left(next.stage) < rebuilds_left(op.stage)
}

/// Whether something is delivered in the journal, if the operation has got so
/// far that it matters.
spec fn delivers(ledger: Ledger, op: BatchModel) -> bool {
    op.stage is LoadBalances || op.stage is InsertSnapshots || op.stage is FindJournal
        || op.stage is FindTransactions ==> ledger.deliveries(op.entries, op.journal_id()).len()
        > 0
}

/// An entry whose account is in a set is delivered.
proof fn lemma_entry_delivers(
    entries: Seq<EntryValues>,
    mappings: Map<AccountId, Seq<AccountSetId>>,
    i: int,
)
    requires
        0 <= i < entries.len(),
        sets_of(mappings, entries[i]).len() > 0,
    ensures
        deliveries(entries, mappings).len() > 0,
    decreases entries.len(),
{
    if i < entries.len() - 1 {
        lemma_entry_delivers(entries.drop_last(), mappings, i);
    } else {
        assert(to_each(sets_of(mappings, entries.last()), entries.last()).len() > 0);
    }
}

/// The sets of the accounts of the entries have been fetched, truly, and no
/// others.
proof fn lemma_mappings_arrive(ledger: Ledger, time: Timestamp, world: World, op: BatchModel) -> (
    next: BatchModel)
    requires
        op.stage is FetchMappings,
        op.ec_set_ids == ledger.ec_set_ids,
        0 <= op.done < journals(op.entries).len(),
    ensures
        op_step(ledger, time, (world, op), (world, next)),
        nearer(op, next),
        delivers(ledger, next),
{
    let entries = op.current_entries();
    let sets = (ledger.sets)(op.journal_id());
    let mappings = Map::new(
        |id: AccountId| accounts_of(entries).contains(id) && sets.contains_key(id),
        |id: AccountId| sets[id],
    );
    assert(true_mappings(mappings, sets, accounts_of(entries)));
    lemma_true_mappings_deliver(ledger, op, mappings);
    let kept = ec_mappings(mappings, op.ec_set_ids);
    if !kept.dom().is_empty() {
        let id = choose|id: AccountId| kept.dom().contains(id);
        assert(kept.dom().contains(id));
        assert(accounts_of(entries).contains(id));
        let i = choose|i: int| 0 <= i < entries.len() && #[trigger] entries[i].account_id == id;
        lemma_entry_delivers(entries, kept, i);
    }
    op.after_mappings(mappings)
}

/// An operation that is not at its end can go on.
proof fn lemma_next_step(
    ledger: Ledger,
    time: Timestamp,
    first: World,
    start: BatchModel,
    world: World,
    op: BatchModel,
) -> (next: (World, BatchModel))
    requires
        op_invariant(ledger, time, first, start, world, op),
        can_complete(ledger, time, first, start.entries),
        cursor_position(first.cursor) == start.expected,
        delivers(ledger, op),
        !(op.stage is Advanced),
    ensures
        op_step(ledger, time, (world, op), next),
        nearer(op, next.1),
        delivers(ledger, next.1),
{
    let journal_id = op.journal_id();
    match op.stage {
        StageModel::ListEcSets => (world, op.after_ec_sets(ledger.ec_set_ids)),
        StageModel::FetchMappings => (world, lemma_mappings_arrive(ledger, time, world, op)),
        StageModel::LoadBalances { mappings } => {
            lemma_next_journal(op.entries, op.done);
            let balances = in_journal(world.snapshots, journal_id);
            assert(balances =~= in_journal(first.snapshots, journal_id));
            assert(op.can_fold(time, balances));
            assert(op.can_fold_exactly(time, balances));
            (world, op.after_balances(time, balances))
        },
        StageModel::InsertSnapshots { snapshots, .. } => (
            inserted(world, journal_id, snapshots),
            op.after_insert(),
        ),
        StageModel::FindJournal { .. } => (
            world,
            op.after_journal((ledger.effective)(journal_id)),
        ),
        StageModel::FindTransactions { mappings } => {
            let delivered = ledger.deliveries(op.entries, journal_id);
            let rebuilds = lemma_rebuilds_exist(delivered, ledger.dates);
            assert(deliveries(op.current_entries(), mappings) == delivered);
            (world, op.after_transactions(rebuilds))
        },
        StageModel::RebuildEffective { rebuilds, next } => (
            world.rebuild(journal_id, rebuilds[next]),
            op.after_rebuild(),
        ),
        StageModel::AdvanceCursor => (
            World { cursor: Some(op.new_state), ..world },
            op.at(StageModel::Advanced),
        ),
        StageModel::Advanced => (world, op),
    }
}

/// An operation can go on to its end from wherever it stands.
proof fn lemma_completes(
    ledger: Ledger,
    time: Timestamp,
    first: World,
    start: BatchModel,
    world: World,
    op: BatchModel,
) -> (trace: Seq<(World, BatchModel)>)
    requires
        op_invariant(ledger, time, first, start, world, op),
        can_complete(ledger, time, first, start.entries),
        cursor_position(first.cursor) == start.expected,
        delivers(ledger, op),
    ensures
        op_run(ledger, time, world, op, trace),
        trace.last().1.stage is Advanced,
    decreases journals_left(op), rank(op.stage), rebuilds_left(op.stage),
{
    if op.stage is Advanced {
        seq![(world, op)]
    } else {
        let next = lemma_next_step(ledger, time, first, start, world, op);
        lemma_op_step(ledger, time, first, start, (world, op), next);
        let rest = lemma_completes(ledger, time, first, start, next.0, next.1);
        let trace = seq![(world, op)] + rest;
        assert forall|i: int| 0 <= i < trace.len() - 1 implies op_step(
            ledger,
            time,
            #[trigger] trace[i],
            trace[i + 1],
        ) by {
            if i > 0 {
                assert(trace[i] == rest[i - 1] && trace[i + 1] == rest[i]);
                assert(op_step(ledger, time, rest[i - 1], rest[i - 1 + 1]));
            } else {
                assert(trace[1] == rest[0]);
            }
        }
        assert(trace.last() == rest.last());
        trace
    }
}

/// An operation that finds the cursor where it expects it, and whose batch can
/// be projected, comes to its end.
pub proof fn law_operation_comes_to_its_end(
    ledger: Ledger,
    time: Timestamp,
    world: World,
    job_id: JobId,
    state: ProjectorState,
    new_state: ProjectorState,
    entries: Seq<EntryValues>,
) -> (trace: Seq<(World, BatchModel)>)
    requires
        cursor_position(world.cursor) == state.sequence,
        can_project(world.snapshots, ledger, time, entries),
        projects_exactly(world.snapshots, ledger, time, entries),
        dates_known(ledger, entries),
    ensures
        op_run(ledger, time, world, BatchModel::start(job_id, state, new_state, entries), trace),
        trace.last().1.stage is Advanced,
{
    let start = BatchModel::start(job_id, state, new_state, entries);
    lemma_op_start(ledger, time, world, job_id, state, new_state, entries);
    lemma_completes(ledger, time, world, start, world, start)
}

/// Of the instances that race for the events from `n` on, exactly one commits.
/// One can: its operation comes to its end, and leaves the world as a single
/// run does, with the effect of the first `to` events, each exactly once. And
/// once it has, no other operation that expects the cursor at `n` comes to its
/// end, whatever window it had collected and whatever else it had read.
pub proof fn law_exactly_one_racer_commits(
    ledger: Ledger,
    time: Timestamp,
    job_id: JobId,
    log: Seq<OutboxEvent>,
    world: World,
    n: int,
    to: int,
) -> (winner: Attempt)
    requires
        is_log(log),
        exactly_once(world, ledger, log, n),
        n < to <= log.len(),
        can_complete(ledger, time, world, entries_of(log.subrange(n, to))),
    ensures
        winner.possible(ledger, job_id, log, world),
        winner.committed,
        winner.from == n,
        winner.to == to,
        exactly_once(winner.outcome(world), ledger, log, to),
        forall|
            other_time: Timestamp,
            seen: World,
            new_state: ProjectorState,
            entries: Seq<EntryValues>,
            loser: Seq<(World, BatchModel)>,
        |
            seen.cursor == winner.outcome(world).cursor && #[trigger] op_run(
                ledger,
                other_time,
                seen,
                BatchModel::start(job_id, state_at(log, n), new_state, entries),
                loser,
            ) ==> !(loser.last().1.stage is Advanced),
{
    let state = state_at(log, n);
    let new_state = state_at(log, to);
    let batch = entries_of(log.subrange(n, to));
    let trace = law_operation_comes_to_its_end(
        ledger,
        time,
        world,
        job_id,
        state,
        new_state,
        batch,
    );
    let winner = Attempt { time, from: n, to, trace, committed: true };
    law_batch_takes_effect_exactly_once(ledger, job_id, log, world, n, winner);
    lemma_states_increase(log, n, to);
    assert forall|
        other_time: Timestamp,
        seen: World,
        other_state: ProjectorState,
        entries: Seq<EntryValues>,
        loser: Seq<(World, BatchModel)>,
    |
        seen.cursor == winner.outcome(world).cursor && #[trigger] op_run(
            ledger,
            other_time,
            seen,
            BatchModel::start(job_id, state_at(log, n), other_state, entries),
            loser,
        ) implies !(loser.last().1.stage is Advanced) by {
        law_stale_cursor_fences_the_batch(
            ledger,
            other_time,
            seen,
            job_id,
            state,
            other_state,
            entries,
            loser,
        );
    }
    winner
}

/// A projector that runs batch after batch, of at most `batch_size` events each,
/// catches up with the log, if every batch can be projected where it comes to
/// it: it then holds the effect of every event, each exactly once.
pub proof fn law_projector_catches_up(
    ledger: Ledger,
    time: Timestamp,
    job_id: JobId,
    log: Seq<OutboxEvent>,
    world: World,
    n: int,
    batch_size: int,
) -> (history: (Seq<World>, Seq<Attempt>))
    requires
        is_log(log),
        exactly_once(world, ledger, log, n),
        batch_size > 0,
        forall|at: World, a: int, b: int|
            #![trigger exactly_once(at, ledger, log, a), log.subrange(a, b)]
            exactly_once(at, ledger, log, a) && a < b <= log.len() ==> can_complete(
                ledger,
                time,
                at,
                entries_of(log.subrange(a, b)),
            ),
    ensures
        is_history(ledger, job_id, log, history.0, history.1),
        history.0[0] == world,
        forall|i: int|
            0 <= i < history.1.len() ==> (#[trigger] history.1[i]).committed && history.1[i].to
                - history.1[i].from <= batch_size,
        exactly_once(history.0.last(), ledger, log, log.len() as int),
    decreases log.len() - n,
{
    if n == log.len() {
        (seq![world], Seq::empty())
    } else {
        let to = if n + batch_size < log.len() {
            n + batch_size
        } else {
            log.len() as int
        };
        assert(can_complete(ledger, time, world, entries_of(log.subrange(n, to))));
        let first = law_exactly_one_racer_commits(ledger, time, job_id, log, world, n, to);
        let next = first.outcome(world);
        let (later_worlds, later) = law_projector_catches_up(
            ledger,
            time,
            job_id,
            log,
            next,
            to,
            batch_size,
        );
        let worlds = seq![world] + later_worlds;
        let attempts = seq![first] + later;
        assert forall|i: int| 0 <= i < attempts.len() implies {
            &&& (#[trigger] attempts[i]).possible(ledger, job_id, log, worlds[i])
            &&& worlds[i + 1] == attempts[i].outcome(worlds[i])
        } by {
            if i > 0 {
                assert(attempts[i] == later[i - 1]);
                assert(worlds[i] == later_worlds[i - 1]);
                assert(worlds[i + 1] == later_worlds[i - 1 + 1]);
            }
        }
        assert forall|i: int| 0 <= i < attempts.len() implies (#[trigger] attempts[i]).committed
            && attempts[i].to - attempts[i].from <= batch_size by {
            if i > 0 {
                assert(attempts[i] == later[i - 1]);
            }
        }
        assert(worlds.last() == later_worlds.last());
        (worlds, attempts)
    }
}

} // verus!
