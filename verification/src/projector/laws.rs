//! What holds of the projector as a whole.

use crate::balance::amount::Amount;
use crate::balance::snapshot::BalanceSnapshot;
use crate::balance::store::BalanceKey;
use crate::balance::totals::{
    lemma_after_all_add, lemma_fold_posts, lemma_version_counts, Totals,
};
use crate::primitives::{
    AccountSetId, Currency, DebitOrCredit, EntryValues, JobId, JournalId, Layer, Timestamp,
};
use crate::projector::batch::BatchModel;
use crate::projector::collect::{
    entries_of, CollectStep, CollectedBatch, CollectorModel, OutboxEvent, OutboxEventPayload,
};
use crate::projector::effective::dated;
use crate::projector::fold::{
    adds_up, all_fold, balance_key, base, fold_all, folds_exactly, lemma_deliveries_add, lemma_received_add,
    lemma_sums_add, received, sets_of, snapshot_after, sums, touched, Delivery,
};
use crate::projector::grouping::{journal_entries, journals, lemma_journals, lemma_no_entries};
use crate::projector::mappings::ec_sets;
use crate::projector::repo::{cursor_position, rows_advanced};
use crate::projector::state::{event_sequence, ProjectorState};
use crate::projector::world::{
    among_first, can_project, dates_known, in_journal, lemma_deliveries_agree, lemma_delivered_is_mapped,
    lemma_op_run, lemma_touched_has_delivery, op_run, op_step, project, projects_exactly,
    rebuilt_since, Ledger, World,
};
use vstd::prelude::*;

verus! {

/// Nothing is delivered in a journal that no entry belongs to.
proof fn lemma_nothing_without_entries(
    ledger: Ledger,
    entries: Seq<EntryValues>,
    journal_id: JournalId,
)
    requires
        !journals(entries).contains(journal_id),
    ensures
        ledger.deliveries(entries, journal_id) == Seq::<Delivery>::empty(),
        forall|key: BalanceKey| !#[trigger] touched(Seq::<Delivery>::empty(), key),
{
    lemma_journals(entries);
    lemma_no_entries(entries, journal_id);
    reveal(Seq::filter);
}

/// An operation that comes to its end has found the cursor where it expected
/// it. It has projected the entries of its batch, exactly, and has left the
/// cursor at the end of the batch. In every journal that has effective
/// balances it has rebuilt each set that the batch touches, once, from the
/// earliest effective date that touches it, and nothing else.
pub proof fn law_operation_projects_its_batch(
    ledger: Ledger,
    time: Timestamp,
    world: World,
    job_id: JobId,
    state: ProjectorState,
    new_state: ProjectorState,
    entries: Seq<EntryValues>,
    trace: Seq<(World, BatchModel)>,
)
    requires
        op_run(ledger, time, world, BatchModel::start(job_id, state, new_state, entries), trace),
        trace.last().1.stage is Advanced,
    ensures
        cursor_position(world.cursor) == state.sequence,
        can_project(world.snapshots, ledger, time, entries),
        projects_exactly(world.snapshots, ledger, time, entries),
        dates_known(ledger, entries),
        trace.last().0.cursor == Some(new_state),
        trace.last().0.snapshots == project(world.snapshots, ledger, time, entries),
        forall|journal_id: JournalId| #[trigger]
            rebuilt_since(ledger, world, trace.last().0, entries, journal_id),
{
    let last = trace.len() - 1;
    lemma_op_run(ledger, time, world, job_id, state, new_state, entries, trace, last);
    let end = trace[last].0;
    let count = journals(entries).len() as int;
    assert forall|journal_id: JournalId|
        {
            let delivered = #[trigger] ledger.deliveries(entries, journal_id);
            &&& all_fold(time, in_journal(world.snapshots, journal_id), delivered)
            &&& folds_exactly(time, in_journal(world.snapshots, journal_id), delivered)
        } by {
        if journals(entries).contains(journal_id) {
            let i = journals(entries).index_of(journal_id);
            assert(journals(entries)[i] == journal_id);
        } else {
            lemma_nothing_without_entries(ledger, entries, journal_id);
        }
    }
    assert forall|journal_id: JournalId| !among_first(
        entries,
        count,
        journal_id,
    ) implies #[trigger] ledger.deliveries(entries, journal_id) == Seq::<Delivery>::empty() by {
        if journals(entries).contains(journal_id) {
            let i = journals(entries).index_of(journal_id);
            assert(journals(entries)[i] == journal_id);
        }
        lemma_nothing_without_entries(ledger, entries, journal_id);
    }
    assert(forall|key: BalanceKey| !#[trigger] touched(Seq::<Delivery>::empty(), key)) by {
        reveal(Seq::filter);
    }
    assert forall|journal_id: JournalId| (ledger.effective)(journal_id) && (
    #[trigger] ledger.deliveries(entries, journal_id)).len() > 0 implies dated(
        journal_entries(entries, journal_id),
        ledger.dates,
    ) by {
        assert(among_first(entries, count, journal_id));
    }
    assert(end.snapshots =~= project(world.snapshots, ledger, time, entries));
    assert forall|journal_id: JournalId| #[trigger]
        rebuilt_since(ledger, world, end, entries, journal_id) by {
        if !among_first(entries, count, journal_id) {
            assert(ledger.deliveries(entries, journal_id) == Seq::<Delivery>::empty());
            assert(end.rebuilt_in(journal_id) == world.rebuilt_in(journal_id));
        }
    }
}

/// The compare-and-swap of the cursor is the last thing that an operation asks
/// for: what follows it is the end of the operation, and nothing follows that.
pub proof fn law_cursor_swap_comes_last(
    ledger: Ledger,
    time: Timestamp,
    world: World,
    start: BatchModel,
    trace: Seq<(World, BatchModel)>,
    i: int,
)
    requires
        op_run(ledger, time, world, start, trace),
        0 <= i < trace.len(),
        trace[i].1.stage is AdvanceCursor,
    ensures
        i == trace.len() - 1 || (i == trace.len() - 2 && trace.last().1.stage is Advanced),
{
    if i < trace.len() - 1 {
        assert(op_step(ledger, time, trace[i], trace[i + 1]));
        if i + 1 < trace.len() - 1 {
            assert(op_step(ledger, time, trace[i + 1], trace[i + 2]));
        }
    }
}

/// A stale cursor fences the whole batch: the compare-and-swap of an operation
/// that finds the cursor elsewhere than it expected changes no row, so that
/// the operation never comes to the end at which it could be committed, and
/// never moves the cursor.
pub proof fn law_stale_cursor_fences_the_batch(
    ledger: Ledger,
    time: Timestamp,
    world: World,
    job_id: JobId,
    state: ProjectorState,
    new_state: ProjectorState,
    entries: Seq<EntryValues>,
    trace: Seq<(World, BatchModel)>,
)
    requires
        op_run(ledger, time, world, BatchModel::start(job_id, state, new_state, entries), trace),
        cursor_position(world.cursor) != state.sequence,
    ensures
        rows_advanced(world.cursor, state.sequence) == 0,
        !(trace.last().1.stage is Advanced),
        trace.last().0.cursor == world.cursor,
{
    let last = trace.len() - 1;
    lemma_op_run(ledger, time, world, job_id, state, new_state, entries, trace, last);
}

/// Of two instances that race for the same window, at most one commits: once
/// one has, the compare-and-swap of the other changes no row, whatever the
/// other had read before.
pub proof fn law_only_one_racer_commits(
    ledger: Ledger,
    time: Timestamp,
    world: World,
    job_id: JobId,
    state: ProjectorState,
    new_state: ProjectorState,
    entries: Seq<EntryValues>,
    winner: Seq<(World, BatchModel)>,
)
    requires
        op_run(ledger, time, world, BatchModel::start(job_id, state, new_state, entries), winner),
        winner.last().1.stage is Advanced,
        new_state.sequence != state.sequence,
    ensures
        rows_advanced(winner.last().0.cursor, state.sequence) == 0,
{
    law_operation_projects_its_batch(
        ledger,
        time,
        world,
        job_id,
        state,
        new_state,
        entries,
        winner,
    );
}

/// Whether a snapshot is that of `entries`: its version and its amounts are
/// those of posting them one by one, and its amounts are exactly the sums of
/// what they move, unless some sum on the way had to be rounded.
pub open spec fn holds(snapshot: BalanceSnapshot, entries: Seq<EntryValues>) -> bool {
    &&& Totals::zero().after_all(entries) == Some(snapshot.totals())
    &&& forall|layer: Layer, direction: DebitOrCredit|
        sums(
            Amount::spec_zero(),
            entries,
            layer,
            direction,
            #[trigger] snapshot.amount(layer, direction),
        )
}

/// Whether the snapshots are those of `entries`, each entry folded once: there
/// is a snapshot exactly where one of them is delivered, and it is that of the
/// entries that are delivered there.
pub open spec fn reflects(
    snapshots: Map<(JournalId, BalanceKey), BalanceSnapshot>,
    ledger: Ledger,
    entries: Seq<EntryValues>,
) -> bool {
    forall|journal_id: JournalId, key: BalanceKey|
        {
            let delivered = ledger.deliveries(entries, journal_id);
            &&& #[trigger] snapshots.contains_key((journal_id, key)) <==> touched(delivered, key)
            &&& touched(delivered, key) ==> holds(
                snapshots[(journal_id, key)],
                received(delivered, key),
            )
        }
}

/// Where nothing was ever projected, the snapshots are those of no entries.
pub proof fn law_nothing_reflects_no_entries(ledger: Ledger)
    ensures
        reflects(Map::empty(), ledger, Seq::empty()),
{
    let none = Seq::<EntryValues>::empty();
    assert forall|journal_id: JournalId, key: BalanceKey| !#[trigger] touched(
        ledger.deliveries(none, journal_id),
        key,
    ) by {
        lemma_nothing_without_entries(ledger, none, journal_id);
    }
}

/// What a journal delivers of two batches, it delivers batch by batch.
proof fn lemma_journal_deliveries_add(
    ledger: Ledger,
    a: Seq<EntryValues>,
    b: Seq<EntryValues>,
    journal_id: JournalId,
)
    ensures
        ledger.deliveries(a + b, journal_id) == ledger.deliveries(a, journal_id)
            + ledger.deliveries(b, journal_id),
{
    Seq::filter_distributes_over_add(a, b, |entry: EntryValues| entry.journal_id == journal_id);
    lemma_deliveries_add(
        journal_entries(a, journal_id),
        journal_entries(b, journal_id),
        ledger.ec_sets(journal_id),
    );
}

/// A snapshot of `a` that `b` is folded into, exactly, is one of `a` and `b`.
proof fn lemma_holds_add(
    time: Timestamp,
    before: BalanceSnapshot,
    a: Seq<EntryValues>,
    b: Seq<EntryValues>,
    after: BalanceSnapshot,
)
    requires
        holds(before, a),
        fold_all(time, before, b) == Some(after),
        adds_up(before, b, after),
    ensures
        holds(after, a + b),
{
    lemma_after_all_add(Totals::zero(), a, b);
    lemma_fold_posts(time, before, b);
    assert forall|layer: Layer, direction: DebitOrCredit|
        sums(
            Amount::spec_zero(),
            a + b,
            layer,
            direction,
            #[trigger] after.amount(layer, direction),
        ) by {
        lemma_sums_add(
            Amount::spec_zero(),
            a,
            before.amount(layer, direction),
            b,
            after.amount(layer, direction),
            layer,
            direction,
        );
    }
}

/// Where the batches are cut does not matter: snapshots that are those of the
/// entries so far are, once another batch is projected, those of the entries
/// with that batch. So a set converges to what posting every entry one by one
/// gives, and its amounts to the sums of what was posted.
pub proof fn law_batch_boundaries_do_not_matter(
    snapshots: Map<(JournalId, BalanceKey), BalanceSnapshot>,
    ledger: Ledger,
    time: Timestamp,
    so_far: Seq<EntryValues>,
    batch: Seq<EntryValues>,
)
    requires
        reflects(snapshots, ledger, so_far),
        can_project(snapshots, ledger, time, batch),
        projects_exactly(snapshots, ledger, time, batch),
    ensures
        reflects(project(snapshots, ledger, time, batch), ledger, so_far + batch),
{
    let projected = project(snapshots, ledger, time, batch);
    assert forall|journal_id: JournalId, key: BalanceKey|
        {
            let delivered = ledger.deliveries(so_far + batch, journal_id);
            &&& #[trigger] projected.contains_key((journal_id, key)) <==> touched(delivered, key)
            &&& touched(delivered, key) ==> holds(
                projected[(journal_id, key)],
                received(delivered, key),
            )
        } by {
        let earlier = ledger.deliveries(so_far, journal_id);
        let later = ledger.deliveries(batch, journal_id);
        lemma_journal_deliveries_add(ledger, so_far, batch, journal_id);
        lemma_received_add(earlier, later, key);
        let a = received(earlier, key);
        let b = received(later, key);
        let current = in_journal(snapshots, journal_id);
        assert(snapshots.contains_key((journal_id, key)) <==> touched(earlier, key));
        if touched(later, key) {
            let start = base(time, key, current, b);
            assert(all_fold(time, current, later));
            assert(folds_exactly(time, current, later));
            assert(snapshot_after(time, key, current, later) is Some);
            if !touched(earlier, key) {
                assert(a =~= Seq::<EntryValues>::empty());
                assert(holds(start, a));
            }
            lemma_holds_add(time, start, a, b, projected[(journal_id, key)]);
        } else {
            assert(a + b =~= a);
        }
    }
}

/// Wiring sets while they are free of history changes nothing that was
/// projected: snapshots that are those of the entries so far stay so when the
/// sets change, as long as the sets above the accounts of those entries do
/// not.
pub proof fn law_attaching_without_history(
    snapshots: Map<(JournalId, BalanceKey), BalanceSnapshot>,
    before: Ledger,
    after: Ledger,
    so_far: Seq<EntryValues>,
)
    requires
        reflects(snapshots, before, so_far),
        forall|i: int|
            0 <= i < so_far.len() ==> {
                let journal_id = (#[trigger] so_far[i]).journal_id;
                sets_of(before.ec_sets(journal_id), so_far[i]) == sets_of(
                    after.ec_sets(journal_id),
                    so_far[i],
                )
            },
    ensures
        reflects(snapshots, after, so_far),
{
    assert forall|journal_id: JournalId| #[trigger]
        before.deliveries(so_far, journal_id) == after.deliveries(so_far, journal_id) by {
        let entries = journal_entries(so_far, journal_id);
        let a = before.ec_sets(journal_id);
        let b = after.ec_sets(journal_id);
        assert forall|i: int| 0 <= i < entries.len() implies sets_of(a, #[trigger] entries[i])
            == sets_of(b, entries[i]) by {
            let is_in = |entry: EntryValues| entry.journal_id == journal_id;
            so_far.lemma_filter_pred(is_in, i);
            assert(is_in(entries[i]));
            so_far.lemma_filter_contains_rev(is_in, entries[i]);
            let k = so_far.index_of(entries[i]);
            assert(so_far[k] == entries[i]);
        }
        lemma_deliveries_agree(entries, a, b);
    }
    assert forall|journal_id: JournalId, key: BalanceKey|
        {
            let delivered = after.deliveries(so_far, journal_id);
            &&& #[trigger] snapshots.contains_key((journal_id, key)) <==> touched(delivered, key)
            &&& touched(delivered, key) ==> holds(
                snapshots[(journal_id, key)],
                received(delivered, key),
            )
        } by {
        assert(before.deliveries(so_far, journal_id) == after.deliveries(so_far, journal_id));
    }
}

/// Whether `log` can be an outbox: positions begin above zero and increase.
pub open spec fn is_log(log: Seq<OutboxEvent>) -> bool {
    &&& forall|i: int| 0 <= i < log.len() ==> 0 < (#[trigger] log[i]).sequence <= i64::MAX
    &&& forall|i: int, j: int| 0 <= i < j < log.len() ==> log[i].sequence < log[j].sequence
}

/// The state of a projector that has consumed the first `n` events of a log.
pub open spec fn state_at(log: Seq<OutboxEvent>, n: int) -> ProjectorState {
    if n == 0 {
        ProjectorState { sequence: 0 }
    } else {
        ProjectorState::spec_at(log[n - 1].sequence)
    }
}

/// Whether the world holds the effect of the first `n` events of a log, each
/// exactly once.
pub open spec fn exactly_once(
    world: World,
    ledger: Ledger,
    log: Seq<OutboxEvent>,
    n: int,
) -> bool {
    &&& 0 <= n <= log.len()
    &&& cursor_position(world.cursor) == state_at(log, n).sequence
    &&& reflects(world.snapshots, ledger, entries_of(log.take(n)))
}

/// A world in which nothing was projected holds the effect of no event.
pub proof fn law_begins_at_the_beginning(world: World, ledger: Ledger, log: Seq<OutboxEvent>)
    requires
        cursor_position(world.cursor) == 0,
        world.snapshots == Map::<(JournalId, BalanceKey), BalanceSnapshot>::empty(),
    ensures
        exactly_once(world, ledger, log, 0),
{
    law_nothing_reflects_no_entries(ledger);
    assert(entries_of(log.take(0)) =~= Seq::<EntryValues>::empty());
}

/// An attempt of some instance to project the events of a log from `from` to
/// `to`. It may crash or be fenced anywhere, and its commit may fail.
pub struct Attempt {
    pub time: Timestamp,
    pub from: int,
    pub to: int,
    pub trace: Seq<(World, BatchModel)>,
    pub committed: bool,
}

impl Attempt {
    /// Whether the attempt can be made in `world`. An operation is committed
    /// only once it has come to its end.
    pub open spec fn possible(
        self,
        ledger: Ledger,
        job_id: JobId,
        log: Seq<OutboxEvent>,
        world: World,
    ) -> bool {
        &&& 0 <= self.from < self.to <= log.len()
        &&& op_run(
            ledger,
            self.time,
            world,
            BatchModel::start(
                job_id,
                state_at(log, self.from),
                state_at(log, self.to),
                entries_of(log.subrange(self.from, self.to)),
            ),
            self.trace,
        )
        &&& self.committed ==> self.trace.last().1.stage is Advanced
    }

    /// The world that the attempt leaves: what it did, if it was committed,
    /// else what was there before.
    pub open spec fn outcome(self, world: World) -> World {
        if self.committed {
            self.trace.last().0
        } else {
            world
        }
    }
}

/// The entries of later events come later.
proof fn lemma_entries_add(a: Seq<OutboxEvent>, b: Seq<OutboxEvent>)
    ensures
        entries_of(a + b) == entries_of(a) + entries_of(b),
    decreases b.len(),
{
    if b.len() == 0 {
        assert(a + b =~= a);
        assert(entries_of(a) + entries_of(b) =~= entries_of(a));
    } else {
        assert((a + b).drop_last() =~= a + b.drop_last());
        lemma_entries_add(a, b.drop_last());
        assert(entries_of(a + b) =~= entries_of(a) + entries_of(b));
    }
}

/// A later place in a log has a later state.
pub proof fn lemma_states_increase(log: Seq<OutboxEvent>, a: int, b: int)
    requires
        is_log(log),
        0 <= a < b <= log.len(),
    ensures
        state_at(log, a).sequence < state_at(log, b).sequence,
{
    assert(0 < log[b - 1].sequence <= i64::MAX);
    if a > 0 {
        assert(0 < log[a - 1].sequence <= i64::MAX);
        assert(log[a - 1].sequence < log[b - 1].sequence);
    }
}

/// A batch takes effect exactly once. An attempt at the events from `from` to
/// `to` is committed only in a world that holds the effect of the first `from`
/// events of the log, and then leaves one that holds the effect of the first
/// `to`. Any other attempt, be it a repetition, a race that was lost or a
/// crash, leaves the world as it was.
pub proof fn law_batch_takes_effect_exactly_once(
    ledger: Ledger,
    job_id: JobId,
    log: Seq<OutboxEvent>,
    world: World,
    n: int,
    attempt: Attempt,
)
    requires
        is_log(log),
        exactly_once(world, ledger, log, n),
        attempt.possible(ledger, job_id, log, world),
    ensures
        attempt.committed ==> n == attempt.from && exactly_once(
            attempt.outcome(world),
            ledger,
            log,
            attempt.to,
        ),
        !attempt.committed ==> attempt.outcome(world) == world,
{
    if attempt.committed {
        let a = attempt.from;
        let b = attempt.to;
        let entries = entries_of(log.subrange(a, b));
        law_operation_projects_its_batch(
            ledger,
            attempt.time,
            world,
            job_id,
            state_at(log, a),
            state_at(log, b),
            entries,
            attempt.trace,
        );
        if n < a {
            lemma_states_increase(log, n, a);
        } else if a < n {
            lemma_states_increase(log, a, n);
        }
        law_batch_boundaries_do_not_matter(
            world.snapshots,
            ledger,
            attempt.time,
            entries_of(log.take(a)),
            entries,
        );
        lemma_entries_add(log.take(a), log.subrange(a, b));
        assert(log.take(a) + log.subrange(a, b) =~= log.take(b));
    }
}

/// Whether `worlds` are what the attempts lead through, one after the other.
pub open spec fn is_history(
    ledger: Ledger,
    job_id: JobId,
    log: Seq<OutboxEvent>,
    worlds: Seq<World>,
    attempts: Seq<Attempt>,
) -> bool {
    &&& worlds.len() == attempts.len() + 1
    &&& forall|i: int|
        0 <= i < attempts.len() ==> {
            &&& (#[trigger] attempts[i]).possible(ledger, job_id, log, worlds[i])
            &&& worlds[i + 1] == attempts[i].outcome(worlds[i])
        }
}

/// Whatever instances attempt, however often they crash, race or start again,
/// and wherever they cut their batches: the world always holds the effect of
/// some first part of the log, each event exactly once, and never of a smaller
/// part than before.
pub proof fn law_every_history_is_exactly_once(
    ledger: Ledger,
    job_id: JobId,
    log: Seq<OutboxEvent>,
    worlds: Seq<World>,
    attempts: Seq<Attempt>,
    n: int,
) -> (m: int)
    requires
        is_log(log),
        is_history(ledger, job_id, log, worlds, attempts),
        exactly_once(worlds[0], ledger, log, n),
    ensures
        n <= m,
        exactly_once(worlds.last(), ledger, log, m),
    decreases attempts.len(),
{
    if attempts.len() == 0 {
        n
    } else {
        let last = attempts.len() - 1;
        let earlier_worlds = worlds.drop_last();
        let earlier = attempts.drop_last();
        assert forall|i: int| 0 <= i < earlier.len() implies {
            &&& (#[trigger] earlier[i]).possible(ledger, job_id, log, earlier_worlds[i])
            &&& earlier_worlds[i + 1] == earlier[i].outcome(earlier_worlds[i])
        } by {
            assert(earlier[i] == attempts[i]);
        }
        let k = law_every_history_is_exactly_once(
            ledger,
            job_id,
            log,
            earlier_worlds,
            earlier,
            n,
        );
        assert(attempts[last].possible(ledger, job_id, log, worlds[last]));
        law_batch_takes_effect_exactly_once(ledger, job_id, log, worlds[last], k, attempts[last]);
        if attempts[last].committed {
            attempts[last].to
        } else {
            k
        }
    }
}

/// A batch that holds the events of a log from `a` to `b` carries their entries
/// and leads to the state after the last of them.
pub proof fn law_batch_leads_to_its_last_event(
    batch: CollectedBatch,
    log: Seq<OutboxEvent>,
    a: int,
    b: int,
)
    requires
        0 <= a < b <= log.len(),
        batch.collects(log.subrange(a, b)),
    ensures
        batch.spec_next_state() == Some(state_at(log, b)),
        batch.entries@ == entries_of(log.subrange(a, b)),
{
}

/// A batch that comes back empty means that the stream had nothing: it ended, or
/// stayed silent. Only a batch that may take no event at all says nothing.
pub proof fn law_an_empty_batch_means_caught_up(collector: CollectorModel)
    requires
        collector.step() == CollectStep::Finished,
        collector.consumed.len() == 0,
        collector.batch_size > 0,
    ensures
        collector.ended,
{
}

/// A projector that has consumed the first `n` events of a log goes on after
/// the last of them, and one that has consumed none begins at the beginning.
pub proof fn law_resumes_after_the_last_event(log: Seq<OutboxEvent>, n: int)
    requires
        0 <= n <= log.len(),
    ensures
        state_at(log, n).spec_listen_from() == event_sequence(
            if n == 0 {
                0
            } else {
                log[n - 1].sequence
            },
        ),
{
    if n > 0 {
        let number = log[n - 1].sequence;
        assert((number as i64) as u64 == number) by (bit_vector);
    }
}

/// The version of a set counts the entries that were folded into it.
pub proof fn law_version_counts_entries(
    snapshots: Map<(JournalId, BalanceKey), BalanceSnapshot>,
    ledger: Ledger,
    entries: Seq<EntryValues>,
    journal_id: JournalId,
    key: BalanceKey,
)
    requires
        reflects(snapshots, ledger, entries),
        snapshots.contains_key((journal_id, key)),
    ensures
        snapshots[(journal_id, key)].version == received(
            ledger.deliveries(entries, journal_id),
            key,
        ).len(),
{
    lemma_version_counts(
        Totals::zero(),
        received(ledger.deliveries(entries, journal_id), key),
    );
}

/// The version of a set is strictly monotonic: every batch that touches a set
/// raises its version, by the number of entries that it folds into it.
pub proof fn law_version_grows_with_every_batch(
    snapshots: Map<(JournalId, BalanceKey), BalanceSnapshot>,
    ledger: Ledger,
    time: Timestamp,
    batch: Seq<EntryValues>,
    journal_id: JournalId,
    key: BalanceKey,
)
    requires
        can_project(snapshots, ledger, time, batch),
        touched(ledger.deliveries(batch, journal_id), key),
    ensures
        ({
            let count = received(ledger.deliveries(batch, journal_id), key).len();
            let after = project(snapshots, ledger, time, batch)[(journal_id, key)].version;
            &&& count > 0
            &&& snapshots.contains_key((journal_id, key)) ==> after == snapshots[(
                journal_id,
                key,
            )].version + count
            &&& !snapshots.contains_key((journal_id, key)) ==> after == count
        }),
{
    let delivered = ledger.deliveries(batch, journal_id);
    let entries = received(delivered, key);
    let current = in_journal(snapshots, journal_id);
    assert(all_fold(time, current, delivered));
    assert(snapshot_after(time, key, current, delivered) is Some);
    let start = base(time, key, current, entries);
    lemma_fold_posts(time, start, entries);
    lemma_version_counts(start.totals(), entries);
}

/// The projector never touches a set that is not eventually consistent.
pub proof fn law_only_ec_sets_are_touched(
    snapshots: Map<(JournalId, BalanceKey), BalanceSnapshot>,
    ledger: Ledger,
    time: Timestamp,
    batch: Seq<EntryValues>,
    journal_id: JournalId,
    set_id: AccountSetId,
    currency: Currency,
)
    requires
        !ledger.ec_set_ids.contains(set_id),
    ensures
        ({
            let at = (journal_id, balance_key(set_id, currency));
            let projected = project(snapshots, ledger, time, batch);
            &&& projected.contains_key(at) <==> snapshots.contains_key(at)
            &&& snapshots.contains_key(at) ==> projected[at] == snapshots[at]
        }),
{
    let key = balance_key(set_id, currency);
    let delivered = ledger.deliveries(batch, journal_id);
    if touched(delivered, key) {
        let i = lemma_touched_has_delivery(delivered, key);
        let mappings = ledger.ec_sets(journal_id);
        lemma_delivered_is_mapped(journal_entries(batch, journal_id), mappings, i);
        let member = delivered[i].entry.account_id;
        assert(delivered[i].set_id == set_id);
        let sets = (ledger.sets)(journal_id)[member];
        let is_ec = |id: AccountSetId| ledger.ec_set_ids.contains(id);
        let k = ec_sets(sets, ledger.ec_set_ids).index_of(set_id);
        sets.lemma_filter_pred(is_ec, k);
        assert(is_ec(set_id));
    }
}

/// Events that carry no entry advance the cursor only: an operation over them
/// asks for nothing but the compare-and-swap, and projecting them changes
/// nothing.
pub proof fn law_other_events_advance_the_cursor_only(
    events: Seq<OutboxEvent>,
    job_id: JobId,
    state: ProjectorState,
    new_state: ProjectorState,
)
    requires
        forall|i: int|
            0 <= i < events.len() ==> !(#[trigger] events[i].payload matches Some(
                OutboxEventPayload::EntryCreated { .. },
            )),
    ensures
        entries_of(events) == Seq::<EntryValues>::empty(),
        BatchModel::start(job_id, state, new_state, entries_of(events)).stage is AdvanceCursor,
        forall|
            snapshots: Map<(JournalId, BalanceKey), BalanceSnapshot>,
            ledger: Ledger,
            time: Timestamp,
        | #[trigger]
            project(snapshots, ledger, time, entries_of(events)) == snapshots,
    decreases events.len(),
{
    if events.len() > 0 {
        let less = events.drop_last();
        assert forall|i: int| 0 <= i < less.len() implies !(#[trigger] less[i].payload matches Some(
            OutboxEventPayload::EntryCreated { .. },
        )) by {
            assert(less[i] == events[i]);
        }
        law_other_events_advance_the_cursor_only(less, job_id, state, new_state);
        assert(!(events[events.len() - 1].payload matches Some(
            OutboxEventPayload::EntryCreated { .. },
        )));
    } else {
        assert forall|
            snapshots: Map<(JournalId, BalanceKey), BalanceSnapshot>,
            ledger: Ledger,
            time: Timestamp,
        | #[trigger] project(snapshots, ledger, time, entries_of(events)) == snapshots by {
            assert forall|journal_id: JournalId, key: BalanceKey| !touched(
                ledger.deliveries(entries_of(events), journal_id),
                key,
            ) by {
                lemma_nothing_without_entries(ledger, entries_of(events), journal_id);
            }
            assert(project(snapshots, ledger, time, entries_of(events)) =~= snapshots);
        }
    }
}

} // verus!
