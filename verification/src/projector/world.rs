//! A model of the ledger that batches are projected into, and the proof that
//! an operation that comes to its end has projected its batch.

use crate::balance::snapshot::BalanceSnapshot;
use crate::balance::store::BalanceKey;
use crate::primitives::{
    AccountId, AccountSetId, Date, EntryValues, JobId, JournalId, Timestamp, TransactionId,
};
use crate::projector::batch::{BatchModel, StageModel};
use crate::projector::effective::{dated, rebuilds_from, Rebuild};
use crate::projector::fold::{
    all_fold, base, deliveries, folds_exactly, received, sets_of, snapshot_after,
    snapshots_after, touched, Delivery,
};
use crate::projector::grouping::{accounts_of, journal_entries, journals, lemma_journals};
use crate::projector::mappings::{ec_mappings, is_mapped, set_accounts};
use crate::projector::repo::rows_advanced;
use crate::projector::state::ProjectorState;
use vstd::prelude::*;

verus! {

/// What an operation reads and writes.
pub struct World {
    /// The persisted cursor.
    pub cursor: Option<ProjectorState>,
    /// The current snapshot of each set, in each journal and currency.
    pub snapshots: Map<(JournalId, BalanceKey), BalanceSnapshot>,
    /// What was rebuilt in each journal, in order.
    pub rebuilt: Map<JournalId, Seq<Rebuild>>,
}

impl World {
    /// What was rebuilt in one journal, in order.
    pub open spec fn rebuilt_in(self, journal_id: JournalId) -> Seq<Rebuild> {
        if self.rebuilt.contains_key(journal_id) {
            self.rebuilt[journal_id]
        } else {
            Seq::empty()
        }
    }

    /// The world once one set more is rebuilt.
    pub open spec fn rebuild(self, journal_id: JournalId, rebuild: Rebuild) -> World {
        World {
            rebuilt: self.rebuilt.insert(journal_id, self.rebuilt_in(journal_id).push(rebuild)),
            ..self
        }
    }
}

/// What an operation reads and does not write.
pub struct Ledger {
    /// The sets of each account, in each journal.
    pub sets: spec_fn(JournalId) -> Map<AccountId, Seq<AccountSetId>>,
    /// The sets that are eventually consistent.
    pub ec_set_ids: Set<AccountSetId>,
    /// The journals that have effective balances.
    pub effective: spec_fn(JournalId) -> bool,
    /// The effective date of each transaction.
    pub dates: Map<TransactionId, Date>,
}

impl Ledger {
    /// The eventually-consistent sets of each account, in one journal.
    pub open spec fn ec_sets(self, journal_id: JournalId) -> Map<AccountId, Seq<AccountSetId>> {
        ec_mappings((self.sets)(journal_id), self.ec_set_ids)
    }

    /// What `entries` deliver, in one journal.
    pub open spec fn deliveries(
        self,
        entries: Seq<EntryValues>,
        journal_id: JournalId,
    ) -> Seq<Delivery> {
        deliveries(journal_entries(entries, journal_id), self.ec_sets(journal_id))
    }
}

/// Whether `rebuilds` is what projecting `entries` rebuilds in a journal: each
/// set that something is delivered to, from the earliest effective date of what
/// is delivered to it, where the journal has effective balances; else nothing.
pub open spec fn rebuilds_owed(
    ledger: Ledger,
    entries: Seq<EntryValues>,
    journal_id: JournalId,
    rebuilds: Seq<Rebuild>,
) -> bool {
    if (ledger.effective)(journal_id) {
        rebuilds_from(rebuilds, ledger.deliveries(entries, journal_id), ledger.dates)
    } else {
        rebuilds.len() == 0
    }
}

/// Whether the sets that projecting `entries` rebuilds in a journal, and no
/// others, have been rebuilt since `first`.
pub open spec fn rebuilt_since(
    ledger: Ledger,
    first: World,
    world: World,
    entries: Seq<EntryValues>,
    journal_id: JournalId,
) -> bool {
    let before = first.rebuilt_in(journal_id);
    let after = world.rebuilt_in(journal_id);
    &&& before.is_prefix_of(after)
    &&& rebuilds_owed(ledger, entries, journal_id, after.skip(before.len() as int))
}

/// The snapshots of one journal.
pub open spec fn in_journal(
    snapshots: Map<(JournalId, BalanceKey), BalanceSnapshot>,
    journal_id: JournalId,
) -> Map<BalanceKey, BalanceSnapshot> {
    Map::new(
        |key: BalanceKey| snapshots.contains_key((journal_id, key)),
        |key: BalanceKey| snapshots[(journal_id, key)],
    )
}

/// The snapshots once the journals that `folded` picks are folded.
pub open spec fn project_some(
    snapshots: Map<(JournalId, BalanceKey), BalanceSnapshot>,
    ledger: Ledger,
    time: Timestamp,
    entries: Seq<EntryValues>,
    folded: spec_fn(JournalId) -> bool,
) -> Map<(JournalId, BalanceKey), BalanceSnapshot> {
    Map::new(
        |at: (JournalId, BalanceKey)|
            snapshots.contains_key(at) || (folded(at.0) && touched(
                ledger.deliveries(entries, at.0),
                at.1,
            )),
        |at: (JournalId, BalanceKey)|
            if folded(at.0) && touched(ledger.deliveries(entries, at.0), at.1) {
                snapshot_after(
                    time,
                    at.1,
                    in_journal(snapshots, at.0),
                    ledger.deliveries(entries, at.0),
                )->0
            } else {
                snapshots[at]
            },
    )
}

/// The snapshots once `entries` are projected at `time`: in every journal, the
/// snapshot of each set that something is delivered to has it folded into it,
/// and every other snapshot is as it was.
pub open spec fn project(
    snapshots: Map<(JournalId, BalanceKey), BalanceSnapshot>,
    ledger: Ledger,
    time: Timestamp,
    entries: Seq<EntryValues>,
) -> Map<(JournalId, BalanceKey), BalanceSnapshot> {
    project_some(snapshots, ledger, time, entries, |journal_id: JournalId| true)
}

/// Whether `entries` can be folded in every journal.
pub open spec fn can_project(
    snapshots: Map<(JournalId, BalanceKey), BalanceSnapshot>,
    ledger: Ledger,
    time: Timestamp,
    entries: Seq<EntryValues>,
) -> bool {
    forall|journal_id: JournalId|
        all_fold(
            time,
            in_journal(snapshots, journal_id),
            #[trigger] ledger.deliveries(entries, journal_id),
        )
}

/// Whether the snapshots that projecting `entries` leaves add up, in every
/// journal.
pub open spec fn projects_exactly(
    snapshots: Map<(JournalId, BalanceKey), BalanceSnapshot>,
    ledger: Ledger,
    time: Timestamp,
    entries: Seq<EntryValues>,
) -> bool {
    forall|journal_id: JournalId|
        folds_exactly(
            time,
            in_journal(snapshots, journal_id),
            #[trigger] ledger.deliveries(entries, journal_id),
        )
}

/// Whether every transaction whose date is needed has one: those of the entries
/// in the journals that have effective balances and in which something is
/// delivered.
pub open spec fn dates_known(ledger: Ledger, entries: Seq<EntryValues>) -> bool {
    forall|journal_id: JournalId|
        (ledger.effective)(journal_id) && (#[trigger] ledger.deliveries(
            entries,
            journal_id,
        )).len() > 0 ==> dated(journal_entries(entries, journal_id), ledger.dates)
}

/// Whether `mappings` tells the truth of the sets of `accounts`.
pub open spec fn true_mappings(
    mappings: Map<AccountId, Seq<AccountSetId>>,
    sets: Map<AccountId, Seq<AccountSetId>>,
    accounts: Set<AccountId>,
) -> bool {
    forall|id: AccountId| #[trigger]
        accounts.contains(id) ==> (mappings.contains_key(id) <==> sets.contains_key(id)) && (
        mappings.contains_key(id) ==> mappings[id] == sets[id])
}

/// Whether `balances` tells the truth of the snapshots of `accounts`.
pub open spec fn true_balances(
    balances: Map<BalanceKey, BalanceSnapshot>,
    snapshots: Map<BalanceKey, BalanceSnapshot>,
    accounts: Set<AccountId>,
) -> bool {
    forall|key: BalanceKey|
        accounts.contains(key.account_id) ==> (#[trigger] balances.contains_key(key)
            <==> snapshots.contains_key(key)) && (balances.contains_key(key) ==> balances[key]
            == snapshots[key])
}

/// The world once these snapshots are inserted in a journal.
pub open spec fn inserted(
    world: World,
    journal_id: JournalId,
    snapshots: Map<BalanceKey, BalanceSnapshot>,
) -> World {
    World {
        snapshots: Map::new(
            |at: (JournalId, BalanceKey)|
                world.snapshots.contains_key(at) || (at.0 == journal_id && snapshots.contains_key(
                    at.1,
                )),
            |at: (JournalId, BalanceKey)|
                if at.0 == journal_id && snapshots.contains_key(at.1) {
                    snapshots[at.1]
                } else {
                    world.snapshots[at]
                },
        ),
        ..world
    }
}

/// Whether an operation, and the world as it sees it, come from one place to
/// the next: what it asks for is done in the world, and what it is told is
/// true there. It goes no further once the compare-and-swap of the cursor has
/// changed no row, or once the cursor is advanced.
pub open spec fn op_step(
    ledger: Ledger,
    time: Timestamp,
    before: (World, BatchModel),
    after: (World, BatchModel),
) -> bool {
    let (world, op) = before;
    let (next_world, next) = after;
    match op.stage {
        StageModel::ListEcSets => next_world == world && next == op.after_ec_sets(
            ledger.ec_set_ids,
        ),
        StageModel::FetchMappings => next_world == world && exists|
            mappings: Map<AccountId, Seq<AccountSetId>>,
        |
            {
                &&& true_mappings(
                    mappings,
                    (ledger.sets)(op.journal_id()),
                    accounts_of(op.current_entries()),
                )
                &&& next == #[trigger] op.after_mappings(mappings)
            },
        StageModel::LoadBalances { mappings } => next_world == world && exists|
            balances: Map<BalanceKey, BalanceSnapshot>,
        |
            {
                &&& true_balances(
                    balances,
                    in_journal(world.snapshots, op.journal_id()),
                    set_accounts(mappings),
                )
                &&& op.can_fold(time, balances)
                &&& op.can_fold_exactly(time, balances)
                &&& next == #[trigger] op.after_balances(time, balances)
            },
        StageModel::InsertSnapshots { snapshots, .. } => next_world == inserted(
            world,
            op.journal_id(),
            snapshots,
        ) && next == op.after_insert(),
        StageModel::FindJournal { .. } => next_world == world && next == op.after_journal(
            (ledger.effective)(op.journal_id()),
        ),
        StageModel::FindTransactions { mappings } => next_world == world && dated(
            op.current_entries(),
            ledger.dates,
        ) && exists|rebuilds: Seq<Rebuild>|
            {
                &&& rebuilds_from(
                    rebuilds,
                    deliveries(op.current_entries(), mappings),
                    ledger.dates,
                )
                &&& next == #[trigger] op.after_transactions(rebuilds)
            },
        StageModel::RebuildEffective { rebuilds, next: k } => next_world == world.rebuild(
            op.journal_id(),
            rebuilds[k],
        ) && next == op.after_rebuild(),
        StageModel::AdvanceCursor => {
            &&& rows_advanced(world.cursor, op.expected) == 1
            &&& next_world == (World { cursor: Some(op.new_state), ..world })
            &&& next == op.at(StageModel::Advanced)
        },
        StageModel::Advanced => false,
    }
}

/// Whether `trace` is a run of an operation, from its start in `world`.
pub open spec fn op_run(
    ledger: Ledger,
    time: Timestamp,
    world: World,
    start: BatchModel,
    trace: Seq<(World, BatchModel)>,
) -> bool {
    &&& trace.len() > 0
    &&& trace[0] == (world, start)
    &&& forall|i: int|
        0 <= i < trace.len() - 1 ==> op_step(
            ledger,
            time,
            #[trigger] trace[i],
            trace[i + 1],
        )
}

/// The journals whose snapshots are inserted.
pub open spec fn journals_inserted(op: BatchModel) -> int {
    match op.stage {
        StageModel::FindJournal { .. } | StageModel::FindTransactions { .. }
        | StageModel::RebuildEffective { .. } => op.done + 1,
        _ => op.done,
    }
}

/// Whether a journal is among the first `count` of `entries`.
pub open spec fn among_first(
    entries: Seq<EntryValues>,
    count: int,
    journal_id: JournalId,
) -> bool {
    exists|i: int|
        0 <= i < count && i < journals(entries).len() && #[trigger] journals(entries)[i]
            == journal_id
}

/// What holds of an operation wherever it stands.
pub open spec fn op_invariant(
    ledger: Ledger,
    time: Timestamp,
    first: World,
    start: BatchModel,
    world: World,
    op: BatchModel,
) -> bool {
    let delivered = ledger.deliveries(op.entries, op.journal_id());
    &&& op.job_id == start.job_id && op.expected == start.expected && op.new_state
        == start.new_state && op.entries == start.entries
    &&& 0 <= op.done <= journals(op.entries).len()
    &&& op.in_journal() || op.stage is ListEcSets ==> op.done < journals(op.entries).len()
    &&& !(op.in_journal() || op.stage is ListEcSets) ==> op.done == journals(op.entries).len()
    &&& op.in_journal() ==> op.ec_set_ids == ledger.ec_set_ids
    &&& world.snapshots == project_some(
        first.snapshots,
        ledger,
        time,
        op.entries,
        |journal_id: JournalId| among_first(op.entries, journals_inserted(op), journal_id),
    )
    &&& world.cursor == if op.stage is Advanced {
        Some(op.new_state)
    } else {
        first.cursor
    }
    &&& op.stage is Advanced ==> rows_advanced(first.cursor, op.expected) == 1
    &&& forall|i: int|
        0 <= i < journals_inserted(op) && i < journals(op.entries).len() ==> all_fold(
            time,
            in_journal(first.snapshots, #[trigger] journals(op.entries)[i]),
            ledger.deliveries(op.entries, journals(op.entries)[i]),
        )
    &&& forall|i: int|
        0 <= i < journals_inserted(op) && i < journals(op.entries).len() ==> folds_exactly(
            time,
            in_journal(first.snapshots, #[trigger] journals(op.entries)[i]),
            ledger.deliveries(op.entries, journals(op.entries)[i]),
        )
    &&& op.stage is LoadBalances || op.stage is InsertSnapshots || op.stage is FindJournal
        || op.stage is FindTransactions ==> deliveries(op.current_entries(), op.mappings())
        == delivered
    &&& op.stage matches StageModel::InsertSnapshots { snapshots, .. } ==> {
        &&& all_fold(time, in_journal(first.snapshots, op.journal_id()), delivered)
        &&& folds_exactly(time, in_journal(first.snapshots, op.journal_id()), delivered)
        &&& snapshots == snapshots_after(
            time,
            in_journal(first.snapshots, op.journal_id()),
            delivered,
        )
    }
    &&& rebuild_invariant(ledger, first, world, op)
}

/// What holds, wherever an operation stands, of what it has rebuilt: in the
/// journals that are done all of it, in the current one the first few, and
/// elsewhere nothing.
pub open spec fn rebuild_invariant(
    ledger: Ledger,
    first: World,
    world: World,
    op: BatchModel,
) -> bool {
    &&& forall|journal_id: JournalId| #[trigger]
        among_first(op.entries, op.done, journal_id) ==> rebuilt_since(
            ledger,
            first,
            world,
            op.entries,
            journal_id,
        )
    &&& forall|journal_id: JournalId|
        !among_first(op.entries, op.done, journal_id) && !(op.stage is RebuildEffective
            && journal_id == op.journal_id()) ==> #[trigger] world.rebuilt_in(journal_id)
            == first.rebuilt_in(journal_id)
    &&& forall|journal_id: JournalId| #[trigger]
        among_first(op.entries, op.done, journal_id) && (ledger.effective)(journal_id)
            && ledger.deliveries(op.entries, journal_id).len() > 0 ==> dated(
            journal_entries(op.entries, journal_id),
            ledger.dates,
        )
    &&& op.stage is RebuildEffective ==> dated(op.current_entries(), ledger.dates)
    &&& op.stage is FindTransactions || op.stage is RebuildEffective ==> (ledger.effective)(
        op.journal_id(),
    )
    &&& op.stage matches StageModel::RebuildEffective { rebuilds, next } ==> {
        &&& 0 <= next < rebuilds.len()
        &&& rebuilds_owed(ledger, op.entries, op.journal_id(), rebuilds)
        &&& world.rebuilt_in(op.journal_id()) == first.rebuilt_in(op.journal_id())
            + rebuilds.take(next)
    }
}

/// What is delivered depends on the sets of the accounts of the entries alone.
pub proof fn lemma_deliveries_agree(
    entries: Seq<EntryValues>,
    a: Map<AccountId, Seq<AccountSetId>>,
    b: Map<AccountId, Seq<AccountSetId>>,
)
    requires
        forall|i: int|
            0 <= i < entries.len() ==> sets_of(a, #[trigger] entries[i]) == sets_of(b, entries[i]),
    ensures
        deliveries(entries, a) == deliveries(entries, b),
    decreases entries.len(),
{
    if entries.len() > 0 {
        let less = entries.drop_last();
        assert forall|i: int| 0 <= i < less.len() implies sets_of(a, #[trigger] less[i]) == sets_of(
            b,
            less[i],
        ) by {
            assert(less[i] == entries[i]);
        }
        lemma_deliveries_agree(less, a, b);
        assert(sets_of(a, entries[entries.len() - 1]) == sets_of(b, entries[entries.len() - 1]));
    }
}

/// A delivery goes to a set that the account of its entry is mapped to.
pub proof fn lemma_delivered_is_mapped(
    entries: Seq<EntryValues>,
    mappings: Map<AccountId, Seq<AccountSetId>>,
    i: int,
)
    requires
        0 <= i < deliveries(entries, mappings).len(),
    ensures
        is_mapped(
            mappings,
            deliveries(entries, mappings)[i].entry.account_id,
            deliveries(entries, mappings)[i].set_id,
        ),
    decreases entries.len(),
{
    if entries.len() > 0 {
        let earlier = deliveries(entries.drop_last(), mappings);
        if i < earlier.len() {
            lemma_delivered_is_mapped(entries.drop_last(), mappings, i);
        } else {
            let sets = sets_of(mappings, entries.last());
            assert(sets.contains(sets[i - earlier.len()]));
        }
    }
}

/// A key that something is delivered to has a delivery.
pub proof fn lemma_touched_has_delivery(delivered: Seq<Delivery>, key: BalanceKey) -> (i: int)
    requires
        touched(delivered, key),
    ensures
        0 <= i < delivered.len(),
        delivered[i].key() == key,
    decreases delivered.len(),
{
    reveal(Seq::filter);
    let last = delivered.last();
    if last.key() == key {
        delivered.len() - 1
    } else {
        assert(delivered.filter(|d: Delivery| d.key() == key) =~= delivered.drop_last().filter(
            |d: Delivery| d.key() == key,
        ));
        assert(touched(delivered.drop_last(), key));
        lemma_touched_has_delivery(delivered.drop_last(), key)
    }
}

/// Where no account is mapped, nothing is delivered.
proof fn lemma_nothing_delivered(
    entries: Seq<EntryValues>,
    mappings: Map<AccountId, Seq<AccountSetId>>,
)
    requires
        mappings.dom().is_empty(),
    ensures
        deliveries(entries, mappings) == Seq::<Delivery>::empty(),
        forall|key: BalanceKey| !#[trigger] touched(Seq::<Delivery>::empty(), key),
    decreases entries.len(),
{
    reveal(Seq::filter);
    if entries.len() > 0 {
        lemma_nothing_delivered(entries.drop_last(), mappings);
        assert(!mappings.dom().contains(entries.last().account_id));
        assert(deliveries(entries, mappings) =~= Seq::<Delivery>::empty());
    }
}

/// The entries of a journal move accounts of the entries.
pub proof fn lemma_true_mappings_deliver(
    ledger: Ledger,
    op: BatchModel,
    mappings: Map<AccountId, Seq<AccountSetId>>,
)
    requires
        op.ec_set_ids == ledger.ec_set_ids,
        true_mappings(
            mappings,
            (ledger.sets)(op.journal_id()),
            accounts_of(op.current_entries()),
        ),
    ensures
        deliveries(op.current_entries(), ec_mappings(mappings, op.ec_set_ids))
            == ledger.deliveries(op.entries, op.journal_id()),
{
    let entries = op.current_entries();
    let a = ec_mappings(mappings, op.ec_set_ids);
    let b = ledger.ec_sets(op.journal_id());
    assert forall|i: int| 0 <= i < entries.len() implies sets_of(a, #[trigger] entries[i])
        == sets_of(b, entries[i]) by {
        assert(accounts_of(entries).contains(entries[i].account_id));
    }
    lemma_deliveries_agree(entries, a, b);
}

/// True balances are folded into what the snapshots of the journal are folded
/// into.
proof fn lemma_true_balances_fold(
    time: Timestamp,
    entries: Seq<EntryValues>,
    mappings: Map<AccountId, Seq<AccountSetId>>,
    balances: Map<BalanceKey, BalanceSnapshot>,
    snapshots: Map<BalanceKey, BalanceSnapshot>,
)
    requires
        true_balances(balances, snapshots, set_accounts(mappings)),
    ensures
        snapshots_after(time, balances, deliveries(entries, mappings)) == snapshots_after(
            time,
            snapshots,
            deliveries(entries, mappings),
        ),
        all_fold(time, balances, deliveries(entries, mappings)) ==> all_fold(
            time,
            snapshots,
            deliveries(entries, mappings),
        ),
        folds_exactly(time, balances, deliveries(entries, mappings)) ==> folds_exactly(
            time,
            snapshots,
            deliveries(entries, mappings),
        ),
{
    let delivered = deliveries(entries, mappings);
    assert forall|key: BalanceKey| #[trigger] touched(delivered, key) implies snapshot_after(
        time,
        key,
        balances,
        delivered,
    ) == snapshot_after(time, key, snapshots, delivered) && base(
        time,
        key,
        balances,
        received(delivered, key),
    ) == base(time, key, snapshots, received(delivered, key)) by {
        let i = lemma_touched_has_delivery(delivered, key);
        lemma_delivered_is_mapped(entries, mappings, i);
        assert(is_mapped(mappings, delivered[i].entry.account_id, delivered[i].set_id));
        assert(set_accounts(mappings).contains(key.account_id));
        assert(balances.contains_key(key) <==> snapshots.contains_key(key));
    }
    assert(snapshots_after(time, balances, delivered) =~= snapshots_after(
        time,
        snapshots,
        delivered,
    ));
}

/// The journal that comes after the first `count` is not among them.
pub proof fn lemma_next_journal(entries: Seq<EntryValues>, count: int)
    requires
        0 <= count < journals(entries).len(),
    ensures
        !among_first(entries, count, journals(entries)[count]),
        forall|journal_id: JournalId| #[trigger]
            among_first(entries, count + 1, journal_id) <==> among_first(entries, count, journal_id)
                || journal_id == journals(entries)[count],
{
    lemma_journals(entries);
    assert forall|journal_id: JournalId| #[trigger]
        among_first(entries, count + 1, journal_id) <==> among_first(entries, count, journal_id)
            || journal_id == journals(entries)[count] by {
        if among_first(entries, count, journal_id) {
            let i = choose|i: int|
                0 <= i < count && i < journals(entries).len() && #[trigger] journals(entries)[i]
                    == journal_id;
            assert(journals(entries)[i] == journal_id);
        }
    }
}

/// A journal that is done with has been rebuilt, if `world` has `rebuilds` more
/// there and they are what it is owed.
proof fn lemma_rebuilt(
    ledger: Ledger,
    first: World,
    world: World,
    entries: Seq<EntryValues>,
    journal_id: JournalId,
    rebuilds: Seq<Rebuild>,
)
    requires
        world.rebuilt_in(journal_id) == first.rebuilt_in(journal_id) + rebuilds,
        rebuilds_owed(ledger, entries, journal_id, rebuilds),
    ensures
        rebuilt_since(ledger, first, world, entries, journal_id),
{
    let before = first.rebuilt_in(journal_id);
    assert((before + rebuilds).skip(before.len() as int) =~= rebuilds);
}

/// An operation keeps to what holds of what it has rebuilt.
proof fn lemma_rebuild_step(
    ledger: Ledger,
    time: Timestamp,
    first: World,
    start: BatchModel,
    before: (World, BatchModel),
    after: (World, BatchModel),
)
    requires
        op_invariant(ledger, time, first, start, before.0, before.1),
        op_step(ledger, time, before, after),
    ensures
        rebuild_invariant(ledger, first, after.0, after.1),
{
    let (world, op) = before;
    let (next_world, next) = after;
    let entries = op.entries;
    if op.in_journal() || op.stage is ListEcSets {
        lemma_next_journal(entries, op.done);
    }
    let journal_id = op.journal_id();
    let nothing = Seq::<Rebuild>::empty();
    assert forall|id: JournalId| id != journal_id || !(op.stage is RebuildEffective) implies #[trigger]
        next_world.rebuilt_in(id) == world.rebuilt_in(id) by {}
    match op.stage {
        StageModel::FetchMappings => {
            let mappings = choose|mappings: Map<AccountId, Seq<AccountSetId>>|
                {
                    &&& true_mappings(
                        mappings,
                        (ledger.sets)(op.journal_id()),
                        accounts_of(op.current_entries()),
                    )
                    &&& next == #[trigger] op.after_mappings(mappings)
                };
            lemma_true_mappings_deliver(ledger, op, mappings);
            let kept = ec_mappings(mappings, op.ec_set_ids);
            if kept.dom().is_empty() {
                lemma_nothing_delivered(op.current_entries(), kept);
                assert(first.rebuilt_in(journal_id) + nothing =~= first.rebuilt_in(journal_id));
                lemma_rebuilt(ledger, first, next_world, entries, journal_id, nothing);
            }
        },
        StageModel::FindJournal { .. } => {
            assert(first.rebuilt_in(journal_id) + nothing =~= first.rebuilt_in(journal_id));
            if !(ledger.effective)(journal_id) {
                lemma_rebuilt(ledger, first, next_world, entries, journal_id, nothing);
            }
        },
        StageModel::FindTransactions { mappings } => {
            let rebuilds = choose|rebuilds: Seq<Rebuild>|
                {
                    &&& rebuilds_from(
                        rebuilds,
                        deliveries(op.current_entries(), mappings),
                        ledger.dates,
                    )
                    &&& next == #[trigger] op.after_transactions(rebuilds)
                };
            assert(first.rebuilt_in(journal_id) + rebuilds.take(0) =~= first.rebuilt_in(journal_id));
            if rebuilds.len() == 0 {
                assert(rebuilds =~= nothing);
                assert(first.rebuilt_in(journal_id) + nothing =~= first.rebuilt_in(journal_id));
                lemma_rebuilt(ledger, first, next_world, entries, journal_id, nothing);
            }
        },
        StageModel::RebuildEffective { rebuilds, next: k } => {
            assert(rebuilds.take(k).push(rebuilds[k]) =~= rebuilds.take(k + 1));
            assert(next_world.rebuilt_in(journal_id) =~= first.rebuilt_in(journal_id)
                + rebuilds.take(k + 1));
            if k + 1 == rebuilds.len() {
                assert(rebuilds.take(k + 1) =~= rebuilds);
                lemma_rebuilt(ledger, first, next_world, entries, journal_id, rebuilds);
            }
        },
        _ => {},
    }
}

/// An operation keeps to what holds of it.
pub proof fn lemma_op_step(
    ledger: Ledger,
    time: Timestamp,
    first: World,
    start: BatchModel,
    before: (World, BatchModel),
    after: (World, BatchModel),
)
    requires
        op_invariant(ledger, time, first, start, before.0, before.1),
        op_step(ledger, time, before, after),
    ensures
        op_invariant(ledger, time, first, start, after.0, after.1),
{
    let (world, op) = before;
    let (next_world, next) = after;
    let entries = op.entries;
    if op.in_journal() || op.stage is ListEcSets {
        lemma_next_journal(entries, op.done);
    }
    let journal_id = op.journal_id();
    let initial = in_journal(first.snapshots, journal_id);
    lemma_rebuild_step(ledger, time, first, start, before, after);
    match op.stage {
        StageModel::FetchMappings => {
            let mappings = choose|mappings: Map<AccountId, Seq<AccountSetId>>|
                {
                    &&& true_mappings(
                        mappings,
                        (ledger.sets)(op.journal_id()),
                        accounts_of(op.current_entries()),
                    )
                    &&& next == #[trigger] op.after_mappings(mappings)
                };
            lemma_true_mappings_deliver(ledger, op, mappings);
            let kept = ec_mappings(mappings, op.ec_set_ids);
            if kept.dom().is_empty() {
                lemma_nothing_delivered(op.current_entries(), kept);
                assert(next_world.snapshots =~= project_some(
                    first.snapshots,
                    ledger,
                    time,
                    entries,
                    |id: JournalId| among_first(entries, op.done + 1, id),
                ));
            }
        },
        StageModel::LoadBalances { mappings } => {
            let balances = choose|balances: Map<BalanceKey, BalanceSnapshot>|
                {
                    &&& true_balances(
                        balances,
                        in_journal(world.snapshots, op.journal_id()),
                        set_accounts(mappings),
                    )
                    &&& op.can_fold(time, balances)
                    &&& op.can_fold_exactly(time, balances)
                    &&& next == #[trigger] op.after_balances(time, balances)
                };
            assert(in_journal(world.snapshots, journal_id) =~= initial);
            lemma_true_balances_fold(time, op.current_entries(), mappings, balances, initial);
        },
        StageModel::InsertSnapshots { snapshots, .. } => {
            assert(next_world.snapshots =~= project_some(
                first.snapshots,
                ledger,
                time,
                entries,
                |id: JournalId| among_first(entries, op.done + 1, id),
            ));
        },
        _ => {},
    }
}

/// What holds of an operation holds at its start.
pub proof fn lemma_op_start(
    ledger: Ledger,
    time: Timestamp,
    world: World,
    job_id: JobId,
    state: ProjectorState,
    new_state: ProjectorState,
    entries: Seq<EntryValues>,
)
    ensures
        op_invariant(
            ledger,
            time,
            world,
            BatchModel::start(job_id, state, new_state, entries),
            world,
            BatchModel::start(job_id, state, new_state, entries),
        ),
{
    lemma_journals(entries);
    if entries.len() > 0 {
        assert(entries[0].journal_id == entries[0].journal_id);
        assert(journals(entries).contains(entries[0].journal_id));
    }
    assert(world.snapshots =~= project_some(
        world.snapshots,
        ledger,
        time,
        entries,
        |id: JournalId| among_first(entries, 0, id),
    ));
}

/// What holds of an operation holds all along a run.
pub proof fn lemma_op_run(
    ledger: Ledger,
    time: Timestamp,
    world: World,
    job_id: JobId,
    state: ProjectorState,
    new_state: ProjectorState,
    entries: Seq<EntryValues>,
    trace: Seq<(World, BatchModel)>,
    i: int,
)
    requires
        op_run(
            ledger,
            time,
            world,
            BatchModel::start(job_id, state, new_state, entries),
            trace,
        ),
        0 <= i < trace.len(),
    ensures
        op_invariant(
            ledger,
            time,
            world,
            BatchModel::start(job_id, state, new_state, entries),
            trace[i].0,
            trace[i].1,
        ),
    decreases i,
{
    if i == 0 {
        lemma_op_start(ledger, time, world, job_id, state, new_state, entries);
    } else {
        lemma_op_run(ledger, time, world, job_id, state, new_state, entries, trace, i - 1);
        lemma_op_step(
            ledger,
            time,
            world,
            BatchModel::start(job_id, state, new_state, entries),
            trace[i - 1],
            trace[i],
        );
    }
}

} // verus!
