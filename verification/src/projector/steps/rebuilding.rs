//! From which dates effective balances are rebuilt.

use crate::primitives::{
    AccountId, AccountSetId, Date, EntryValues, JobId, Timestamp, TransactionId,
};
use crate::projector::batch::BatchModel;
use crate::projector::effective::{earliest, names, rebuilds_from, Rebuild};
use crate::projector::fold::{deliveries, sets_of, to_each, Delivery};
use crate::projector::grouping::journal_entries;
use crate::projector::laws::law_operation_projects_its_batch;
use crate::projector::state::ProjectorState;
use crate::projector::steps::grouping::law_a_journal_has_all_its_entries;
use crate::projector::steps::sets::law_accounts_keep_their_ec_sets;
use crate::projector::world::{op_run, rebuilt_since, Ledger, World};
use vstd::prelude::*;

verus! {

/// An entry is delivered to every set that its account is mapped to.
proof fn lemma_is_delivered(
    entries: Seq<EntryValues>,
    mappings: Map<AccountId, Seq<AccountSetId>>,
    i: int,
    set_id: AccountSetId,
) -> (k: int)
    requires
        0 <= i < entries.len(),
        mappings.contains_key(entries[i].account_id),
        mappings[entries[i].account_id].contains(set_id),
    ensures
        0 <= k < deliveries(entries, mappings).len(),
        deliveries(entries, mappings)[k] == (Delivery { set_id, entry: entries[i] }),
    decreases entries.len(),
{
    let less = entries.drop_last();
    let earlier = deliveries(less, mappings);
    if i < less.len() {
        lemma_is_delivered(less, mappings, i, set_id)
    } else {
        let sets = mappings[entries[i].account_id];
        let m = sets.index_of(set_id);
        assert(to_each(sets_of(mappings, entries.last()), entries.last())[m] == (Delivery {
            set_id,
            entry: entries[i],
        }));
        earlier.len() + m
    }
}

/// What is delivered is an entry, to a set that its account is mapped to.
proof fn lemma_delivery_is_of_an_entry(
    entries: Seq<EntryValues>,
    mappings: Map<AccountId, Seq<AccountSetId>>,
    k: int,
) -> (i: int)
    requires
        0 <= k < deliveries(entries, mappings).len(),
    ensures
        0 <= i < entries.len(),
        entries[i] == deliveries(entries, mappings)[k].entry,
        mappings.contains_key(entries[i].account_id),
        mappings[entries[i].account_id].contains(deliveries(entries, mappings)[k].set_id),
    decreases entries.len(),
{
    let less = entries.drop_last();
    let earlier = deliveries(less, mappings);
    if k < earlier.len() {
        lemma_delivery_is_of_an_entry(less, mappings, k)
    } else {
        let sets = sets_of(mappings, entries.last());
        assert(sets.contains(sets[k - earlier.len()]));
        entries.len() - 1
    }
}

/// Whether a set is rebuilt from a date that is not after `date`.
pub open spec fn rebuilt_by(rebuilds: Seq<Rebuild>, set_id: AccountSetId, date: Date) -> bool {
    exists|k: int|
        0 <= k < rebuilds.len() && (#[trigger] rebuilds[k]).set_id == set_id
            && rebuilds[k].from_date.0 <= date.0
}

/// Whether some entry on an account that is mapped to a set has this effective
/// date.
pub open spec fn touched_on(
    entries: Seq<EntryValues>,
    mappings: Map<AccountId, Seq<AccountSetId>>,
    dates: Map<TransactionId, Date>,
    set_id: AccountSetId,
    date: Date,
) -> bool {
    exists|i: int|
        0 <= i < entries.len() && mappings.contains_key((#[trigger] entries[i]).account_id)
            && mappings[entries[i].account_id].contains(set_id)
            && dates[entries[i].transaction_id] == date
}

/// Every set that an entry touches is rebuilt, once, from a date that is not
/// after the effective date of the entry, and that is the effective date of some
/// entry that touches it. No other set is rebuilt. The sets come in order.
pub proof fn law_touched_sets_are_rebuilt_from_their_earliest_date(
    rebuilds: Seq<Rebuild>,
    entries: Seq<EntryValues>,
    mappings: Map<AccountId, Seq<AccountSetId>>,
    dates: Map<TransactionId, Date>,
    i: int,
    set_id: AccountSetId,
)
    requires
        rebuilds_from(rebuilds, deliveries(entries, mappings), dates),
    ensures
        0 <= i < entries.len() && mappings.contains_key(entries[i].account_id)
            && mappings[entries[i].account_id].contains(set_id) ==> rebuilt_by(
            rebuilds,
            set_id,
            dates[entries[i].transaction_id],
        ),
        forall|k: int|
            0 <= k < rebuilds.len() ==> touched_on(
                entries,
                mappings,
                dates,
                (#[trigger] rebuilds[k]).set_id,
                rebuilds[k].from_date,
            ),
        forall|a: int, b: int|
            0 <= a < b < rebuilds.len() ==> rebuilds[a].set_id.0 < rebuilds[b].set_id.0,
{
    let delivered = deliveries(entries, mappings);
    if 0 <= i < entries.len() && mappings.contains_key(entries[i].account_id)
        && mappings[entries[i].account_id].contains(set_id) {
        let d = lemma_is_delivered(entries, mappings, i, set_id);
        assert(names(rebuilds, delivered[d].set_id));
        let k = choose|k: int| 0 <= k < rebuilds.len() && #[trigger] rebuilds[k].set_id == set_id;
        assert(earliest(delivered, dates, rebuilds[k].set_id, rebuilds[k].from_date));
    }
    assert forall|k: int| 0 <= k < rebuilds.len() implies touched_on(
        entries,
        mappings,
        dates,
        (#[trigger] rebuilds[k]).set_id,
        rebuilds[k].from_date,
    ) by {
        assert(earliest(delivered, dates, rebuilds[k].set_id, rebuilds[k].from_date));
        let d = choose|d: int|
            0 <= d < delivered.len() && (#[trigger] delivered[d]).set_id == rebuilds[k].set_id
                && dates[delivered[d].entry.transaction_id] == rebuilds[k].from_date;
        let i = lemma_delivery_is_of_an_entry(entries, mappings, d);
        assert(entries[i] == delivered[d].entry);
    }
}

/// The sets that an entry touches by the ledger's own sets are rebuilt.
proof fn lemma_ledger_sets_are_rebuilt(
    ledger: Ledger,
    entries: Seq<EntryValues>,
    i: int,
    set_id: AccountSetId,
    rebuilds: Seq<Rebuild>,
)
    requires
        0 <= i < entries.len(),
        is_touched(ledger, entries[i], set_id),
        rebuilds_from(
            rebuilds,
            ledger.deliveries(entries, entries[i].journal_id),
            ledger.dates,
        ),
    ensures
        rebuilt_by(rebuilds, set_id, ledger.dates[entries[i].transaction_id]),
{
    let id = entries[i].journal_id;
    let account_id = entries[i].account_id;
    let mine = journal_entries(entries, id);
    let kept = ledger.ec_sets(id);
    law_a_journal_has_all_its_entries(entries, id, entries[i]);
    entries.to_multiset_ensures();
    mine.to_multiset_ensures();
    assert(entries.contains(entries[i]));
    let m = mine.index_of(entries[i]);
    let sets = (ledger.sets)(id);
    law_accounts_keep_their_ec_sets(sets, ledger.ec_set_ids, account_id, set_id);
    sets[account_id].to_multiset_ensures();
    let n = sets[account_id].index_of(set_id);
    assert(ledger.ec_set_ids.contains(sets[account_id][n]));
    kept[account_id].to_multiset_ensures();
    law_touched_sets_are_rebuilt_from_their_earliest_date(
        rebuilds,
        mine,
        kept,
        ledger.dates,
        m,
        set_id,
    );
}

/// Whether the account of an entry is in an eventually-consistent set, by the
/// ledger's own sets.
pub open spec fn is_touched(ledger: Ledger, entry: EntryValues, set_id: AccountSetId) -> bool {
    let sets = (ledger.sets)(entry.journal_id);
    &&& ledger.ec_set_ids.contains(set_id)
    &&& sets.contains_key(entry.account_id)
    &&& sets[entry.account_id].contains(set_id)
}

/// An operation that comes to its end has rebuilt, for every entry of its batch
/// in a journal with effective balances, each eventually-consistent set that the
/// account of the entry is in, from a date not after the effective date of the
/// entry. In a journal without effective balances it has rebuilt nothing.
pub proof fn law_operation_rebuilds_every_touched_set(
    ledger: Ledger,
    time: Timestamp,
    world: World,
    job_id: JobId,
    state: ProjectorState,
    new_state: ProjectorState,
    entries: Seq<EntryValues>,
    trace: Seq<(World, BatchModel)>,
    i: int,
    set_id: AccountSetId,
)
    requires
        op_run(ledger, time, world, BatchModel::start(job_id, state, new_state, entries), trace),
        trace.last().1.stage is Advanced,
        0 <= i < entries.len(),
        is_touched(ledger, entries[i], set_id),
    ensures
        ({
            let id = entries[i].journal_id;
            let before = world.rebuilt_in(id);
            let after = trace.last().0.rebuilt_in(id);
            &&& (ledger.effective)(id) ==> rebuilt_by(
                after.skip(before.len() as int),
                set_id,
                ledger.dates[entries[i].transaction_id],
            )
            &&& !(ledger.effective)(id) ==> after == before
        }),
{
    let end = trace.last().0;
    law_operation_projects_its_batch(
        ledger,
        time,
        world,
        job_id,
        state,
        new_state,
        entries,
        trace,
    );
    let id = entries[i].journal_id;
    assert(rebuilt_since(ledger, world, end, entries, id));
    let before = world.rebuilt_in(id);
    let after = end.rebuilt_in(id);
    if (ledger.effective)(id) {
        lemma_ledger_sets_are_rebuilt(
            ledger,
            entries,
            i,
            set_id,
            after.skip(before.len() as int),
        );
    } else {
        assert(after =~= before);
    }
}

} // verus!
