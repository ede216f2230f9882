//! That what an operation asks for is enough for what it does next.

use crate::balance::snapshot::BalanceSnapshot;
use crate::balance::store::BalanceKey;
use crate::primitives::{
    AccountId, AccountSetId, Date, EntryValues, JobId, TransactionId,
};
use crate::projector::batch::{listed_balances, BatchModel, BatchStage, StageModel};
use crate::projector::effective::dated;
use crate::projector::grouping::{accounts_of, journals, transactions_of};
use crate::projector::mappings::{set_accounts, AccountSetMappings};
use crate::projector::state::ProjectorState;
use crate::projector::steps::grouping::{
    law_a_journal_has_all_its_entries, law_what_entries_name,
};
use crate::projector::steps::sets::law_set_accounts_are_those_of_all_sets;
use vstd::prelude::*;

verus! {

/// The entries that are being folded are those of the batch that belong to the
/// journal that is being folded, each as often as the batch has it.
pub proof fn law_current_entries_are_those_of_the_journal(model: BatchModel, entry: EntryValues)
    ensures
        model.current_entries().to_multiset().count(entry) == if entry.journal_id
            == model.journal_id() {
            model.entries.to_multiset().count(entry)
        } else {
            0
        },
        model.entries.contains(entry) && entry.journal_id == model.journal_id()
            <==> model.current_entries().contains(entry),
{
    law_a_journal_has_all_its_entries(model.entries, model.journal_id(), entry);
    model.entries.to_multiset_ensures();
    model.current_entries().to_multiset_ensures();
}

/// A batch begins with the cursor that it expects, and asks first for the
/// eventually-consistent sets, or at once for the cursor where it has no
/// entries.
pub proof fn law_a_batch_begins(
    job_id: JobId,
    state: ProjectorState,
    new_state: ProjectorState,
    entries: Seq<EntryValues>,
)
    ensures
        ({
            let model = BatchModel::start(job_id, state, new_state, entries);
            &&& model.job_id == job_id
            &&& model.expected == state.sequence
            &&& model.new_state == new_state
            &&& model.entries == entries
            &&& model.done == 0
            &&& entries.len() > 0 ==> model.stage == StageModel::ListEcSets
            &&& entries.len() == 0 ==> model.stage == StageModel::AdvanceCursor
        }),
{
}

/// The journals of a batch are folded one after the other, none left out.
pub proof fn law_journals_are_folded_one_after_the_other(model: BatchModel)
    requires
        0 <= model.done < journals(model.entries).len(),
    ensures
        model.journal_id() == journals(model.entries)[model.done],
        model.next_journal().done == model.done + 1,
        model.next_journal().entries == model.entries,
        model.next_journal().ec_set_ids == model.ec_set_ids,
        model.done + 1 < journals(model.entries).len() ==> model.next_journal().stage
            == StageModel::FetchMappings,
        model.done + 1 == journals(model.entries).len() ==> model.next_journal().stage
            == StageModel::AdvanceCursor,
{
}

/// The sets of every account that an entry of the journal moves are asked for,
/// each once and in order, and of no other account.
pub proof fn law_asked_accounts_are_enough(
    stage: BatchStage,
    model: BatchModel,
    account_ids: Vec<AccountId>,
)
    requires
        stage == (BatchStage::FetchMappings { account_ids }),
        stage.asks_for(model),
    ensures
        forall|i: int|
            0 <= i < model.entries.len() && (#[trigger] model.entries[i]).journal_id
                == model.journal_id() ==> account_ids@.contains(model.entries[i].account_id),
        forall|id: AccountId| #[trigger]
            account_ids@.contains(id) ==> exists|i: int|
                0 <= i < model.entries.len() && (#[trigger] model.entries[i]).journal_id
                    == model.journal_id() && model.entries[i].account_id == id,
        forall|i: int, j: int|
            0 <= i < j < account_ids@.len() ==> account_ids@[i].0 < account_ids@[j].0,
{
    let current = model.current_entries();
    law_what_entries_name(current, AccountId(0), TransactionId(0));
    assert forall|i: int| 0 <= i < model.entries.len() && (#[trigger] model.entries[i]).journal_id
        == model.journal_id() implies account_ids@.contains(model.entries[i].account_id) by {
        law_current_entries_are_those_of_the_journal(model, model.entries[i]);
        assert(model.entries.contains(model.entries[i]));
        let k = current.index_of(model.entries[i]);
        assert(accounts_of(current).contains(current[k].account_id));
    }
    assert forall|id: AccountId| #[trigger] account_ids@.contains(id) implies exists|i: int|
        0 <= i < model.entries.len() && (#[trigger] model.entries[i]).journal_id
            == model.journal_id() && model.entries[i].account_id == id by {
        assert(accounts_of(current).contains(id));
        law_what_entries_name(current, id, TransactionId(0));
        let m = choose|m: int|
            0 <= m < current.len() && #[trigger] current[m].account_id == id;
        assert(current.contains(current[m]));
        law_current_entries_are_those_of_the_journal(model, current[m]);
        let i = model.entries.index_of(current[m]);
        assert(model.entries[i] == current[m]);
    }
}

/// The transaction of every entry of the journal is asked for, each once and in
/// order, and no other: so that whoever knows the dates of the transactions
/// that are asked for knows the date of every entry that is being folded.
pub proof fn law_asked_transactions_are_enough(
    stage: BatchStage,
    model: BatchModel,
    ec_mappings: AccountSetMappings,
    transaction_ids: Vec<TransactionId>,
    dates: Map<TransactionId, Date>,
)
    requires
        stage == (BatchStage::FindTransactions { ec_mappings, transaction_ids }),
        stage.asks_for(model),
    ensures
        forall|i: int|
            0 <= i < model.entries.len() && (#[trigger] model.entries[i]).journal_id
                == model.journal_id() ==> transaction_ids@.contains(
                model.entries[i].transaction_id,
            ),
        forall|id: TransactionId| #[trigger]
            transaction_ids@.contains(id) ==> exists|i: int|
                0 <= i < model.entries.len() && (#[trigger] model.entries[i]).journal_id
                    == model.journal_id() && model.entries[i].transaction_id == id,
        forall|i: int, j: int|
            0 <= i < j < transaction_ids@.len() ==> transaction_ids@[i].0 < transaction_ids@[j].0,
        (forall|k: int|
            0 <= k < transaction_ids@.len() ==> dates.contains_key(#[trigger] transaction_ids@[k]))
            ==> dated(model.current_entries(), dates),
{
    let current = model.current_entries();
    law_what_entries_name(current, AccountId(0), TransactionId(0));
    assert forall|i: int| 0 <= i < model.entries.len() && (#[trigger] model.entries[i]).journal_id
        == model.journal_id() implies transaction_ids@.contains(
        model.entries[i].transaction_id,
    ) by {
        law_current_entries_are_those_of_the_journal(model, model.entries[i]);
        assert(model.entries.contains(model.entries[i]));
        let k = current.index_of(model.entries[i]);
        assert(transactions_of(current).contains(current[k].transaction_id));
    }
    assert forall|id: TransactionId| #[trigger] transaction_ids@.contains(id) implies exists|i: int|
        0 <= i < model.entries.len() && (#[trigger] model.entries[i]).journal_id
            == model.journal_id() && model.entries[i].transaction_id == id by {
        assert(transactions_of(current).contains(id));
        law_what_entries_name(current, AccountId(0), id);
        let m = choose|m: int|
            0 <= m < current.len() && #[trigger] current[m].transaction_id == id;
        assert(current.contains(current[m]));
        law_current_entries_are_those_of_the_journal(model, current[m]);
        let i = model.entries.index_of(current[m]);
        assert(model.entries[i] == current[m]);
    }
    if forall|k: int|
        0 <= k < transaction_ids@.len() ==> dates.contains_key(#[trigger] transaction_ids@[k]) {
        assert forall|i: int| 0 <= i < current.len() implies dates.contains_key(
            (#[trigger] current[i]).transaction_id,
        ) by {
            assert(transactions_of(current).contains(current[i].transaction_id));
            let k = transaction_ids@.index_of(current[i].transaction_id);
            assert(dates.contains_key(transaction_ids@[k]));
        }
    }
}

/// Every entry is dated exactly if its transaction has a date.
pub proof fn law_dated_means_every_transaction_has_a_date(
    entries: Seq<EntryValues>,
    dates: Map<TransactionId, Date>,
)
    ensures
        dated(entries, dates) <==> forall|i: int|
            0 <= i < entries.len() ==> dates.contains_key((#[trigger] entries[i]).transaction_id),
{
}

/// The balances of every set that some account is mapped to are asked for, each
/// once and in order, and of no other account.
pub proof fn law_asked_balances_are_enough(
    stage: BatchStage,
    model: BatchModel,
    ec_mappings: AccountSetMappings,
    account_ids: Vec<AccountId>,
    set_id: AccountSetId,
)
    requires
        stage == (BatchStage::LoadBalances { ec_mappings, account_ids }),
        stage.asks_for(model),
    ensures
        stage@ == (StageModel::LoadBalances { mappings: ec_mappings@ }),
        account_ids@.contains(AccountId(set_id.0)) <==> exists|member: AccountId|
            ec_mappings@.contains_key(member) && (#[trigger] ec_mappings@[member]).contains(set_id),
        forall|i: int, j: int|
            0 <= i < j < account_ids@.len() ==> account_ids@[i].0 < account_ids@[j].0,
{
    law_set_accounts_are_those_of_all_sets(ec_mappings@, set_id);
    assert(account_ids@.contains(AccountId(set_id.0)) <==> set_accounts(ec_mappings@).contains(
        AccountId(set_id.0),
    ));
}

/// The snapshots that are to be inserted are listed in full, one for each
/// balance, by account and then by currency.
pub proof fn law_asked_inserts_are_complete(
    stage: BatchStage,
    model: BatchModel,
    ec_mappings: AccountSetMappings,
    snapshots: Vec<(BalanceKey, BalanceSnapshot)>,
    all: Map<BalanceKey, BalanceSnapshot>,
)
    requires
        stage == (BatchStage::InsertSnapshots { ec_mappings, snapshots }),
        stage@ == (StageModel::InsertSnapshots { mappings: ec_mappings@, snapshots: all }),
        stage.asks_for(model),
    ensures
        forall|key: BalanceKey| #[trigger]
            all.contains_key(key) <==> exists|i: int|
                0 <= i < snapshots@.len() && #[trigger] snapshots@[i].0 == key,
        forall|i: int|
            0 <= i < snapshots@.len() ==> all[(#[trigger] snapshots@[i]).0] == snapshots@[i].1,
        forall|i: int, j: int|
            0 <= i < j < snapshots@.len() ==> {
                let a = (#[trigger] snapshots@[i]).0;
                let b = (#[trigger] snapshots@[j]).0;
                a.account_id.0 < b.account_id.0 || a.account_id.0 == b.account_id.0
                    && a.currency.0 < b.currency.0
            },
{
    assert(all == listed_balances(snapshots@));
    assert forall|i: int, j: int| 0 <= i < j < snapshots@.len() implies {
        let a = (#[trigger] snapshots@[i]).0;
        let b = (#[trigger] snapshots@[j]).0;
        a.account_id.0 < b.account_id.0 || a.account_id.0 == b.account_id.0 && a.currency.0
            < b.currency.0
    } by {
        assert(snapshots@[i].0.before(snapshots@[j].0));
    }
    assert forall|key: BalanceKey| #[trigger] all.contains_key(key) <==> exists|i: int|
        0 <= i < snapshots@.len() && #[trigger] snapshots@[i].0 == key by {}
    assert forall|i: int| 0 <= i < snapshots@.len() implies all[(#[trigger] snapshots@[i]).0]
        == snapshots@[i].1 by {
        assert(listed_balances(snapshots@).contains_key(snapshots@[i].0));
    }
}

} // verus!
