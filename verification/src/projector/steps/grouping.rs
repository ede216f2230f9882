//! How a batch is split, and what its entries name.

use crate::primitives::{AccountId, EntryValues, JournalId, TransactionId};
use crate::projector::grouping::{
    accounts_of, groups_by_journal, journal_entries, journals, lemma_journals, transactions_of,
    JournalBatch,
};
use crate::projector::ordered::{lists_accounts, lists_transactions};
use crate::projector::steps::sets::lemma_count_push;
use vstd::prelude::*;

verus! {

/// What one entry more adds to the entries of a journal: itself, at the end, if
/// it belongs to it.
pub proof fn law_one_entry_more_joins_its_journal(
    entries: Seq<EntryValues>,
    entry: EntryValues,
    journal_id: JournalId,
)
    ensures
        journal_entries(Seq::empty(), journal_id) == Seq::<EntryValues>::empty(),
        journal_entries(entries.push(entry), journal_id) == if entry.journal_id == journal_id {
            journal_entries(entries, journal_id).push(entry)
        } else {
            journal_entries(entries, journal_id)
        },
{
    reveal(Seq::filter);
    assert(entries.push(entry).drop_last() =~= entries);
}

/// A journal has each entry that belongs to it as often as the batch has it.
pub proof fn law_a_journal_has_all_its_entries(
    entries: Seq<EntryValues>,
    journal_id: JournalId,
    entry: EntryValues,
)
    ensures
        journal_entries(entries, journal_id).to_multiset().count(entry) == if entry.journal_id
            == journal_id {
            entries.to_multiset().count(entry)
        } else {
            0
        },
    decreases entries.len(),
{
    if entries.len() == 0 {
        assert(entries =~= Seq::empty());
        law_one_entry_more_joins_its_journal(entries, entry, journal_id);
        lemma_count_push(entries, entry, entry);
    } else {
        let less = entries.drop_last();
        let last = entries.last();
        assert(less.push(last) =~= entries);
        law_a_journal_has_all_its_entries(less, journal_id, entry);
        law_one_entry_more_joins_its_journal(less, last, journal_id);
        lemma_count_push(less, last, entry);
        lemma_count_push(journal_entries(less, journal_id), last, entry);
    }
}

/// What one entry more adds to the journals of a batch: its own, at the end, if
/// it is not there yet.
pub proof fn law_journals_come_in_the_order_of_their_first_entries(
    entries: Seq<EntryValues>,
    entry: EntryValues,
)
    ensures
        journals(Seq::empty()) == Seq::<JournalId>::empty(),
        journals(entries.push(entry)) == if exists|i: int|
            0 <= i < entries.len() && #[trigger] entries[i].journal_id == entry.journal_id {
            journals(entries)
        } else {
            journals(entries).push(entry.journal_id)
        },
{
    assert(entries.push(entry).drop_last() =~= entries);
    lemma_journals(entries);
}

/// The groups of a batch split it: no two are of one journal, each entry is in
/// the group of its journal as often as it is in the batch and in no other
/// group, every entry has a group, and no group is empty.
pub proof fn law_groups_split_the_batch(
    groups: Seq<JournalBatch>,
    entries: Seq<EntryValues>,
    g: int,
    entry: EntryValues,
)
    requires
        groups_by_journal(groups, entries),
    ensures
        forall|i: int, j: int|
            0 <= i < j < groups.len() ==> groups[i].journal_id != groups[j].journal_id,
        0 <= g < groups.len() ==> groups[g].entries@.to_multiset().count(entry)
            == if entry.journal_id == groups[g].journal_id {
            entries.to_multiset().count(entry)
        } else {
            0
        },
        0 <= g < groups.len() ==> groups[g].entries@.len() > 0,
        entries.contains(entry) ==> exists|i: int|
            0 <= i < groups.len() && #[trigger] groups[i].journal_id == entry.journal_id,
{
    lemma_journals(entries);
    assert forall|i: int, j: int| 0 <= i < j < groups.len() implies groups[i].journal_id
        != groups[j].journal_id by {
        assert(journals(entries)[i] != journals(entries)[j]);
    }
    if 0 <= g < groups.len() {
        let id = groups[g].journal_id;
        law_a_journal_has_all_its_entries(entries, id, entry);
        assert(journals(entries)[g] == id);
        assert(journals(entries).contains(id));
        let k = choose|k: int| 0 <= k < entries.len() && #[trigger] entries[k].journal_id == id;
        law_a_journal_has_all_its_entries(entries, id, entries[k]);
        entries.to_multiset_ensures();
        journal_entries(entries, id).to_multiset_ensures();
        assert(entries.contains(entries[k]));
        assert(journal_entries(entries, id).contains(entries[k]));
    }
    if entries.contains(entry) {
        let k = entries.index_of(entry);
        assert(entries[k].journal_id == entry.journal_id);
        assert(journals(entries).contains(entry.journal_id));
        let i = journals(entries).index_of(entry.journal_id);
        assert(groups[i].journal_id == entry.journal_id);
    }
}

/// The accounts and the transactions of entries are those that some entry
/// names.
pub proof fn law_what_entries_name(
    entries: Seq<EntryValues>,
    account_id: AccountId,
    transaction_id: TransactionId,
)
    ensures
        forall|i: int|
            0 <= i < entries.len() ==> accounts_of(entries).contains(
                (#[trigger] entries[i]).account_id,
            ) && transactions_of(entries).contains(entries[i].transaction_id),
        accounts_of(entries).contains(account_id) ==> exists|i: int|
            0 <= i < entries.len() && #[trigger] entries[i].account_id == account_id,
        transactions_of(entries).contains(transaction_id) ==> exists|i: int|
            0 <= i < entries.len() && #[trigger] entries[i].transaction_id == transaction_id,
{
}

/// Ids that list a set list each of its members once, and nothing else, from the
/// smallest to the largest.
pub proof fn law_lists_are_complete_and_in_order(
    account_ids: Seq<AccountId>,
    accounts: Set<AccountId>,
    transaction_ids: Seq<TransactionId>,
    transactions: Set<TransactionId>,
)
    requires
        lists_accounts(account_ids, accounts),
        lists_transactions(transaction_ids, transactions),
    ensures
        forall|i: int, j: int|
            0 <= i < j < account_ids.len() ==> account_ids[i].0 < account_ids[j].0,
        forall|id: AccountId| account_ids.contains(id) <==> #[trigger] accounts.contains(id),
        forall|i: int, j: int|
            0 <= i < j < transaction_ids.len() ==> transaction_ids[i].0 < transaction_ids[j].0,
        forall|id: TransactionId|
            transaction_ids.contains(id) <==> #[trigger] transactions.contains(id),
{
}

} // verus!
