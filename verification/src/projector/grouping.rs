//! Splitting a batch of entries by journal.

use crate::primitives::{AccountId, EntryValues, JournalId, TransactionId};
use crate::projector::ordered::{
    accounts_in_order, lists_accounts, lists_transactions, transactions_in_order,
};
use std::collections::BTreeSet;
use vstd::prelude::*;

verus! {

/// The entries of a batch that belong to one journal.
pub struct JournalBatch {
    pub journal_id: JournalId,
    pub entries: Vec<EntryValues>,
}

/// The journals of `entries`, in the order in which they first occur.
pub open spec fn journals(entries: Seq<EntryValues>) -> Seq<JournalId>
    decreases entries.len(),
{
    if entries.len() == 0 {
        Seq::empty()
    } else {
        let earlier = journals(entries.drop_last());
        if earlier.contains(entries.last().journal_id) {
            earlier
        } else {
            earlier.push(entries.last().journal_id)
        }
    }
}

/// The entries of one journal, in the order they are in.
pub open spec fn journal_entries(entries: Seq<EntryValues>, journal_id: JournalId) -> Seq<
    EntryValues,
> {
    entries.filter(|entry: EntryValues| entry.journal_id == journal_id)
}

/// Whether `groups` splits `entries` by journal, in the order in which the
/// journals first occur.
pub open spec fn groups_by_journal(groups: Seq<JournalBatch>, entries: Seq<EntryValues>) -> bool {
    &&& groups.len() == journals(entries).len()
    &&& forall|i: int|
        0 <= i < groups.len() ==> {
            &&& (#[trigger] groups[i]).journal_id == journals(entries)[i]
            &&& groups[i].entries@ == journal_entries(entries, groups[i].journal_id)
        }
}

/// A journal occurs once among the journals of `entries`, and there exactly if
/// some entry belongs to it.
pub proof fn lemma_journals(entries: Seq<EntryValues>)
    ensures
        journals(entries).no_duplicates(),
        forall|id: JournalId| #[trigger]
            journals(entries).contains(id) <==> exists|i: int|
                0 <= i < entries.len() && #[trigger] entries[i].journal_id == id,
    decreases entries.len(),
{
    if entries.len() > 0 {
        let less = entries.drop_last();
        lemma_journals(less);
        assert forall|id: JournalId| #[trigger] journals(entries).contains(id) <==> exists|i: int|
            0 <= i < entries.len() && #[trigger] entries[i].journal_id == id by {
            let earlier = journals(less);
            if journals(entries).contains(id) {
                if earlier.contains(id) {
                    let i = choose|i: int|
                        0 <= i < less.len() && #[trigger] less[i].journal_id == id;
                    assert(entries[i].journal_id == id);
                } else {
                    assert(entries[entries.len() - 1].journal_id == id);
                }
            }
            if exists|i: int| 0 <= i < entries.len() && #[trigger] entries[i].journal_id == id {
                let i = choose|i: int|
                    0 <= i < entries.len() && #[trigger] entries[i].journal_id == id;
                if i < less.len() {
                    assert(less[i].journal_id == id);
                    assert(earlier.contains(id));
                    let k = earlier.index_of(id);
                    assert(journals(entries)[k] == id);
                } else if !earlier.contains(id) {
                    assert(journals(entries)[earlier.len() as int] == id);
                }
            }
        }
    }
}

/// A journal that no entry belongs to has no entries.
pub proof fn lemma_no_entries(entries: Seq<EntryValues>, journal_id: JournalId)
    requires
        forall|i: int| 0 <= i < entries.len() ==> #[trigger] entries[i].journal_id != journal_id,
    ensures
        journal_entries(entries, journal_id) == Seq::<EntryValues>::empty(),
    decreases entries.len(),
{
    reveal(Seq::filter);
    if entries.len() > 0 {
        assert forall|i: int| 0 <= i < entries.drop_last().len() implies #[trigger] entries.drop_last()[i].journal_id
            != journal_id by {
            assert(entries[i].journal_id != journal_id);
        }
        lemma_no_entries(entries.drop_last(), journal_id);
    }
}

/// Splits a batch by journal, keeping the order of the entries.
pub fn group_by_journal(entries: &Vec<EntryValues>) -> (groups: Vec<JournalBatch>)
    ensures
        groups_by_journal(groups@, entries@),
{
    let mut groups: Vec<JournalBatch> = Vec::new();
    proof {
        assert(entries@.take(0) =~= Seq::<EntryValues>::empty());
    }
    for i in 0..entries.len()
        invariant
            groups_by_journal(groups@, entries@.take(i as int)),
    {
        let entry = entries[i];
        let ghost seen = entries@.take(i as int);
        let ghost more = entries@.take(i + 1);
        proof {
            assert(more.drop_last() =~= seen);
            assert(more.last() == entry);
            lemma_journals(seen);
            assert forall|id: JournalId| #[trigger] journal_entries(more, id) == if entry.journal_id
                == id {
                journal_entries(seen, id).push(entry)
            } else {
                journal_entries(seen, id)
            } by {
                reveal(Seq::filter);
            }
        }
        let mut k: usize = 0;
        while k < groups.len() && groups[k].journal_id != entry.journal_id
            invariant
                0 <= k <= groups@.len(),
                forall|m: int| 0 <= m < k ==> (#[trigger] groups@[m]).journal_id != entry.journal_id,
            decreases groups@.len() - k,
        {
            k += 1;
        }
        let ghost before = groups@;
        if k < groups.len() {
            groups[k].entries.push(entry);
            proof {
                assert(journals(seen)[k as int] == entry.journal_id);
                assert(journals(more) == journals(seen));
            }
        } else {
            let mut first: Vec<EntryValues> = Vec::new();
            first.push(entry);
            groups.push(JournalBatch { journal_id: entry.journal_id, entries: first });
            proof {
                assert forall|m: int| 0 <= m < journals(seen).len() implies #[trigger] journals(
                    seen,
                )[m] != entry.journal_id by {
                    assert(before[m].journal_id != entry.journal_id);
                }
                assert(!journals(seen).contains(entry.journal_id));
                lemma_no_entries(seen, entry.journal_id);
            }
        }
    }
    proof {
        assert(entries@.take(entries@.len() as int) =~= entries@);
    }
    groups
}

/// The accounts that `entries` move.
pub open spec fn accounts_of(entries: Seq<EntryValues>) -> Set<AccountId> {
    Set::new(
        |id: AccountId|
            exists|i: int| 0 <= i < entries.len() && #[trigger] entries[i].account_id == id,
    )
}

/// The transactions that `entries` belong to.
pub open spec fn transactions_of(entries: Seq<EntryValues>) -> Set<TransactionId> {
    Set::new(
        |id: TransactionId|
            exists|i: int| 0 <= i < entries.len() && #[trigger] entries[i].transaction_id == id,
    )
}

/// The accounts that `entries` move, each once, in increasing order.
pub fn account_ids(entries: &Vec<EntryValues>) -> (ids: Vec<AccountId>)
    ensures
        lists_accounts(ids@, accounts_of(entries@)),
{
    broadcast use vstd::laws_cmp::group_laws_cmp;

    let mut raw_ids: BTreeSet<u128> = BTreeSet::new();
    for i in 0..entries.len()
        invariant
            forall|raw: u128| #[trigger]
                raw_ids@.contains(raw) <==> exists|k: int|
                    0 <= k < i && #[trigger] entries@[k].account_id == AccountId(raw),
    {
        raw_ids.insert(entries[i].account_id.0);
    }
    assert(Set::new(|id: AccountId| raw_ids@.contains(id.0)) =~= accounts_of(entries@));
    accounts_in_order(&raw_ids)
}

/// The transactions that `entries` belong to, each once, in increasing order.
pub fn transaction_ids(entries: &Vec<EntryValues>) -> (ids: Vec<TransactionId>)
    ensures
        lists_transactions(ids@, transactions_of(entries@)),
{
    broadcast use vstd::laws_cmp::group_laws_cmp;

    let mut raw_ids: BTreeSet<u128> = BTreeSet::new();
    for i in 0..entries.len()
        invariant
            forall|raw: u128| #[trigger]
                raw_ids@.contains(raw) <==> exists|k: int|
                    0 <= k < i && #[trigger] entries@[k].transaction_id == TransactionId(raw),
    {
        raw_ids.insert(entries[i].transaction_id.0);
    }
    assert(Set::new(|id: TransactionId| raw_ids@.contains(id.0)) =~= transactions_of(entries@));
    transactions_in_order(&raw_ids)
}

} // verus!
