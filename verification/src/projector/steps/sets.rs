//! Which sets an entry reaches.

use crate::balance::snapshot::BalanceSnapshot;
use crate::balance::store::BalanceKey;
use crate::primitives::{AccountId, AccountSetId, Currency, EntryValues, JournalId, Timestamp};
use crate::projector::fold::{deliveries, received, touched};
use crate::projector::grouping::journal_entries;
use crate::projector::hierarchy::{lemma_delivered_to_last, occurrences};
use crate::projector::mappings::{ec_mappings, ec_sets, is_mapped, set_accounts};
use crate::projector::steps::grouping::law_one_entry_more_joins_its_journal;
use crate::projector::world::{project, Ledger};
use vstd::prelude::*;

verus! {

/// Counting one element more.
pub proof fn lemma_count_push<A>(s: Seq<A>, x: A, y: A)
    ensures
        Seq::<A>::empty().to_multiset().count(y) == 0,
        s.push(x).to_multiset().count(y) == s.to_multiset().count(y) + if x == y {
            1nat
        } else {
            0nat
        },
{
    s.to_multiset_ensures();
    Seq::<A>::empty().to_multiset_ensures();
    assert(!Seq::<A>::empty().contains(y));
}

/// What one set more adds to the sets that are kept: itself, at the end, if it
/// is eventually consistent.
pub proof fn law_one_set_more_is_kept_if_ec(
    sets: Seq<AccountSetId>,
    set_id: AccountSetId,
    ec_set_ids: Set<AccountSetId>,
)
    ensures
        ec_sets(Seq::empty(), ec_set_ids) == Seq::<AccountSetId>::empty(),
        ec_sets(sets.push(set_id), ec_set_ids) == if ec_set_ids.contains(set_id) {
            ec_sets(sets, ec_set_ids).push(set_id)
        } else {
            ec_sets(sets, ec_set_ids)
        },
{
    reveal(Seq::filter);
    assert(sets.push(set_id).drop_last() =~= sets);
}

/// Every eventually-consistent set is kept as often as it occurs, and no other
/// set is kept at all.
pub proof fn law_every_ec_set_is_kept(
    sets: Seq<AccountSetId>,
    ec_set_ids: Set<AccountSetId>,
    set_id: AccountSetId,
)
    ensures
        ec_sets(sets, ec_set_ids).to_multiset().count(set_id) == if ec_set_ids.contains(set_id) {
            sets.to_multiset().count(set_id)
        } else {
            0
        },
    decreases sets.len(),
{
    if sets.len() == 0 {
        assert(sets =~= Seq::empty());
        law_one_set_more_is_kept_if_ec(sets, set_id, ec_set_ids);
        lemma_count_push(sets, set_id, set_id);
    } else {
        let less = sets.drop_last();
        let last = sets.last();
        assert(less.push(last) =~= sets);
        law_every_ec_set_is_kept(less, ec_set_ids, set_id);
        law_one_set_more_is_kept_if_ec(less, last, ec_set_ids);
        lemma_count_push(less, last, set_id);
        lemma_count_push(ec_sets(less, ec_set_ids), last, set_id);
    }
}

/// An account keeps a mapping exactly if it is in some eventually-consistent
/// set, and then to each such set as often as it is in it.
pub proof fn law_accounts_keep_their_ec_sets(
    mappings: Map<AccountId, Seq<AccountSetId>>,
    ec_set_ids: Set<AccountSetId>,
    account_id: AccountId,
    set_id: AccountSetId,
)
    ensures
        ec_mappings(mappings, ec_set_ids).contains_key(account_id) <==> mappings.contains_key(
            account_id,
        ) && exists|i: int|
            0 <= i < mappings[account_id].len() && ec_set_ids.contains(
                #[trigger] mappings[account_id][i],
            ),
        ec_mappings(mappings, ec_set_ids).contains_key(account_id) ==> ec_mappings(
            mappings,
            ec_set_ids,
        )[account_id].to_multiset().count(set_id) == if ec_set_ids.contains(set_id) {
            mappings[account_id].to_multiset().count(set_id)
        } else {
            0
        },
{
    let sets = mappings[account_id];
    let kept = ec_sets(sets, ec_set_ids);
    law_every_ec_set_is_kept(sets, ec_set_ids, set_id);
    sets.to_multiset_ensures();
    kept.to_multiset_ensures();
    if kept.len() > 0 {
        law_every_ec_set_is_kept(sets, ec_set_ids, kept[0]);
        assert(kept.contains(kept[0]));
        assert(sets.contains(kept[0]));
        let i = sets.index_of(kept[0]);
        assert(ec_set_ids.contains(sets[i]));
    }
    if exists|i: int| 0 <= i < sets.len() && ec_set_ids.contains(#[trigger] sets[i]) {
        let i = choose|i: int| 0 <= i < sets.len() && ec_set_ids.contains(#[trigger] sets[i]);
        law_every_ec_set_is_kept(sets, ec_set_ids, sets[i]);
        assert(sets.contains(sets[i]));
        assert(kept.contains(sets[i]));
    }
}

/// The accounts whose balances are loaded are those of all the sets that some
/// account is mapped to.
pub proof fn law_set_accounts_are_those_of_all_sets(
    mappings: Map<AccountId, Seq<AccountSetId>>,
    set_id: AccountSetId,
)
    ensures
        set_accounts(mappings).contains(AccountId(set_id.0)) <==> exists|member: AccountId|
            mappings.contains_key(member) && (#[trigger] mappings[member]).contains(set_id),
{
    let id = AccountId(set_id.0);
    if set_accounts(mappings).contains(id) {
        let (member, found) = choose|member: AccountId, found: AccountSetId| #[trigger]
            is_mapped(mappings, member, found) && AccountId::spec_of_set(found) == id;
        assert(found == set_id);
        assert(mappings[member].contains(set_id));
    }
    if exists|member: AccountId|
        mappings.contains_key(member) && (#[trigger] mappings[member]).contains(set_id) {
        let member = choose|member: AccountId|
            mappings.contains_key(member) && (#[trigger] mappings[member]).contains(set_id);
        assert(is_mapped(mappings, member, set_id));
        assert(AccountId::spec_of_set(set_id) == id);
    }
}

/// Occurrences, as a multiset counts them.
pub proof fn lemma_occurrences(sets: Seq<AccountSetId>, set_id: AccountSetId)
    ensures
        occurrences(sets, set_id) == sets.to_multiset().count(set_id),
    decreases sets.len(),
{
    if sets.len() == 0 {
        assert(sets =~= Seq::empty());
        lemma_count_push(sets, set_id, set_id);
    } else {
        assert(sets.drop_last().push(sets.last()) =~= sets);
        lemma_occurrences(sets.drop_last(), set_id);
        lemma_count_push(sets.drop_last(), sets.last(), set_id);
    }
}

/// One entry more is received by the balance of a set, in its own currency, as
/// often as the set occurs among the sets of its account, after everything that
/// was received before. It does not matter which layer or side the entry moves,
/// or by how much.
pub proof fn law_entry_reaches_every_set_of_its_account(
    entries: Seq<EntryValues>,
    entry: EntryValues,
    mappings: Map<AccountId, Seq<AccountSetId>>,
    set_id: AccountSetId,
    currency: Currency,
)
    ensures
        ({
            let key = BalanceKey { account_id: AccountId(set_id.0), currency };
            let times = if entry.currency == currency && mappings.contains_key(entry.account_id) {
                mappings[entry.account_id].to_multiset().count(set_id)
            } else {
                0
            };
            &&& received(deliveries(Seq::empty(), mappings), key) == Seq::<EntryValues>::empty()
            &&& received(deliveries(entries.push(entry), mappings), key) == received(
                deliveries(entries, mappings),
                key,
            ) + Seq::new(times, |i: int| entry)
        }),
{
    let key = BalanceKey { account_id: AccountId(set_id.0), currency };
    reveal(Seq::filter);
    assert(received(deliveries(Seq::empty(), mappings), key) =~= Seq::<EntryValues>::empty());
    let more = entries.push(entry);
    assert(more.drop_last() =~= entries);
    lemma_delivered_to_last(more, mappings, set_id, currency);
    if mappings.contains_key(entry.account_id) {
        lemma_occurrences(mappings[entry.account_id], set_id);
    }
}

/// One entry more is received by the balance of a set, in its own journal and
/// currency, as often as its account is in the set, if the set is eventually
/// consistent; and by no other balance.
pub proof fn law_entry_reaches_every_ec_set_of_its_account(
    ledger: Ledger,
    entries: Seq<EntryValues>,
    entry: EntryValues,
    journal_id: JournalId,
    set_id: AccountSetId,
    currency: Currency,
)
    ensures
        ({
            let key = BalanceKey { account_id: AccountId(set_id.0), currency };
            let sets = (ledger.sets)(journal_id);
            let times = if entry.journal_id == journal_id && entry.currency == currency
                && ledger.ec_set_ids.contains(set_id) && sets.contains_key(entry.account_id) {
                sets[entry.account_id].to_multiset().count(set_id)
            } else {
                0
            };
            &&& received(ledger.deliveries(Seq::empty(), journal_id), key) == Seq::<
                EntryValues,
            >::empty()
            &&& received(ledger.deliveries(entries.push(entry), journal_id), key) == received(
                ledger.deliveries(entries, journal_id),
                key,
            ) + Seq::new(times, |i: int| entry)
        }),
{
    let key = BalanceKey { account_id: AccountId(set_id.0), currency };
    let sets = (ledger.sets)(journal_id);
    let kept = ledger.ec_sets(journal_id);
    law_one_entry_more_joins_its_journal(entries, entry, journal_id);
    let mine = journal_entries(entries, journal_id);
    law_entry_reaches_every_set_of_its_account(mine, entry, kept, set_id, currency);
    if entry.journal_id == journal_id {
        law_accounts_keep_their_ec_sets(sets, ledger.ec_set_ids, entry.account_id, set_id);
        if !kept.contains_key(entry.account_id) && sets.contains_key(entry.account_id)
            && ledger.ec_set_ids.contains(set_id) {
            let all = sets[entry.account_id];
            all.to_multiset_ensures();
            if all.contains(set_id) {
                assert(ledger.ec_set_ids.contains(all[all.index_of(set_id)]));
            }
        }
    } else {
        assert(received(ledger.deliveries(entries, journal_id), key) + Seq::new(
            0,
            |i: int| entry,
        ) =~= received(ledger.deliveries(entries, journal_id), key));
    }
}

/// An entry on an account that is in an eventually-consistent set touches the
/// balance of that set: once the entry is projected there is a snapshot of it.
pub proof fn law_members_of_ec_sets_touch_them(
    snapshots: Map<(JournalId, BalanceKey), BalanceSnapshot>,
    ledger: Ledger,
    time: Timestamp,
    entries: Seq<EntryValues>,
    i: int,
    set_id: AccountSetId,
)
    requires
        0 <= i < entries.len(),
        ledger.ec_set_ids.contains(set_id),
        (ledger.sets)(entries[i].journal_id).contains_key(entries[i].account_id),
        (ledger.sets)(entries[i].journal_id)[entries[i].account_id].contains(set_id),
    ensures
        ({
            let key = BalanceKey {
                account_id: AccountId(set_id.0),
                currency: entries[i].currency,
            };
            &&& received(ledger.deliveries(entries, entries[i].journal_id), key).contains(
                entries[i],
            )
            &&& project(snapshots, ledger, time, entries).contains_key(
                (entries[i].journal_id, key),
            )
        }),
    decreases entries.len(),
{
    let journal_id = entries[i].journal_id;
    let currency = entries[i].currency;
    let key = BalanceKey { account_id: AccountId(set_id.0), currency };
    let less = entries.drop_last();
    let last = entries.last();
    assert(less.push(last) =~= entries);
    law_entry_reaches_every_ec_set_of_its_account(
        ledger,
        less,
        last,
        journal_id,
        set_id,
        currency,
    );
    let before = received(ledger.deliveries(less, journal_id), key);
    let after = received(ledger.deliveries(entries, journal_id), key);
    if i < less.len() {
        assert(less[i] == entries[i]);
        law_members_of_ec_sets_touch_them(snapshots, ledger, time, less, i, set_id);
        let k = before.index_of(entries[i]);
        assert(after[k] == entries[i]);
    } else {
        (ledger.sets)(journal_id)[last.account_id].to_multiset_ensures();
        assert(after[before.len() as int] == entries[i]);
    }
    assert(touched(ledger.deliveries(entries, journal_id), key));
}

} // verus!
