use cala_projector::balance::amount::{Amount, MAX_MANTISSA};
use cala_projector::balance::snapshot::Snapshots;
use cala_projector::balance::store::{BalanceKey, BalanceMap};
use cala_projector::primitives::{
    AccountId, AccountSetId, Currency, Date, DebitOrCredit, EntryId, EntryValues, JournalId, Layer,
    Timestamp, TransactionId,
};
use cala_projector::projector::effective::{min_effective_dates, EffectiveDates, Rebuild};
use cala_projector::projector::fold::fold_entries;
use cala_projector::projector::grouping::{account_ids, group_by_journal, transaction_ids};
use cala_projector::projector::listing::{EcSetListing, EcSetPage, PAGE_SIZE};
use cala_projector::projector::mappings::{AccountSetMappings, EcSetIds};

const BTC: Currency = Currency(1);
const USD: Currency = Currency(2);

fn at(seconds: i64) -> Timestamp {
    Timestamp { seconds, nanos: 123_456_789 }
}

fn entry(id: u128, journal: u128, account: u128, currency: Currency, units: i128) -> EntryValues {
    EntryValues {
        id: EntryId(id),
        journal_id: JournalId(journal),
        transaction_id: TransactionId(1000 - id),
        account_id: AccountId(account),
        currency,
        layer: Layer::Settled,
        direction: DebitOrCredit::Credit,
        units: Amount { mantissa: units, scale: 0 },
    }
}

fn key(set: u128, currency: Currency) -> BalanceKey {
    BalanceKey { account_id: AccountId(set), currency }
}

fn mappings(pairs: &[(u128, &[u128])]) -> AccountSetMappings {
    let mut mappings = AccountSetMappings::new();
    for (account, sets) in pairs {
        let sets = sets.iter().map(|id| AccountSetId(*id)).collect();
        mappings.insert(AccountId(*account), sets);
    }
    mappings
}

#[test]
fn a_batch_is_split_by_journal_in_the_order_of_first_occurrence() {
    let entries = vec![
        entry(1, 20, 1, BTC, 1),
        entry(2, 10, 1, BTC, 1),
        entry(3, 20, 2, BTC, 1),
        entry(4, 30, 1, BTC, 1),
        entry(5, 10, 1, BTC, 1),
    ];
    let groups = group_by_journal(&entries);
    let split: Vec<(u128, Vec<u128>)> = groups
        .iter()
        .map(|group| (group.journal_id.0, group.entries.iter().map(|e| e.id.0).collect()))
        .collect();
    assert_eq!(split, vec![(20, vec![1, 3]), (10, vec![2, 5]), (30, vec![4])]);
    assert!(group_by_journal(&Vec::new()).is_empty());
}

#[test]
fn ids_are_listed_once_in_order() {
    let entries =
        vec![entry(3, 1, 9, BTC, 1), entry(1, 1, 4, BTC, 1), entry(2, 1, 9, BTC, 1)];
    assert_eq!(account_ids(&entries), vec![AccountId(4), AccountId(9)]);
    assert_eq!(
        transaction_ids(&entries),
        vec![TransactionId(997), TransactionId(998), TransactionId(999)]
    );
    let same = vec![entries[0], entries[0]];
    assert_eq!(transaction_ids(&same), vec![TransactionId(997)]);
}

#[test]
fn only_eventually_consistent_sets_are_kept() {
    let mut ec = EcSetIds::new();
    ec.insert(AccountSetId(50));
    ec.insert(AccountSetId(52));
    assert!(ec.contains(AccountSetId(50)) && !ec.contains(AccountSetId(51)));
    let all = mappings(&[(1, &[52, 51, 50]), (2, &[51]), (3, &[]), (4, &[50])]);
    let kept = all.keep_ec(&ec);
    assert_eq!(kept.get(AccountId(1)), Some(&vec![AccountSetId(52), AccountSetId(50)]));
    assert_eq!(kept.get(AccountId(2)), None);
    assert_eq!(kept.get(AccountId(3)), None);
    assert_eq!(kept.get(AccountId(4)), Some(&vec![AccountSetId(50)]));
    assert!(!kept.is_empty());
    assert_eq!(kept.set_account_ids(), vec![AccountId(50), AccountId(52)]);
    assert!(all.keep_ec(&EcSetIds::new()).is_empty());
    assert!(AccountSetMappings::new().set_account_ids().is_empty());
}

#[test]
fn entries_are_coalesced_into_one_snapshot_per_set_and_currency() {
    let entries = vec![
        entry(1, 1, 7, USD, 100),
        entry(2, 1, 7, BTC, 1290),
        entry(3, 1, 8, BTC, 10),
        entry(4, 1, 9, BTC, 5),
        entry(5, 1, 7, BTC, 1290),
    ];
    let above = mappings(&[(7, &[50, 40]), (8, &[40])]);
    let folded = fold_entries(at(6), &entries, &above, BalanceMap::new()).unwrap();
    let listed: Vec<(BalanceKey, i128, u32, u128)> = folded
        .iter()
        .map(|(key, s)| (*key, s.settled.cr_balance.mantissa, s.version, s.entry_id.0))
        .collect();
    assert_eq!(
        listed,
        vec![
            (key(40, BTC), 2590, 3, 5),
            (key(40, USD), 100, 1, 1),
            (key(50, BTC), 2580, 2, 5),
            (key(50, USD), 100, 1, 1),
        ]
    );
    assert!(folded.iter().all(|(_, s)| s.created_at == at(6)));
    assert!(folded.iter().all(|(key, s)| s.account_id == key.account_id));
}

#[test]
fn entries_are_folded_into_the_current_snapshot() {
    let first = entry(1, 1, 7, BTC, 1290);
    let current = Snapshots::new_snapshot(at(5), AccountId(40), &first).unwrap();
    let mut balances = BalanceMap::new();
    balances.insert(key(40, BTC), current);
    balances.insert(key(41, BTC), current);
    let entries = vec![entry(2, 1, 7, BTC, 10), entry(3, 1, 7, BTC, 20)];
    let folded =
        fold_entries(at(6), &entries, &mappings(&[(7, &[40])]), balances).unwrap();
    assert_eq!(folded.len(), 1);
    let (found, snapshot) = folded[0];
    assert_eq!(found, key(40, BTC));
    assert_eq!(snapshot.settled.cr_balance, Amount { mantissa: 1320, scale: 0 });
    assert_eq!(snapshot.version, 3);
    assert_eq!(snapshot.created_at, at(5));
    assert_eq!(snapshot.modified_at, at(6));
}

#[test]
fn a_set_that_occurs_twice_is_folded_twice() {
    let entries = vec![entry(1, 1, 7, BTC, 3)];
    let above = mappings(&[(7, &[40, 40])]);
    let folded = fold_entries(at(6), &entries, &above, BalanceMap::new()).unwrap();
    assert_eq!(folded[0].1.settled.cr_balance.mantissa, 6);
    assert_eq!(folded[0].1.version, 2);
}

#[test]
fn nothing_is_folded_where_one_entry_cannot_be() {
    let entries = vec![
        entry(1, 1, 7, BTC, MAX_MANTISSA),
        entry(2, 1, 7, BTC, 1),
        entry(3, 1, 7, USD, 1),
    ];
    let above = mappings(&[(7, &[40])]);
    assert!(fold_entries(at(6), &entries, &above, BalanceMap::new()).is_none());
    let elsewhere = mappings(&[(8, &[40])]);
    let folded = fold_entries(at(6), &entries, &elsewhere, BalanceMap::new());
    assert!(folded.unwrap().is_empty());
}

#[test]
fn each_set_is_rebuilt_from_its_earliest_date() {
    let entries = vec![
        entry(1, 1, 7, BTC, 1),
        entry(2, 1, 8, BTC, 1),
        entry(3, 1, 7, BTC, 1),
        entry(4, 1, 9, BTC, 1),
    ];
    let mut dates = EffectiveDates::new();
    for (id, date) in [(999, 20), (998, 12), (997, 15), (996, 1)] {
        dates.insert(TransactionId(id), Date(date));
    }
    assert_eq!(dates.get(TransactionId(998)), Some(Date(12)));
    assert_eq!(dates.get(TransactionId(5)), None);
    let above = mappings(&[(7, &[50, 40]), (8, &[40])]);
    assert_eq!(
        min_effective_dates(&entries, &above, &dates),
        vec![
            Rebuild { set_id: AccountSetId(40), from_date: Date(12) },
            Rebuild { set_id: AccountSetId(50), from_date: Date(15) },
        ]
    );
    assert!(min_effective_dates(&entries, &mappings(&[]), &dates).is_empty());
}

#[test]
fn all_pages_are_listed() {
    let mut listing: EcSetListing<&str> = EcSetListing::new();
    let first = listing.take_query().unwrap();
    assert_eq!((first.first, first.after), (100, None));
    assert_eq!(PAGE_SIZE, 100);
    listing.on_page(EcSetPage {
        ids: vec![AccountSetId(1), AccountSetId(2)],
        has_next_page: true,
        end_cursor: Some("two"),
    });
    let second = listing.take_query().unwrap();
    assert_eq!((second.first, second.after), (100, Some("two")));
    listing.on_page(EcSetPage {
        ids: vec![AccountSetId(2), AccountSetId(3)],
        has_next_page: false,
        end_cursor: Some("three"),
    });
    assert!(listing.take_query().is_none());
    let ids = listing.into_ids();
    for id in 1..=3 {
        assert!(ids.contains(AccountSetId(id)));
    }
    assert!(!ids.contains(AccountSetId(4)));
}
