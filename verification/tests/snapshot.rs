use cala_projector::balance::amount::{Amount, MAX_MANTISSA};
use cala_projector::balance::snapshot::{BalanceAmount, BalanceSnapshot, Snapshots};
use cala_projector::balance::store::{BalanceKey, BalanceMap};
use cala_projector::primitives::{
    AccountId, AccountSetId, Currency, DebitOrCredit, EntryId, EntryValues, JournalId, Layer,
    Timestamp, TransactionId,
};

fn at(seconds: i64) -> Timestamp {
    Timestamp { seconds, nanos: 123_456_789 }
}

fn units(mantissa: i128) -> Amount {
    Amount { mantissa, scale: 0 }
}

fn entry(id: u128, layer: Layer, direction: DebitOrCredit, amount: i128) -> EntryValues {
    EntryValues {
        id: EntryId(id),
        journal_id: JournalId(1),
        transaction_id: TransactionId(2),
        account_id: AccountId(3),
        currency: Currency(840),
        layer,
        direction,
        units: units(amount),
    }
}

fn side(dr: i128, cr: i128) -> BalanceAmount {
    BalanceAmount { dr_balance: units(dr), cr_balance: units(cr) }
}

#[test]
fn a_set_has_an_account_of_its_own_id() {
    assert_eq!(AccountId::of_set(AccountSetId(77)), AccountId(77));
}

#[test]
fn a_new_snapshot_holds_one_entry() {
    let posted = entry(10, Layer::Settled, DebitOrCredit::Credit, 1290);
    let snapshot = Snapshots::new_snapshot(at(5), AccountId(9), &posted).unwrap();
    assert_eq!(
        snapshot,
        BalanceSnapshot {
            journal_id: JournalId(1),
            account_id: AccountId(9),
            currency: Currency(840),
            entry_id: EntryId(10),
            version: 1,
            created_at: at(5),
            modified_at: at(5),
            settled: side(0, 1290),
            pending: side(0, 0),
            encumbrance: side(0, 0),
        }
    );
}

#[test]
fn an_update_moves_one_side_of_one_layer() {
    let first = entry(10, Layer::Settled, DebitOrCredit::Credit, 1290);
    let start = Snapshots::new_snapshot(at(5), AccountId(9), &first).unwrap();
    let cases = [
        (Layer::Settled, DebitOrCredit::Debit, side(40, 1290), side(0, 0), side(0, 0)),
        (Layer::Settled, DebitOrCredit::Credit, side(0, 1330), side(0, 0), side(0, 0)),
        (Layer::Pending, DebitOrCredit::Debit, side(0, 1290), side(40, 0), side(0, 0)),
        (Layer::Pending, DebitOrCredit::Credit, side(0, 1290), side(0, 40), side(0, 0)),
        (Layer::Encumbrance, DebitOrCredit::Debit, side(0, 1290), side(0, 0), side(40, 0)),
        (Layer::Encumbrance, DebitOrCredit::Credit, side(0, 1290), side(0, 0), side(0, 40)),
    ];
    for (layer, direction, settled, pending, encumbrance) in cases {
        let posted = entry(11, layer, direction, 40);
        let updated = Snapshots::update_snapshot(at(6), start, &posted).unwrap();
        assert_eq!(
            updated,
            BalanceSnapshot {
                entry_id: EntryId(11),
                version: 2,
                modified_at: at(6),
                settled,
                pending,
                encumbrance,
                ..start
            }
        );
    }
}

#[test]
fn a_side_without_a_sum_is_not_updated() {
    let first = entry(10, Layer::Settled, DebitOrCredit::Credit, MAX_MANTISSA);
    let start = Snapshots::new_snapshot(at(5), AccountId(9), &first).unwrap();
    let credit = entry(11, Layer::Settled, DebitOrCredit::Credit, 1);
    assert_eq!(Snapshots::update_snapshot(at(6), start, &credit), None);
    let debit = entry(11, Layer::Settled, DebitOrCredit::Debit, 1);
    assert!(Snapshots::update_snapshot(at(6), start, &debit).is_some());
}

#[test]
fn units_that_are_no_decimal_have_no_snapshot() {
    let mut posted = entry(10, Layer::Settled, DebitOrCredit::Credit, 1);
    posted.units.scale = 29;
    assert_eq!(Snapshots::new_snapshot(at(5), AccountId(9), &posted), None);
}

#[test]
fn the_last_version_is_not_updated() {
    let posted = entry(10, Layer::Settled, DebitOrCredit::Credit, 1);
    let mut snapshot = Snapshots::new_snapshot(at(5), AccountId(9), &posted).unwrap();
    snapshot.version = u32::MAX - 1;
    let last = Snapshots::update_snapshot(at(6), snapshot, &posted).unwrap();
    assert_eq!(last.version, u32::MAX);
    assert_eq!(Snapshots::update_snapshot(at(7), last, &posted), None);
}

#[test]
fn balances_are_listed_by_account_then_currency() {
    let posted = entry(10, Layer::Settled, DebitOrCredit::Credit, 1);
    let snapshot = Snapshots::new_snapshot(at(5), AccountId(9), &posted).unwrap();
    let key = |account: u128, currency: u64| BalanceKey {
        account_id: AccountId(account),
        currency: Currency(currency),
    };
    let mut map = BalanceMap::new();
    map.insert(key(2, 1), snapshot);
    map.insert(key(1, 9), snapshot);
    map.insert(key(1, 3), snapshot);
    map.insert(key(2, 1), BalanceSnapshot { version: 8, ..snapshot });
    let listed = map.in_order();
    let keys: Vec<BalanceKey> = listed.iter().map(|(key, _)| *key).collect();
    assert_eq!(keys, vec![key(1, 3), key(1, 9), key(2, 1)]);
    assert_eq!(listed[2].1.version, 8);
    assert_eq!(map.remove(key(1, 9)), Some(snapshot));
    assert_eq!(map.remove(key(1, 9)), None);
    assert_eq!(map.in_order().len(), 2);
}
