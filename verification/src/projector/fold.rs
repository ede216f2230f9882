//! Folding the entries of one journal into the snapshots of the
//! eventually-consistent sets above their accounts.

use crate::balance::amount::{exact_sum, lemma_exact_sum, Amount};
use crate::balance::snapshot::{BalanceSnapshot, Snapshots};
use crate::balance::store::{lists_balances, BalanceKey, BalanceMap};
use crate::balance::totals::{lemma_fold_posts, lemma_version_counts};
use crate::primitives::{
    AccountId, AccountSetId, Currency, DebitOrCredit, EntryValues, Layer, Timestamp,
};
use crate::projector::mappings::AccountSetMappings;
use vstd::prelude::*;

verus! {

/// An entry on its way to one of the sets above its account.
pub struct Delivery {
    pub set_id: AccountSetId,
    pub entry: EntryValues,
}

impl Delivery {
    /// The snapshot that the entry is folded into.
    pub open spec fn key(self) -> BalanceKey {
        balance_key(self.set_id, self.entry.currency)
    }
}

/// What the snapshot of a set in a currency is found by.
pub open spec fn balance_key(set_id: AccountSetId, currency: Currency) -> BalanceKey {
    BalanceKey { account_id: AccountId::spec_of_set(set_id), currency }
}

/// The sets that `entry` is folded into.
pub open spec fn sets_of(
    mappings: Map<AccountId, Seq<AccountSetId>>,
    entry: EntryValues,
) -> Seq<AccountSetId> {
    if mappings.contains_key(entry.account_id) {
        mappings[entry.account_id]
    } else {
        Seq::empty()
    }
}

/// `entry`, to each of `sets` in turn.
pub open spec fn to_each(sets: Seq<AccountSetId>, entry: EntryValues) -> Seq<Delivery> {
    sets.map_values(|set_id: AccountSetId| Delivery { set_id, entry })
}

/// Every entry, to each of the sets above its account, in the order of the
/// entries.
pub open spec fn deliveries(
    entries: Seq<EntryValues>,
    mappings: Map<AccountId, Seq<AccountSetId>>,
) -> Seq<Delivery>
    decreases entries.len(),
{
    if entries.len() == 0 {
        Seq::empty()
    } else {
        deliveries(entries.drop_last(), mappings) + to_each(
            sets_of(mappings, entries.last()),
            entries.last(),
        )
    }
}

/// The entries that are delivered to one snapshot, in order.
pub open spec fn received(delivered: Seq<Delivery>, key: BalanceKey) -> Seq<EntryValues> {
    delivered.filter(|d: Delivery| d.key() == key).map_values(|d: Delivery| d.entry)
}

/// What the first of `entries` is folded into: the current snapshot, or a
/// blank one where there is none.
pub open spec fn base(
    time: Timestamp,
    key: BalanceKey,
    current: Map<BalanceKey, BalanceSnapshot>,
    entries: Seq<EntryValues>,
) -> BalanceSnapshot {
    if current.contains_key(key) {
        current[key]
    } else {
        BalanceSnapshot::blank(time, key.account_id, entries[0])
    }
}

/// `snapshot` with all of `entries` folded into it in order, or `None` where
/// one of them cannot be.
pub open spec fn fold_all(
    time: Timestamp,
    snapshot: BalanceSnapshot,
    entries: Seq<EntryValues>,
) -> Option<BalanceSnapshot>
    decreases entries.len(),
{
    if entries.len() == 0 {
        Some(snapshot)
    } else {
        match fold_all(time, snapshot, entries.drop_last()) {
            Some(folded) => folded.try_fold(time, entries.last()),
            None => None,
        }
    }
}

/// The snapshot that `delivered` leaves under `key`.
pub open spec fn snapshot_after(
    time: Timestamp,
    key: BalanceKey,
    current: Map<BalanceKey, BalanceSnapshot>,
    delivered: Seq<Delivery>,
) -> Option<BalanceSnapshot> {
    let entries = received(delivered, key);
    fold_all(time, base(time, key, current, entries), entries)
}

/// Whether anything is delivered to `key`.
pub open spec fn touched(delivered: Seq<Delivery>, key: BalanceKey) -> bool {
    received(delivered, key).len() > 0
}

/// Whether every entry of `delivered` can be folded.
pub open spec fn all_fold(
    time: Timestamp,
    current: Map<BalanceKey, BalanceSnapshot>,
    delivered: Seq<Delivery>,
) -> bool {
    forall|key: BalanceKey| #[trigger]
        touched(delivered, key) ==> snapshot_after(time, key, current, delivered) is Some
}

/// The snapshots that `delivered` leaves: one for each key that something is
/// delivered to.
pub open spec fn snapshots_after(
    time: Timestamp,
    current: Map<BalanceKey, BalanceSnapshot>,
    delivered: Seq<Delivery>,
) -> Map<BalanceKey, BalanceSnapshot> {
    Map::new(
        |key: BalanceKey| touched(delivered, key),
        |key: BalanceKey| snapshot_after(time, key, current, delivered)->0,
    )
}

/// Whether `entry` moves this side of this layer.
pub open spec fn moves(entry: EntryValues, layer: Layer, direction: DebitOrCredit) -> bool {
    entry.layer == layer && entry.direction == direction
}

/// What `entry` moves on one side of one layer.
pub open spec fn moved(entry: EntryValues, layer: Layer, direction: DebitOrCredit) -> int {
    if moves(entry, layer, direction) {
        entry.units.value()
    } else {
        0
    }
}

/// The sum of what `entries` move on one side of one layer.
pub open spec fn posted(
    entries: Seq<EntryValues>,
    layer: Layer,
    direction: DebitOrCredit,
) -> int
    decreases entries.len(),
{
    if entries.len() == 0 {
        0
    } else {
        posted(entries.drop_last(), layer, direction) + moved(entries.last(), layer, direction)
    }
}

/// What one side of one layer that holds `start` holds once `entries` are
/// posted, where none of the sums on the way needs rounding.
pub open spec fn exact_total(
    start: Amount,
    entries: Seq<EntryValues>,
    layer: Layer,
    direction: DebitOrCredit,
) -> Option<Amount>
    decreases entries.len(),
{
    if entries.len() == 0 {
        Some(start)
    } else {
        match exact_total(start, entries.drop_last(), layer, direction) {
            Some(total) => if moves(entries.last(), layer, direction) {
                exact_sum(total, entries.last().units)
            } else {
                Some(total)
            },
            None => None,
        }
    }
}

/// Whether `end` is exactly `start` and what `entries` move on one side of one
/// layer, wherever none of the sums on the way needs rounding.
pub open spec fn sums(
    start: Amount,
    entries: Seq<EntryValues>,
    layer: Layer,
    direction: DebitOrCredit,
    end: Amount,
) -> bool {
    exact_total(start, entries, layer, direction) matches Some(total) ==> end == total
}

/// Whether `folded` holds, on every side of every layer, exactly what
/// `snapshot` holds and `entries` move there, wherever none of the sums on the
/// way needs rounding.
pub open spec fn adds_up(
    snapshot: BalanceSnapshot,
    entries: Seq<EntryValues>,
    folded: BalanceSnapshot,
) -> bool {
    forall|layer: Layer, direction: DebitOrCredit|
        sums(
            snapshot.amount(layer, direction),
            entries,
            layer,
            direction,
            #[trigger] folded.amount(layer, direction),
        )
}

/// Whether the snapshots that `delivered` leaves add up.
pub open spec fn folds_exactly(
    time: Timestamp,
    current: Map<BalanceKey, BalanceSnapshot>,
    delivered: Seq<Delivery>,
) -> bool {
    forall|key: BalanceKey| #[trigger]
        touched(delivered, key) ==> {
            let entries = received(delivered, key);
            adds_up(
                base(time, key, current, entries),
                entries,
                snapshot_after(time, key, current, delivered)->0,
            )
        }
}

/// Whether what is delivered to `key` can be folded without rounding: there is
/// an exact total on every side of every layer, and a version for every entry.
pub open spec fn folds_without_rounding_at(
    time: Timestamp,
    key: BalanceKey,
    current: Map<BalanceKey, BalanceSnapshot>,
    delivered: Seq<Delivery>,
) -> bool {
    let entries = received(delivered, key);
    let start = base(time, key, current, entries);
    &&& start.version + entries.len() <= u32::MAX
    &&& forall|layer: Layer, direction: DebitOrCredit|
        exact_total(#[trigger] start.amount(layer, direction), entries, layer, direction) is Some
}

/// Whether everything that is delivered can be folded without rounding.
pub open spec fn folds_without_rounding(
    time: Timestamp,
    current: Map<BalanceKey, BalanceSnapshot>,
    delivered: Seq<Delivery>,
) -> bool {
    forall|key: BalanceKey| #[trigger]
        touched(delivered, key) ==> folds_without_rounding_at(time, key, current, delivered)
}

/// One delivery more reaches its own key, last, and no other.
pub proof fn lemma_received_push(delivered: Seq<Delivery>, d: Delivery, key: BalanceKey)
    ensures
        received(delivered.push(d), key) == if d.key() == key {
            received(delivered, key).push(d.entry)
        } else {
            received(delivered, key)
        },
{
    reveal(Seq::filter);
    assert(delivered.push(d).drop_last() =~= delivered);
    assert(received(delivered.push(d), key) =~= if d.key() == key {
        received(delivered, key).push(d.entry)
    } else {
        received(delivered, key)
    });
}

/// What is delivered later is received later.
pub proof fn lemma_received_add(a: Seq<Delivery>, b: Seq<Delivery>, key: BalanceKey)
    ensures
        received(a + b, key) == received(a, key) + received(b, key),
{
    Seq::filter_distributes_over_add(a, b, |d: Delivery| d.key() == key);
    assert(received(a + b, key) =~= received(a, key) + received(b, key));
}

/// Folding in two goes is folding at once.
pub proof fn lemma_fold_all_add(
    time: Timestamp,
    snapshot: BalanceSnapshot,
    a: Seq<EntryValues>,
    b: Seq<EntryValues>,
)
    ensures
        fold_all(time, snapshot, a + b) == match fold_all(time, snapshot, a) {
            Some(folded) => fold_all(time, folded, b),
            None => None,
        },
    decreases b.len(),
{
    if b.len() == 0 {
        assert(a + b =~= a);
    } else {
        assert((a + b).drop_last() =~= a + b.drop_last());
        lemma_fold_all_add(time, snapshot, a, b.drop_last());
    }
}

/// Later entries are delivered later.
pub proof fn lemma_deliveries_add(
    a: Seq<EntryValues>,
    b: Seq<EntryValues>,
    mappings: Map<AccountId, Seq<AccountSetId>>,
)
    ensures
        deliveries(a + b, mappings) == deliveries(a, mappings) + deliveries(b, mappings),
    decreases b.len(),
{
    if b.len() == 0 {
        assert(a + b =~= a);
        assert(deliveries(a, mappings) + deliveries(b, mappings) =~= deliveries(a, mappings));
    } else {
        assert((a + b).drop_last() =~= a + b.drop_last());
        lemma_deliveries_add(a, b.drop_last(), mappings);
        assert(deliveries(a + b, mappings) =~= deliveries(a, mappings) + deliveries(b, mappings));
    }
}

/// What is posted in two goes is what is posted at once.
pub proof fn lemma_posted_add(
    a: Seq<EntryValues>,
    b: Seq<EntryValues>,
    layer: Layer,
    direction: DebitOrCredit,
)
    ensures
        posted(a + b, layer, direction) == posted(a, layer, direction) + posted(
            b,
            layer,
            direction,
        ),
    decreases b.len(),
{
    if b.len() == 0 {
        assert(a + b =~= a);
    } else {
        assert((a + b).drop_last() =~= a + b.drop_last());
        lemma_posted_add(a, b.drop_last(), layer, direction);
    }
}

/// An exact total has the value of what was there and of what is posted.
pub proof fn lemma_exact_total(
    start: Amount,
    entries: Seq<EntryValues>,
    layer: Layer,
    direction: DebitOrCredit,
)
    ensures
        exact_total(start, entries, layer, direction) matches Some(total) ==> total.value()
            == start.value() + posted(entries, layer, direction),
    decreases entries.len(),
{
    if entries.len() > 0 {
        let less = entries.drop_last();
        lemma_exact_total(start, less, layer, direction);
        if let Some(total) = exact_total(start, less, layer, direction) {
            lemma_exact_sum(total, entries.last().units);
        }
    }
}

/// An exact total in two goes is an exact total at once.
proof fn lemma_exact_total_add(
    start: Amount,
    a: Seq<EntryValues>,
    b: Seq<EntryValues>,
    layer: Layer,
    direction: DebitOrCredit,
)
    ensures
        exact_total(start, a + b, layer, direction) == match exact_total(
            start,
            a,
            layer,
            direction,
        ) {
            Some(middle) => exact_total(middle, b, layer, direction),
            None => None,
        },
    decreases b.len(),
{
    if b.len() == 0 {
        assert(a + b =~= a);
    } else {
        assert((a + b).drop_last() =~= a + b.drop_last());
        lemma_exact_total_add(start, a, b.drop_last(), layer, direction);
    }
}

/// Exact sums in two goes are an exact sum at once.
pub proof fn lemma_sums_add(
    start: Amount,
    a: Seq<EntryValues>,
    middle: Amount,
    b: Seq<EntryValues>,
    end: Amount,
    layer: Layer,
    direction: DebitOrCredit,
)
    requires
        sums(start, a, layer, direction, middle),
        sums(middle, b, layer, direction, end),
    ensures
        sums(start, a + b, layer, direction, end),
{
    lemma_exact_total_add(start, a, b, layer, direction);
}

/// A key at which the first deliveries cannot be folded stays such a key.
proof fn lemma_failure_stays(
    time: Timestamp,
    key: BalanceKey,
    current: Map<BalanceKey, BalanceSnapshot>,
    first: Seq<Delivery>,
    rest: Seq<Delivery>,
)
    requires
        touched(first, key),
        snapshot_after(time, key, current, first) is None,
        !folds_without_rounding_at(time, key, current, first),
    ensures
        !all_fold(time, current, first + rest),
        !folds_without_rounding(time, current, first + rest),
{
    lemma_received_add(first, rest, key);
    let a = received(first, key);
    let b = received(rest, key);
    assert(base(time, key, current, a + b) == base(time, key, current, a));
    let start = base(time, key, current, a);
    lemma_fold_all_add(time, start, a, b);
    assert(touched(first + rest, key));
    if folds_without_rounding_at(time, key, current, first + rest) {
        assert forall|layer: Layer, direction: DebitOrCredit|
            exact_total(
                #[trigger] start.amount(layer, direction),
                a,
                layer,
                direction,
            ) is Some by {
            lemma_exact_total_add(start.amount(layer, direction), a, b, layer, direction);
        }
    }
}

/// One entry more adds up, if it grows its side by exactly its units.
proof fn lemma_adds_up_push(
    time: Timestamp,
    snapshot: BalanceSnapshot,
    entries: Seq<EntryValues>,
    before: BalanceSnapshot,
    entry: EntryValues,
)
    requires
        adds_up(snapshot, entries, before),
        before.grows_exactly(entry, before.folded(time, entry)),
    ensures
        adds_up(snapshot, entries.push(entry), before.folded(time, entry)),
{
    let after = before.folded(time, entry);
    let more = entries.push(entry);
    assert(more.drop_last() =~= entries);
    assert forall|layer: Layer, direction: DebitOrCredit|
        sums(
            snapshot.amount(layer, direction),
            more,
            layer,
            direction,
            #[trigger] after.amount(layer, direction),
        ) by {
        let start = snapshot.amount(layer, direction);
        assert(sums(start, entries, layer, direction, before.amount(layer, direction)));
    }
}

/// An entry that cannot be folded shows that something needs rounding, or that
/// there is no version left.
proof fn lemma_failure_rounds(
    time: Timestamp,
    start: BalanceSnapshot,
    entries: Seq<EntryValues>,
    before: BalanceSnapshot,
    entry: EntryValues,
)
    requires
        fold_all(time, start, entries) == Some(before),
        adds_up(start, entries, before),
        before.version == u32::MAX || exact_sum(
            before.amount(entry.layer, entry.direction),
            entry.units,
        ) is None,
    ensures
        start.version + entries.len() + 1 > u32::MAX || exact_total(
            start.amount(entry.layer, entry.direction),
            entries.push(entry),
            entry.layer,
            entry.direction,
        ) is None,
{
    lemma_fold_posts(time, start, entries);
    lemma_version_counts(start.totals(), entries);
    assert(entries.push(entry).drop_last() =~= entries);
    assert(sums(
        start.amount(entry.layer, entry.direction),
        entries,
        entry.layer,
        entry.direction,
        before.amount(entry.layer, entry.direction),
    ));
}

/// Where a fold of `delivered` stands: what is still `current` of the
/// snapshots it began with, and what is `running`.
spec fn in_step(
    time: Timestamp,
    initial: Map<BalanceKey, BalanceSnapshot>,
    delivered: Seq<Delivery>,
    current: Map<BalanceKey, BalanceSnapshot>,
    running: Map<BalanceKey, BalanceSnapshot>,
) -> bool {
    &&& all_fold(time, initial, delivered)
    &&& running == snapshots_after(time, initial, delivered)
    &&& forall|key: BalanceKey| #[trigger]
        current.contains_key(key) <==> initial.contains_key(key) && !touched(delivered, key)
    &&& forall|key: BalanceKey| #[trigger] current.contains_key(key) ==> current[key] == initial[key]
    &&& folds_exactly(time, initial, delivered)
}

/// Folds one delivery: into the running snapshot of its key, else into the
/// current one, else into a blank one.
fn deliver(
    time: Timestamp,
    set_id: AccountSetId,
    entry: &EntryValues,
    current: &mut BalanceMap,
    running: &mut BalanceMap,
    Ghost(initial): Ghost<Map<BalanceKey, BalanceSnapshot>>,
    Ghost(delivered): Ghost<Seq<Delivery>>,
) -> (folded: bool)
    requires
        in_step(time, initial, delivered, old(current)@, old(running)@),
    ensures
        folded ==> in_step(
            time,
            initial,
            delivered.push(Delivery { set_id, entry: *entry }),
            final(current)@,
            final(running)@,
        ),
        !folded ==> {
            let key = balance_key(set_id, entry.currency);
            let more = delivered.push(Delivery { set_id, entry: *entry });
            &&& touched(more, key)
            &&& snapshot_after(time, key, initial, more) is None
            &&& !folds_without_rounding_at(time, key, initial, more)
        },
{
    let key = BalanceKey { account_id: AccountId::of_set(set_id), currency: entry.currency };
    let ghost d = Delivery { set_id, entry: *entry };
    let ghost more = delivered.push(d);
    let ghost entries = received(delivered, key);
    proof {
        assert(d.key() == key);
        lemma_received_push(delivered, d, key);
        assert(entries.push(*entry).drop_last() =~= entries);
    }
    let ghost before = if touched(delivered, key) {
        running@[key]
    } else {
        base(time, key, initial, received(more, key))
    };
    let snapshot = match running.remove(key) {
        Some(snapshot) => Snapshots::update_snapshot(time, snapshot, entry),
        None => match current.remove(key) {
            Some(snapshot) => Snapshots::update_snapshot(time, snapshot, entry),
            None => Snapshots::new_snapshot(time, key.account_id, entry),
        },
    };
    proof {
        assert(base(time, key, initial, received(more, key)) == if touched(delivered, key) {
            base(time, key, initial, entries)
        } else {
            before
        });
        assert(snapshot == before.try_fold(time, *entry));
        assert(snapshot_after(time, key, initial, more) == snapshot);
        assert(touched(more, key));
    }
    match snapshot {
        Some(snapshot) => {
            running.insert(key, snapshot);
            proof {
                let start = base(time, key, initial, received(more, key));
                assert(adds_up(start, entries, before));
                lemma_adds_up_push(time, start, entries, before, *entry);
                assert forall|other: BalanceKey| other != key implies #[trigger] received(
                    more,
                    other,
                ) == received(delivered, other) by {
                    lemma_received_push(delivered, d, other);
                }
                assert forall|other: BalanceKey| #[trigger] touched(more, other) implies
                    snapshot_after(time, other, initial, more) is Some by {
                    if other != key {
                        assert(touched(delivered, other));
                    }
                }
                assert forall|other: BalanceKey| touched(more, other) <==> (other == key || touched(
                    delivered,
                    other,
                )) by {}
                assert(running@ =~= snapshots_after(time, initial, more));
            }
            true
        },
        None => {
            proof {
                let start = base(time, key, initial, received(more, key));
                lemma_failure_rounds(time, start, entries, before, *entry);
                assert(received(more, key) == entries.push(*entry));
            }
            false
        },
    }
}

/// Folds the entries of one journal, coalescing them into one new snapshot for
/// each eventually-consistent set and currency that they touch. The entries
/// are folded in order, into the snapshot that is current; the snapshots come
/// in the order of their keys. `None` where some entry cannot be folded, which
/// needs a sum that has to be rounded or a version that has no successor.
pub fn fold_entries(
    time: Timestamp,
    entries: &Vec<EntryValues>,
    mappings: &AccountSetMappings,
    balances: BalanceMap,
) -> (folded: Option<Vec<(BalanceKey, BalanceSnapshot)>>)
    ensures
        folded is Some <==> all_fold(time, balances@, deliveries(entries@, mappings@)),
        folds_without_rounding(time, balances@, deliveries(entries@, mappings@)) ==> folded is Some,
        folded matches Some(listed) ==> lists_balances(
            listed@,
            snapshots_after(time, balances@, deliveries(entries@, mappings@)),
        ),
        folded is Some ==> folds_exactly(time, balances@, deliveries(entries@, mappings@)),
{
    let ghost initial = balances@;
    let mut current = balances;
    let mut running = BalanceMap::new();
    let ghost mut delivered: Seq<Delivery> = Seq::empty();
    proof {
        reveal(Seq::filter);
        assert(forall|key: BalanceKey| #[trigger] received(delivered, key).len() == 0);
        assert(running@ =~= snapshots_after(time, initial, delivered));
        assert(deliveries(entries@.take(0), mappings@) =~= delivered);
    }
    for i in 0..entries.len()
        invariant
            initial == balances@,
            delivered == deliveries(entries@.take(i as int), mappings@),
            in_step(time, initial, delivered, current@, running@),
    {
        let entry = &entries[i];
        let ghost before = delivered;
        proof {
            assert(entries@.take(i + 1).drop_last() =~= entries@.take(i as int));
        }
        if let Some(sets) = mappings.get(entry.account_id) {
            for j in 0..sets.len()
                invariant
                    initial == balances@,
                    0 <= i < entries@.len(),
                    *entry == entries@[i as int],
                    mappings@.contains_key(entry.account_id),
                    sets@ == mappings@[entry.account_id],
                    before == deliveries(entries@.take(i as int), mappings@),
                    entries@.take(i + 1).drop_last() == entries@.take(i as int),
                    delivered == before + to_each(sets@.take(j as int), *entry),
                    in_step(time, initial, delivered, current@, running@),
            {
                let folded = deliver(
                    time,
                    sets[j],
                    entry,
                    &mut current,
                    &mut running,
                    Ghost(initial),
                    Ghost(delivered),
                );
                proof {
                    let d = Delivery { set_id: sets@[j as int], entry: *entry };
                    delivered = delivered.push(d);
                    assert(delivered =~= before + to_each(sets@.take(j + 1), *entry));
                }
                if !folded {
                    proof {
                        let rest = to_each(sets@.skip(j + 1), *entry);
                        assert(deliveries(entries@.take(i + 1), mappings@) =~= delivered + rest);
                        let later = deliveries(entries@.skip(i + 1), mappings@);
                        lemma_deliveries_add(
                            entries@.take(i + 1),
                            entries@.skip(i + 1),
                            mappings@,
                        );
                        assert(entries@.take(i + 1) + entries@.skip(i + 1) =~= entries@);
                        assert(deliveries(entries@, mappings@) =~= delivered + (rest + later));
                        lemma_failure_stays(
                            time,
                            balance_key(sets@[j as int], entry.currency),
                            initial,
                            delivered,
                            rest + later,
                        );
                    }
                    return None;
                }
            }
            proof {
                assert(sets@.take(sets@.len() as int) =~= sets@);
            }
        } else {
            proof {
                assert(delivered =~= before + to_each(Seq::empty(), *entry));
            }
        }
    }
    proof {
        assert(entries@.take(entries@.len() as int) =~= entries@);
    }
    Some(running.in_order())
}

} // verus!
