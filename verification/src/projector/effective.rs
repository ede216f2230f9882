//! From which date the effective balances of each set are rebuilt.

use crate::primitives::{AccountSetId, Date, EntryValues, TransactionId};
use crate::projector::fold::{deliveries, to_each, Delivery};
use crate::projector::mappings::AccountSetMappings;
use std::collections::{BTreeMap, HashMap};
use vstd::prelude::*;
use vstd::std_specs::cmp::OrdSpec;
use vstd::std_specs::iter::IteratorSpec;

verus! {

/// The effective date of each transaction.
pub struct EffectiveDates {
    dates: HashMap<u128, Date>,
}

impl View for EffectiveDates {
    type V = Map<TransactionId, Date>;

    closed spec fn view(&self) -> Map<TransactionId, Date> {
        Map::new(
            |id: TransactionId| self.dates@.contains_key(id.0),
            |id: TransactionId| self.dates@[id.0],
        )
    }
}

impl EffectiveDates {
    /// No transactions.
    pub fn new() -> (dates: EffectiveDates)
        ensures
            dates@ == Map::<TransactionId, Date>::empty(),
    {
        let dates = EffectiveDates { dates: HashMap::new() };
        assert(dates@ =~= Map::<TransactionId, Date>::empty());
        dates
    }

    /// Sets the date of a transaction.
    pub fn insert(&mut self, id: TransactionId, date: Date)
        ensures
            final(self)@ == old(self)@.insert(id, date),
    {
        self.dates.insert(id.0, date);
        assert(self@ =~= old(self)@.insert(id, date));
    }

    /// The date of a transaction.
    pub fn get(&self, id: TransactionId) -> (date: Option<Date>)
        ensures
            match date {
                Some(date) => self@.contains_key(id) && self@[id] == date,
                None => !self@.contains_key(id),
            },
    {
        match self.dates.get(&id.0) {
            Some(date) => Some(*date),
            None => None,
        }
    }
}

/// The date from which a set is rebuilt.
#[derive(Clone, Copy, Debug, PartialEq, Eq, Structural)]
pub struct Rebuild {
    pub set_id: AccountSetId,
    pub from_date: Date,
}

/// Whether `date` is the earliest effective date among the entries that are
/// delivered to `set_id`.
pub open spec fn earliest(
    delivered: Seq<Delivery>,
    dates: Map<TransactionId, Date>,
    set_id: AccountSetId,
    date: Date,
) -> bool {
    &&& exists|i: int|
        0 <= i < delivered.len() && (#[trigger] delivered[i]).set_id == set_id
            && dates[delivered[i].entry.transaction_id] == date
    &&& forall|i: int|
        0 <= i < delivered.len() && (#[trigger] delivered[i]).set_id == set_id ==> date.0
            <= dates[delivered[i].entry.transaction_id].0
}

/// Whether `rebuilds` names each set that something is delivered to once, in
/// increasing order, with the earliest date of what is delivered to it.
pub open spec fn rebuilds_from(
    rebuilds: Seq<Rebuild>,
    delivered: Seq<Delivery>,
    dates: Map<TransactionId, Date>,
) -> bool {
    &&& forall|i: int, j: int|
        0 <= i < j < rebuilds.len() ==> rebuilds[i].set_id.0 < rebuilds[j].set_id.0
    &&& forall|i: int|
        0 <= i < rebuilds.len() ==> earliest(
            delivered,
            dates,
            (#[trigger] rebuilds[i]).set_id,
            rebuilds[i].from_date,
        )
    &&& forall|k: int|
        0 <= k < delivered.len() ==> names(rebuilds, (#[trigger] delivered[k]).set_id)
}

/// Whether one of `rebuilds` is of `set_id`.
pub open spec fn names(rebuilds: Seq<Rebuild>, set_id: AccountSetId) -> bool {
    exists|i: int| 0 <= i < rebuilds.len() && #[trigger] rebuilds[i].set_id == set_id
}

/// Whether `rebuilds` lists a map from sets to dates, in the order of the sets.
pub open spec fn lists_dates(rebuilds: Seq<Rebuild>, of: Map<AccountSetId, Date>) -> bool {
    &&& forall|i: int, j: int|
        0 <= i < j < rebuilds.len() ==> rebuilds[i].set_id.0 < rebuilds[j].set_id.0
    &&& forall|i: int|
        0 <= i < rebuilds.len() ==> of.contains_key((#[trigger] rebuilds[i]).set_id)
            && of[rebuilds[i].set_id] == rebuilds[i].from_date
    &&& forall|id: AccountSetId| #[trigger] of.contains_key(id) ==> names(rebuilds, id)
}

/// Whether every entry belongs to a transaction with a date.
pub open spec fn dated(entries: Seq<EntryValues>, dates: Map<TransactionId, Date>) -> bool {
    forall|i: int|
        0 <= i < entries.len() ==> dates.contains_key((#[trigger] entries[i]).transaction_id)
}

/// The earliest date seen of each set.
struct EarliestDates {
    dates: BTreeMap<u128, Date>,
}

impl View for EarliestDates {
    type V = Map<AccountSetId, Date>;

    closed spec fn view(&self) -> Map<AccountSetId, Date> {
        Map::new(
            |id: AccountSetId| self.dates@.contains_key(id.0),
            |id: AccountSetId| self.dates@[id.0],
        )
    }
}

/// What it means for numbers to be in increasing order.
proof fn lemma_increasing_numbers(s: Seq<u128>)
    requires
        vstd::std_specs::btree::increasing_seq(s),
    ensures
        forall|i: int, j: int| 0 <= i < j < s.len() ==> s[i] < s[j],
{
    broadcast use vstd::laws_cmp::group_laws_cmp;
    broadcast use vstd::std_specs::btree::group_btree_axioms;

    assert(vstd::laws_cmp::obeys_cmp::<u128>());
    assert forall|i: int, j: int| 0 <= i < j < s.len() implies s[i] < s[j] by {
        assert(OrdSpec::cmp_spec(&s[i], &s[j]) is Less);
    }
}

impl EarliestDates {
    fn new() -> (dates: EarliestDates)
        ensures
            dates@ == Map::<AccountSetId, Date>::empty(),
    {
        let dates = EarliestDates { dates: BTreeMap::new() };
        assert(dates@ =~= Map::<AccountSetId, Date>::empty());
        dates
    }

    /// Keeps the earlier of `date` and the date of the set.
    fn note(&mut self, id: AccountSetId, date: Date)
        ensures
            final(self)@ == old(self)@.insert(
                id,
                if old(self)@.contains_key(id) && old(self)@[id].0 <= date.0 {
                    old(self)@[id]
                } else {
                    date
                },
            ),
    {
        broadcast use vstd::laws_cmp::group_laws_cmp;

        let earlier = match self.dates.get(&id.0) {
            Some(min) => if date.0 < min.0 {
                date
            } else {
                *min
            },
            None => date,
        };
        self.dates.insert(id.0, earlier);
        assert(self@ =~= old(self)@.insert(id, earlier));
    }

    /// The sets and their dates, in the order of the sets.
    fn in_order(&self) -> (rebuilds: Vec<Rebuild>)
        ensures
            lists_dates(rebuilds@, self@),
    {
        broadcast use vstd::laws_cmp::group_laws_cmp;
        broadcast use vstd::std_specs::btree::group_btree_axioms;

        let mut rebuilds: Vec<Rebuild> = Vec::new();
        let pairs = self.dates.iter();
        let ghost all = pairs.remaining();
        let ghost keys = all.map_values(|kv: (&u128, &Date)| *kv.0);
        proof {
            lemma_increasing_numbers(keys);
        }
        for (raw, date) in iter: pairs
            invariant
                iter.seq() == all,
                rebuilds@.len() == iter.index(),
                forall|k: int|
                    0 <= k < iter.index() ==> {
                        &&& (#[trigger] rebuilds@[k]).set_id.0 == *all[k].0
                        &&& rebuilds@[k].from_date == *all[k].1
                    },
        {
            rebuilds.push(Rebuild { set_id: AccountSetId(*raw), from_date: *date });
        }
        proof {
            assert forall|i: int, j: int| 0 <= i < j < rebuilds@.len() implies rebuilds@[i].set_id.0
                < rebuilds@[j].set_id.0 by {
                assert(keys[i] == *all[i].0 && keys[j] == *all[j].0);
            }
            assert forall|i: int| 0 <= i < rebuilds@.len() implies self@.contains_key(
                (#[trigger] rebuilds@[i]).set_id,
            ) && self@[rebuilds@[i].set_id] == rebuilds@[i].from_date by {
                assert(self.dates@.contains_key(*all[i].0));
            }
            assert forall|id: AccountSetId| #[trigger] self@.contains_key(id) implies names(
                rebuilds@,
                id,
            ) by {
                assert(self.dates@.contains_key(id.0));
                assert(all.contains((&id.0, &self.dates@[id.0])));
                let i = all.index_of((&id.0, &self.dates@[id.0]));
                assert(rebuilds@[i].set_id == id);
            }
        }
        rebuilds
    }
}

/// What [`EarliestDates`] holds once `delivered` has been noted.
spec fn noted(
    min_dates: Map<AccountSetId, Date>,
    delivered: Seq<Delivery>,
    dates: Map<TransactionId, Date>,
) -> bool {
    &&& forall|id: AccountSetId| #[trigger]
        min_dates.contains_key(id) ==> earliest(delivered, dates, id, min_dates[id])
    &&& forall|k: int|
        0 <= k < delivered.len() ==> min_dates.contains_key((#[trigger] delivered[k]).set_id)
}

/// Noting one delivery more.
proof fn lemma_noted_push(
    before: Map<AccountSetId, Date>,
    after: Map<AccountSetId, Date>,
    delivered: Seq<Delivery>,
    d: Delivery,
    dates: Map<TransactionId, Date>,
)
    requires
        noted(before, delivered, dates),
        after == before.insert(
            d.set_id,
            if before.contains_key(d.set_id) && before[d.set_id].0
                <= dates[d.entry.transaction_id].0 {
                before[d.set_id]
            } else {
                dates[d.entry.transaction_id]
            },
        ),
    ensures
        noted(after, delivered.push(d), dates),
{
    let more = delivered.push(d);
    let n = delivered.len() as int;
    assert(more[n] == d);
    assert(forall|k: int| 0 <= k < n ==> #[trigger] more[k] == delivered[k]);
    assert forall|id: AccountSetId| #[trigger] after.contains_key(id) implies earliest(
        more,
        dates,
        id,
        after[id],
    ) by {
        if before.contains_key(id) {
            assert(earliest(delivered, dates, id, before[id]));
            let i = choose|i: int|
                0 <= i < delivered.len() && (#[trigger] delivered[i]).set_id == id
                    && dates[delivered[i].entry.transaction_id] == before[id];
            assert(more[i].set_id == id);
        }
        assert forall|i: int| 0 <= i < more.len() && (#[trigger] more[i]).set_id
            == id implies after[id].0 <= dates[more[i].entry.transaction_id].0 by {
            if i < n {
                assert(delivered[i].set_id == id);
            }
        }
    }
}

/// A list of the earliest dates names what is rebuilt.
proof fn lemma_noted_rebuilds(
    rebuilds: Seq<Rebuild>,
    min_dates: Map<AccountSetId, Date>,
    delivered: Seq<Delivery>,
    dates: Map<TransactionId, Date>,
)
    requires
        lists_dates(rebuilds, min_dates),
        noted(min_dates, delivered, dates),
    ensures
        rebuilds_from(rebuilds, delivered, dates),
{
    assert forall|k: int| 0 <= k < delivered.len() implies names(
        rebuilds,
        (#[trigger] delivered[k]).set_id,
    ) by {
        assert(min_dates.contains_key(delivered[k].set_id));
    }
    assert forall|i: int| 0 <= i < rebuilds.len() implies earliest(
        delivered,
        dates,
        (#[trigger] rebuilds[i]).set_id,
        rebuilds[i].from_date,
    ) by {
        assert(min_dates.contains_key(rebuilds[i].set_id));
    }
}

/// A list can take up one date more, in its place.
proof fn lemma_list_insert(
    rebuilds: Seq<Rebuild>,
    of: Map<AccountSetId, Date>,
    id: AccountSetId,
    date: Date,
) -> (more: Seq<Rebuild>)
    requires
        lists_dates(rebuilds, of),
    ensures
        lists_dates(more, of.insert(id, date)),
    decreases rebuilds.len(),
{
    let new = Rebuild { set_id: id, from_date: date };
    let n = rebuilds.len() - 1;
    if rebuilds.len() == 0 || rebuilds[n].set_id.0 < id.0 {
        let more = rebuilds.push(new);
        assert forall|key: AccountSetId| #[trigger]
            of.insert(id, date).contains_key(key) implies names(more, key) by {
            if key == id {
                assert(more[n + 1].set_id == key);
            } else {
                assert(of.contains_key(key));
                let i = choose|i: int| 0 <= i < rebuilds.len() && #[trigger] rebuilds[i].set_id == key;
                assert(more[i].set_id == key);
            }
        }
        more
    } else if rebuilds[n].set_id == id {
        let more = rebuilds.update(n, new);
        assert forall|key: AccountSetId| #[trigger]
            of.insert(id, date).contains_key(key) implies names(more, key) by {
            if key == id {
                assert(more[n].set_id == key);
            } else {
                assert(of.contains_key(key));
                let i = choose|i: int| 0 <= i < rebuilds.len() && #[trigger] rebuilds[i].set_id == key;
                assert(more[i].set_id == key);
            }
        }
        more
    } else {
        let last = rebuilds[n];
        let less = rebuilds.drop_last();
        let of_less = of.remove(last.set_id);
        assert forall|key: AccountSetId| #[trigger] of_less.contains_key(key) implies names(
            less,
            key,
        ) by {
            assert(of.contains_key(key));
            let i = choose|i: int| 0 <= i < rebuilds.len() && #[trigger] rebuilds[i].set_id == key;
            assert(less[i].set_id == key);
        }
        let inner = lemma_list_insert(less, of_less, id, date);
        let more = inner.push(last);
        assert forall|i: int| 0 <= i < inner.len() implies (#[trigger] inner[i]).set_id.0
            < last.set_id.0 by {
            let key = inner[i].set_id;
            assert(of_less.insert(id, date).contains_key(key));
            if key != id {
                assert(of_less.contains_key(key));
                let k = choose|k: int| 0 <= k < less.len() && #[trigger] less[k].set_id == key;
                assert(rebuilds[k].set_id.0 < rebuilds[n].set_id.0);
            }
        }
        assert forall|key: AccountSetId| #[trigger]
            of.insert(id, date).contains_key(key) implies names(more, key) by {
            if key == last.set_id {
                assert(more[inner.len() as int].set_id == key);
            } else {
                assert(of_less.insert(id, date).contains_key(key));
                let i = choose|i: int| 0 <= i < inner.len() && #[trigger] inner[i].set_id == key;
                assert(more[i].set_id == key);
            }
        }
        more
    }
}

/// The earliest dates of what is delivered, and a list of them.
proof fn lemma_noted_exists(delivered: Seq<Delivery>, dates: Map<TransactionId, Date>) -> (found: (
    Map<AccountSetId, Date>,
    Seq<Rebuild>,
))
    ensures
        noted(found.0, delivered, dates),
        lists_dates(found.1, found.0),
    decreases delivered.len(),
{
    if delivered.len() == 0 {
        (Map::empty(), Seq::empty())
    } else {
        let less = delivered.drop_last();
        let d = delivered.last();
        let (before, listed) = lemma_noted_exists(less, dates);
        let date = if before.contains_key(d.set_id) && before[d.set_id].0
            <= dates[d.entry.transaction_id].0 {
            before[d.set_id]
        } else {
            dates[d.entry.transaction_id]
        };
        let after = before.insert(d.set_id, date);
        lemma_noted_push(before, after, less, d, dates);
        assert(less.push(d) =~= delivered);
        (after, lemma_list_insert(listed, before, d.set_id, date))
    }
}

/// There is always a list of what is rebuilt.
pub proof fn lemma_rebuilds_exist(
    delivered: Seq<Delivery>,
    dates: Map<TransactionId, Date>,
) -> (rebuilds: Seq<Rebuild>)
    ensures
        rebuilds_from(rebuilds, delivered, dates),
{
    let (min_dates, rebuilds) = lemma_noted_exists(delivered, dates);
    lemma_noted_rebuilds(rebuilds, min_dates, delivered, dates);
    rebuilds
}

/// The sets that `entries` touch, each with the earliest effective date of
/// the entries that touch it.
pub fn min_effective_dates(
    entries: &Vec<EntryValues>,
    mappings: &AccountSetMappings,
    dates: &EffectiveDates,
) -> (rebuilds: Vec<Rebuild>)
    requires
        dated(entries@, dates@),
    ensures
        rebuilds_from(rebuilds@, deliveries(entries@, mappings@), dates@),
{
    let mut min_dates = EarliestDates::new();
    let ghost mut delivered: Seq<Delivery> = Seq::empty();
    proof {
        assert(deliveries(entries@.take(0), mappings@) =~= delivered);
    }
    for i in 0..entries.len()
        invariant
            dated(entries@, dates@),
            delivered == deliveries(entries@.take(i as int), mappings@),
            noted(min_dates@, delivered, dates@),
    {
        let entry = &entries[i];
        let ghost before = delivered;
        proof {
            assert(entries@.take(i + 1).drop_last() =~= entries@.take(i as int));
        }
        if let Some(effective) = dates.get(entry.transaction_id) {
            if let Some(sets) = mappings.get(entry.account_id) {
                for j in 0..sets.len()
                    invariant
                        dates@.contains_key(entry.transaction_id),
                        effective == dates@[entry.transaction_id],
                        delivered == before + to_each(sets@.take(j as int), *entry),
                        noted(min_dates@, delivered, dates@),
                {
                    let ghost earlier = min_dates@;
                    min_dates.note(sets[j], effective);
                    proof {
                        let d = Delivery { set_id: sets@[j as int], entry: *entry };
                        lemma_noted_push(earlier, min_dates@, delivered, d, dates@);
                        delivered = delivered.push(d);
                        assert(delivered =~= before + to_each(sets@.take(j + 1), *entry));
                    }
                }
                proof {
                    assert(sets@.take(sets@.len() as int) =~= sets@);
                }
            } else {
                proof {
                    assert(delivered =~= before + to_each(Seq::empty(), *entry));
                }
            }
        }
    }
    proof {
        assert(entries@.take(entries@.len() as int) =~= entries@);
    }
    let rebuilds: Vec<Rebuild> = min_dates.in_order();
    proof {
        lemma_noted_rebuilds(rebuilds@, min_dates@, delivered, dates@);
    }
    rebuilds
}

} // verus!
