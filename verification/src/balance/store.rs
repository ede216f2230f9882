//! Snapshots by account and currency.

use crate::balance::snapshot::BalanceSnapshot;
use crate::primitives::{AccountId, Currency};
use std::collections::BTreeMap;
use vstd::prelude::*;
use vstd::std_specs::cmp::OrdSpec;
use vstd::std_specs::iter::IteratorSpec;

verus! {

/// What a snapshot is found by.
#[derive(Clone, Copy, Debug, PartialEq, Eq, Hash, Structural)]
pub struct BalanceKey {
    pub account_id: AccountId,
    pub currency: Currency,
}

impl BalanceKey {
    /// Whether `self` comes before `other`: by account first, then by currency.
    pub open spec fn before(self, other: BalanceKey) -> bool {
        ||| self.account_id.0 < other.account_id.0
        ||| self.account_id.0 == other.account_id.0 && self.currency.0 < other.currency.0
    }
}

/// Snapshots, at most one for each account and currency.
pub struct BalanceMap {
    balances: BTreeMap<(u128, u64), BalanceSnapshot>,
}

impl View for BalanceMap {
    type V = Map<BalanceKey, BalanceSnapshot>;

    closed spec fn view(&self) -> Map<BalanceKey, BalanceSnapshot> {
        Map::new(
            |key: BalanceKey| self.balances@.contains_key((key.account_id.0, key.currency.0)),
            |key: BalanceKey| self.balances@[(key.account_id.0, key.currency.0)],
        )
    }
}

/// Whether `listed` lists a map, each key once, in increasing order.
pub open spec fn lists_balances(
    listed: Seq<(BalanceKey, BalanceSnapshot)>,
    of: Map<BalanceKey, BalanceSnapshot>,
) -> bool {
    &&& forall|i: int, j: int| 0 <= i < j < listed.len() ==> listed[i].0.before(listed[j].0)
    &&& forall|i: int|
        0 <= i < listed.len() ==> of.contains_key((#[trigger] listed[i]).0) && of[listed[i].0]
            == listed[i].1
    &&& forall|key: BalanceKey| #[trigger]
        of.contains_key(key) ==> exists|i: int| 0 <= i < listed.len() && #[trigger] listed[i].0 == key
}

/// What it means for pairs to be in increasing order.
proof fn lemma_increasing_pairs(s: Seq<(u128, u64)>)
    requires
        vstd::std_specs::btree::increasing_seq(s),
    ensures
        forall|i: int, j: int|
            0 <= i < j < s.len() ==> s[i].0 < s[j].0 || s[i].0 == s[j].0 && s[i].1 < s[j].1,
{
    broadcast use vstd::laws_cmp::group_laws_cmp;
    broadcast use vstd::std_specs::btree::group_btree_axioms;

    assert(vstd::laws_cmp::obeys_cmp::<(u128, u64)>());
    assert forall|i: int, j: int| 0 <= i < j < s.len() implies s[i].0 < s[j].0 || s[i].0 == s[j].0
        && s[i].1 < s[j].1 by {
        assert(OrdSpec::cmp_spec(&s[i], &s[j]) is Less);
    }
}

impl BalanceMap {
    /// No snapshots.
    pub fn new() -> (map: BalanceMap)
        ensures
            map@ == Map::<BalanceKey, BalanceSnapshot>::empty(),
    {
        let map = BalanceMap { balances: BTreeMap::new() };
        assert(map@ =~= Map::<BalanceKey, BalanceSnapshot>::empty());
        map
    }

    /// Puts a snapshot, in place of the one with the same key.
    pub fn insert(&mut self, key: BalanceKey, snapshot: BalanceSnapshot)
        ensures
            final(self)@ == old(self)@.insert(key, snapshot),
    {
        broadcast use vstd::laws_cmp::group_laws_cmp;

        self.balances.insert((key.account_id.0, key.currency.0), snapshot);
        assert(self@ =~= old(self)@.insert(key, snapshot));
    }

    /// Takes a snapshot out.
    pub fn remove(&mut self, key: BalanceKey) -> (snapshot: Option<BalanceSnapshot>)
        ensures
            final(self)@ == old(self)@.remove(key),
            match snapshot {
                Some(snapshot) => old(self)@.contains_key(key) && old(self)@[key] == snapshot,
                None => !old(self)@.contains_key(key),
            },
    {
        broadcast use vstd::laws_cmp::group_laws_cmp;

        let snapshot = self.balances.remove(&(key.account_id.0, key.currency.0));
        assert(self@ =~= old(self)@.remove(key));
        snapshot
    }

    /// The snapshots, in the order of their keys.
    pub fn in_order(&self) -> (listed: Vec<(BalanceKey, BalanceSnapshot)>)
        ensures
            lists_balances(listed@, self@),
    {
        broadcast use vstd::laws_cmp::group_laws_cmp;
        broadcast use vstd::std_specs::btree::group_btree_axioms;

        let mut listed: Vec<(BalanceKey, BalanceSnapshot)> = Vec::new();
        let pairs = self.balances.iter();
        let ghost all = pairs.remaining();
        let ghost keys = all.map_values(|kv: (&(u128, u64), &BalanceSnapshot)| *kv.0);
        proof {
            lemma_increasing_pairs(keys);
            assert(forall|k: int| 0 <= k < all.len() ==> #[trigger] keys[k] == *all[k].0);
        }
        for (raw, snapshot) in iter: pairs
            invariant
                iter.seq() == all,
                listed@.len() == iter.index(),
                forall|k: int|
                    0 <= k < iter.index() ==> {
                        &&& (#[trigger] listed@[k]).0.account_id.0 == all[k].0.0
                        &&& listed@[k].0.currency.0 == all[k].0.1
                        &&& listed@[k].1 == *all[k].1
                    },
        {
            let key = BalanceKey { account_id: AccountId(raw.0), currency: Currency(raw.1) };
            listed.push((key, *snapshot));
        }
        proof {
            assert forall|i: int, j: int| 0 <= i < j < listed@.len() implies listed@[i].0.before(
                listed@[j].0,
            ) by {
                assert(keys[i] == *all[i].0 && keys[j] == *all[j].0);
            }
            assert forall|i: int| 0 <= i < listed@.len() implies self@.contains_key(
                (#[trigger] listed@[i]).0,
            ) && self@[listed@[i].0] == listed@[i].1 by {
                assert(self.balances@.contains_key(*all[i].0));
            }
            assert forall|key: BalanceKey| #[trigger] self@.contains_key(key) implies exists|i: int|
                0 <= i < listed@.len() && #[trigger] listed@[i].0 == key by {
                let raw = (key.account_id.0, key.currency.0);
                assert(self.balances@.contains_key(raw));
                assert(all.contains((&raw, &self.balances@[raw])));
                let i = all.index_of((&raw, &self.balances@[raw]));
                assert(listed@[i].0 == key);
            }
        }
        listed
    }
}

} // verus!
