//! Which account sets each account belongs to.

use crate::primitives::{AccountId, AccountSetId};
use crate::projector::ordered::{accounts_in_order, lists_accounts};
use std::collections::{BTreeSet, HashMap, HashSet};
use vstd::prelude::*;

verus! {

/// The ids of the eventually-consistent account sets.
pub struct EcSetIds {
    ids: HashSet<u128>,
}

impl View for EcSetIds {
    type V = Set<AccountSetId>;

    closed spec fn view(&self) -> Set<AccountSetId> {
        Set::new(|id: AccountSetId| self.ids@.contains(id.0))
    }
}

impl EcSetIds {
    /// No ids.
    pub fn new() -> (set: EcSetIds)
        ensures
            set@ == Set::<AccountSetId>::empty(),
    {
        let set = EcSetIds { ids: HashSet::new() };
        assert(set@ =~= Set::<AccountSetId>::empty());
        set
    }

    /// Adds an id.
    pub fn insert(&mut self, id: AccountSetId)
        ensures
            final(self)@ == old(self)@.insert(id),
    {
        self.ids.insert(id.0);
        assert(self@ =~= old(self)@.insert(id));
    }

    /// Whether the id was added.
    pub fn contains(&self, id: AccountSetId) -> (found: bool)
        ensures
            found == self@.contains(id),
    {
        self.ids.contains(&id.0)
    }
}

/// The account sets that each account is a member of, directly or through
/// other sets.
pub struct AccountSetMappings {
    sets: HashMap<u128, Vec<AccountSetId>>,
}

impl View for AccountSetMappings {
    type V = Map<AccountId, Seq<AccountSetId>>;

    closed spec fn view(&self) -> Map<AccountId, Seq<AccountSetId>> {
        Map::new(
            |id: AccountId| self.sets@.contains_key(id.0),
            |id: AccountId| self.sets@[id.0]@,
        )
    }
}

impl AccountSetMappings {
    /// No account is mapped.
    pub fn new() -> (mappings: AccountSetMappings)
        ensures
            mappings@ == Map::<AccountId, Seq<AccountSetId>>::empty(),
    {
        let mappings = AccountSetMappings { sets: HashMap::new() };
        assert(mappings@ =~= Map::<AccountId, Seq<AccountSetId>>::empty());
        mappings
    }

    /// Maps an account, in place of what it was mapped to.
    pub fn insert(&mut self, id: AccountId, sets: Vec<AccountSetId>)
        ensures
            final(self)@ == old(self)@.insert(id, sets@),
    {
        self.sets.insert(id.0, sets);
        assert(self@ =~= old(self)@.insert(id, sets@));
    }

    /// The sets that an account is mapped to.
    pub fn get(&self, id: AccountId) -> (sets: Option<&Vec<AccountSetId>>)
        ensures
            match sets {
                Some(sets) => self@.contains_key(id) && sets@ == self@[id],
                None => !self@.contains_key(id),
            },
    {
        self.sets.get(&id.0)
    }

    /// Whether no account is mapped.
    pub fn is_empty(&self) -> (empty: bool)
        ensures
            empty == self@.dom().is_empty(),
    {
        let empty = self.sets.is_empty();
        proof {
            if empty {
                assert(self@.dom() =~= Set::empty());
            } else {
                let raw = choose|raw: u128| self.sets@.contains_key(raw);
                assert(self@.contains_key(AccountId(raw)));
            }
        }
        empty
    }

    /// Keeps, of the sets of each account, those in `ec_set_ids`, and drops
    /// the accounts that are left with none.
    pub fn keep_ec(&self, ec_set_ids: &EcSetIds) -> (kept: AccountSetMappings)
        ensures
            kept@ == ec_mappings(self@, ec_set_ids@),
    {
        let mut kept = AccountSetMappings::new();
        for (raw, sets) in iter: self.sets.iter()
            invariant
                forall|k: int|
                    0 <= k < iter.seq().len() ==> self.sets@.contains_key(*(#[trigger] iter.seq()[k]).0)
                        && self.sets@[*iter.seq()[k].0] == *iter.seq()[k].1,
                forall|id: AccountId| #[trigger] kept@.contains_key(id) <==> {
                    &&& exists|k: int| 0 <= k < iter.index() && *(#[trigger] iter.seq()[k]).0 == id.0
                    &&& ec_mappings(self@, ec_set_ids@).contains_key(id)
                },
                forall|id: AccountId| #[trigger]
                    kept@.contains_key(id) ==> kept@[id] == ec_mappings(self@, ec_set_ids@)[id],
        {
            let ec_sets: Vec<AccountSetId> = keep_ec_sets(sets, ec_set_ids);
            if ec_sets.len() > 0 {
                kept.insert(AccountId(*raw), ec_sets);
            }
        }
        assert(kept@ =~= ec_mappings(self@, ec_set_ids@));
        kept
    }

    /// The accounts of all the sets that some account is mapped to, in
    /// increasing order.
    pub fn set_account_ids(&self) -> (ids: Vec<AccountId>)
        ensures
            lists_accounts(ids@, set_accounts(self@)),
    {
        broadcast use vstd::laws_cmp::group_laws_cmp;

        let mut raw_ids: BTreeSet<u128> = BTreeSet::new();
        for (raw, sets) in iter: self.sets.iter()
            invariant
                forall|k: int|
                    0 <= k < iter.seq().len() ==> self.sets@.contains_key(
                        *(#[trigger] iter.seq()[k]).0,
                    ) && self.sets@[*iter.seq()[k].0] == *iter.seq()[k].1,
                forall|id: u128| #[trigger]
                    raw_ids@.contains(id) <==> exists|k: int|
                        0 <= k < iter.index() && (#[trigger] iter.seq()[k]).1@.contains(
                            AccountSetId(id),
                        ),
        {
            let ghost before = raw_ids@;
            for i in 0..sets.len()
                invariant
                    forall|id: u128| #[trigger]
                        raw_ids@.contains(id) <==> before.contains(id) || exists|j: int|
                            0 <= j < i && #[trigger] sets@[j] == AccountSetId(id),
            {
                raw_ids.insert(AccountId::of_set(sets[i]).0);
            }
            proof {
                assert forall|id: u128| #[trigger] raw_ids@.contains(id) <==> exists|k: int|
                    0 <= k < iter.index() + 1 && (#[trigger] iter.seq()[k]).1@.contains(
                        AccountSetId(id),
                    ) by {
                    assert(iter.seq()[iter.index()].1 == sets);
                }
            }
        }
        proof {
            let of = set_accounts(self@);
            assert forall|id: AccountId| raw_ids@.contains(id.0) <==> #[trigger] of.contains(id) by {
                assert(AccountId::spec_of_set(AccountSetId(id.0)) == id);
                if of.contains(id) {
                    let (member, set_id) = choose|member: AccountId, set_id: AccountSetId| #[trigger]
                        is_mapped(self@, member, set_id) && AccountId::spec_of_set(set_id) == id;
                    assert(self.sets@.contains_key(member.0));
                }
                if raw_ids@.contains(id.0) {
                    let raw = choose|raw: u128| #[trigger]
                        self.sets@.contains_key(raw) && self.sets@[raw]@.contains(
                            AccountSetId(id.0),
                        );
                    assert(is_mapped(self@, AccountId(raw), AccountSetId(id.0)));
                }
            }
            assert(Set::new(|id: AccountId| raw_ids@.contains(id.0)) =~= of);
        }
        accounts_in_order(&raw_ids)
    }
}

/// Of `sets`, those in `ec_set_ids`, in the order they are in.
pub open spec fn ec_sets(sets: Seq<AccountSetId>, ec_set_ids: Set<AccountSetId>) -> Seq<
    AccountSetId,
> {
    sets.filter(|id: AccountSetId| ec_set_ids.contains(id))
}

/// The mappings to sets in `ec_set_ids` alone, without the accounts that have
/// none.
pub open spec fn ec_mappings(
    mappings: Map<AccountId, Seq<AccountSetId>>,
    ec_set_ids: Set<AccountSetId>,
) -> Map<AccountId, Seq<AccountSetId>> {
    Map::new(
        |id: AccountId|
            mappings.contains_key(id) && ec_sets(mappings[id], ec_set_ids).len() > 0,
        |id: AccountId| ec_sets(mappings[id], ec_set_ids),
    )
}

/// The accounts of all the sets that some account is mapped to.
pub open spec fn set_accounts(mappings: Map<AccountId, Seq<AccountSetId>>) -> Set<AccountId> {
    Set::new(
        |account_id: AccountId|
            exists|member: AccountId, set_id: AccountSetId| #[trigger]
                is_mapped(mappings, member, set_id) && AccountId::spec_of_set(set_id) == account_id,
    )
}

/// Whether `member` is mapped to `set_id`.
pub open spec fn is_mapped(
    mappings: Map<AccountId, Seq<AccountSetId>>,
    member: AccountId,
    set_id: AccountSetId,
) -> bool {
    mappings.contains_key(member) && mappings[member].contains(set_id)
}

/// Keeps the sets that are in `ec_set_ids`.
fn keep_ec_sets(sets: &Vec<AccountSetId>, ec_set_ids: &EcSetIds) -> (kept: Vec<AccountSetId>)
    ensures
        kept@ == ec_sets(sets@, ec_set_ids@),
{
    let mut kept: Vec<AccountSetId> = Vec::new();
    let ghost pred = |id: AccountSetId| ec_set_ids@.contains(id);
    assert(sets@.take(0).filter(pred) =~= Seq::<AccountSetId>::empty()) by {
        reveal(Seq::filter);
    }
    for i in 0..sets.len()
        invariant
            pred == (|id: AccountSetId| ec_set_ids@.contains(id)),
            kept@ == sets@.take(i as int).filter(pred),
    {
        proof {
            reveal(Seq::filter);
            assert(sets@.take(i + 1).drop_last() =~= sets@.take(i as int));
        }
        let id = sets[i];
        if ec_set_ids.contains(id) {
            kept.push(id);
        }
    }
    assert(sets@.take(sets@.len() as int) =~= sets@);
    kept
}

} // verus!
