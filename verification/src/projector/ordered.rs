//! Sets of ids, listed in order.

use crate::primitives::{AccountId, TransactionId};
use std::collections::BTreeSet;
use vstd::prelude::*;
use vstd::std_specs::cmp::OrdSpec;
use vstd::std_specs::iter::IteratorSpec;

verus! {

/// Whether `ids` lists each member of `of` once, in increasing order.
pub open spec fn lists_in_order(ids: Seq<u128>, of: Set<u128>) -> bool {
    &&& forall|i: int, j: int| 0 <= i < j < ids.len() ==> ids[i] < ids[j]
    &&& forall|id: u128| ids.contains(id) <==> #[trigger] of.contains(id)
}

/// What it means for references to numbers to be in increasing order.
proof fn lemma_increasing(s: Seq<&u128>)
    requires
        vstd::std_specs::btree::increasing_seq(s),
    ensures
        forall|i: int, j: int| 0 <= i < j < s.len() ==> *s[i] < *s[j],
{
    broadcast use vstd::laws_cmp::group_laws_cmp;
    broadcast use vstd::std_specs::btree::group_btree_axioms;

    assert(vstd::laws_cmp::obeys_cmp::<u128>());
    assert(vstd::laws_cmp::obeys_cmp::<&u128>());
    assert forall|i: int, j: int| 0 <= i < j < s.len() implies *s[i] < *s[j] by {
        assert(OrdSpec::cmp_spec(&s[i], &s[j]) is Less);
    }
}

/// The members of a set, in increasing order.
pub(crate) fn in_order(set: &BTreeSet<u128>) -> (ids: Vec<u128>)
    ensures
        lists_in_order(ids@, set@),
{
    broadcast use vstd::laws_cmp::group_laws_cmp;
    broadcast use vstd::std_specs::btree::group_btree_axioms;

    let mut ids: Vec<u128> = Vec::new();
    proof {
        lemma_increasing(set.iter().remaining());
    }
    for id in iter: set.iter()
        invariant
            ids@ == iter.seq().unref().take(iter.index()),
            iter.seq().unref().to_set() == set@,
            forall|i: int, j: int|
                0 <= i < j < iter.seq().len() ==> *iter.seq()[i] < *iter.seq()[j],
    {
        ids.push(*id);
    }
    proof {
        let listed = set.iter().remaining().unref();
        assert(ids@ == listed);
        assert forall|id: u128| ids@.contains(id) <==> #[trigger] set@.contains(id) by {
            assert(listed.to_set().contains(id) <==> listed.contains(id));
        }
    }
    ids
}

/// Whether `ids` lists each member of `of` once, in increasing order.
pub open spec fn lists_accounts(ids: Seq<AccountId>, of: Set<AccountId>) -> bool {
    &&& forall|i: int, j: int| 0 <= i < j < ids.len() ==> ids[i].0 < ids[j].0
    &&& forall|id: AccountId| ids.contains(id) <==> #[trigger] of.contains(id)
}

/// Whether `ids` lists each member of `of` once, in increasing order.
pub open spec fn lists_transactions(ids: Seq<TransactionId>, of: Set<TransactionId>) -> bool {
    &&& forall|i: int, j: int| 0 <= i < j < ids.len() ==> ids[i].0 < ids[j].0
    &&& forall|id: TransactionId| ids.contains(id) <==> #[trigger] of.contains(id)
}

/// Ids that stand for listed numbers, one for one, list what the numbers list.
proof fn lemma_ids_list<T>(
    numbers: Seq<u128>,
    set: Set<u128>,
    ids: Seq<T>,
    number: spec_fn(T) -> u128,
)
    requires
        lists_in_order(numbers, set),
        ids.len() == numbers.len(),
        forall|k: int| 0 <= k < ids.len() ==> number(#[trigger] ids[k]) == numbers[k],
        forall|a: T, b: T| #[trigger] number(a) == #[trigger] number(b) ==> a == b,
    ensures
        forall|id: T| #[trigger] ids.contains(id) <==> set.contains(number(id)),
{
    assert forall|id: T| #[trigger] ids.contains(id) <==> set.contains(number(id)) by {
        if ids.contains(id) {
            let k = ids.index_of(id);
            assert(numbers.contains(numbers[k]));
        }
        if set.contains(number(id)) {
            let k = numbers.index_of(number(id));
            assert(number(ids[k]) == number(id));
        }
    }
}

/// The account ids in a set of numbers, in increasing order.
pub(crate) fn accounts_in_order(set: &BTreeSet<u128>) -> (ids: Vec<AccountId>)
    ensures
        lists_accounts(ids@, Set::new(|id: AccountId| set@.contains(id.0))),
{
    let numbers: Vec<u128> = in_order(set);
    let mut ids: Vec<AccountId> = Vec::new();
    for i in 0..numbers.len()
        invariant
            ids@.len() == i,
            forall|k: int| 0 <= k < i ==> ids@[k] == AccountId(numbers@[k]),
    {
        ids.push(AccountId(numbers[i]));
    }
    proof {
        lemma_ids_list(numbers@, set@, ids@, |id: AccountId| id.0);
    }
    ids
}

/// The transaction ids in a set of numbers, in increasing order.
pub(crate) fn transactions_in_order(set: &BTreeSet<u128>) -> (ids: Vec<TransactionId>)
    ensures
        lists_transactions(ids@, Set::new(|id: TransactionId| set@.contains(id.0))),
{
    let numbers: Vec<u128> = in_order(set);
    let mut ids: Vec<TransactionId> = Vec::new();
    for i in 0..numbers.len()
        invariant
            ids@.len() == i,
            forall|k: int| 0 <= k < i ==> ids@[k] == TransactionId(numbers@[k]),
    {
        ids.push(TransactionId(numbers[i]));
    }
    proof {
        lemma_ids_list(numbers@, set@, ids@, |id: TransactionId| id.0);
    }
    ids
}

} // verus!
