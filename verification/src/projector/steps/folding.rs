//! What folding leaves.

use crate::balance::amount::{exact_sum, Amount};
use crate::balance::snapshot::BalanceSnapshot;
use crate::balance::store::BalanceKey;
use crate::primitives::{DebitOrCredit, EntryValues, JournalId, Layer, Timestamp};
use crate::projector::fold::{
    all_fold, exact_total, fold_all, folds_without_rounding, folds_without_rounding_at,
    lemma_received_push, posted, received, snapshot_after, snapshots_after, touched, Delivery,
};
use crate::projector::world::{can_project, in_journal, project, Ledger};
use vstd::prelude::*;

verus! {

/// Entries are folded one after the other, each into what the ones before left.
pub proof fn law_entries_are_folded_in_order(
    time: Timestamp,
    snapshot: BalanceSnapshot,
    entries: Seq<EntryValues>,
    entry: EntryValues,
)
    ensures
        fold_all(time, snapshot, Seq::empty()) == Some(snapshot),
        fold_all(time, snapshot, entries.push(entry)) == match fold_all(time, snapshot, entries) {
            Some(folded) => folded.try_fold(time, entry),
            None => None,
        },
{
    assert(entries.push(entry).drop_last() =~= entries);
}

/// What a balance is left with: everything it received, folded into the current
/// snapshot, or into a blank one where there is none. There is a new snapshot
/// exactly where something was received, and the fold succeeds exactly if it
/// does at every balance that received something.
pub proof fn law_folding_seeds_from_the_current_snapshot(
    time: Timestamp,
    current: Map<BalanceKey, BalanceSnapshot>,
    delivered: Seq<Delivery>,
    key: BalanceKey,
)
    ensures
        ({
            let posts = received(delivered, key);
            let start = if current.contains_key(key) {
                current[key]
            } else {
                BalanceSnapshot::blank(time, key.account_id, posts[0])
            };
            &&& touched(delivered, key) <==> posts.len() > 0
            &&& posts.len() > 0 ==> snapshot_after(time, key, current, delivered) == fold_all(
                time,
                start,
                posts,
            )
            &&& snapshots_after(time, current, delivered).contains_key(key) <==> posts.len() > 0
            &&& posts.len() > 0 && fold_all(time, start, posts) is Some ==> snapshots_after(
                time,
                current,
                delivered,
            )[key] == fold_all(time, start, posts)->0
            &&& all_fold(time, current, delivered) && posts.len() > 0 ==> fold_all(
                time,
                start,
                posts,
            ) is Some
        }),
        (forall|other: BalanceKey|
            {
                let posts = #[trigger] received(delivered, other);
                let start = if current.contains_key(other) {
                    current[other]
                } else {
                    BalanceSnapshot::blank(time, other.account_id, posts[0])
                };
                posts.len() > 0 ==> fold_all(time, start, posts) is Some
            }) ==> all_fold(time, current, delivered),
{
    if forall|other: BalanceKey|
        {
            let posts = #[trigger] received(delivered, other);
            let start = if current.contains_key(other) {
                current[other]
            } else {
                BalanceSnapshot::blank(time, other.account_id, posts[0])
            };
            posts.len() > 0 ==> fold_all(time, start, posts) is Some
        } {
        assert forall|other: BalanceKey| #[trigger] touched(delivered, other) implies
            snapshot_after(time, other, current, delivered) is Some by {
            assert(received(delivered, other).len() > 0);
        }
    }
}

/// One delivery more is received by the balance of its set in the currency of
/// its entry, after everything else, and by no other balance.
pub proof fn law_one_delivery_more_is_received_once(
    delivered: Seq<Delivery>,
    d: Delivery,
    key: BalanceKey,
)
    ensures
        received(Seq::empty(), key) == Seq::<EntryValues>::empty(),
        received(delivered.push(d), key) == if d.set_id.0 == key.account_id.0 && d.entry.currency
            == key.currency {
            received(delivered, key).push(d.entry)
        } else {
            received(delivered, key)
        },
{
    reveal(Seq::filter);
    assert(received(Seq::empty(), key) =~= Seq::<EntryValues>::empty());
    lemma_received_push(delivered, d, key);
}

/// Projecting a batch leaves every balance that receives nothing as it was, and
/// folds what a balance receives into the snapshot that was there, or into a
/// blank one.
pub proof fn law_projecting_folds_what_is_received(
    snapshots: Map<(JournalId, BalanceKey), BalanceSnapshot>,
    ledger: Ledger,
    time: Timestamp,
    entries: Seq<EntryValues>,
    journal_id: JournalId,
    key: BalanceKey,
)
    ensures
        ({
            let at = (journal_id, key);
            let posts = received(ledger.deliveries(entries, journal_id), key);
            let projected = project(snapshots, ledger, time, entries);
            let start = if snapshots.contains_key(at) {
                snapshots[at]
            } else {
                BalanceSnapshot::blank(time, key.account_id, posts[0])
            };
            &&& projected.contains_key(at) <==> snapshots.contains_key(at) || posts.len() > 0
            &&& posts.len() == 0 && snapshots.contains_key(at) ==> projected[at] == snapshots[at]
            &&& posts.len() > 0 && fold_all(time, start, posts) is Some ==> projected[at]
                == fold_all(time, start, posts)->0
            &&& can_project(snapshots, ledger, time, entries) && posts.len() > 0 ==> fold_all(
                time,
                start,
                posts,
            ) is Some
        }),
{
    let delivered = ledger.deliveries(entries, journal_id);
    let current = in_journal(snapshots, journal_id);
    law_folding_seeds_from_the_current_snapshot(time, current, delivered, key);
    if can_project(snapshots, ledger, time, entries) {
        assert(all_fold(time, current, delivered));
    }
}

/// What one entry more posts: its units, on its own side of its own layer, and
/// nothing on any other.
pub proof fn law_an_entry_posts_its_units_on_its_side(
    entries: Seq<EntryValues>,
    entry: EntryValues,
    layer: Layer,
    direction: DebitOrCredit,
)
    ensures
        posted(Seq::empty(), layer, direction) == 0,
        posted(entries.push(entry), layer, direction) == posted(entries, layer, direction)
            + if entry.layer == layer && entry.direction == direction {
            entry.units.value()
        } else {
            0
        },
{
    assert(entries.push(entry).drop_last() =~= entries);
}

/// The exact total of one side of one layer grows with every entry that moves
/// that side, by the exact sum, and is lost where there is none.
pub proof fn law_exact_totals_grow_by_exact_sums(
    start: Amount,
    entries: Seq<EntryValues>,
    entry: EntryValues,
    layer: Layer,
    direction: DebitOrCredit,
)
    ensures
        exact_total(start, Seq::empty(), layer, direction) == Some(start),
        exact_total(start, entries.push(entry), layer, direction) == match exact_total(
            start,
            entries,
            layer,
            direction,
        ) {
            Some(total) => if entry.layer == layer && entry.direction == direction {
                exact_sum(total, entry.units)
            } else {
                Some(total)
            },
            None => None,
        },
{
    assert(entries.push(entry).drop_last() =~= entries);
}

/// What a balance receives folds without rounding exactly if there is an exact
/// total of it on all six sides, and a version for each entry; and everything
/// folds without rounding if that holds of every balance that receives
/// something.
pub proof fn law_exact_totals_fold_without_rounding(
    time: Timestamp,
    current: Map<BalanceKey, BalanceSnapshot>,
    delivered: Seq<Delivery>,
    key: BalanceKey,
)
    ensures
        ({
            let posts = received(delivered, key);
            let start = if current.contains_key(key) {
                current[key]
            } else {
                BalanceSnapshot::blank(time, key.account_id, posts[0])
            };
            folds_without_rounding_at(time, key, current, delivered) <==> {
                &&& start.version + posts.len() <= u32::MAX
                &&& exact_total(
                    start.settled.dr_balance,
                    posts,
                    Layer::Settled,
                    DebitOrCredit::Debit,
                ) is Some
                &&& exact_total(
                    start.settled.cr_balance,
                    posts,
                    Layer::Settled,
                    DebitOrCredit::Credit,
                ) is Some
                &&& exact_total(
                    start.pending.dr_balance,
                    posts,
                    Layer::Pending,
                    DebitOrCredit::Debit,
                ) is Some
                &&& exact_total(
                    start.pending.cr_balance,
                    posts,
                    Layer::Pending,
                    DebitOrCredit::Credit,
                ) is Some
                &&& exact_total(
                    start.encumbrance.dr_balance,
                    posts,
                    Layer::Encumbrance,
                    DebitOrCredit::Debit,
                ) is Some
                &&& exact_total(
                    start.encumbrance.cr_balance,
                    posts,
                    Layer::Encumbrance,
                    DebitOrCredit::Credit,
                ) is Some
            }
        }),
        (forall|other: BalanceKey|
            received(delivered, other).len() > 0 ==> #[trigger] folds_without_rounding_at(
                time,
                other,
                current,
                delivered,
            )) ==> folds_without_rounding(time, current, delivered),
{
    let posts = received(delivered, key);
    let start = if current.contains_key(key) {
        current[key]
    } else {
        BalanceSnapshot::blank(time, key.account_id, posts[0])
    };
    assert(start.settled.dr_balance == start.amount(Layer::Settled, DebitOrCredit::Debit));
    assert(start.settled.cr_balance == start.amount(Layer::Settled, DebitOrCredit::Credit));
    assert(start.pending.dr_balance == start.amount(Layer::Pending, DebitOrCredit::Debit));
    assert(start.pending.cr_balance == start.amount(Layer::Pending, DebitOrCredit::Credit));
    assert(start.encumbrance.dr_balance == start.amount(Layer::Encumbrance, DebitOrCredit::Debit));
    assert(start.encumbrance.cr_balance == start.amount(
        Layer::Encumbrance,
        DebitOrCredit::Credit,
    ));
}

} // verus!
