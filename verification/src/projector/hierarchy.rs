//! What holds of sets above sets.

use crate::balance::amount::{lemma_sum_within_is_exact, Amount, MAX_SCALE};
use crate::balance::snapshot::BalanceSnapshot;
use crate::balance::store::BalanceKey;
use crate::balance::totals::{lemma_version_counts, Totals};
use crate::primitives::{
    AccountId, AccountSetId, Currency, DebitOrCredit, EntryValues, JournalId, Layer, Timestamp,
};
use crate::projector::fold::{
    balance_key, deliveries, exact_total, lemma_exact_total, lemma_posted_add, lemma_received_add,
    lemma_received_push, moved, moves, posted, received, sets_of, sums, to_each, touched, Delivery,
};
use crate::projector::grouping::journal_entries;
use crate::projector::laws::{
    holds, law_batch_boundaries_do_not_matter, law_nothing_reflects_no_entries, reflects,
};
use crate::projector::steps::grouping::law_a_journal_has_all_its_entries;
use crate::projector::steps::sets::{
    law_accounts_keep_their_ec_sets, lemma_count_push, lemma_occurrences,
};
use crate::projector::world::{can_project, project, projects_exactly, Ledger};
use vstd::arithmetic::power::pow;
use vstd::prelude::*;

verus! {

/// How often a set occurs among `sets`.
pub open spec fn occurrences(sets: Seq<AccountSetId>, set_id: AccountSetId) -> nat
    decreases sets.len(),
{
    if sets.len() == 0 {
        0
    } else {
        occurrences(sets.drop_last(), set_id) + if sets.last() == set_id {
            1nat
        } else {
            0nat
        }
    }
}

/// How often `entry` is folded into the balance of a set in a currency.
pub open spec fn copies(
    mappings: Map<AccountId, Seq<AccountSetId>>,
    entry: EntryValues,
    set_id: AccountSetId,
    currency: Currency,
) -> nat {
    if entry.currency == currency {
        occurrences(sets_of(mappings, entry), set_id)
    } else {
        0
    }
}

/// What is delivered to a set in a currency.
pub open spec fn delivered_to(
    entries: Seq<EntryValues>,
    mappings: Map<AccountId, Seq<AccountSetId>>,
    set_id: AccountSetId,
    currency: Currency,
) -> Seq<EntryValues> {
    received(deliveries(entries, mappings), balance_key(set_id, currency))
}

/// An entry is delivered to a set as often as the set occurs among the sets of
/// its account.
proof fn lemma_received_to_each(
    sets: Seq<AccountSetId>,
    entry: EntryValues,
    set_id: AccountSetId,
    currency: Currency,
)
    ensures
        received(to_each(sets, entry), balance_key(set_id, currency)) == Seq::new(
            if entry.currency == currency {
                occurrences(sets, set_id)
            } else {
                0
            },
            |i: int| entry,
        ),
    decreases sets.len(),
{
    let key = balance_key(set_id, currency);
    if sets.len() == 0 {
        reveal(Seq::filter);
        assert(received(to_each(sets, entry), key) =~= Seq::<EntryValues>::empty());
    } else {
        let less = sets.drop_last();
        let d = Delivery { set_id: sets.last(), entry };
        lemma_received_to_each(less, entry, set_id, currency);
        assert(to_each(sets, entry) =~= to_each(less, entry).push(d));
        lemma_received_push(to_each(less, entry), d, key);
        assert(d.key() == key <==> sets.last() == set_id && entry.currency == currency);
    }
}

/// What one entry more adds to what is delivered to a set.
pub proof fn lemma_delivered_to_last(
    entries: Seq<EntryValues>,
    mappings: Map<AccountId, Seq<AccountSetId>>,
    set_id: AccountSetId,
    currency: Currency,
)
    requires
        entries.len() > 0,
    ensures
        delivered_to(entries, mappings, set_id, currency) == delivered_to(
            entries.drop_last(),
            mappings,
            set_id,
            currency,
        ) + Seq::new(copies(mappings, entries.last(), set_id, currency), |i: int| entries.last()),
{
    let sets = sets_of(mappings, entries.last());
    lemma_received_add(
        deliveries(entries.drop_last(), mappings),
        to_each(sets, entries.last()),
        balance_key(set_id, currency),
    );
    lemma_received_to_each(sets, entries.last(), set_id, currency);
}

/// Posting copies of one entry posts its units so many times.
proof fn lemma_posted_copies(
    count: nat,
    entry: EntryValues,
    layer: Layer,
    direction: DebitOrCredit,
)
    ensures
        posted(Seq::new(count, |i: int| entry), layer, direction) == count * moved(
            entry,
            layer,
            direction,
        ),
    decreases count,
{
    let units = moved(entry, layer, direction);
    if count == 0 {
        assert(0 * units == 0) by (nonlinear_arith);
    } else {
        let less = (count - 1) as nat;
        lemma_posted_copies(less, entry, layer, direction);
        assert(Seq::new(count, |i: int| entry).drop_last() =~= Seq::new(less, |i: int| entry));
        assert(count * units == less * units + units) by (nonlinear_arith)
            requires
                less == count - 1,
        ;
    }
}

/// Whether every entry is folded into `parent` as often as into `a` and `b`
/// together: so it is where `a` and `b` are the members of `parent` and share
/// no account.
pub open spec fn is_sum(
    entries: Seq<EntryValues>,
    mappings: Map<AccountId, Seq<AccountSetId>>,
    parent: AccountSetId,
    a: AccountSetId,
    b: AccountSetId,
) -> bool {
    forall|i: int|
        0 <= i < entries.len() ==> {
            let sets = sets_of(mappings, #[trigger] entries[i]);
            occurrences(sets, parent) == occurrences(sets, a) + occurrences(sets, b)
        }
}

/// What is posted to a parent is what is posted to its children together.
proof fn lemma_posted_to_parent(
    entries: Seq<EntryValues>,
    mappings: Map<AccountId, Seq<AccountSetId>>,
    parent: AccountSetId,
    a: AccountSetId,
    b: AccountSetId,
    currency: Currency,
    layer: Layer,
    direction: DebitOrCredit,
)
    requires
        is_sum(entries, mappings, parent, a, b),
    ensures
        posted(delivered_to(entries, mappings, parent, currency), layer, direction) == posted(
            delivered_to(entries, mappings, a, currency),
            layer,
            direction,
        ) + posted(delivered_to(entries, mappings, b, currency), layer, direction),
        delivered_to(entries, mappings, parent, currency).len() == delivered_to(
            entries,
            mappings,
            a,
            currency,
        ).len() + delivered_to(entries, mappings, b, currency).len(),
    decreases entries.len(),
{
    if entries.len() == 0 {
        reveal(Seq::filter);
    } else {
        let less = entries.drop_last();
        let last = entries.last();
        assert forall|i: int| 0 <= i < less.len() implies {
            let sets = sets_of(mappings, #[trigger] less[i]);
            occurrences(sets, parent) == occurrences(sets, a) + occurrences(sets, b)
        } by {
            assert(less[i] == entries[i]);
        }
        lemma_posted_to_parent(less, mappings, parent, a, b, currency, layer, direction);
        assert(last == entries[entries.len() - 1]);
        lemma_posted_to_last(entries, mappings, parent, currency, layer, direction);
        lemma_posted_to_last(entries, mappings, a, currency, layer, direction);
        lemma_posted_to_last(entries, mappings, b, currency, layer, direction);
        let units = moved(last, layer, direction);
        let n = copies(mappings, last, a, currency);
        let m = copies(mappings, last, b, currency);
        assert((n + m) * units == n * units + m * units) by (nonlinear_arith);
    }
}

/// What one entry more adds to what is posted to a set.
proof fn lemma_posted_to_last(
    entries: Seq<EntryValues>,
    mappings: Map<AccountId, Seq<AccountSetId>>,
    set_id: AccountSetId,
    currency: Currency,
    layer: Layer,
    direction: DebitOrCredit,
)
    requires
        entries.len() > 0,
    ensures
        ({
            let before = delivered_to(entries.drop_last(), mappings, set_id, currency);
            let after = delivered_to(entries, mappings, set_id, currency);
            let count = copies(mappings, entries.last(), set_id, currency);
            &&& posted(after, layer, direction) == posted(before, layer, direction) + count
                * moved(entries.last(), layer, direction)
            &&& after.len() == before.len() + count
        }),
{
    let count = copies(mappings, entries.last(), set_id, currency);
    let more = Seq::new(count, |i: int| entries.last());
    lemma_delivered_to_last(entries, mappings, set_id, currency);
    lemma_posted_copies(count, entries.last(), layer, direction);
    lemma_posted_add(
        delivered_to(entries.drop_last(), mappings, set_id, currency),
        more,
        layer,
        direction,
    );
}

/// The balance of a set on one side of one layer; nothing where there is no
/// snapshot.
pub open spec fn balance_of(
    snapshots: Map<(JournalId, BalanceKey), BalanceSnapshot>,
    journal_id: JournalId,
    set_id: AccountSetId,
    currency: Currency,
    layer: Layer,
    direction: DebitOrCredit,
) -> int {
    let at = (journal_id, balance_key(set_id, currency));
    if snapshots.contains_key(at) {
        snapshots[at].amount(layer, direction).value()
    } else {
        0
    }
}

/// The version of a set; zero where there is no snapshot.
pub open spec fn version_of(
    snapshots: Map<(JournalId, BalanceKey), BalanceSnapshot>,
    journal_id: JournalId,
    set_id: AccountSetId,
    currency: Currency,
) -> int {
    let at = (journal_id, balance_key(set_id, currency));
    if snapshots.contains_key(at) {
        snapshots[at].version as int
    } else {
        0
    }
}

/// Zero has the value zero.
proof fn lemma_zero_is_nothing()
    ensures
        Amount::spec_zero().value() == 0,
{
    let unit = pow(10, MAX_SCALE as nat);
    assert(0 * unit == 0) by (nonlinear_arith);
}

/// What is delivered to a set in one journal.
pub open spec fn posts_to(
    ledger: Ledger,
    entries: Seq<EntryValues>,
    journal_id: JournalId,
    set_id: AccountSetId,
    currency: Currency,
) -> Seq<EntryValues> {
    received(ledger.deliveries(entries, journal_id), balance_key(set_id, currency))
}

/// Whether no sum on the way needs rounding, as one side of one layer of a set
/// is folded from nothing.
pub open spec fn needs_no_rounding(
    posts: Seq<EntryValues>,
    layer: Layer,
    direction: DebitOrCredit,
) -> bool {
    exact_total(Amount::spec_zero(), posts, layer, direction) is Some
}

/// Whether every unit that `posts` move on one side of one layer, and every sum
/// on the way, can be written with `scale` digits after the decimal point.
pub open spec fn stays_within(
    posts: Seq<EntryValues>,
    layer: Layer,
    direction: DebitOrCredit,
    scale: u32,
) -> bool {
    &&& scale <= MAX_SCALE
    &&& forall|i: int|
        0 <= i < posts.len() && moves(#[trigger] posts[i], layer, direction)
            ==> posts[i].units.within(scale)
    &&& forall|n: int|
        0 <= n <= posts.len() ==> -Amount::cap(scale) <= posted(
            #[trigger] posts.take(n),
            layer,
            direction,
        ) <= Amount::cap(scale)
}

/// What can be written with a fixed number of digits needs no rounding.
pub proof fn law_what_fits_needs_no_rounding(
    posts: Seq<EntryValues>,
    layer: Layer,
    direction: DebitOrCredit,
    scale: u32,
)
    requires
        stays_within(posts, layer, direction, scale),
    ensures
        needs_no_rounding(posts, layer, direction),
        exact_total(Amount::spec_zero(), posts, layer, direction)->0.within(scale),
    decreases posts.len(),
{
    let zero = Amount::spec_zero();
    lemma_zero_is_nothing();
    if posts.len() == 0 {
        assert(posts.take(0) =~= posts);
    } else {
        let less = posts.drop_last();
        assert forall|i: int| 0 <= i < less.len() && moves(
            #[trigger] less[i],
            layer,
            direction,
        ) implies less[i].units.within(scale) by {
            assert(less[i] == posts[i]);
        }
        assert forall|n: int| 0 <= n <= less.len() implies -Amount::cap(scale) <= posted(
            #[trigger] less.take(n),
            layer,
            direction,
        ) <= Amount::cap(scale) by {
            assert(less.take(n) =~= posts.take(n));
        }
        law_what_fits_needs_no_rounding(less, layer, direction, scale);
        lemma_exact_total(zero, less, layer, direction);
        let last = posts[posts.len() - 1];
        if moves(last, layer, direction) {
            assert(posts.take(posts.len() as int) =~= posts);
            lemma_sum_within_is_exact(
                exact_total(zero, less, layer, direction)->0,
                last.units,
                scale,
            );
        }
    }
}

/// A set that reflects `entries` has as many versions as entries that were
/// posted to it: no post is dropped, and none is folded twice.
pub proof fn law_version_is_the_number_of_posts(
    snapshots: Map<(JournalId, BalanceKey), BalanceSnapshot>,
    ledger: Ledger,
    entries: Seq<EntryValues>,
    journal_id: JournalId,
    set_id: AccountSetId,
    currency: Currency,
)
    requires
        reflects(snapshots, ledger, entries),
    ensures
        version_of(snapshots, journal_id, set_id, currency) == posts_to(
            ledger,
            entries,
            journal_id,
            set_id,
            currency,
        ).len(),
{
    let key = balance_key(set_id, currency);
    let delivered = ledger.deliveries(entries, journal_id);
    assert(snapshots.contains_key((journal_id, key)) <==> touched(delivered, key));
    if touched(delivered, key) {
        assert(holds(snapshots[(journal_id, key)], received(delivered, key)));
        lemma_version_counts(Totals::zero(), received(delivered, key));
    }
}

/// A set that reflects `entries` holds exactly the sum of what they post to it,
/// unless some sum on the way had to be rounded.
pub proof fn law_balance_is_the_sum_of_all_posts(
    snapshots: Map<(JournalId, BalanceKey), BalanceSnapshot>,
    ledger: Ledger,
    entries: Seq<EntryValues>,
    journal_id: JournalId,
    set_id: AccountSetId,
    currency: Currency,
    layer: Layer,
    direction: DebitOrCredit,
)
    requires
        reflects(snapshots, ledger, entries),
        needs_no_rounding(
            posts_to(ledger, entries, journal_id, set_id, currency),
            layer,
            direction,
        ),
    ensures
        balance_of(snapshots, journal_id, set_id, currency, layer, direction) == posted(
            posts_to(ledger, entries, journal_id, set_id, currency),
            layer,
            direction,
        ),
{
    let key = balance_key(set_id, currency);
    let delivered = ledger.deliveries(entries, journal_id);
    let posts = received(delivered, key);
    assert(snapshots.contains_key((journal_id, key)) <==> touched(delivered, key));
    if touched(delivered, key) {
        let snapshot = snapshots[(journal_id, key)];
        assert(holds(snapshot, posts));
        assert(sums(
            Amount::spec_zero(),
            posts,
            layer,
            direction,
            snapshot.amount(layer, direction),
        ));
        lemma_zero_is_nothing();
        lemma_exact_total(Amount::spec_zero(), posts, layer, direction);
    }
}

/// The version of a parent is the sum of the versions of its children: where
/// every entry is folded into the parent as often as into two other sets
/// together, so many versions has the parent.
pub proof fn law_parent_version_is_the_sum_of_its_children(
    snapshots: Map<(JournalId, BalanceKey), BalanceSnapshot>,
    ledger: Ledger,
    entries: Seq<EntryValues>,
    journal_id: JournalId,
    parent: AccountSetId,
    a: AccountSetId,
    b: AccountSetId,
    currency: Currency,
)
    requires
        reflects(snapshots, ledger, entries),
        is_sum(journal_entries(entries, journal_id), ledger.ec_sets(journal_id), parent, a, b),
    ensures
        version_of(snapshots, journal_id, parent, currency) == version_of(
            snapshots,
            journal_id,
            a,
            currency,
        ) + version_of(snapshots, journal_id, b, currency),
{
    lemma_posted_to_parent(
        journal_entries(entries, journal_id),
        ledger.ec_sets(journal_id),
        parent,
        a,
        b,
        currency,
        Layer::Settled,
        DebitOrCredit::Debit,
    );
    law_version_is_the_number_of_posts(snapshots, ledger, entries, journal_id, parent, currency);
    law_version_is_the_number_of_posts(snapshots, ledger, entries, journal_id, a, currency);
    law_version_is_the_number_of_posts(snapshots, ledger, entries, journal_id, b, currency);
}

/// A parent converges to the sum of its children: where every entry is folded
/// into the parent as often as into two other sets together, the balance of the
/// parent is the sum of theirs, unless some sum on the way had to be rounded.
pub proof fn law_parent_is_the_sum_of_its_children(
    snapshots: Map<(JournalId, BalanceKey), BalanceSnapshot>,
    ledger: Ledger,
    entries: Seq<EntryValues>,
    journal_id: JournalId,
    parent: AccountSetId,
    a: AccountSetId,
    b: AccountSetId,
    currency: Currency,
    layer: Layer,
    direction: DebitOrCredit,
)
    requires
        reflects(snapshots, ledger, entries),
        is_sum(journal_entries(entries, journal_id), ledger.ec_sets(journal_id), parent, a, b),
        needs_no_rounding(
            posts_to(ledger, entries, journal_id, parent, currency),
            layer,
            direction,
        ),
        needs_no_rounding(posts_to(ledger, entries, journal_id, a, currency), layer, direction),
        needs_no_rounding(posts_to(ledger, entries, journal_id, b, currency), layer, direction),
    ensures
        balance_of(snapshots, journal_id, parent, currency, layer, direction) == balance_of(
            snapshots,
            journal_id,
            a,
            currency,
            layer,
            direction,
        ) + balance_of(snapshots, journal_id, b, currency, layer, direction),
{
    lemma_posted_to_parent(
        journal_entries(entries, journal_id),
        ledger.ec_sets(journal_id),
        parent,
        a,
        b,
        currency,
        layer,
        direction,
    );
    law_balance_is_the_sum_of_all_posts(
        snapshots,
        ledger,
        entries,
        journal_id,
        parent,
        currency,
        layer,
        direction,
    );
    law_balance_is_the_sum_of_all_posts(
        snapshots,
        ledger,
        entries,
        journal_id,
        a,
        currency,
        layer,
        direction,
    );
    law_balance_is_the_sum_of_all_posts(
        snapshots,
        ledger,
        entries,
        journal_id,
        b,
        currency,
        layer,
        direction,
    );
}

/// A batch that is projected where nothing was stored leaves a parent with the
/// sum of its children: of their versions always, and of their balances unless
/// some sum on the way had to be rounded.
pub proof fn law_first_batch_leaves_parent_the_sum_of_its_children(
    ledger: Ledger,
    time: Timestamp,
    batch: Seq<EntryValues>,
    journal_id: JournalId,
    parent: AccountSetId,
    a: AccountSetId,
    b: AccountSetId,
    currency: Currency,
    layer: Layer,
    direction: DebitOrCredit,
)
    requires
        can_project(Map::empty(), ledger, time, batch),
        projects_exactly(Map::empty(), ledger, time, batch),
        is_sum(journal_entries(batch, journal_id), ledger.ec_sets(journal_id), parent, a, b),
    ensures
        ({
            let left = project(Map::empty(), ledger, time, batch);
            &&& version_of(left, journal_id, parent, currency) == version_of(
                left,
                journal_id,
                a,
                currency,
            ) + version_of(left, journal_id, b, currency)
            &&& needs_no_rounding(
                posts_to(ledger, batch, journal_id, parent, currency),
                layer,
                direction,
            ) && needs_no_rounding(
                posts_to(ledger, batch, journal_id, a, currency),
                layer,
                direction,
            ) && needs_no_rounding(
                posts_to(ledger, batch, journal_id, b, currency),
                layer,
                direction,
            ) ==> balance_of(left, journal_id, parent, currency, layer, direction) == balance_of(
                left,
                journal_id,
                a,
                currency,
                layer,
                direction,
            ) + balance_of(left, journal_id, b, currency, layer, direction)
        }),
{
    let left = project(Map::empty(), ledger, time, batch);
    law_nothing_reflects_no_entries(ledger);
    law_batch_boundaries_do_not_matter(Map::empty(), ledger, time, Seq::empty(), batch);
    assert(Seq::<EntryValues>::empty() + batch =~= batch);
    law_parent_version_is_the_sum_of_its_children(
        left,
        ledger,
        batch,
        journal_id,
        parent,
        a,
        b,
        currency,
    );
    if needs_no_rounding(
        posts_to(ledger, batch, journal_id, parent, currency),
        layer,
        direction,
    ) && needs_no_rounding(posts_to(ledger, batch, journal_id, a, currency), layer, direction)
        && needs_no_rounding(posts_to(ledger, batch, journal_id, b, currency), layer, direction) {
        law_parent_is_the_sum_of_its_children(
            left,
            ledger,
            batch,
            journal_id,
            parent,
            a,
            b,
            currency,
            layer,
            direction,
        );
    }
}

/// Sets above the same accounts receive the same entries.
proof fn lemma_same_members_receive_the_same(
    entries: Seq<EntryValues>,
    mappings: Map<AccountId, Seq<AccountSetId>>,
    a: AccountSetId,
    b: AccountSetId,
    currency: Currency,
)
    requires
        forall|i: int|
            0 <= i < entries.len() ==> {
                let sets = sets_of(mappings, #[trigger] entries[i]);
                occurrences(sets, a) == occurrences(sets, b)
            },
    ensures
        delivered_to(entries, mappings, a, currency) == delivered_to(
            entries,
            mappings,
            b,
            currency,
        ),
    decreases entries.len(),
{
    if entries.len() == 0 {
        reveal(Seq::filter);
        assert(delivered_to(entries, mappings, a, currency) =~= delivered_to(
            entries,
            mappings,
            b,
            currency,
        ));
    } else {
        let less = entries.drop_last();
        assert forall|i: int| 0 <= i < less.len() implies {
            let sets = sets_of(mappings, #[trigger] less[i]);
            occurrences(sets, a) == occurrences(sets, b)
        } by {
            assert(less[i] == entries[i]);
        }
        lemma_same_members_receive_the_same(less, mappings, a, b, currency);
        assert(entries.last() == entries[entries.len() - 1]);
        lemma_delivered_to_last(entries, mappings, a, currency);
        lemma_delivered_to_last(entries, mappings, b, currency);
    }
}

/// Sets above the same accounts converge to the same totals, however deep one
/// of them is above the other.
pub proof fn law_same_members_same_totals(
    snapshots: Map<(JournalId, BalanceKey), BalanceSnapshot>,
    ledger: Ledger,
    entries: Seq<EntryValues>,
    journal_id: JournalId,
    a: AccountSetId,
    b: AccountSetId,
    currency: Currency,
)
    requires
        reflects(snapshots, ledger, entries),
        forall|i: int|
            0 <= i < journal_entries(entries, journal_id).len() ==> {
                let sets = sets_of(
                    ledger.ec_sets(journal_id),
                    #[trigger] journal_entries(entries, journal_id)[i],
                );
                occurrences(sets, a) == occurrences(sets, b)
            },
    ensures
        ({
            let at_a = (journal_id, balance_key(a, currency));
            let at_b = (journal_id, balance_key(b, currency));
            &&& snapshots.contains_key(at_a) <==> snapshots.contains_key(at_b)
            &&& snapshots.contains_key(at_a) ==> snapshots[at_a].totals()
                == snapshots[at_b].totals()
        }),
{
    lemma_same_members_receive_the_same(
        journal_entries(entries, journal_id),
        ledger.ec_sets(journal_id),
        a,
        b,
        currency,
    );
    let delivered = ledger.deliveries(entries, journal_id);
    let key_a = balance_key(a, currency);
    let key_b = balance_key(b, currency);
    assert(snapshots.contains_key((journal_id, key_a)) <==> touched(delivered, key_a));
    assert(snapshots.contains_key((journal_id, key_b)) <==> touched(delivered, key_b));
}

/// How often an account is in an eventually-consistent set, by the ledger's own
/// sets.
pub open spec fn membership(
    ledger: Ledger,
    journal_id: JournalId,
    account_id: AccountId,
    set_id: AccountSetId,
) -> nat {
    let sets = (ledger.sets)(journal_id);
    if ledger.ec_set_ids.contains(set_id) && sets.contains_key(account_id) {
        sets[account_id].to_multiset().count(set_id)
    } else {
        0
    }
}

/// An entry is folded into a set as often as its account is in it.
proof fn lemma_folded_as_often_as_member(
    ledger: Ledger,
    journal_id: JournalId,
    entry: EntryValues,
    set_id: AccountSetId,
)
    ensures
        occurrences(sets_of(ledger.ec_sets(journal_id), entry), set_id) == membership(
            ledger,
            journal_id,
            entry.account_id,
            set_id,
        ),
{
    let sets = (ledger.sets)(journal_id);
    let kept = ledger.ec_sets(journal_id);
    law_accounts_keep_their_ec_sets(sets, ledger.ec_set_ids, entry.account_id, set_id);
    lemma_occurrences(sets_of(kept, entry), set_id);
    if !kept.contains_key(entry.account_id) {
        lemma_count_push(Seq::<AccountSetId>::empty(), set_id, set_id);
        if sets.contains_key(entry.account_id) && ledger.ec_set_ids.contains(set_id) {
            let all = sets[entry.account_id];
            all.to_multiset_ensures();
            if all.contains(set_id) {
                assert(ledger.ec_set_ids.contains(all[all.index_of(set_id)]));
            }
        }
    }
}

/// An entry of a journal is an entry of the batch, of that journal.
proof fn lemma_entry_of_journal(entries: Seq<EntryValues>, journal_id: JournalId, k: int) -> (i: int)
    requires
        0 <= k < journal_entries(entries, journal_id).len(),
    ensures
        0 <= i < entries.len(),
        entries[i] == journal_entries(entries, journal_id)[k],
        entries[i].journal_id == journal_id,
{
    let mine = journal_entries(entries, journal_id);
    law_a_journal_has_all_its_entries(entries, journal_id, mine[k]);
    mine.to_multiset_ensures();
    entries.to_multiset_ensures();
    assert(mine.contains(mine[k]));
    entries.index_of(mine[k])
}

/// A parent whose members are those of two other sets converges to their sum:
/// where every account that the entries of the journal move is in the parent as
/// often as in the two together, the version of the parent is the sum of their
/// versions, and its balance the sum of their balances unless some sum on the
/// way had to be rounded.
pub proof fn law_members_make_a_parent_the_sum_of_its_children(
    snapshots: Map<(JournalId, BalanceKey), BalanceSnapshot>,
    ledger: Ledger,
    entries: Seq<EntryValues>,
    journal_id: JournalId,
    parent: AccountSetId,
    a: AccountSetId,
    b: AccountSetId,
    currency: Currency,
    layer: Layer,
    direction: DebitOrCredit,
)
    requires
        reflects(snapshots, ledger, entries),
        forall|i: int|
            0 <= i < entries.len() && (#[trigger] entries[i]).journal_id == journal_id
                ==> membership(ledger, journal_id, entries[i].account_id, parent) == membership(
                ledger,
                journal_id,
                entries[i].account_id,
                a,
            ) + membership(ledger, journal_id, entries[i].account_id, b),
    ensures
        version_of(snapshots, journal_id, parent, currency) == version_of(
            snapshots,
            journal_id,
            a,
            currency,
        ) + version_of(snapshots, journal_id, b, currency),
        needs_no_rounding(
            posts_to(ledger, entries, journal_id, parent, currency),
            layer,
            direction,
        ) && needs_no_rounding(
            posts_to(ledger, entries, journal_id, a, currency),
            layer,
            direction,
        ) && needs_no_rounding(
            posts_to(ledger, entries, journal_id, b, currency),
            layer,
            direction,
        ) ==> balance_of(snapshots, journal_id, parent, currency, layer, direction) == balance_of(
            snapshots,
            journal_id,
            a,
            currency,
            layer,
            direction,
        ) + balance_of(snapshots, journal_id, b, currency, layer, direction),
{
    let mine = journal_entries(entries, journal_id);
    let kept = ledger.ec_sets(journal_id);
    assert forall|k: int| 0 <= k < mine.len() implies {
        let sets = sets_of(kept, #[trigger] mine[k]);
        occurrences(sets, parent) == occurrences(sets, a) + occurrences(sets, b)
    } by {
        let i = lemma_entry_of_journal(entries, journal_id, k);
        assert(entries[i] == mine[k]);
        lemma_folded_as_often_as_member(ledger, journal_id, mine[k], parent);
        lemma_folded_as_often_as_member(ledger, journal_id, mine[k], a);
        lemma_folded_as_often_as_member(ledger, journal_id, mine[k], b);
    }
    law_parent_version_is_the_sum_of_its_children(
        snapshots,
        ledger,
        entries,
        journal_id,
        parent,
        a,
        b,
        currency,
    );
    if needs_no_rounding(
        posts_to(ledger, entries, journal_id, parent, currency),
        layer,
        direction,
    ) && needs_no_rounding(posts_to(ledger, entries, journal_id, a, currency), layer, direction)
        && needs_no_rounding(posts_to(ledger, entries, journal_id, b, currency), layer, direction) {
        law_parent_is_the_sum_of_its_children(
            snapshots,
            ledger,
            entries,
            journal_id,
            parent,
            a,
            b,
            currency,
            layer,
            direction,
        );
    }
}

/// Sets that every account which the entries of the journal move is in equally
/// often converge to the same version and the same balances, however deep one of
/// them is above the other.
pub proof fn law_members_make_sets_the_same(
    snapshots: Map<(JournalId, BalanceKey), BalanceSnapshot>,
    ledger: Ledger,
    entries: Seq<EntryValues>,
    journal_id: JournalId,
    a: AccountSetId,
    b: AccountSetId,
    currency: Currency,
)
    requires
        reflects(snapshots, ledger, entries),
        forall|i: int|
            0 <= i < entries.len() && (#[trigger] entries[i]).journal_id == journal_id
                ==> membership(ledger, journal_id, entries[i].account_id, a) == membership(
                ledger,
                journal_id,
                entries[i].account_id,
                b,
            ),
    ensures
        ({
            let at_a = (
                journal_id,
                BalanceKey { account_id: AccountId(a.0), currency },
            );
            let at_b = (
                journal_id,
                BalanceKey { account_id: AccountId(b.0), currency },
            );
            &&& snapshots.contains_key(at_a) <==> snapshots.contains_key(at_b)
            &&& snapshots.contains_key(at_a) ==> {
                &&& snapshots[at_a].version == snapshots[at_b].version
                &&& snapshots[at_a].settled == snapshots[at_b].settled
                &&& snapshots[at_a].pending == snapshots[at_b].pending
                &&& snapshots[at_a].encumbrance == snapshots[at_b].encumbrance
            }
        }),
{
    let mine = journal_entries(entries, journal_id);
    let kept = ledger.ec_sets(journal_id);
    assert forall|k: int| 0 <= k < mine.len() implies {
        let sets = sets_of(kept, #[trigger] mine[k]);
        occurrences(sets, a) == occurrences(sets, b)
    } by {
        let i = lemma_entry_of_journal(entries, journal_id, k);
        assert(entries[i] == mine[k]);
        lemma_folded_as_often_as_member(ledger, journal_id, mine[k], a);
        lemma_folded_as_often_as_member(ledger, journal_id, mine[k], b);
    }
    law_same_members_same_totals(snapshots, ledger, entries, journal_id, a, b, currency);
}

} // verus!
