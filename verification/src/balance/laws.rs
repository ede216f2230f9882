//! What holds of amounts, snapshots and lists of them, said of their fields.

use crate::balance::amount::{decimal_sum, exact_sum, Amount, MAX_SCALE};
use crate::balance::snapshot::{BalanceAmount, BalanceSnapshot};
use crate::balance::store::{lists_balances, BalanceKey};
use crate::balance::totals::Totals;
use crate::primitives::{AccountId, DebitOrCredit, EntryValues, Layer, Timestamp};
use vstd::arithmetic::power::{lemma_pow_adds, pow};
use vstd::prelude::*;

verus! {

/// The six sides of a balance: debit and credit, settled, pending and
/// encumbered.
pub open spec fn sides(
    settled: BalanceAmount,
    pending: BalanceAmount,
    encumbrance: BalanceAmount,
) -> Seq<Amount> {
    seq![
        settled.dr_balance,
        settled.cr_balance,
        pending.dr_balance,
        pending.cr_balance,
        encumbrance.dr_balance,
        encumbrance.cr_balance,
    ]
}

/// Which of the six sides an entry moves.
pub open spec fn side_of(entry: EntryValues) -> int {
    match (entry.layer, entry.direction) {
        (Layer::Settled, DebitOrCredit::Debit) => 0,
        (Layer::Settled, DebitOrCredit::Credit) => 1,
        (Layer::Pending, DebitOrCredit::Debit) => 2,
        (Layer::Pending, DebitOrCredit::Credit) => 3,
        (Layer::Encumbrance, DebitOrCredit::Debit) => 4,
        (Layer::Encumbrance, DebitOrCredit::Credit) => 5,
    }
}

/// An entry is folded exactly if its side has a sum and the version a
/// successor. It then moves that side, to the sum, and no other; it raises the
/// version by one, leaves its id and the time, and keeps whose balance it is.
pub proof fn law_an_entry_moves_its_side_alone(
    time: Timestamp,
    snapshot: BalanceSnapshot,
    entry: EntryValues,
)
    ensures
        ({
            let before = sides(snapshot.settled, snapshot.pending, snapshot.encumbrance);
            let sum = decimal_sum(before[side_of(entry)], entry.units);
            &&& snapshot.try_fold(time, entry) is Some <==> snapshot.version < u32::MAX
                && sum is Some
            &&& snapshot.try_fold(time, entry) matches Some(folded) ==> {
                &&& sides(folded.settled, folded.pending, folded.encumbrance) == before.update(
                    side_of(entry),
                    sum->0,
                )
                &&& folded.version == snapshot.version + 1
                &&& folded.entry_id == entry.id
                &&& folded.modified_at == time
                &&& folded.created_at == snapshot.created_at
                &&& folded.journal_id == snapshot.journal_id
                &&& folded.account_id == snapshot.account_id
                &&& folded.currency == snapshot.currency
            }
        }),
{
    if let Some(folded) = snapshot.try_fold(time, entry) {
        let before = sides(snapshot.settled, snapshot.pending, snapshot.encumbrance);
        assert(sides(folded.settled, folded.pending, folded.encumbrance) =~= before.update(
            side_of(entry),
            decimal_sum(before[side_of(entry)], entry.units)->0,
        ));
    }
}

/// Posting an entry to totals does what folding it into a snapshot does, to the
/// version and to the six sides.
pub proof fn law_posting_is_folding_without_times(
    time: Timestamp,
    snapshot: BalanceSnapshot,
    entry: EntryValues,
)
    ensures
        ({
            let totals = snapshot.totals();
            &&& totals.version == snapshot.version
            &&& sides(totals.settled, totals.pending, totals.encumbrance) == sides(
                snapshot.settled,
                snapshot.pending,
                snapshot.encumbrance,
            )
            &&& totals.after(entry) == match snapshot.try_fold(time, entry) {
                Some(folded) => Some(folded.totals()),
                None => None,
            }
        }),
        Totals::zero().version == 0,
        forall|i: int|
            0 <= i < 6 ==> (#[trigger] sides(
                Totals::zero().settled,
                Totals::zero().pending,
                Totals::zero().encumbrance,
            )[i]).mantissa == 0,
{
}

/// A blank snapshot holds nothing on any side, has no version, and is that of
/// the account, in the journal and currency of the entry.
pub proof fn law_blank_snapshots_hold_nothing(
    time: Timestamp,
    account_id: AccountId,
    entry: EntryValues,
)
    ensures
        ({
            let blank = BalanceSnapshot::blank(time, account_id, entry);
            &&& forall|i: int|
                0 <= i < 6 ==> #[trigger] sides(
                    blank.settled,
                    blank.pending,
                    blank.encumbrance,
                )[i] == (Amount { mantissa: 0, scale: 0 })
            &&& blank.version == 0
            &&& blank.account_id == account_id
            &&& blank.journal_id == entry.journal_id
            &&& blank.currency == entry.currency
            &&& blank.created_at == time
        }),
{
}

/// The amount on a side that a layer and a direction name is the one of the six
/// that an entry of that layer and direction moves.
pub proof fn law_sides_are_named_by_layer_and_direction(
    snapshot: BalanceSnapshot,
    entry: EntryValues,
)
    ensures
        snapshot.amount(entry.layer, entry.direction) == sides(
            snapshot.settled,
            snapshot.pending,
            snapshot.encumbrance,
        )[side_of(entry)],
{
}

/// A list of balances has each of them once, with its snapshot, and nothing
/// else, by account and then by currency.
pub proof fn law_lists_of_balances_are_complete(
    listed: Seq<(BalanceKey, BalanceSnapshot)>,
    of: Map<BalanceKey, BalanceSnapshot>,
)
    requires
        lists_balances(listed, of),
    ensures
        forall|key: BalanceKey| #[trigger]
            of.contains_key(key) ==> listed.contains((key, of[key])),
        forall|i: int|
            0 <= i < listed.len() ==> of.contains_key((#[trigger] listed[i]).0) && of[listed[i].0]
                == listed[i].1,
        forall|i: int, j: int|
            0 <= i < j < listed.len() ==> {
                let a = (#[trigger] listed[i]).0;
                let b = (#[trigger] listed[j]).0;
                a.account_id.0 < b.account_id.0 || a.account_id.0 == b.account_id.0
                    && a.currency.0 < b.currency.0
            },
{
    assert forall|key: BalanceKey| #[trigger] of.contains_key(key) implies listed.contains(
        (key, of[key]),
    ) by {
        let i = choose|i: int| 0 <= i < listed.len() && #[trigger] listed[i].0 == key;
        assert(listed[i] == (key, of[key]));
    }
    assert forall|i: int, j: int| 0 <= i < j < listed.len() implies {
        let a = (#[trigger] listed[i]).0;
        let b = (#[trigger] listed[j]).0;
        a.account_id.0 < b.account_id.0 || a.account_id.0 == b.account_id.0 && a.currency.0
            < b.currency.0
    } by {
        assert(listed[i].0.before(listed[j].0));
    }
}

/// What a decimal can hold, and what it stands for: a mantissa of ninety-six
/// bits, either sign, over a power of ten of at most twenty-eight digits.
pub proof fn law_amounts_are_decimals(amount: Amount)
    ensures
        amount.representable() <==> -79_228_162_514_264_337_593_543_950_335
            <= amount.mantissa <= 79_228_162_514_264_337_593_543_950_335 && amount.scale <= 28,
        amount.scale <= 28 ==> amount.value() * pow(10, amount.scale as nat) == amount.mantissa
            * pow(10, 28),
        Amount::spec_zero() == (Amount { mantissa: 0, scale: 0 }),
{
    if amount.scale <= 28 {
        let up = (MAX_SCALE - amount.scale) as nat;
        let down = amount.scale as nat;
        lemma_pow_adds(10, up, down);
        assert((amount.mantissa * pow(10, up)) * pow(10, down) == amount.mantissa * (pow(10, up)
            * pow(10, down))) by (nonlinear_arith);
    }
}

/// Exact sums of zero, and of amounts of one scale: a zero gives way to the other
/// amount, and mantissas of one scale are added where the sum is representable.
pub proof fn law_exact_sums_of_one_scale(a: Amount, b: Amount)
    requires
        a.representable(),
        b.representable(),
    ensures
        a.mantissa == 0 ==> exact_sum(a, b) == Some(b),
        a.mantissa != 0 && b.mantissa == 0 ==> exact_sum(a, b) == Some(a),
        a.mantissa != 0 && b.mantissa != 0 && a.scale == b.scale
            && -79_228_162_514_264_337_593_543_950_335 <= a.mantissa + b.mantissa
            <= 79_228_162_514_264_337_593_543_950_335 ==> exact_sum(a, b) == Some(
            Amount { mantissa: (a.mantissa + b.mantissa) as i128, scale: a.scale },
        ),
{
    reveal(pow);
    if a.scale == b.scale {
        assert(a.mantissa * pow(10, 0) == a.mantissa) by (nonlinear_arith)
            requires
                pow(10, 0) == 1,
        ;
        assert(b.mantissa * pow(10, 0) == b.mantissa) by (nonlinear_arith)
            requires
                pow(10, 0) == 1,
        ;
    }
}

} // verus!
