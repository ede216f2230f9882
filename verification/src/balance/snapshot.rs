//! Running balances of an account, one snapshot per currency.

use crate::balance::amount::{decimal_sum, exact_sum, Amount};
use crate::primitives::{
    AccountId, Currency, DebitOrCredit, EntryId, EntryValues, JournalId, Layer, Timestamp,
};
use vstd::prelude::*;

verus! {

/// The debit and the credit side of one layer of a balance.
#[derive(Clone, Copy, Debug, PartialEq, Eq, Structural)]
pub struct BalanceAmount {
    pub dr_balance: Amount,
    pub cr_balance: Amount,
}

/// The balance of one account in one currency after some entry.
#[derive(Clone, Copy, Debug, PartialEq, Eq, Structural)]
pub struct BalanceSnapshot {
    pub journal_id: JournalId,
    pub account_id: AccountId,
    pub currency: Currency,
    /// The entry that was folded last.
    pub entry_id: EntryId,
    /// The number of entries that were folded.
    pub version: u32,
    pub created_at: Timestamp,
    pub modified_at: Timestamp,
    pub settled: BalanceAmount,
    pub pending: BalanceAmount,
    pub encumbrance: BalanceAmount,
}

impl BalanceAmount {
    /// Neither debited nor credited.
    pub open spec fn spec_zero() -> BalanceAmount {
        BalanceAmount { dr_balance: Amount::spec_zero(), cr_balance: Amount::spec_zero() }
    }

    /// The side that `direction` names.
    pub open spec fn side(self, direction: DebitOrCredit) -> Amount {
        match direction {
            DebitOrCredit::Debit => self.dr_balance,
            DebitOrCredit::Credit => self.cr_balance,
        }
    }

    /// The layer with `amount` on the side that `direction` names.
    pub open spec fn with_side(self, direction: DebitOrCredit, amount: Amount) -> BalanceAmount {
        match direction {
            DebitOrCredit::Debit => BalanceAmount { dr_balance: amount, ..self },
            DebitOrCredit::Credit => BalanceAmount { cr_balance: amount, ..self },
        }
    }

    fn get_side(&self, direction: DebitOrCredit) -> (amount: Amount)
        ensures
            amount == self.side(direction),
    {
        match direction {
            DebitOrCredit::Debit => self.dr_balance,
            DebitOrCredit::Credit => self.cr_balance,
        }
    }

    fn set_side(&self, direction: DebitOrCredit, amount: Amount) -> (layer: BalanceAmount)
        ensures
            layer == self.with_side(direction, amount),
    {
        match direction {
            DebitOrCredit::Debit => BalanceAmount {
                dr_balance: amount,
                cr_balance: self.cr_balance,
            },
            DebitOrCredit::Credit => BalanceAmount {
                dr_balance: self.dr_balance,
                cr_balance: amount,
            },
        }
    }
}

impl BalanceSnapshot {
    /// The layer that `layer` names.
    pub open spec fn layer(self, layer: Layer) -> BalanceAmount {
        match layer {
            Layer::Settled => self.settled,
            Layer::Pending => self.pending,
            Layer::Encumbrance => self.encumbrance,
        }
    }

    /// The snapshot with another value of the layer that `layer` names.
    pub open spec fn with_layer(self, layer: Layer, amount: BalanceAmount) -> BalanceSnapshot {
        match layer {
            Layer::Settled => BalanceSnapshot { settled: amount, ..self },
            Layer::Pending => BalanceSnapshot { pending: amount, ..self },
            Layer::Encumbrance => BalanceSnapshot { encumbrance: amount, ..self },
        }
    }

    /// One side of one layer.
    pub open spec fn amount(self, layer: Layer, direction: DebitOrCredit) -> Amount {
        self.layer(layer).side(direction)
    }

    /// The amount on the side that `entry` moves, once it has been moved.
    pub open spec fn moved(self, entry: EntryValues) -> Option<Amount> {
        decimal_sum(self.amount(entry.layer, entry.direction), entry.units)
    }

    /// Whether `entry` can be folded: its side has a sum, and the version has
    /// a successor.
    pub open spec fn can_fold(self, entry: EntryValues) -> bool {
        self.version < u32::MAX && self.moved(entry) is Some
    }

    /// The snapshot once `entry` is folded into it at `time`.
    pub open spec fn folded(self, time: Timestamp, entry: EntryValues) -> BalanceSnapshot {
        BalanceSnapshot {
            version: (self.version + 1) as u32,
            modified_at: time,
            entry_id: entry.id,
            ..self.with_layer(
                entry.layer,
                self.layer(entry.layer).with_side(entry.direction, self.moved(entry)->0),
            )
        }
    }

    /// The snapshot once `entry` is folded into it, or `None` where it cannot
    /// be.
    pub open spec fn try_fold(self, time: Timestamp, entry: EntryValues) -> Option<
        BalanceSnapshot,
    > {
        if self.can_fold(entry) {
            Some(self.folded(time, entry))
        } else {
            None
        }
    }

    /// Whether the side that `entry` moves is, in `updated`, the exact sum of
    /// what it is here and the units of `entry`, wherever that sum needs no
    /// rounding.
    pub open spec fn grows_exactly(self, entry: EntryValues, updated: BalanceSnapshot) -> bool {
        exact_sum(self.amount(entry.layer, entry.direction), entry.units) matches Some(sum)
            ==> updated.amount(entry.layer, entry.direction) == sum
    }

    /// The snapshot of `account_id`, in the journal and currency of `entry`,
    /// before anything was folded.
    pub open spec fn blank(
        time: Timestamp,
        account_id: AccountId,
        entry: EntryValues,
    ) -> BalanceSnapshot {
        BalanceSnapshot {
            journal_id: entry.journal_id,
            account_id,
            currency: entry.currency,
            entry_id: entry.id,
            version: 0,
            created_at: time,
            modified_at: time,
            settled: BalanceAmount::spec_zero(),
            pending: BalanceAmount::spec_zero(),
            encumbrance: BalanceAmount::spec_zero(),
        }
    }

    fn get_layer(&self, layer: Layer) -> (amount: BalanceAmount)
        ensures
            amount == self.layer(layer),
    {
        match layer {
            Layer::Settled => self.settled,
            Layer::Pending => self.pending,
            Layer::Encumbrance => self.encumbrance,
        }
    }
}

/// How snapshots come to be.
pub struct Snapshots;

impl Snapshots {
    /// Folds `entry` into `snapshot`: the side of the layer that the entry
    /// names grows by the units of the entry, and the version by one. `None`
    /// where the side has no such sum or the version no successor; a sum that
    /// needs no rounding is always there.
    pub fn update_snapshot(
        time: Timestamp,
        snapshot: BalanceSnapshot,
        entry: &EntryValues,
    ) -> (updated: Option<BalanceSnapshot>)
        ensures
            updated == snapshot.try_fold(time, *entry),
            snapshot.version < u32::MAX && exact_sum(
                snapshot.amount(entry.layer, entry.direction),
                entry.units,
            ) is Some ==> updated is Some,
            updated is Some ==> snapshot.grows_exactly(*entry, updated->0)
                && entry.units.representable(),
    {
        let layer = snapshot.get_layer(entry.layer);
        let side = layer.get_side(entry.direction);
        match side.checked_add(entry.units) {
            Some(sum) => {
                if snapshot.version == u32::MAX {
                    return None;
                }
                let layer = layer.set_side(entry.direction, sum);
                let mut updated = snapshot;
                updated.version = snapshot.version + 1;
                updated.modified_at = time;
                updated.entry_id = entry.id;
                match entry.layer {
                    Layer::Settled => {
                        updated.settled = layer;
                    },
                    Layer::Pending => {
                        updated.pending = layer;
                    },
                    Layer::Encumbrance => {
                        updated.encumbrance = layer;
                    },
                }
                Some(updated)
            },
            None => None,
        }
    }

    /// The first snapshot of `account_id` in the currency of `entry`: a blank
    /// one with `entry` folded into it. `None` where the units of the entry are
    /// no decimal.
    pub fn new_snapshot(time: Timestamp, account_id: AccountId, entry: &EntryValues) -> (created:
        Option<BalanceSnapshot>)
        ensures
            created == BalanceSnapshot::blank(time, account_id, *entry).try_fold(time, *entry),
            created is Some <==> entry.units.representable(),
            created is Some ==> BalanceSnapshot::blank(time, account_id, *entry).grows_exactly(
                *entry,
                created->0,
            ),
    {
        let zero = BalanceAmount { dr_balance: Amount::zero(), cr_balance: Amount::zero() };
        let blank = BalanceSnapshot {
            journal_id: entry.journal_id,
            account_id,
            currency: entry.currency,
            entry_id: entry.id,
            version: 0,
            created_at: time,
            modified_at: time,
            settled: zero,
            pending: zero,
            encumbrance: zero,
        };
        Self::update_snapshot(time, blank, entry)
    }
}

} // verus!
