//! Identifiers and the ledger entry, as plain values.
//!
//! Every entity id is a UUID, held as the `u128` of its big-endian bytes, so
//! that the order of the numbers is the order of the UUIDs.

use crate::balance::amount::Amount;
use vstd::prelude::*;

verus! {

/// The id of an account.
#[derive(Clone, Copy, Debug, PartialEq, Eq, Hash, Structural)]
pub struct AccountId(pub u128);

/// The id of an account set.
#[derive(Clone, Copy, Debug, PartialEq, Eq, Hash, Structural)]
pub struct AccountSetId(pub u128);

/// The id of a journal.
#[derive(Clone, Copy, Debug, PartialEq, Eq, Hash, Structural)]
pub struct JournalId(pub u128);

/// The id of a transaction.
#[derive(Clone, Copy, Debug, PartialEq, Eq, Hash, Structural)]
pub struct TransactionId(pub u128);

/// The id of a ledger entry.
#[derive(Clone, Copy, Debug, PartialEq, Eq, Hash, Structural)]
pub struct EntryId(pub u128);

/// The id of the durable job that a projector runs as.
#[derive(Clone, Copy, Debug, PartialEq, Eq, Hash, Structural)]
pub struct JobId(pub u128);

/// A currency, by a number that orders currencies.
#[derive(Clone, Copy, Debug, PartialEq, Eq, Hash, Structural)]
pub struct Currency(pub u64);

/// A point in time: whole seconds since the Unix epoch, and the nanoseconds
/// since then.
#[derive(Clone, Copy, Debug, PartialEq, Eq, Hash, Structural)]
pub struct Timestamp {
    pub seconds: i64,
    pub nanos: u32,
}

/// A calendar date, in days since 31 December of the year before year 1.
#[derive(Clone, Copy, Debug, PartialEq, Eq, Hash, Structural)]
pub struct Date(pub i32);

/// The layer of a balance that an entry moves.
#[derive(Clone, Copy, Debug, PartialEq, Eq, Structural)]
pub enum Layer {
    Settled,
    Pending,
    Encumbrance,
}

/// The side of a balance that an entry moves.
#[derive(Clone, Copy, Debug, PartialEq, Eq, Structural)]
pub enum DebitOrCredit {
    Debit,
    Credit,
}

/// A ledger entry: one movement of `units` on one account.
#[derive(Clone, Copy, Debug, PartialEq, Eq, Structural)]
pub struct EntryValues {
    pub id: EntryId,
    pub journal_id: JournalId,
    pub transaction_id: TransactionId,
    pub account_id: AccountId,
    pub currency: Currency,
    pub layer: Layer,
    pub direction: DebitOrCredit,
    pub units: Amount,
}

impl AccountId {
    /// The account under which the balances of the set `id` are kept: an
    /// account set and its account share one UUID.
    pub fn of_set(id: AccountSetId) -> (account_id: AccountId)
        ensures
            account_id == Self::spec_of_set(id),
    {
        AccountId(id.0)
    }

    /// What [`AccountId::of_set`] returns.
    pub open spec fn spec_of_set(id: AccountSetId) -> AccountId {
        AccountId(id.0)
    }
}

} // verus!
