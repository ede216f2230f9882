//! Verified core of the streaming projector that maintains
//! eventually-consistent (EC) account-set balances.

pub mod balance;
pub mod ledger;
pub mod primitives;
pub mod projector;
