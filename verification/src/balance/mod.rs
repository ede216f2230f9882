//! Balance snapshots and the decimal amounts that they hold.

pub mod amount;
pub mod laws;
pub mod snapshot;
pub mod store;
pub mod totals;
