//! Streaming projector for eventually-consistent (EC) account-set balances.

pub mod batch;
pub mod collect;
pub mod effective;
pub mod error;
pub mod fold;
pub mod grouping;
pub mod hierarchy;
pub mod laws;
pub mod listing;
pub mod mappings;
pub mod ordered;
pub mod progress;
pub mod repo;
pub mod runner;
pub mod state;
pub mod steps;
pub mod world;

pub use state::{BalanceProjectorConfig, ProjectorState};
