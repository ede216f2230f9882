pub mod config;
pub mod laws;
