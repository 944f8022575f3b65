//! A ledger replay engine: fixed-point amounts, per-client accounts with a
//! dispute lifecycle for deposits, and an engine that routes transactions.

pub mod amount;
pub mod error;
pub mod account;
pub mod transaction;
pub mod engine;
