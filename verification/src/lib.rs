//! A per-client account ledger driven by an ordered stream of financial
//! transactions: deposits, withdrawals, disputes, resolves and chargebacks.
//!
//! Monetary amounts are exact base-10 fixed point: an `i64` count of
//! 1/10_000 currency units, so binary floating point never enters the
//! arithmetic and comparisons are exact.

pub mod laws;
pub mod ledger;
pub mod processor;
pub mod types;
