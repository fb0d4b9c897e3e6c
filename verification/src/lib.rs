//! A fungible-token ledger: a fixed total supply of divisible units spread
//! over accounts, with direct transfers and transfers on behalf of an owner
//! bounded by a standing allowance.
//!
//! The ledger is pure state — balances, allowances and the conserved total
//! supply. The hosting environment supplies the identity of the caller as an
//! explicit argument and carries the returned `Transfer` notification to its
//! event sink.

pub mod account;
pub mod ledger;
mod store;
