//! Core state-transition logic of a constant-product automated market maker.
//!
//! The crate maintains pooled-liquidity pairs of two fungible assets, mints
//! and burns pool-share tokens against deposits and withdrawals, executes
//! swaps that preserve (up to fee accrual) the product of the reserves, and
//! maintains time-weighted price accumulators. Asset and account identifiers
//! are opaque `u64` values; balances are exact `u128` integers and every
//! arithmetic step is checked, never wrapping.

pub mod kv;
pub mod ledger;
pub mod math;
pub mod pallet;
pub mod registry;
pub mod traits;
pub mod types;
