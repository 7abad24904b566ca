//! Core of a constant-product automated market maker: a two-asset liquidity
//! pool with deposits, swaps and withdrawals, computed in overflow-checked
//! integer arithmetic. Every quoted quantity is a deterministic function of
//! the pool snapshot it was quoted against, and rounding always favours the
//! pool, so repeated operations can never leak value out of the reserves.
//!
//! Custody of the assets themselves (transfers, minting and burning of the
//! liquidity-claim token) is left to an external ledger: the operation
//! functions here return the exact amounts to move, and the caller performs
//! the moves atomically.

pub mod config;
pub mod curve;
pub mod error;
pub mod math;
pub mod ops;
