//! Accounting and risk core of a collateralized lending protocol.
//!
//! The library tracks how much each participant has supplied and borrowed
//! across a set of isolated asset pools ("banks"), accrues interest over
//! time, and decides whether an account's position is healthy enough to
//! permit an operation (borrow, withdraw, flashloan) or must be liquidated
//! or socialized as a loss.
//!
//! All balances are held as shares; a per-bank exchange rate (the share
//! value) converts shares to underlying token amounts, so interest accrual
//! is O(1) in the number of accounts.
//!
//! The checked fixed-point arithmetic lives in [`fixnum`]; one pool's
//! ledger, rate curve and vaults in [`bank`]; one participant's balances
//! and flags in [`account`]; oracle snapshot validation in [`price`]; the
//! health computation in [`risk`]; and one procedure per economic action in
//! [`actions`].  Every conversion rounds in the pool's favour, every action
//! either commits whole or leaves no trace, and each pool's claims stay
//! covered by its vault and the debt owed to it.

pub mod account;
pub mod actions;
pub mod bank;
pub mod errors;
pub mod fixnum;
pub mod ix_utils;
pub mod price;
pub mod risk;
pub mod staked_settings;

pub use fixnum::Fx;
