//! A custodial token-vesting ledger: a master authority deposits funds
//! that vest for beneficiaries over linear, periodic or cliff schedules;
//! beneficiaries claim vested amounts over time; the master may
//! deregister an account early, splitting vested and unvested balances.
//!
//! The engine only decides amounts and emits transfer instructions;
//! moving funds and persisting state between calls belong to the caller.

pub mod contract;
pub mod denom;
pub mod error;
pub mod msg;
pub mod order;
pub mod state;
