//! A verified ledger for liquidity-pool staking.
//!
//! Holders of a pool position earn a reward that accrues by the second.
//! A position enters the ledger by a Merkle proof against a snapshot root
//! that the administrator posts for each epoch; from then on a per-pool
//! fixed-point accumulator prices what each account is owed.
//!
//! - [`merkle`]: leaves, nodes and proofs of membership.
//! - [`rewards`]: the accumulator, reward debt, and what an entry is owed.
//! - [`storage`]: the records of the ledger and the store that keeps them.
//! - [`contract`] and [`admin`]: the operations, each with the spec
//!   function that says what it comes to on a given store.
//!
//! The operations work on a [`Store`] held in memory and take the current
//! time as an argument; reading the clock, checking the caller's
//! authorization, persisting records and moving tokens are left to the
//! caller.
//!
//! Arithmetic never wraps. Each operation that computes comes in two
//! forms: one that requires its arithmetic to fit the working width, and a
//! `checked_` one that takes every input and returns `None`, leaving the
//! store as it was, where it does not fit.

pub mod address;
pub mod admin;
pub mod contract;
pub mod errors;
pub mod merkle;
pub mod rewards;
pub mod storage;

pub use address::{Address, AddressKind, Bytes32};
pub use contract::LpStakingContract;
pub use errors::ContractError;
pub use rewards::{
    calculate_pending, calculate_pending_stale, checked_pending, checked_reward_debt,
    compute_reward_debt, PRECISION,
};
pub use storage::{DataKey, MerkleRootData, PoolState, Record, StakerInfo, Store};
