//! Core of a delegated-staking pool: conversion math between a base asset and
//! proportional "stake" shares, the per-account ledger, epoch-synchronised
//! bookkeeping, and the two-phase mint/burn confirmation protocol for the
//! stake and unstake flows.
//!
//! Every operation carries a contract; the pool-level invariants (the integer
//! share price `total_staked_balance / total_stake_shares` never decreases,
//! issued shares always equal the sum of the ledger's shares) are proved.

pub mod account;
pub mod errors;
pub mod fraction;
pub mod interface;
pub mod laws;
pub mod ledger;
pub mod pool;
pub mod token_receiver;
pub mod wide;

pub use account::Account;
pub use errors::PoolError;
pub use fraction::RewardFeeFraction;
pub use interface::FungibleToken;
pub use ledger::AccountEntry;
pub use ledger::AccountLedger;
pub use pool::BurnRequest;
pub use pool::MintRequest;
pub use pool::NUM_EPOCHS_TO_UNLOCK;
pub use pool::StakingContract;
pub use pool::UnstakeOutcome;
pub use token_receiver::UserAction;
pub use wide::mul_div_ceil;
pub use wide::mul_div_floor;
