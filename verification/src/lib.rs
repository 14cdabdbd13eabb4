//! Escrowed reward pool: a capped registry of top holders and the
//! arithmetic that splits a vault balance among them.
//!
//! The library decides; it moves no funds. Each operation takes what the
//! ledger shows of the accounts involved, as plain values, and either
//! refuses, leaving everything as it was, or returns the new state together
//! with the transfers it has approved. Whoever calls it carries those out,
//! all or none.
//!
//! * [`ranking`] orders a list of holders, largest balance first.
//! * [`shares`] holds the two policies and their arithmetic.
//! * [`distribution`] matches recipients and plans the payouts of a pass.
//! * [`instructions`] holds the five operations on a pool.

pub mod accounts;
pub mod address;
pub mod distribution;
pub mod error;
pub mod holder;
pub mod instructions;
pub mod pool;
pub mod ranking;
pub mod shares;
pub mod vault;

pub use crate::accounts::{
    Deposit, Disbursement, DistributeRewards, HoldingAccount, InitializePool, OwnerWithdraw,
    Payout, UpdateTopHolders, Withdrawal,
};
pub use crate::address::Address;
pub use crate::error::ErrorCode;
pub use crate::holder::HolderInfo;
pub use crate::instructions::{
    deposit, distribute_rewards, initialize_pool, owner_withdraw, update_top_holders,
};
pub use crate::pool::RewardPool;
pub use crate::shares::DistributionPolicy;
pub use crate::vault::{Vault, VaultAuthority};
