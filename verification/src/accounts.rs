use crate::address::Address;
use crate::pool::RewardPool;
use crate::vault::{Vault, VaultAuthority};
use vstd::prelude::*;

verus! {

/// What the ledger shows of an account that can receive or supply funds.
#[derive(Clone, Copy, Debug, PartialEq, Eq)]
pub struct HoldingAccount {
    /// Where the account lives.
    pub address: Address,
    /// The token it holds; absent for an account of the native coin.
    pub mint: Option<Address>,
    /// The program that manages it.
    pub program: Address,
}

/// One transfer out of the vault that a distribution has approved.
#[derive(Clone, Copy, Debug, PartialEq, Eq)]
pub struct Payout {
    /// Position of the holder in the registry, and of its account among
    /// the recipients.
    pub index: usize,
    /// Address of the receiving account.
    pub to: Address,
    /// Units to move.
    pub amount: u64,
}

/// The outgoing transfers an operation has approved, with the authority that
/// signs them. The caller carries them out, all or none.
#[derive(Debug)]
pub struct Disbursement {
    pub authority: VaultAuthority,
    pub payouts: Vec<Payout>,
}

/// The single transfer out of the vault that a withdrawal has approved,
/// with the authority that signs it.
#[derive(Debug)]
pub struct Withdrawal {
    pub authority: VaultAuthority,
    /// Address of the receiving account.
    pub to: Address,
    /// Units to move.
    pub amount: u64,
}

/// The accounts of a pool's creation.
#[derive(Clone, Debug, PartialEq, Eq)]
pub struct InitializePool {
    /// The record to fill in.
    pub pool: RewardPool,
    /// The token the pool will pay out; absent for the native coin.
    pub mint: Option<Address>,
    /// The bump found for the record's address.
    pub pool_bump: u8,
    /// The bump found for the vault's address.
    pub vault_bump: u8,
}

/// The accounts of a registry update.
#[derive(Clone, Debug, PartialEq, Eq)]
pub struct UpdateTopHolders {
    pub pool: RewardPool,
    /// Who signed the request.
    pub authority: Address,
}

/// The accounts of a deposit.
#[derive(Clone, Debug, PartialEq, Eq)]
pub struct Deposit {
    pub pool: RewardPool,
    pub pool_vault: Vault,
    /// The account the funds come from.
    pub source: HoldingAccount,
    /// The program that moves the pool's asset.
    pub asset_program: Address,
}

/// The accounts of a distribution. Anyone may ask for one.
#[derive(Clone, Debug, PartialEq, Eq)]
pub struct DistributeRewards {
    pub pool: RewardPool,
    pub pool_vault: Vault,
    /// The program that moves the pool's asset.
    pub asset_program: Address,
    /// The receiving accounts, in the order of the registry.
    pub remaining_accounts: Vec<HoldingAccount>,
}

/// The accounts of a withdrawal by the owner.
#[derive(Clone, Debug, PartialEq, Eq)]
pub struct OwnerWithdraw {
    pub pool: RewardPool,
    pub pool_vault: Vault,
    /// Who signed the request, and receives the funds.
    pub owner: Address,
}

} // verus!
