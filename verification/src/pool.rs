use crate::address::Address;
use crate::holder::{descending, HolderInfo};
use crate::shares::DistributionPolicy;
use vstd::prelude::*;

verus! {

/// Most holders a pool of the native coin registers.
pub const NATIVE_CAPACITY: usize = 20;

/// Most holders a pool of a token registers.
pub const TOKEN_CAPACITY: usize = 10;

/// The policy a pool follows. It is fixed when the pool is created: a pool
/// without an asset identity holds the native coin and splits evenly, a pool
/// with one holds that token and splits in proportion.
pub open spec fn policy_for(mint: Option<Address>) -> DistributionPolicy {
    match mint {
        None => DistributionPolicy::EqualSplit,
        Some(_) => DistributionPolicy::ProportionalSplit,
    }
}

/// How many holders a pool with the given policy may register.
pub open spec fn capacity_for(policy: DistributionPolicy) -> nat {
    match policy {
        DistributionPolicy::EqualSplit => NATIVE_CAPACITY as nat,
        DistributionPolicy::ProportionalSplit => TOKEN_CAPACITY as nat,
    }
}

impl DistributionPolicy {
    /// The size at which the registry of such a pool is capped.
    pub fn capacity(self) -> (capacity: usize)
        ensures
            capacity == capacity_for(self),
    {
        match self {
            DistributionPolicy::EqualSplit => NATIVE_CAPACITY,
            DistributionPolicy::ProportionalSplit => TOKEN_CAPACITY,
        }
    }
}

/// The administrative record of one pool.
#[derive(Clone, Debug, PartialEq, Eq)]
pub struct RewardPool {
    /// Who may replace the registry and withdraw from the vault.
    pub owner: Address,
    /// The token the pool pays out; absent for a pool of the native coin.
    pub mint: Option<Address>,
    /// All funds the pool is known to have received.
    pub total_rewards: u64,
    /// All funds the pool has paid out to holders.
    pub total_distributed: u64,
    /// The registry, largest balance first.
    pub top_holders: Vec<HolderInfo>,
    /// Disambiguates the address of this record.
    pub bump: u8,
    /// Disambiguates the address of the vault.
    pub vault_bump: u8,
}

/// A pool record as a mathematical value.
pub struct PoolState {
    pub owner: Address,
    pub mint: Option<Address>,
    pub total_rewards: u64,
    pub total_distributed: u64,
    pub top_holders: Seq<HolderInfo>,
    pub bump: u8,
    pub vault_bump: u8,
}

impl PoolState {
    pub open spec fn policy(self) -> DistributionPolicy {
        policy_for(self.mint)
    }

    pub open spec fn capacity(self) -> nat {
        capacity_for(self.policy())
    }

    /// The registry fits its cap and is ordered by balance, largest first.
    pub open spec fn wf(self) -> bool {
        &&& self.top_holders.len() <= self.capacity()
        &&& descending(self.top_holders)
    }

    /// Bytes the record occupies when stored: a tag, the owner, the asset
    /// identity of a token pool, both counters, the length-prefixed registry
    /// and both bumps.
    pub open spec fn stored_len(self) -> nat {
        (8 + 32 + (if self.mint is Some { 32nat } else { 0nat }) + 8 + 8 + 4 + self.top_holders.len()
            * HolderInfo::SPACE as nat + 1 + 1) as nat
    }
}

/// Bytes to reserve for a pool of the given policy, with its registry full.
pub open spec fn space_for(policy: DistributionPolicy) -> nat {
    match policy {
        DistributionPolicy::EqualSplit => RewardPool::SPACE as nat,
        DistributionPolicy::ProportionalSplit => RewardPool::TOKEN_SPACE as nat,
    }
}

impl View for RewardPool {
    type V = PoolState;

    open spec fn view(&self) -> PoolState {
        PoolState {
            owner: self.owner,
            mint: self.mint,
            total_rewards: self.total_rewards,
            total_distributed: self.total_distributed,
            top_holders: self.top_holders@,
            bump: self.bump,
            vault_bump: self.vault_bump,
        }
    }
}

impl RewardPool {
    /// Bytes reserved for a pool of the native coin.
    pub const SPACE: usize = 8 + 32 + 8 + 8 + 4 + (20 * HolderInfo::SPACE) + 1 + 1;

    /// Bytes reserved for a pool of a token.
    pub const TOKEN_SPACE: usize = 8 + 32 + 32 + 8 + 8 + 4 + (10 * HolderInfo::SPACE) + 1 + 1;

    /// A pool as it stands right after creation: nothing received, nothing
    /// paid, nobody registered.
    pub open spec fn fresh(owner: Address, mint: Option<Address>, bump: u8, vault_bump: u8) -> PoolState {
        PoolState {
            owner,
            mint,
            total_rewards: 0,
            total_distributed: 0,
            top_holders: Seq::empty(),
            bump,
            vault_bump,
        }
    }

    pub fn new(owner: Address, mint: Option<Address>, bump: u8, vault_bump: u8) -> (pool: RewardPool)
        ensures
            pool@ == RewardPool::fresh(owner, mint, bump, vault_bump),
            pool@.wf(),
    {
        let policy: DistributionPolicy = match mint {
            None => DistributionPolicy::EqualSplit,
            Some(_) => DistributionPolicy::ProportionalSplit,
        };
        RewardPool {
            owner,
            mint,
            total_rewards: 0,
            total_distributed: 0,
            top_holders: Vec::with_capacity(policy.capacity()),
            bump,
            vault_bump,
        }
    }

    pub fn policy(&self) -> (policy: DistributionPolicy)
        ensures
            policy == self@.policy(),
    {
        match self.mint {
            None => DistributionPolicy::EqualSplit,
            Some(_) => DistributionPolicy::ProportionalSplit,
        }
    }

    pub fn capacity(&self) -> (capacity: usize)
        ensures
            capacity == self@.capacity(),
    {
        self.policy().capacity()
    }

    /// Whether `caller` is the identity that privileged operations demand.
    pub fn is_owner(&self, caller: &Address) -> (yes: bool)
        ensures
            yes == (*caller == self@.owner),
    {
        *caller == self.owner
    }

    /// Bytes to reserve when a pool of the given policy is created. The
    /// record never outgrows them.
    pub fn space(policy: DistributionPolicy) -> (bytes: usize)
        ensures
            bytes == space_for(policy),
    {
        match policy {
            DistributionPolicy::EqualSplit => RewardPool::SPACE,
            DistributionPolicy::ProportionalSplit => RewardPool::TOKEN_SPACE,
        }
    }
}

/// A record whose registry respects its cap fits the space reserved for it.
pub proof fn lemma_record_fits_reserved_space(pool: PoolState)
    requires
        pool.top_holders.len() <= pool.capacity(),
    ensures
        pool.stored_len() <= space_for(pool.policy()),
{
    assert(pool.top_holders.len() * 40 <= pool.capacity() * 40) by (nonlinear_arith)
        requires
            pool.top_holders.len() <= pool.capacity(),
    ;
}

} // verus!
