use crate::accounts::{
    Deposit, Disbursement, DistributeRewards, HoldingAccount, InitializePool, OwnerWithdraw,
    UpdateTopHolders, Withdrawal,
};
use crate::address::Address;
use crate::distribution::{
    distribution_of, lemma_equal_split_settlement, lemma_proportional_split_settlement,
    lemma_settlement_balances, plan_distribution, Settlement,
};
use crate::error::ErrorCode;
use crate::holder::{descending, strictly_descending, total_weight, HolderInfo};
use crate::pool::{PoolState, RewardPool};
use crate::ranking::{distinct_balances, select_top, top_ranked};
use crate::shares::DistributionPolicy;
use crate::vault::{vault_seeds, VaultAuthority};
use vstd::prelude::*;

verus! {

/// Fills in the record of a new pool: the owner as given, the asset and the
/// bumps from the accounts, both counters at zero and an empty registry.
/// That the record and its vault did not exist before is the business of
/// whoever creates their accounts.
pub fn initialize_pool(ctx: &mut InitializePool, pool_owner: Address) -> (result: Result<
    (),
    ErrorCode,
>)
    ensures
        result is Ok,
        final(ctx).pool@ == RewardPool::fresh(
            pool_owner,
            old(ctx).mint,
            old(ctx).pool_bump,
            old(ctx).vault_bump,
        ),
        final(ctx).pool@.wf(),
        final(ctx).mint == old(ctx).mint,
        final(ctx).pool_bump == old(ctx).pool_bump,
        final(ctx).vault_bump == old(ctx).vault_bump,
{
    ctx.pool = RewardPool::new(pool_owner, ctx.mint, ctx.pool_bump, ctx.vault_bump);
    Ok(())
}

/// What a registry update makes of a pool. A list longer than the pool's
/// cap is refused, then a caller who is not the owner. Otherwise the list,
/// ordered by balance with the largest first, replaces the registry; holders
/// of equal balance keep the order in which they were listed.
pub open spec fn registry_update_of(
    pool: PoolState,
    caller: Address,
    holders: Seq<HolderInfo>,
) -> Result<PoolState, ErrorCode> {
    if holders.len() > pool.capacity() {
        Err(ErrorCode::TooManyHolders)
    } else if caller != pool.owner {
        Err(ErrorCode::Unauthorized)
    } else {
        Ok(PoolState { top_holders: top_ranked(holders, pool.capacity()), ..pool })
    }
}

/// Replaces the registry of top holders. Nothing of the old registry is
/// kept, and nothing is changed when the update is refused.
pub fn update_top_holders(ctx: &mut UpdateTopHolders, holders: Vec<HolderInfo>) -> (result: Result<
    (),
    ErrorCode,
>)
    ensures
        match result {
            Ok(_) => registry_update_of(old(ctx).pool@, old(ctx).authority, holders@) == Ok::<
                PoolState,
                ErrorCode,
            >(final(ctx).pool@),
            Err(fault) => registry_update_of(old(ctx).pool@, old(ctx).authority, holders@)
                == Err::<PoolState, ErrorCode>(fault) && *final(ctx) == *old(ctx),
        },
        final(ctx).authority == old(ctx).authority,
        // The new registry has an entry for each holder listed, no more than
        // the cap allows, with the largest balance first; where no two listed
        // balances are equal, each entry is smaller than the one before it.
        result is Ok ==> ({
            &&& final(ctx).pool@.wf()
            &&& final(ctx).pool@.top_holders.len() == holders@.len()
            &&& holders@.len() <= old(ctx).pool@.capacity()
            &&& descending(final(ctx).pool@.top_holders)
            &&& distinct_balances(holders@) ==> strictly_descending(final(ctx).pool@.top_holders)
        }),
{
    let capacity: usize = ctx.pool.capacity();
    if holders.len() > capacity {
        return Err(ErrorCode::TooManyHolders);
    }
    if !ctx.pool.is_owner(&ctx.authority) {
        return Err(ErrorCode::Unauthorized);
    }
    ctx.pool.top_holders = select_top(&holders, capacity);
    Ok(())
}

/// What a deposit of `amount` makes of the amount received and of the vault
/// balance. The source must hold the pool's asset and, in a token pool, be
/// managed by the program that moves it. Neither number may overflow.
pub open spec fn deposit_of(
    pool: PoolState,
    vault_balance: u64,
    source: HoldingAccount,
    asset_program: Address,
    amount: u64,
) -> Result<(u64, u64), ErrorCode> {
    if source.mint != pool.mint {
        Err(ErrorCode::InvalidMint)
    } else if pool.mint is Some && source.program != asset_program {
        Err(ErrorCode::InvalidTokenProgram)
    } else if pool.total_rewards + amount > u64::MAX || vault_balance + amount > u64::MAX {
        Err(ErrorCode::MathOverflow)
    } else {
        Ok(((pool.total_rewards + amount) as u64, (vault_balance + amount) as u64))
    }
}

/// Records `amount` units moved from the source account into the vault.
/// Anyone may deposit. A deposit never starts a distribution: that is asked
/// for on its own, with the recipients' accounts.
pub fn deposit(ctx: &mut Deposit, amount: u64) -> (result: Result<(), ErrorCode>)
    ensures
        match result {
            Ok(_) => {
                &&& deposit_of(
                    old(ctx).pool@,
                    old(ctx).pool_vault.balance,
                    old(ctx).source,
                    old(ctx).asset_program,
                    amount,
                ) == Ok::<(u64, u64), ErrorCode>(
                    (final(ctx).pool@.total_rewards, final(ctx).pool_vault.balance),
                )
                &&& final(ctx).pool@ == (PoolState {
                    total_rewards: final(ctx).pool@.total_rewards,
                    ..old(ctx).pool@
                })
                &&& final(ctx).source == old(ctx).source
                &&& final(ctx).asset_program == old(ctx).asset_program
            },
            Err(fault) => {
                &&& deposit_of(
                    old(ctx).pool@,
                    old(ctx).pool_vault.balance,
                    old(ctx).source,
                    old(ctx).asset_program,
                    amount,
                ) == Err::<(u64, u64), ErrorCode>(fault)
                &&& *final(ctx) == *old(ctx)
            },
        },
        old(ctx).pool@.wf() ==> final(ctx).pool@.wf(),
{
    let same_asset: bool = match (ctx.source.mint, ctx.pool.mint) {
        (None, None) => true,
        (Some(held), Some(asset)) => held == asset,
        _ => false,
    };
    if !same_asset {
        return Err(ErrorCode::InvalidMint);
    }
    if ctx.pool.mint.is_some() && ctx.source.program != ctx.asset_program {
        return Err(ErrorCode::InvalidTokenProgram);
    }
    let total_rewards: u64 = match ctx.pool.total_rewards.checked_add(amount) {
        Some(sum) => sum,
        None => {
            return Err(ErrorCode::MathOverflow);
        },
    };
    let balance: u64 = match ctx.pool_vault.balance.checked_add(amount) {
        Some(sum) => sum,
        None => {
            return Err(ErrorCode::MathOverflow);
        },
    };
    ctx.pool.total_rewards = total_rewards;
    ctx.pool_vault.balance = balance;
    Ok(())
}

impl DistributeRewards {
    /// What a distribution over these accounts comes to.
    pub open spec fn outcome(&self) -> Result<Settlement, ErrorCode> {
        distribution_of(
            self.pool@,
            self.pool_vault.balance,
            self.asset_program,
            self.remaining_accounts@,
        )
    }
}

/// Runs one distribution pass. Anyone may ask for it; the transfers it
/// approves are signed by the vault's own authority, never by the caller.
/// The pass is all or nothing: when it is refused, nothing is changed and
/// no transfer is approved.
pub fn distribute_rewards(ctx: &mut DistributeRewards) -> (result: Result<Disbursement, ErrorCode>)
    ensures
        match result {
            Ok(approved) => {
                &&& old(ctx).outcome() matches Ok(settlement)
                &&& final(ctx).pool@ == settlement.pool
                &&& final(ctx).pool_vault.balance == settlement.vault_balance
                &&& approved.payouts@ == settlement.payouts
                &&& approved.authority.seeds() == vault_seeds(
                    old(ctx).pool@.mint,
                    old(ctx).pool@.vault_bump,
                )
                &&& final(ctx).asset_program == old(ctx).asset_program
                &&& final(ctx).remaining_accounts == old(ctx).remaining_accounts
            },
            Err(fault) => {
                &&& old(ctx).outcome() == Err::<Settlement, ErrorCode>(fault)
                &&& *final(ctx) == *old(ctx)
            },
        },
        old(ctx).pool@.wf() ==> final(ctx).pool@.wf(),
        final(ctx).pool@.total_distributed >= old(ctx).pool@.total_distributed,
        // An empty registry or an empty vault: success, and nothing happens.
        old(ctx).pool_vault.balance == 0 || old(ctx).pool@.top_holders.len() == 0 ==> ({
            &&& result is Ok
            &&& result->Ok_0.payouts@.len() == 0
            &&& *final(ctx) == *old(ctx)
        }),
        // An even split pays `floor(balance / count) * count` and leaves less
        // than `count` units behind.
        result is Ok && old(ctx).pool@.policy() == DistributionPolicy::EqualSplit && old(
            ctx,
        ).pool@.top_holders.len() > 0 ==> ({
            let count = old(ctx).pool@.top_holders.len();
            let balance = old(ctx).pool_vault.balance;
            let paid = final(ctx).pool@.total_distributed - old(ctx).pool@.total_distributed;
            &&& paid == (balance as nat / count) * count
            &&& balance - paid < count
            &&& final(ctx).pool_vault.balance == balance - paid
        }),
        // A proportional split pays each holder
        // `floor(balance * weight / total_weight)` and at most the balance in all.
        result is Ok && old(ctx).pool@.policy() == DistributionPolicy::ProportionalSplit ==> ({
            let holders = old(ctx).pool@.top_holders;
            let balance = old(ctx).pool_vault.balance;
            let paid = final(ctx).pool@.total_distributed - old(ctx).pool@.total_distributed;
            let payouts = result->Ok_0.payouts@;
            &&& paid <= balance
            &&& final(ctx).pool_vault.balance == balance - paid
            &&& forall|k: int|
                0 <= k < payouts.len() ==> (#[trigger] payouts[k]).amount == (balance as nat
                    * holders[payouts[k].index as int].balance as nat) / total_weight(holders)
        }),
{
    let count: usize = ctx.pool.top_holders.len();
    proof {
        let pool = ctx.pool@;
        assert(pool.top_holders.len() == count);
        let balance = ctx.pool_vault.balance;
        let program = ctx.asset_program;
        let accounts = ctx.remaining_accounts@;
        if distribution_of(pool, balance, program, accounts) is Ok {
            lemma_settlement_balances(pool, balance, program, accounts);
            if pool.policy() == DistributionPolicy::EqualSplit {
                if pool.top_holders.len() > 0 {
                    lemma_equal_split_settlement(pool, balance, program, accounts);
                }
            } else {
                lemma_proportional_split_settlement(pool, balance, program, accounts);
            }
        }
    }
    let plan = match plan_distribution(
        &ctx.pool,
        ctx.pool_vault.balance,
        &ctx.asset_program,
        &ctx.remaining_accounts,
    ) {
        Ok(plan) => plan,
        Err(fault) => {
            return Err(fault);
        },
    };
    let authority: VaultAuthority = VaultAuthority::of(&ctx.pool);
    ctx.pool.total_rewards = plan.total_rewards;
    ctx.pool.total_distributed = plan.total_distributed;
    ctx.pool_vault.balance = plan.vault_balance;
    Ok(Disbursement { authority, payouts: plan.payouts })
}

/// What a withdrawal of `amount` leaves in the vault. Only the owner may
/// withdraw, and no more than the vault holds.
pub open spec fn withdrawal_of(pool: PoolState, caller: Address, vault_balance: u64, amount: u64) -> Result<
    u64,
    ErrorCode,
> {
    if caller != pool.owner {
        Err(ErrorCode::Unauthorized)
    } else if amount > vault_balance {
        Err(ErrorCode::InsufficientBalance)
    } else {
        Ok((vault_balance - amount) as u64)
    }
}

/// Lets the owner take `amount` units out of the vault. The transfer it
/// approves goes to the owner and is signed by the vault's own authority.
/// The pool's record is never touched.
pub fn owner_withdraw(ctx: &mut OwnerWithdraw, amount: u64) -> (result: Result<Withdrawal, ErrorCode>)
    ensures
        match result {
            Ok(approved) => {
                &&& withdrawal_of(
                    old(ctx).pool@,
                    old(ctx).owner,
                    old(ctx).pool_vault.balance,
                    amount,
                ) == Ok::<u64, ErrorCode>(final(ctx).pool_vault.balance)
                &&& approved.to == old(ctx).owner
                &&& approved.amount == amount
                &&& approved.authority.seeds() == vault_seeds(
                    old(ctx).pool@.mint,
                    old(ctx).pool@.vault_bump,
                )
                &&& final(ctx).pool == old(ctx).pool
                &&& final(ctx).owner == old(ctx).owner
            },
            Err(fault) => {
                &&& withdrawal_of(
                    old(ctx).pool@,
                    old(ctx).owner,
                    old(ctx).pool_vault.balance,
                    amount,
                ) == Err::<u64, ErrorCode>(fault)
                &&& *final(ctx) == *old(ctx)
            },
        },
        old(ctx).owner != old(ctx).pool@.owner ==> result == Err::<Withdrawal, ErrorCode>(
            ErrorCode::Unauthorized,
        ) && *final(ctx) == *old(ctx),
{
    if !ctx.pool.is_owner(&ctx.owner) {
        return Err(ErrorCode::Unauthorized);
    }
    if amount > ctx.pool_vault.balance {
        return Err(ErrorCode::InsufficientBalance);
    }
    let authority: VaultAuthority = VaultAuthority::of(&ctx.pool);
    ctx.pool_vault.balance = ctx.pool_vault.balance - amount;
    Ok(Withdrawal { authority, to: ctx.owner, amount })
}

} // verus!
