use crate::accounts::{HoldingAccount, Payout};
use crate::address::Address;
use crate::error::ErrorCode;
use crate::holder::{sum_weights, total_weight, HolderInfo};
use crate::pool::{PoolState, RewardPool};
use crate::shares::{
    compute_shares, lemma_paid_within_balance, paid_upto, share_of, total_paid, DistributionPolicy,
};
use vstd::prelude::*;

verus! {

/// Why `account` may not receive the share of `holder`, if it may not.
/// The account must be the one the holder registered. In a token pool it
/// must also hold the pool's token and be managed by the program that moves
/// that token; the three are looked at in this order.
pub open spec fn recipient_fault(
    mint: Option<Address>,
    asset_program: Address,
    holder: HolderInfo,
    account: HoldingAccount,
) -> Option<ErrorCode> {
    if account.address != holder.address {
        Some(ErrorCode::InvalidRecipient)
    } else if mint is Some && account.mint != mint {
        Some(ErrorCode::InvalidMint)
    } else if mint is Some && account.program != asset_program {
        Some(ErrorCode::InvalidTokenProgram)
    } else {
        None
    }
}

/// The fault of the first position among the first `n` that is owed a share
/// and whose account does not match. A position owed nothing is passed over.
pub open spec fn fault_upto(
    pool: PoolState,
    balance: u64,
    asset_program: Address,
    accounts: Seq<HoldingAccount>,
    n: int,
) -> Option<ErrorCode>
    decreases n,
{
    if n <= 0 {
        None
    } else {
        match fault_upto(pool, balance, asset_program, accounts, n - 1) {
            Some(fault) => Some(fault),
            None => if share_of(pool.policy(), balance, pool.top_holders, n - 1) > 0 {
                recipient_fault(pool.mint, asset_program, pool.top_holders[n - 1], accounts[n - 1])
            } else {
                None
            },
        }
    }
}

/// The transfers owed to the first `n` holders, in registry order. A holder
/// whose share rounds down to nothing gets none.
pub open spec fn payouts_upto(
    policy: DistributionPolicy,
    balance: u64,
    holders: Seq<HolderInfo>,
    n: int,
) -> Seq<Payout>
    decreases n,
{
    if n <= 0 {
        Seq::empty()
    } else {
        let before = payouts_upto(policy, balance, holders, n - 1);
        let share = share_of(policy, balance, holders, n - 1);
        if share > 0 {
            before.push(
                Payout { index: (n - 1) as usize, to: holders[n - 1].address, amount: share as u64 },
            )
        } else {
            before
        }
    }
}

/// There is nothing to hand out, or nobody to hand it to.
pub open spec fn nothing_to_distribute(pool: PoolState, balance: u64) -> bool {
    ||| balance == 0
    ||| pool.top_holders.len() == 0
    ||| (pool.policy() == DistributionPolicy::ProportionalSplit && total_weight(pool.top_holders)
        == 0)
}

/// Where a distribution leaves the pool and the vault, and what it pays.
pub struct Settlement {
    pub pool: PoolState,
    pub vault_balance: u64,
    pub payouts: Seq<Payout>,
}

/// The outcome of one distribution pass over `pool`, with `balance` in the
/// vault and `accounts` offered as recipients.
///
/// With nothing to distribute the pass succeeds and changes nothing. Else
/// there must be an account for every holder. A pool of the native coin then
/// records what it has received so far as the vault balance plus what it
/// already paid out. Every holder owed a share must be matched by its
/// account. The shares leave the vault and are added to the amount paid out;
/// what rounding leaves over stays in the vault.
pub open spec fn distribution_of(
    pool: PoolState,
    balance: u64,
    asset_program: Address,
    accounts: Seq<HoldingAccount>,
) -> Result<Settlement, ErrorCode> {
    let policy = pool.policy();
    let count = pool.top_holders.len() as int;
    let paid = total_paid(policy, balance, pool.top_holders);
    if nothing_to_distribute(pool, balance) {
        Ok(Settlement { pool, vault_balance: balance, payouts: Seq::empty() })
    } else if accounts.len() < count {
        Err(ErrorCode::InsufficientAccounts)
    } else if policy == DistributionPolicy::EqualSplit && balance + pool.total_distributed
        > u64::MAX {
        Err(ErrorCode::MathOverflow)
    } else if fault_upto(pool, balance, asset_program, accounts, count) is Some {
        Err(fault_upto(pool, balance, asset_program, accounts, count)->0)
    } else if pool.total_distributed + paid > u64::MAX {
        Err(ErrorCode::MathOverflow)
    } else {
        Ok(
            Settlement {
                pool: PoolState {
                    total_rewards: if policy == DistributionPolicy::EqualSplit {
                        (balance + pool.total_distributed) as u64
                    } else {
                        pool.total_rewards
                    },
                    total_distributed: (pool.total_distributed + paid) as u64,
                    ..pool
                },
                vault_balance: (balance - paid) as u64,
                payouts: payouts_upto(policy, balance, pool.top_holders, count),
            },
        )
    }
}

/// Sum of the amounts of a list of payouts.
pub open spec fn amount_sum(payouts: Seq<Payout>) -> nat
    decreases payouts.len(),
{
    if payouts.len() == 0 {
        0
    } else {
        amount_sum(payouts.drop_last()) + payouts.last().amount as nat
    }
}

/// The payouts of a pass follow the registry: each goes to the holder at
/// its position and carries that holder's share, which is not zero; they
/// come in registry order; every holder owed something is among them; and
/// together they amount to what the pass pays.
pub proof fn lemma_payouts_follow_registry(
    policy: DistributionPolicy,
    balance: u64,
    holders: Seq<HolderInfo>,
    n: int,
)
    requires
        0 <= n <= holders.len() <= usize::MAX,
    ensures
        payouts_upto(policy, balance, holders, n).len() <= n,
        forall|k: int|
            0 <= k < payouts_upto(policy, balance, holders, n).len() ==> {
                let payout = #[trigger] payouts_upto(policy, balance, holders, n)[k];
                &&& 0 <= payout.index < n
                &&& payout.to == holders[payout.index as int].address
                &&& payout.amount > 0
                &&& payout.amount == share_of(policy, balance, holders, payout.index as int)
            },
        forall|k: int, l: int|
            0 <= k < l < payouts_upto(policy, balance, holders, n).len() ==> payouts_upto(
                policy,
                balance,
                holders,
                n,
            )[k].index < payouts_upto(policy, balance, holders, n)[l].index,
        forall|i: int|
            0 <= i < n && #[trigger] share_of(policy, balance, holders, i) > 0 ==> exists|k: int|
                0 <= k < payouts_upto(policy, balance, holders, n).len() && payouts_upto(
                    policy,
                    balance,
                    holders,
                    n,
                )[k].index == i,
        amount_sum(payouts_upto(policy, balance, holders, n)) == paid_upto(
            policy,
            balance,
            holders,
            n,
        ),
    decreases n,
{
    if n > 0 {
        lemma_payouts_follow_registry(policy, balance, holders, n - 1);
        crate::shares::lemma_share_within_balance(policy, balance, holders, n - 1);
        let before = payouts_upto(policy, balance, holders, n - 1);
        let now = payouts_upto(policy, balance, holders, n);
        let share = share_of(policy, balance, holders, n - 1);
        if share > 0 {
            assert(now.drop_last() =~= before);
            assert forall|k: int| 0 <= k < now.len() implies {
                let payout = #[trigger] now[k];
                &&& 0 <= payout.index < n
                &&& payout.to == holders[payout.index as int].address
                &&& payout.amount > 0
                &&& payout.amount == share_of(policy, balance, holders, payout.index as int)
            } by {
                if k < before.len() {
                    assert(now[k] == before[k]);
                }
            }
            assert forall|k: int, l: int| 0 <= k < l < now.len() implies now[k].index
                < now[l].index by {
                assert(now[k] == before[k]);
                if l < before.len() {
                    assert(now[l] == before[l]);
                }
            }
        }
        assert forall|i: int| 0 <= i < n && #[trigger] share_of(policy, balance, holders, i)
            > 0 implies exists|k: int| 0 <= k < now.len() && now[k].index == i by {
            if i < n - 1 {
                let k = choose|k: int| 0 <= k < before.len() && before[k].index == i;
                assert(now[k] == before[k]);
            } else {
                assert(now[now.len() - 1].index == i);
            }
        }
    }
}

/// Nothing is paid out of an empty vault.
pub proof fn lemma_empty_vault_pays_nothing(
    policy: DistributionPolicy,
    holders: Seq<HolderInfo>,
    n: int,
)
    ensures
        paid_upto(policy, 0, holders, n) == 0,
    decreases n,
{
    if n > 0 {
        lemma_empty_vault_pays_nothing(policy, holders, n - 1);
        assert(share_of(policy, 0, holders, n - 1) == 0) by {
            let weight = holders[n - 1].balance as nat;
            assert(0nat * weight == 0) by (nonlinear_arith);
        }
    }
}

/// With nothing to distribute no transfer is owed.
pub proof fn lemma_nothing_owed(pool: PoolState, balance: u64, n: int)
    requires
        nothing_to_distribute(pool, balance),
        n <= pool.top_holders.len(),
    ensures
        paid_upto(pool.policy(), balance, pool.top_holders, n) == 0,
        payouts_upto(pool.policy(), balance, pool.top_holders, n) == Seq::<Payout>::empty(),
    decreases n,
{
    if n > 0 {
        lemma_nothing_owed(pool, balance, n - 1);
        if balance == 0 {
            lemma_empty_vault_pays_nothing(pool.policy(), pool.top_holders, n);
            lemma_empty_vault_pays_nothing(pool.policy(), pool.top_holders, n - 1);
        } else {
            crate::shares::lemma_zero_weight_pays_nothing(balance, pool.top_holders, n);
            crate::shares::lemma_zero_weight_pays_nothing(balance, pool.top_holders, n - 1);
        }
    }
}

/// A pass over an empty registry, or with an empty vault, succeeds, changes
/// nothing and approves no transfer, whatever accounts are offered.
pub proof fn lemma_idle_pass_changes_nothing(
    pool: PoolState,
    balance: u64,
    asset_program: Address,
    accounts: Seq<HoldingAccount>,
)
    requires
        balance == 0 || pool.top_holders.len() == 0,
    ensures
        distribution_of(pool, balance, asset_program, accounts) == Ok::<Settlement, ErrorCode>(
            Settlement { pool, vault_balance: balance, payouts: Seq::empty() },
        ),
{
}

/// What a pass that goes through does to the books: the payouts are those
/// owed under the pool's policy, the amount paid out grows by their sum,
/// the vault shrinks by it, and nothing else in the record changes but, in
/// a pool of the native coin, the amount received.
pub proof fn lemma_settlement_balances(
    pool: PoolState,
    balance: u64,
    asset_program: Address,
    accounts: Seq<HoldingAccount>,
)
    requires
        pool.top_holders.len() <= usize::MAX,
        distribution_of(pool, balance, asset_program, accounts) is Ok,
    ensures
        ({
            let settlement = distribution_of(pool, balance, asset_program, accounts)->Ok_0;
            let paid = total_paid(pool.policy(), balance, pool.top_holders);
            &&& settlement.payouts == payouts_upto(
                pool.policy(),
                balance,
                pool.top_holders,
                pool.top_holders.len() as int,
            )
            &&& amount_sum(settlement.payouts) == paid
            &&& settlement.pool.total_distributed == pool.total_distributed + paid
            &&& settlement.vault_balance + paid == balance
            &&& settlement.pool == (PoolState {
                total_rewards: settlement.pool.total_rewards,
                total_distributed: settlement.pool.total_distributed,
                ..pool
            })
            &&& pool.policy() == DistributionPolicy::ProportionalSplit
                ==> settlement.pool.total_rewards == pool.total_rewards
            &&& pool.policy() == DistributionPolicy::EqualSplit && !nothing_to_distribute(
                pool,
                balance,
            ) ==> settlement.pool.total_rewards == balance + pool.total_distributed
                && settlement.pool.total_distributed <= settlement.pool.total_rewards
        }),
{
    let count = pool.top_holders.len() as int;
    lemma_paid_within_balance(pool.policy(), balance, pool.top_holders, count);
    lemma_payouts_follow_registry(pool.policy(), balance, pool.top_holders, count);
    if nothing_to_distribute(pool, balance) {
        lemma_nothing_owed(pool, balance, count);
    }
}

/// An even split over a registry of `count` holders pays out
/// `floor(balance / count) * count` and leaves less than `count` units, the
/// remainder of the division, in the vault.
pub proof fn lemma_equal_split_settlement(
    pool: PoolState,
    balance: u64,
    asset_program: Address,
    accounts: Seq<HoldingAccount>,
)
    requires
        pool.policy() == DistributionPolicy::EqualSplit,
        0 < pool.top_holders.len() <= usize::MAX,
        distribution_of(pool, balance, asset_program, accounts) is Ok,
    ensures
        ({
            let settlement = distribution_of(pool, balance, asset_program, accounts)->Ok_0;
            let count = pool.top_holders.len();
            &&& settlement.pool.total_distributed - pool.total_distributed == (balance as nat
                / count) * count
            &&& settlement.vault_balance == balance as nat % count
            &&& settlement.vault_balance < count
            &&& forall|k: int|
                0 <= k < settlement.payouts.len() ==> (#[trigger] settlement.payouts[k]).amount
                    == balance as nat / count
        }),
{
    let count = pool.top_holders.len() as int;
    lemma_settlement_balances(pool, balance, asset_program, accounts);
    crate::shares::lemma_equal_split_total(balance, pool.top_holders);
    lemma_payouts_follow_registry(pool.policy(), balance, pool.top_holders, count);
}

/// A proportional split pays every holder it pays
/// `floor(balance * weight / total_weight)`, and never more in all than the
/// vault holds.
pub proof fn lemma_proportional_split_settlement(
    pool: PoolState,
    balance: u64,
    asset_program: Address,
    accounts: Seq<HoldingAccount>,
)
    requires
        pool.policy() == DistributionPolicy::ProportionalSplit,
        pool.top_holders.len() <= usize::MAX,
        distribution_of(pool, balance, asset_program, accounts) is Ok,
    ensures
        ({
            let settlement = distribution_of(pool, balance, asset_program, accounts)->Ok_0;
            &&& settlement.pool.total_distributed - pool.total_distributed <= balance
            &&& forall|k: int|
                0 <= k < settlement.payouts.len() ==> (#[trigger] settlement.payouts[k]).amount
                    == (balance as nat * pool.top_holders[settlement.payouts[k].index
                    as int].balance as nat) / total_weight(pool.top_holders)
        }),
{
    let count = pool.top_holders.len() as int;
    lemma_settlement_balances(pool, balance, asset_program, accounts);
    lemma_paid_within_balance(pool.policy(), balance, pool.top_holders, count);
    lemma_payouts_follow_registry(pool.policy(), balance, pool.top_holders, count);
    if nothing_to_distribute(pool, balance) {
        lemma_nothing_owed(pool, balance, count);
    }
}

/// A fault found in a prefix is the fault of the whole pass.
pub proof fn lemma_fault_persists(
    pool: PoolState,
    balance: u64,
    asset_program: Address,
    accounts: Seq<HoldingAccount>,
    m: int,
    n: int,
)
    requires
        m <= n,
        fault_upto(pool, balance, asset_program, accounts, m) is Some,
    ensures
        fault_upto(pool, balance, asset_program, accounts, n) == fault_upto(
            pool,
            balance,
            asset_program,
            accounts,
            m,
        ),
    decreases n - m,
{
    if m < n {
        lemma_fault_persists(pool, balance, asset_program, accounts, m, n - 1);
    }
}

/// Tells whether `account` may receive the share of `holder`.
pub fn check_recipient(
    mint: &Option<Address>,
    asset_program: &Address,
    holder: &HolderInfo,
    account: &HoldingAccount,
) -> (fault: Option<ErrorCode>)
    ensures
        fault == recipient_fault(*mint, *asset_program, *holder, *account),
{
    if account.address != holder.address {
        return Some(ErrorCode::InvalidRecipient);
    }
    match mint {
        None => None,
        Some(asset) => {
            let same_asset: bool = match account.mint {
                None => false,
                Some(held) => held == *asset,
            };
            if !same_asset {
                Some(ErrorCode::InvalidMint)
            } else if account.program != *asset_program {
                Some(ErrorCode::InvalidTokenProgram)
            } else {
                None
            }
        },
    }
}

/// What a pass that goes through writes back and pays.
#[derive(Debug)]
pub struct Plan {
    pub total_rewards: u64,
    pub total_distributed: u64,
    pub vault_balance: u64,
    pub payouts: Vec<Payout>,
}

impl Plan {
    /// The plan as the settlement of `pool`.
    pub open spec fn settles(&self, pool: PoolState) -> Settlement {
        Settlement {
            pool: PoolState {
                total_rewards: self.total_rewards,
                total_distributed: self.total_distributed,
                ..pool
            },
            vault_balance: self.vault_balance,
            payouts: self.payouts@,
        }
    }
}

/// Works out one distribution pass without touching anything.
pub fn plan_distribution(
    pool: &RewardPool,
    balance: u64,
    asset_program: &Address,
    accounts: &Vec<HoldingAccount>,
) -> (result: Result<Plan, ErrorCode>)
    ensures
        match result {
            Ok(plan) => distribution_of(pool@, balance, *asset_program, accounts@) == Ok::<
                Settlement,
                ErrorCode,
            >(plan.settles(pool@)),
            Err(fault) => distribution_of(pool@, balance, *asset_program, accounts@) == Err::<
                Settlement,
                ErrorCode,
            >(fault),
        },
{
    let policy: DistributionPolicy = pool.policy();
    let count: usize = pool.top_holders.len();
    let unchanged = Plan {
        total_rewards: pool.total_rewards,
        total_distributed: pool.total_distributed,
        vault_balance: balance,
        payouts: Vec::new(),
    };
    if balance == 0 || count == 0 {
        return Ok(unchanged);
    }
    let weightless: bool = match policy {
        DistributionPolicy::EqualSplit => false,
        DistributionPolicy::ProportionalSplit => sum_weights(&pool.top_holders) == 0,
    };
    if weightless {
        return Ok(unchanged);
    }
    if accounts.len() < count {
        return Err(ErrorCode::InsufficientAccounts);
    }
    let total_rewards: u64 = match policy {
        DistributionPolicy::EqualSplit => match balance.checked_add(pool.total_distributed) {
            Some(received) => received,
            None => {
                return Err(ErrorCode::MathOverflow);
            },
        },
        DistributionPolicy::ProportionalSplit => pool.total_rewards,
    };
    let shares: Vec<u64> = compute_shares(policy, balance, &pool.top_holders);
    let mut payouts: Vec<Payout> = Vec::new();
    let mut paid: u64 = 0;
    let mut i: usize = 0;
    while i < count
        invariant
            i <= count,
            count == pool.top_holders@.len(),
            count <= accounts@.len(),
            policy == pool@.policy(),
            !nothing_to_distribute(pool@, balance),
            policy == DistributionPolicy::EqualSplit ==> balance + pool.total_distributed
                <= u64::MAX,
            shares@.len() == count,
            forall|j: int|
                0 <= j < count ==> #[trigger] shares@[j] as nat == share_of(
                    policy,
                    balance,
                    pool.top_holders@,
                    j,
                ),
            fault_upto(pool@, balance, *asset_program, accounts@, i as int) is None,
            payouts@ == payouts_upto(policy, balance, pool.top_holders@, i as int),
            paid == paid_upto(policy, balance, pool.top_holders@, i as int),
        decreases count - i,
    {
        let share: u64 = shares[i];
        if share > 0 {
            let holder: &HolderInfo = &pool.top_holders[i];
            match check_recipient(&pool.mint, asset_program, holder, &accounts[i]) {
                Some(fault) => {
                    proof {
                        assert(share_of(policy, balance, pool.top_holders@, i as int) > 0);
                        assert(fault_upto(pool@, balance, *asset_program, accounts@, i + 1)
                            == Some(fault));
                        lemma_fault_persists(
                            pool@,
                            balance,
                            *asset_program,
                            accounts@,
                            i + 1,
                            count as int,
                        );
                    }
                    return Err(fault);
                },
                None => {},
            }
            payouts.push(Payout { index: i, to: holder.address, amount: share });
        }
        proof {
            lemma_paid_within_balance(policy, balance, pool.top_holders@, i + 1);
        }
        paid = paid + share;
        i += 1;
    }
    proof {
        lemma_paid_within_balance(policy, balance, pool.top_holders@, count as int);
    }
    let total_distributed: u64 = match pool.total_distributed.checked_add(paid) {
        Some(sum) => sum,
        None => {
            return Err(ErrorCode::MathOverflow);
        },
    };
    Ok(Plan { total_rewards, total_distributed, vault_balance: balance - paid, payouts })
}

} // verus!
