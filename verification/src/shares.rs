use crate::holder::{sum_weights, total_weight, weight_upto, HolderInfo};
use vstd::prelude::*;

verus! {

/// How a vault balance is split among the registered holders.
#[derive(Clone, Copy, Debug, PartialEq, Eq, Structural)]
pub enum DistributionPolicy {
    /// Every holder receives the same amount.
    EqualSplit,
    /// Every holder receives in proportion to the balance it registered.
    ProportionalSplit,
}

/// What each of `count` holders receives when `balance` is split evenly.
/// The remainder of the division stays in the vault.
pub open spec fn equal_share_of(balance: nat, count: nat) -> nat {
    if count == 0 {
        0
    } else {
        balance / count
    }
}

/// What a holder of `weight` out of `total` receives from `balance`, rounded
/// down.
pub open spec fn proportional_share_of(balance: nat, weight: nat, total: nat) -> nat {
    if total == 0 {
        0
    } else {
        (balance * weight) / total
    }
}

/// The share of the holder at position `i`.
pub open spec fn share_of(
    policy: DistributionPolicy,
    balance: u64,
    holders: Seq<HolderInfo>,
    i: int,
) -> nat {
    match policy {
        DistributionPolicy::EqualSplit => equal_share_of(balance as nat, holders.len()),
        DistributionPolicy::ProportionalSplit => proportional_share_of(
            balance as nat,
            holders[i].balance as nat,
            total_weight(holders),
        ),
    }
}

/// Sum of the shares of the first `n` holders.
pub open spec fn paid_upto(
    policy: DistributionPolicy,
    balance: u64,
    holders: Seq<HolderInfo>,
    n: int,
) -> nat
    decreases n,
{
    if n <= 0 {
        0
    } else {
        paid_upto(policy, balance, holders, n - 1) + share_of(policy, balance, holders, n - 1)
    }
}

/// Everything one distribution pays out.
pub open spec fn total_paid(
    policy: DistributionPolicy,
    balance: u64,
    holders: Seq<HolderInfo>,
) -> nat {
    paid_upto(policy, balance, holders, holders.len() as int)
}

/// Rounding down never hands out more than the exact quotient.
proof fn lemma_floor_times_divisor(x: nat, d: nat)
    requires
        d > 0,
    ensures
        (x / d) * d <= x,
        x - (x / d) * d == x % d,
        x % d < d,
{
    vstd::arithmetic::div_mod::lemma_fundamental_div_mod(x as int, d as int);
    vstd::arithmetic::div_mod::lemma_mod_bound(x as int, d as int);
    assert((x / d) * d == d * (x / d)) by (nonlinear_arith);
}

/// An even split pays the same share `n` times over.
proof fn lemma_equal_paid_upto(balance: u64, holders: Seq<HolderInfo>, n: int)
    requires
        0 <= n,
    ensures
        paid_upto(DistributionPolicy::EqualSplit, balance, holders, n) == n * equal_share_of(
            balance as nat,
            holders.len(),
        ),
    decreases n,
{
    let share = equal_share_of(balance as nat, holders.len());
    if n > 0 {
        lemma_equal_paid_upto(balance, holders, n - 1);
        assert((n - 1) * share + share == n * share) by (nonlinear_arith);
    } else {
        assert(0 * share == 0) by (nonlinear_arith);
    }
}

/// Scaled by the total weight, a proportional prefix pays at most the
/// balance times the weight of that prefix.
proof fn lemma_proportional_paid_upto(balance: u64, holders: Seq<HolderInfo>, n: int)
    requires
        0 <= n <= holders.len(),
        total_weight(holders) > 0,
    ensures
        paid_upto(DistributionPolicy::ProportionalSplit, balance, holders, n) * total_weight(
            holders,
        ) <= balance * weight_upto(holders, n),
    decreases n,
{
    let total = total_weight(holders);
    if n > 0 {
        lemma_proportional_paid_upto(balance, holders, n - 1);
        let before = paid_upto(DistributionPolicy::ProportionalSplit, balance, holders, n - 1);
        let weight = holders[n - 1].balance as nat;
        let share = share_of(DistributionPolicy::ProportionalSplit, balance, holders, n - 1);
        let weight_before = weight_upto(holders, n - 1);
        lemma_floor_times_divisor(balance as nat * weight, total);
        assert(share * total <= balance as nat * weight);
        assert((before + share) * total == before * total + share * total)
            by (nonlinear_arith);
        assert(balance * (weight_before + weight) == balance * weight_before + balance * weight)
            by (nonlinear_arith);
    } else {
        assert(0 * total == 0) by (nonlinear_arith);
    }
}

/// Under an even split over a non-empty registry the pass pays out
/// `floor(balance / count) * count`, and less than `count` units stay behind.
pub proof fn lemma_equal_split_total(balance: u64, holders: Seq<HolderInfo>)
    requires
        holders.len() > 0,
    ensures
        total_paid(DistributionPolicy::EqualSplit, balance, holders) == (balance as nat
            / holders.len()) * holders.len(),
        total_paid(DistributionPolicy::EqualSplit, balance, holders) <= balance,
        balance - total_paid(DistributionPolicy::EqualSplit, balance, holders) < holders.len(),
        balance - total_paid(DistributionPolicy::EqualSplit, balance, holders) == balance as nat
            % holders.len(),
{
    let count = holders.len();
    lemma_equal_paid_upto(balance, holders, count as int);
    lemma_floor_times_divisor(balance as nat, count);
    assert(count * (balance as nat / count) == (balance as nat / count) * count)
        by (nonlinear_arith);
}

/// Under a proportional split every holder receives
/// `floor(balance * weight / total_weight)`, and the pass never pays out more
/// than the vault holds.
pub proof fn lemma_proportional_split_total(balance: u64, holders: Seq<HolderInfo>)
    ensures
        forall|i: int|
            0 <= i < holders.len() && total_weight(holders) > 0 ==> #[trigger] share_of(
                DistributionPolicy::ProportionalSplit,
                balance,
                holders,
                i,
            ) == (balance as nat * holders[i].balance as nat) / total_weight(holders),
        total_paid(DistributionPolicy::ProportionalSplit, balance, holders) <= balance,
{
    let total = total_weight(holders);
    let paid = total_paid(DistributionPolicy::ProportionalSplit, balance, holders);
    if total > 0 {
        lemma_proportional_paid_upto(balance, holders, holders.len() as int);
        assert(paid <= balance) by (nonlinear_arith)
            requires
                paid * total <= balance * total,
                total > 0,
        ;
    } else {
        lemma_zero_weight_pays_nothing(balance, holders, holders.len() as int);
    }
}

/// With nothing to weigh, a proportional split pays nothing.
pub proof fn lemma_zero_weight_pays_nothing(balance: u64, holders: Seq<HolderInfo>, n: int)
    requires
        total_weight(holders) == 0,
    ensures
        paid_upto(DistributionPolicy::ProportionalSplit, balance, holders, n) == 0,
    decreases n,
{
    if n > 0 {
        lemma_zero_weight_pays_nothing(balance, holders, n - 1);
    }
}

/// Whatever the policy, a pass never pays out more than the vault holds,
/// and neither does any prefix of it.
pub proof fn lemma_paid_within_balance(
    policy: DistributionPolicy,
    balance: u64,
    holders: Seq<HolderInfo>,
    n: int,
)
    requires
        0 <= n <= holders.len(),
    ensures
        paid_upto(policy, balance, holders, n) <= total_paid(policy, balance, holders),
        total_paid(policy, balance, holders) <= balance,
    decreases holders.len() - n,
{
    if n < holders.len() {
        lemma_paid_within_balance(policy, balance, holders, n + 1);
    } else {
        match policy {
            DistributionPolicy::EqualSplit => {
                if holders.len() > 0 {
                    lemma_equal_split_total(balance, holders);
                }
            },
            DistributionPolicy::ProportionalSplit => {
                lemma_proportional_split_total(balance, holders);
            },
        }
    }
}

/// No single share exceeds the vault balance.
pub proof fn lemma_share_within_balance(
    policy: DistributionPolicy,
    balance: u64,
    holders: Seq<HolderInfo>,
    i: int,
)
    requires
        0 <= i < holders.len(),
    ensures
        share_of(policy, balance, holders, i) <= balance,
{
    lemma_paid_within_balance(policy, balance, holders, i + 1);
}

/// The share of every registered holder, in registry order.
pub fn compute_shares(policy: DistributionPolicy, balance: u64, holders: &Vec<HolderInfo>) -> (shares:
    Vec<u64>)
    ensures
        shares@.len() == holders@.len(),
        forall|i: int|
            0 <= i < holders@.len() ==> #[trigger] shares@[i] as nat == share_of(
                policy,
                balance,
                holders@,
                i,
            ),
{
    let count: usize = holders.len();
    let mut shares: Vec<u64> = Vec::with_capacity(count);
    let total: u128 = match policy {
        DistributionPolicy::EqualSplit => 0,
        DistributionPolicy::ProportionalSplit => sum_weights(holders),
    };
    let mut i: usize = 0;
    while i < count
        invariant
            i <= count,
            count == holders@.len(),
            shares@.len() == i,
            policy == DistributionPolicy::ProportionalSplit ==> total == total_weight(holders@),
            forall|j: int|
                0 <= j < i ==> #[trigger] shares@[j] as nat == share_of(
                    policy,
                    balance,
                    holders@,
                    j,
                ),
        decreases count - i,
    {
        proof {
            lemma_share_within_balance(policy, balance, holders@, i as int);
        }
        let share: u64 = match policy {
            DistributionPolicy::EqualSplit => balance / (count as u64),
            DistributionPolicy::ProportionalSplit => {
                if total == 0 {
                    0
                } else {
                    let weight: u64 = holders[i].balance;
                    assert(balance * weight <= u128::MAX) by (nonlinear_arith)
                        requires
                            balance <= u64::MAX,
                            weight <= u64::MAX,
                    ;
                    let product: u128 = (balance as u128) * (weight as u128);
                    (product / total) as u64
                }
            },
        };
        shares.push(share);
        i += 1;
    }
    shares
}

} // verus!
