use crate::address::Address;
use vstd::prelude::*;

verus! {

/// One entry of the registry: who holds, and how much they held when the
/// snapshot was taken. The balance is whatever the registry's owner reported.
#[derive(Clone, Copy, Debug, PartialEq, Eq)]
pub struct HolderInfo {
    pub address: Address,
    pub balance: u64,
}

impl HolderInfo {
    /// Bytes one entry occupies in a stored pool record.
    pub const SPACE: usize = 32 + 8;
}

/// No entry has a larger balance than one that stands before it.
pub open spec fn descending(holders: Seq<HolderInfo>) -> bool {
    forall|i: int, j: int|
        0 <= i < j < holders.len() ==> holders[i].balance >= holders[j].balance
}

/// Every entry has a smaller balance than each one that stands before it.
pub open spec fn strictly_descending(holders: Seq<HolderInfo>) -> bool {
    forall|i: int, j: int|
        0 <= i < j < holders.len() ==> holders[i].balance > holders[j].balance
}

/// Sum of the balances of the first `n` holders.
pub open spec fn weight_upto(holders: Seq<HolderInfo>, n: int) -> nat
    decreases n,
{
    if n <= 0 {
        0
    } else {
        weight_upto(holders, n - 1) + holders[n - 1].balance as nat
    }
}

/// Sum of all balances in the registry.
pub open spec fn total_weight(holders: Seq<HolderInfo>) -> nat {
    weight_upto(holders, holders.len() as int)
}

/// A prefix of `n` balances sums to at most `n` times the largest `u64`.
pub proof fn lemma_weight_upto_bound(holders: Seq<HolderInfo>, n: int)
    requires
        0 <= n,
    ensures
        weight_upto(holders, n) <= n * u64::MAX,
    decreases n,
{
    if n > 0 {
        lemma_weight_upto_bound(holders, n - 1);
    }
}

/// Adds up the balances of all holders. The sum is kept in 128 bits, where
/// it cannot overflow.
pub fn sum_weights(holders: &Vec<HolderInfo>) -> (total: u128)
    ensures
        total == total_weight(holders@),
{
    let mut total: u128 = 0;
    let mut i: usize = 0;
    while i < holders.len()
        invariant
            i <= holders.len(),
            total == weight_upto(holders@, i as int),
        decreases holders.len() - i,
    {
        proof {
            lemma_weight_upto_bound(holders@, i as int);
            assert(i * u64::MAX + u64::MAX <= u128::MAX) by (nonlinear_arith)
                requires
                    i <= u64::MAX,
            ;
        }
        total = total + holders[i].balance as u128;
        i += 1;
    }
    total
}

} // verus!
