use crate::holder::{descending, strictly_descending, HolderInfo};
use vstd::prelude::*;

verus! {

/// Where a holder with `balance` goes in a registry ordered by balance:
/// behind the leading entries whose balance is at least as large, so that
/// among equal balances the one registered first stays first.
pub open spec fn rank_of(ranked: Seq<HolderInfo>, balance: u64) -> int
    decreases ranked.len(),
{
    if ranked.len() == 0 || ranked.first().balance < balance {
        0
    } else {
        1 + rank_of(ranked.drop_first(), balance)
    }
}

/// The registry with one more holder, put at its rank.
pub open spec fn ranked_insert(ranked: Seq<HolderInfo>, holder: HolderInfo) -> Seq<HolderInfo> {
    ranked.insert(rank_of(ranked, holder.balance), holder)
}

/// The first `n` holders of a list, ordered by balance, largest first.
pub open spec fn ranked_upto(holders: Seq<HolderInfo>, n: int) -> Seq<HolderInfo>
    decreases n,
{
    if n <= 0 {
        Seq::empty()
    } else {
        ranked_insert(ranked_upto(holders, n - 1), holders[n - 1])
    }
}

/// A list of holders ordered by balance, largest first. Holders with equal
/// balances keep the order in which they were listed.
pub open spec fn ranked(holders: Seq<HolderInfo>) -> Seq<HolderInfo> {
    ranked_upto(holders, holders.len() as int)
}

/// The `capacity` largest holders of a list, or all of them if there are
/// fewer, largest first.
pub open spec fn top_ranked(holders: Seq<HolderInfo>, capacity: nat) -> Seq<HolderInfo> {
    if holders.len() <= capacity {
        ranked(holders)
    } else {
        ranked(holders).take(capacity as int)
    }
}

/// The holders of a list that registered exactly `balance`, in list order.
pub open spec fn with_balance(holders: Seq<HolderInfo>, balance: u64) -> Seq<HolderInfo> {
    holders.filter(|holder: HolderInfo| holder.balance == balance)
}

/// No two holders of the list registered the same balance.
pub open spec fn distinct_balances(holders: Seq<HolderInfo>) -> bool {
    forall|i: int, j: int|
        0 <= i < j < holders.len() ==> holders[i].balance != holders[j].balance
}

/// The rank splits a registry: in front of it every balance is at least
/// `balance`, and the entry at it, if there is one, is smaller.
pub proof fn lemma_rank_of_splits(ranked: Seq<HolderInfo>, balance: u64)
    ensures
        0 <= rank_of(ranked, balance) <= ranked.len(),
        forall|j: int| 0 <= j < rank_of(ranked, balance) ==> ranked[j].balance >= balance,
        rank_of(ranked, balance) < ranked.len() ==> ranked[rank_of(ranked, balance)].balance
            < balance,
    decreases ranked.len(),
{
    if !(ranked.len() == 0 || ranked.first().balance < balance) {
        let rest = ranked.drop_first();
        lemma_rank_of_splits(rest, balance);
        assert forall|j: int| 0 <= j < rank_of(ranked, balance) implies ranked[j].balance
            >= balance by {
            if j > 0 {
                assert(ranked[j] == rest[j - 1]);
            }
        }
        if rank_of(ranked, balance) < ranked.len() {
            assert(ranked[rank_of(ranked, balance)] == rest[rank_of(rest, balance)]);
        }
    }
}

/// A position that splits a registry in this way is the rank.
pub proof fn lemma_split_is_rank(ranked: Seq<HolderInfo>, balance: u64, position: int)
    requires
        0 <= position <= ranked.len(),
        forall|j: int| 0 <= j < position ==> ranked[j].balance >= balance,
        position < ranked.len() ==> ranked[position].balance < balance,
    ensures
        rank_of(ranked, balance) == position,
    decreases position,
{
    if position > 0 {
        let rest = ranked.drop_first();
        assert(ranked[0].balance >= balance);
        assert forall|j: int| 0 <= j < position - 1 implies rest[j].balance >= balance by {
            assert(rest[j] == ranked[j + 1]);
        }
        if position - 1 < rest.len() {
            assert(rest[position - 1] == ranked[position]);
        }
        lemma_split_is_rank(rest, balance, position - 1);
    }
}

/// Putting a holder at its rank keeps the order.
pub proof fn lemma_ranked_insert_descending(ranked: Seq<HolderInfo>, holder: HolderInfo)
    requires
        descending(ranked),
    ensures
        descending(ranked_insert(ranked, holder)),
        ranked_insert(ranked, holder).len() == ranked.len() + 1,
{
    lemma_rank_of_splits(ranked, holder.balance);
    let position = rank_of(ranked, holder.balance);
    let grown = ranked_insert(ranked, holder);
    assert forall|i: int, j: int| 0 <= i < j < grown.len() implies grown[i].balance
        >= grown[j].balance by {
        if j > position && position < ranked.len() {
            assert(ranked[position].balance >= ranked[j - 1].balance);
        }
    }
}

/// Ordering keeps every holder and puts the largest balance first.
pub proof fn lemma_ranked_upto_descending(holders: Seq<HolderInfo>, n: int)
    requires
        0 <= n <= holders.len(),
    ensures
        ranked_upto(holders, n).len() == n,
        descending(ranked_upto(holders, n)),
    decreases n,
{
    if n > 0 {
        lemma_ranked_upto_descending(holders, n - 1);
        lemma_ranked_insert_descending(ranked_upto(holders, n - 1), holders[n - 1]);
    }
}

/// For any list of holders and any cap, the selection has as many entries
/// as the shorter of the two allows and is ordered by balance, largest first.
pub proof fn lemma_top_ranked_shape(holders: Seq<HolderInfo>, capacity: nat)
    ensures
        top_ranked(holders, capacity).len() == if holders.len() <= capacity {
            holders.len()
        } else {
            capacity
        },
        descending(top_ranked(holders, capacity)),
{
    lemma_ranked_upto_descending(holders, holders.len() as int);
}

/// Every ranked entry is one of the holders that were listed.
pub proof fn lemma_ranked_upto_members(holders: Seq<HolderInfo>, n: int, k: int)
    requires
        0 <= n <= holders.len(),
        0 <= k < n,
    ensures
        exists|j: int| 0 <= j < n && ranked_upto(holders, n)[k] == holders[j],
    decreases n,
{
    lemma_ranked_upto_descending(holders, n - 1);
    let before = ranked_upto(holders, n - 1);
    lemma_rank_of_splits(before, holders[n - 1].balance);
    let position = rank_of(before, holders[n - 1].balance);
    if k < position {
        lemma_ranked_upto_members(holders, n - 1, k);
        let j = choose|j: int| 0 <= j < n - 1 && before[k] == holders[j];
        assert(ranked_upto(holders, n)[k] == holders[j]);
    } else if k == position {
        assert(ranked_upto(holders, n)[k] == holders[n - 1]);
    } else {
        lemma_ranked_upto_members(holders, n - 1, k - 1);
        let j = choose|j: int| 0 <= j < n - 1 && before[k - 1] == holders[j];
        assert(ranked_upto(holders, n)[k] == holders[j]);
    }
}

/// Where no two listed balances are equal, each ranked entry is strictly
/// smaller than the one before it.
pub proof fn lemma_ranked_upto_strict(holders: Seq<HolderInfo>, n: int)
    requires
        0 <= n <= holders.len(),
        distinct_balances(holders),
    ensures
        strictly_descending(ranked_upto(holders, n)),
    decreases n,
{
    if n > 0 {
        lemma_ranked_upto_strict(holders, n - 1);
        lemma_ranked_upto_descending(holders, n - 1);
        let before = ranked_upto(holders, n - 1);
        let holder = holders[n - 1];
        lemma_rank_of_splits(before, holder.balance);
        let position = rank_of(before, holder.balance);
        let grown = ranked_upto(holders, n);
        assert forall|k: int| 0 <= k < n - 1 implies before[k].balance != holder.balance by {
            lemma_ranked_upto_members(holders, n - 1, k);
        }
        assert forall|i: int, j: int| 0 <= i < j < grown.len() implies grown[i].balance
            > grown[j].balance by {
            if i < position && j == position {
                assert(before[i].balance != holder.balance);
            } else if i == position {
                assert(before[position].balance >= before[j - 1].balance);
            }
        }
    }
}

/// With no two balances equal, the selection is strictly ordered.
pub proof fn lemma_top_ranked_strict(holders: Seq<HolderInfo>, capacity: nat)
    requires
        distinct_balances(holders),
    ensures
        strictly_descending(top_ranked(holders, capacity)),
{
    lemma_ranked_upto_strict(holders, holders.len() as int);
    lemma_ranked_upto_descending(holders, holders.len() as int);
}

/// Ordering a list neither adds nor drops a holder.
pub proof fn lemma_ranked_upto_permutes(holders: Seq<HolderInfo>, n: int)
    requires
        0 <= n <= holders.len(),
    ensures
        ranked_upto(holders, n).to_multiset() == holders.take(n).to_multiset(),
    decreases n,
{
    broadcast use vstd::seq_lib::group_to_multiset_ensures;

    if n > 0 {
        lemma_ranked_upto_permutes(holders, n - 1);
        let before = ranked_upto(holders, n - 1);
        let holder = holders[n - 1];
        lemma_rank_of_splits(before, holder.balance);
        let position = rank_of(before, holder.balance);
        let grown = before.insert(position, holder);
        assert(grown.remove(position) =~= before);
        assert(grown[position] == holder);
        assert(grown.to_multiset().remove(holder) == before.to_multiset());
        assert(grown.to_multiset().count(holder) > 0);
        assert(grown.to_multiset() =~= before.to_multiset().insert(holder));
        assert(holders.take(n) =~= holders.take(n - 1).push(holder));
    } else {
        assert(holders.take(0) =~= Seq::<HolderInfo>::empty());
    }
}

/// The ranked list holds exactly the holders that were listed.
pub proof fn lemma_ranked_permutes(holders: Seq<HolderInfo>)
    ensures
        ranked(holders).to_multiset() == holders.to_multiset(),
{
    lemma_ranked_upto_permutes(holders, holders.len() as int);
    assert(holders.take(holders.len() as int) =~= holders);
}

/// Entries behind a smaller balance do not have the larger one.
proof fn lemma_none_with_balance(tail: Seq<HolderInfo>, balance: u64)
    requires
        forall|j: int| 0 <= j < tail.len() ==> tail[j].balance != balance,
    ensures
        with_balance(tail, balance) == Seq::<HolderInfo>::empty(),
{
    tail.lemma_all_neg_filter_empty(|holder: HolderInfo| holder.balance == balance);
}

/// Ordering does not reorder holders of equal balance.
pub proof fn lemma_ranked_upto_stable(holders: Seq<HolderInfo>, n: int, balance: u64)
    requires
        0 <= n <= holders.len(),
    ensures
        with_balance(ranked_upto(holders, n), balance) == with_balance(holders.take(n), balance),
    decreases n,
{
    let same = |holder: HolderInfo| holder.balance == balance;
    if n > 0 {
        lemma_ranked_upto_stable(holders, n - 1, balance);
        lemma_ranked_upto_descending(holders, n - 1);
        let before = ranked_upto(holders, n - 1);
        let holder = holders[n - 1];
        lemma_rank_of_splits(before, holder.balance);
        let position = rank_of(before, holder.balance);
        let front = before.take(position);
        let back = before.skip(position);
        let grown = before.insert(position, holder);
        assert(grown =~= front.push(holder) + back);
        assert(before =~= front + back);
        Seq::filter_distributes_over_add(front.push(holder), back, same);
        Seq::filter_distributes_over_add(front, back, same);
        front.lemma_filter_push(holder, same);
        holders.take(n - 1).lemma_filter_push(holder, same);
        assert(holders.take(n) =~= holders.take(n - 1).push(holder));
        if holder.balance == balance {
            assert forall|j: int| 0 <= j < back.len() implies back[j].balance != balance by {
                assert(back[j] == before[position + j]);
                assert(before[position].balance >= before[position + j].balance);
            }
            lemma_none_with_balance(back, balance);
            assert(front.filter(same).push(holder) + Seq::<HolderInfo>::empty()
                =~= front.filter(same).push(holder));
            assert(front.filter(same) + Seq::<HolderInfo>::empty() =~= front.filter(same));
        }
    } else {
        assert(holders.take(0) =~= Seq::<HolderInfo>::empty());
    }
}

/// Among the holders that registered one balance, the ranked list keeps the
/// order in which they were listed.
pub proof fn lemma_ranked_stable(holders: Seq<HolderInfo>, balance: u64)
    ensures
        with_balance(ranked(holders), balance) == with_balance(holders, balance),
{
    lemma_ranked_upto_stable(holders, holders.len() as int, balance);
    assert(holders.take(holders.len() as int) =~= holders);
}

/// The split of a non-empty list at its head, seen through `with_balance`.
proof fn lemma_with_balance_head(holders: Seq<HolderInfo>, balance: u64)
    requires
        holders.len() > 0,
    ensures
        with_balance(holders, balance) == (if holders.first().balance == balance {
            seq![holders.first()]
        } else {
            Seq::<HolderInfo>::empty()
        }) + with_balance(holders.drop_first(), balance),
{
    let same = |holder: HolderInfo| holder.balance == balance;
    holders.drop_first().lemma_filter_prepend(holders.first(), same);
    assert(seq![holders.first()] + holders.drop_first() =~= holders);
}

/// A list that holds some entry with `balance` is not empty when narrowed
/// down to that balance, and conversely.
proof fn lemma_with_balance_occupied(holders: Seq<HolderInfo>, balance: u64)
    ensures
        with_balance(holders, balance).len() > 0 <==> exists|i: int|
            0 <= i < holders.len() && holders[i].balance == balance,
{
    let same = |holder: HolderInfo| holder.balance == balance;
    let narrowed = with_balance(holders, balance);
    if narrowed.len() > 0 {
        holders.lemma_filter_pred(same, 0);
        assert(narrowed.contains(narrowed[0]));
        holders.lemma_filter_contains_rev(same, narrowed[0]);
        let i = choose|i: int| 0 <= i < holders.len() && holders[i] == narrowed[0];
        assert(holders[i].balance == balance);
    }
    if exists|i: int| 0 <= i < holders.len() && holders[i].balance == balance {
        let i = choose|i: int| 0 <= i < holders.len() && holders[i].balance == balance;
        holders.lemma_filter_contains(same, i);
    }
}

/// Two lists ordered by balance that agree on the holders of every balance,
/// and on their order, are one and the same list.
pub proof fn lemma_ordering_is_unique(one: Seq<HolderInfo>, other: Seq<HolderInfo>)
    requires
        descending(one),
        descending(other),
        forall|balance: u64| with_balance(one, balance) == with_balance(other, balance),
    ensures
        one == other,
    decreases one.len(),
{
    if one.len() == 0 {
        if other.len() > 0 {
            lemma_with_balance_occupied(other, other[0].balance);
            lemma_with_balance_occupied(one, other[0].balance);
        }
        assert(one =~= other);
    } else {
        let top = one[0].balance;
        lemma_with_balance_occupied(one, top);
        lemma_with_balance_occupied(other, top);
        let i = choose|i: int| 0 <= i < other.len() && other[i].balance == top;
        assert(other[0].balance >= other[i].balance);
        lemma_with_balance_occupied(other, other[0].balance);
        lemma_with_balance_occupied(one, other[0].balance);
        let j = choose|j: int| 0 <= j < one.len() && one[j].balance == other[0].balance;
        assert(one[0].balance >= one[j].balance);
        assert(other[0].balance == top);
        lemma_with_balance_head(one, top);
        lemma_with_balance_head(other, top);
        let one_rest = one.drop_first();
        let other_rest = other.drop_first();
        let one_same = seq![one[0]] + with_balance(one_rest, top);
        let other_same = seq![other[0]] + with_balance(other_rest, top);
        assert(one_same[0] == other_same[0]);
        assert(one[0] == other[0]);
        assert forall|balance: u64|
            with_balance(one_rest, balance) == with_balance(other_rest, balance) by {
            lemma_with_balance_head(one, balance);
            lemma_with_balance_head(other, balance);
            if balance == top {
                assert(with_balance(one_rest, top) =~= one_same.drop_first());
                assert(with_balance(other_rest, top) =~= other_same.drop_first());
            } else {
                assert(with_balance(one_rest, balance) =~= Seq::<HolderInfo>::empty()
                    + with_balance(one_rest, balance));
                assert(with_balance(other_rest, balance) =~= Seq::<HolderInfo>::empty()
                    + with_balance(other_rest, balance));
            }
        }
        assert forall|i: int, j: int| 0 <= i < j < one_rest.len() implies one_rest[i].balance
            >= one_rest[j].balance by {
            assert(one_rest[i] == one[i + 1] && one_rest[j] == one[j + 1]);
        }
        assert forall|i: int, j: int| 0 <= i < j < other_rest.len() implies other_rest[i].balance
            >= other_rest[j].balance by {
            assert(other_rest[i] == other[i + 1] && other_rest[j] == other[j + 1]);
        }
        lemma_ordering_is_unique(one_rest, other_rest);
        assert(one =~= seq![one[0]] + one_rest);
        assert(other =~= seq![other[0]] + other_rest);
    }
}

/// `ranked` is the one way to order a list by balance, largest first,
/// without reordering holders of equal balance.
pub proof fn lemma_ranked_is_the_stable_order(holders: Seq<HolderInfo>, sorted: Seq<HolderInfo>)
    requires
        descending(sorted),
        forall|balance: u64| with_balance(sorted, balance) == with_balance(holders, balance),
    ensures
        sorted == ranked(holders),
{
    lemma_ranked_upto_descending(holders, holders.len() as int);
    assert forall|balance: u64|
        with_balance(sorted, balance) == with_balance(ranked(holders), balance) by {
        lemma_ranked_stable(holders, balance);
    }
    lemma_ordering_is_unique(sorted, ranked(holders));
}

/// Orders a list of holders by balance, largest first, leaving holders of
/// equal balance in the order given.
pub fn rank(holders: &Vec<HolderInfo>) -> (sorted: Vec<HolderInfo>)
    ensures
        sorted@ == ranked(holders@),
        sorted@.len() == holders@.len(),
        descending(sorted@),
        sorted@.to_multiset() == holders@.to_multiset(),
        forall|balance: u64| #[trigger]
            with_balance(sorted@, balance) == with_balance(holders@, balance),
{
    let mut sorted: Vec<HolderInfo> = Vec::with_capacity(holders.len());
    let mut i: usize = 0;
    while i < holders.len()
        invariant
            i <= holders.len(),
            sorted@ == ranked_upto(holders@, i as int),
        decreases holders.len() - i,
    {
        let holder: HolderInfo = holders[i];
        proof {
            lemma_ranked_upto_descending(holders@, i as int);
        }
        let mut position: usize = 0;
        while position < sorted.len() && sorted[position].balance >= holder.balance
            invariant
                position <= sorted.len(),
                forall|j: int| 0 <= j < position ==> sorted@[j].balance >= holder.balance,
            decreases sorted.len() - position,
        {
            position += 1;
        }
        proof {
            lemma_split_is_rank(sorted@, holder.balance, position as int);
        }
        sorted.insert(position, holder);
        i += 1;
    }
    proof {
        lemma_ranked_upto_descending(holders@, holders@.len() as int);
        lemma_ranked_permutes(holders@);
        assert forall|balance: u64| #[trigger]
            with_balance(sorted@, balance) == with_balance(holders@, balance) by {
            lemma_ranked_stable(holders@, balance);
        }
    }
    sorted
}

/// Picks the registry out of a list of holders: the `capacity` largest, or
/// all of them if there are fewer, largest first.
pub fn select_top(holders: &Vec<HolderInfo>, capacity: usize) -> (top: Vec<HolderInfo>)
    ensures
        top@ == top_ranked(holders@, capacity as nat),
        top@.len() == if holders@.len() <= capacity {
            holders@.len()
        } else {
            capacity as nat
        },
        descending(top@),
        distinct_balances(holders@) ==> strictly_descending(top@),
{
    let mut top: Vec<HolderInfo> = rank(holders);
    top.truncate(capacity);
    proof {
        assert(top@ =~= top_ranked(holders@, capacity as nat));
        lemma_top_ranked_shape(holders@, capacity as nat);
        if distinct_balances(holders@) {
            lemma_top_ranked_strict(holders@, capacity as nat);
        }
    }
    top
}

} // verus!
