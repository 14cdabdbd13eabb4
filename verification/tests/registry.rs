use reward_pool::ranking::{rank, select_top};
use reward_pool::{update_top_holders, Address, ErrorCode, HolderInfo, RewardPool, UpdateTopHolders};

fn address(tag: u8) -> Address {
    Address::new([tag; 32])
}

fn holder(tag: u8, balance: u64) -> HolderInfo {
    HolderInfo { address: address(tag), balance }
}

fn update_by(owner: u8, signer: u8, mint: Option<Address>) -> UpdateTopHolders {
    UpdateTopHolders { pool: RewardPool::new(address(owner), mint, 255, 254), authority: address(signer) }
}

fn tags(holders: &[HolderInfo]) -> Vec<u8> {
    holders.iter().map(|h| h.address.bytes[0]).collect()
}

#[test]
fn update_orders_by_balance_largest_first() {
    let mut ctx = update_by(9, 9, None);
    let listed = vec![holder(1, 5), holder(2, 700), holder(3, 0), holder(4, 42), holder(5, u64::MAX)];
    assert_eq!(update_top_holders(&mut ctx, listed), Ok(()));
    assert_eq!(
        ctx.pool.top_holders,
        vec![holder(5, u64::MAX), holder(2, 700), holder(4, 42), holder(1, 5), holder(3, 0)]
    );
}

#[test]
fn update_keeps_listing_order_among_equal_balances() {
    let mut ctx = update_by(9, 9, None);
    let listed = vec![holder(1, 50), holder(2, 100), holder(3, 50), holder(4, 100), holder(5, 50)];
    assert_eq!(update_top_holders(&mut ctx, listed), Ok(()));
    assert_eq!(tags(&ctx.pool.top_holders), vec![2, 4, 1, 3, 5]);
}

#[test]
fn update_replaces_the_registry_wholesale() {
    let mut ctx = update_by(9, 9, None);
    assert_eq!(update_top_holders(&mut ctx, vec![holder(1, 10), holder(2, 20), holder(3, 30)]), Ok(()));
    assert_eq!(update_top_holders(&mut ctx, vec![holder(7, 1)]), Ok(()));
    assert_eq!(ctx.pool.top_holders, vec![holder(7, 1)]);
    assert_eq!(update_top_holders(&mut ctx, Vec::new()), Ok(()));
    assert!(ctx.pool.top_holders.is_empty());
}

#[test]
fn update_leaves_counters_and_identity_alone() {
    let mut ctx = update_by(9, 9, None);
    ctx.pool.total_rewards = 77;
    ctx.pool.total_distributed = 33;
    assert_eq!(update_top_holders(&mut ctx, vec![holder(1, 1), holder(2, 2)]), Ok(()));
    assert_eq!(ctx.pool.total_rewards, 77);
    assert_eq!(ctx.pool.total_distributed, 33);
    assert_eq!(ctx.pool.owner, address(9));
    assert_eq!(ctx.pool.mint, None);
    assert_eq!(ctx.pool.bump, 255);
    assert_eq!(ctx.pool.vault_bump, 254);
    assert_eq!(ctx.authority, address(9));
}

#[test]
fn update_accepts_a_full_native_registry() {
    let mut ctx = update_by(9, 9, None);
    let listed: Vec<HolderInfo> = (0..20u8).map(|i| holder(i, i as u64)).collect();
    assert_eq!(update_top_holders(&mut ctx, listed), Ok(()));
    assert_eq!(ctx.pool.top_holders.len(), 20);
    assert_eq!(tags(&ctx.pool.top_holders), (0..20u8).rev().collect::<Vec<u8>>());
}

#[test]
fn update_refuses_more_than_twenty_in_a_native_pool() {
    let mut ctx = update_by(9, 9, None);
    assert_eq!(update_top_holders(&mut ctx, vec![holder(1, 10)]), Ok(()));
    let before = ctx.clone();
    let listed: Vec<HolderInfo> = (0..21u8).map(|i| holder(i, i as u64)).collect();
    assert_eq!(update_top_holders(&mut ctx, listed), Err(ErrorCode::TooManyHolders));
    assert_eq!(ctx, before);
}

#[test]
fn update_caps_a_token_pool_at_ten() {
    let mut ctx = update_by(9, 9, Some(address(77)));
    let ten: Vec<HolderInfo> = (0..10u8).map(|i| holder(i, 100 - i as u64)).collect();
    assert_eq!(update_top_holders(&mut ctx, ten.clone()), Ok(()));
    assert_eq!(ctx.pool.top_holders, ten);
    let eleven: Vec<HolderInfo> = (0..11u8).map(|i| holder(i, i as u64)).collect();
    assert_eq!(update_top_holders(&mut ctx, eleven), Err(ErrorCode::TooManyHolders));
    assert_eq!(ctx.pool.top_holders, ten);
}

#[test]
fn update_refuses_anyone_but_the_owner() {
    let mut ctx = update_by(9, 8, None);
    ctx.pool.top_holders.push(holder(1, 10));
    let before = ctx.clone();
    assert_eq!(update_top_holders(&mut ctx, vec![holder(2, 20)]), Err(ErrorCode::Unauthorized));
    assert_eq!(ctx, before);
}

#[test]
fn update_reports_the_length_before_the_caller() {
    let mut ctx = update_by(9, 8, None);
    let listed: Vec<HolderInfo> = (0..21u8).map(|i| holder(i, 1)).collect();
    assert_eq!(update_top_holders(&mut ctx, listed), Err(ErrorCode::TooManyHolders));
}

#[test]
fn update_tells_owners_apart_by_every_byte() {
    let mut bytes = [9u8; 32];
    bytes[31] = 10;
    let mut ctx = UpdateTopHolders {
        pool: RewardPool::new(address(9), None, 1, 2),
        authority: Address::new(bytes),
    };
    assert_eq!(update_top_holders(&mut ctx, Vec::new()), Err(ErrorCode::Unauthorized));
}

#[test]
fn rank_sorts_without_dropping_or_inventing() {
    let listed = vec![holder(1, 3), holder(2, 3), holder(3, 9), holder(4, 1), holder(5, 9), holder(6, 3)];
    let sorted = rank(&listed);
    assert_eq!(tags(&sorted), vec![3, 5, 1, 2, 6, 4]);
    assert_eq!(sorted.len(), listed.len());
    for pair in sorted.windows(2) {
        assert!(pair[0].balance >= pair[1].balance);
    }
    assert!(rank(&Vec::new()).is_empty());
    assert_eq!(rank(&vec![holder(1, 0)]), vec![holder(1, 0)]);
}

#[test]
fn rank_leaves_a_sorted_list_as_it_is() {
    let listed = vec![holder(1, 30), holder(2, 20), holder(3, 20), holder(4, 10)];
    assert_eq!(rank(&listed), listed);
}

#[test]
fn select_top_keeps_the_largest_up_to_the_cap() {
    let listed = vec![holder(1, 10), holder(2, 40), holder(3, 30), holder(4, 20), holder(5, 50)];
    assert_eq!(tags(&select_top(&listed, 3)), vec![5, 2, 3]);
    assert_eq!(tags(&select_top(&listed, 5)), vec![5, 2, 3, 4, 1]);
    assert_eq!(tags(&select_top(&listed, 9)), vec![5, 2, 3, 4, 1]);
    assert!(select_top(&listed, 0).is_empty());
}

#[test]
fn select_top_is_strict_when_balances_differ() {
    let listed: Vec<HolderInfo> = (0..30u8).map(|i| holder(i, (i as u64 * 7) % 31)).collect();
    let top = select_top(&listed, 20);
    assert_eq!(top.len(), 20);
    for pair in top.windows(2) {
        assert!(pair[0].balance > pair[1].balance);
    }
}

#[test]
fn select_top_with_equal_balances_is_not_strict() {
    let top = select_top(&vec![holder(1, 5), holder(2, 5)], 20);
    assert_eq!(top, vec![holder(1, 5), holder(2, 5)]);
}
