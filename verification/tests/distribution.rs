use reward_pool::distribution::{check_recipient, plan_distribution};
use reward_pool::shares::compute_shares;
use reward_pool::{
    distribute_rewards, Address, DistributeRewards, DistributionPolicy, ErrorCode, HolderInfo,
    HoldingAccount, Payout, RewardPool, Vault,
};

fn key(tag: u8) -> Address {
    Address::new([tag; 32])
}

const MINT: u8 = 70;
const OTHER_MINT: u8 = 71;
const TOKEN_PROGRAM: u8 = 80;
const OTHER_PROGRAM: u8 = 81;

fn wallet(tag: u8) -> HoldingAccount {
    HoldingAccount { address: key(tag), mint: None, program: key(0) }
}

fn token_account(tag: u8) -> HoldingAccount {
    HoldingAccount { address: key(tag), mint: Some(key(MINT)), program: key(TOKEN_PROGRAM) }
}

fn pool_of(mint: Option<Address>, balances: &[(u8, u64)]) -> RewardPool {
    let mut pool = RewardPool::new(key(200), mint, 254, 253);
    for (tag, balance) in balances {
        pool.top_holders.push(HolderInfo { address: key(*tag), balance: *balance });
    }
    pool
}

fn native(balances: &[(u8, u64)], vault: u64, recipients: &[u8]) -> DistributeRewards {
    DistributeRewards {
        pool: pool_of(None, balances),
        pool_vault: Vault { balance: vault },
        asset_program: key(0),
        remaining_accounts: recipients.iter().map(|tag| wallet(*tag)).collect(),
    }
}

fn token(balances: &[(u8, u64)], vault: u64, recipients: &[u8]) -> DistributeRewards {
    DistributeRewards {
        pool: pool_of(Some(key(MINT)), balances),
        pool_vault: Vault { balance: vault },
        asset_program: key(TOKEN_PROGRAM),
        remaining_accounts: recipients.iter().map(|tag| token_account(*tag)).collect(),
    }
}

fn payout(index: usize, tag: u8, amount: u64) -> Payout {
    Payout { index, to: key(tag), amount }
}

#[test]
fn equal_split_of_ten_among_four() {
    let mut ctx = native(&[(1, 40), (2, 30), (3, 20), (4, 10)], 10, &[1, 2, 3, 4]);
    let approved = distribute_rewards(&mut ctx).unwrap();
    assert_eq!(
        approved.payouts,
        vec![payout(0, 1, 2), payout(1, 2, 2), payout(2, 3, 2), payout(3, 4, 2)]
    );
    assert_eq!(ctx.pool.total_distributed, 8);
    assert_eq!(ctx.pool.total_rewards, 10);
    assert_eq!(ctx.pool_vault.balance, 2);
}

#[test]
fn proportional_split_of_two_hundred_and_one() {
    let mut ctx = token(&[(1, 100), (2, 50), (3, 50)], 201, &[1, 2, 3]);
    ctx.pool.total_rewards = 201;
    let approved = distribute_rewards(&mut ctx).unwrap();
    assert_eq!(approved.payouts, vec![payout(0, 1, 100), payout(1, 2, 50), payout(2, 3, 50)]);
    assert_eq!(ctx.pool.total_distributed, 200);
    assert_eq!(ctx.pool.total_rewards, 201);
    assert_eq!(ctx.pool_vault.balance, 1);
}

#[test]
fn too_few_recipient_accounts() {
    let mut ctx = native(&[(1, 40), (2, 30), (3, 20)], 900, &[1, 2]);
    ctx.pool.total_rewards = 5;
    ctx.pool.total_distributed = 4;
    let before = ctx.clone();
    assert_eq!(distribute_rewards(&mut ctx).unwrap_err(), ErrorCode::InsufficientAccounts);
    assert_eq!(ctx, before);
    let mut ctx = token(&[(1, 40), (2, 30), (3, 20)], 900, &[1, 2]);
    let before = ctx.clone();
    assert_eq!(distribute_rewards(&mut ctx).unwrap_err(), ErrorCode::InsufficientAccounts);
    assert_eq!(ctx, before);
}

#[test]
fn empty_registry_is_left_alone() {
    for mut ctx in [native(&[], 500, &[1, 2]), token(&[], 500, &[])] {
        ctx.pool.total_rewards = 9;
        ctx.pool.total_distributed = 3;
        let before = ctx.clone();
        let approved = distribute_rewards(&mut ctx).unwrap();
        assert!(approved.payouts.is_empty());
        assert_eq!(ctx, before);
    }
}

#[test]
fn empty_vault_is_left_alone() {
    for mut ctx in [native(&[(1, 5), (2, 5)], 0, &[1, 2]), token(&[(1, 5), (2, 5)], 0, &[1, 2])] {
        ctx.pool.total_rewards = 9;
        ctx.pool.total_distributed = 3;
        let before = ctx.clone();
        let approved = distribute_rewards(&mut ctx).unwrap();
        assert!(approved.payouts.is_empty());
        assert_eq!(ctx, before);
    }
}

#[test]
fn empty_vault_does_not_ask_for_accounts() {
    let mut ctx = native(&[(1, 5), (2, 5), (3, 5)], 0, &[]);
    let before = ctx.clone();
    assert!(distribute_rewards(&mut ctx).unwrap().payouts.is_empty());
    assert_eq!(ctx, before);
    let mut twice = ctx.clone();
    assert!(distribute_rewards(&mut twice).unwrap().payouts.is_empty());
    assert_eq!(twice, before);
}

#[test]
fn weightless_registry_is_left_alone() {
    let mut ctx = token(&[(1, 0), (2, 0)], 500, &[]);
    ctx.pool.total_distributed = 3;
    let before = ctx.clone();
    assert!(distribute_rewards(&mut ctx).unwrap().payouts.is_empty());
    assert_eq!(ctx, before);
}

#[test]
fn equal_split_ignores_registered_balances() {
    let mut ctx = native(&[(1, 1_000_000), (2, 1), (3, 0)], 100, &[1, 2, 3]);
    let approved = distribute_rewards(&mut ctx).unwrap();
    assert_eq!(approved.payouts, vec![payout(0, 1, 33), payout(1, 2, 33), payout(2, 3, 33)]);
    assert_eq!(ctx.pool.total_distributed, 99);
    assert_eq!(ctx.pool_vault.balance, 1);
}

#[test]
fn equal_split_too_small_to_share_pays_nobody() {
    let mut ctx = native(&[(1, 9), (2, 8), (3, 7)], 2, &[9, 9, 9]);
    ctx.pool.total_distributed = 40;
    ctx.pool.total_rewards = 40;
    let approved = distribute_rewards(&mut ctx).unwrap();
    assert!(approved.payouts.is_empty());
    assert_eq!(ctx.pool.total_distributed, 40);
    assert_eq!(ctx.pool.total_rewards, 42);
    assert_eq!(ctx.pool_vault.balance, 2);
}

#[test]
fn native_pool_records_what_it_has_received() {
    let mut ctx = native(&[(1, 1), (2, 1)], 11, &[1, 2]);
    ctx.pool.total_distributed = 100;
    ctx.pool.total_rewards = 100;
    distribute_rewards(&mut ctx).unwrap();
    assert_eq!(ctx.pool.total_rewards, 111);
    assert_eq!(ctx.pool.total_distributed, 110);
    assert_eq!(ctx.pool_vault.balance, 1);
    ctx.pool_vault.balance = 7;
    distribute_rewards(&mut ctx).unwrap();
    assert_eq!(ctx.pool.total_rewards, 117);
    assert_eq!(ctx.pool.total_distributed, 116);
    assert_eq!(ctx.pool_vault.balance, 1);
}

#[test]
fn accounts_beyond_the_registry_are_ignored() {
    let mut ctx = native(&[(1, 1), (2, 1)], 10, &[1, 2, 3, 4]);
    let approved = distribute_rewards(&mut ctx).unwrap();
    assert_eq!(approved.payouts, vec![payout(0, 1, 5), payout(1, 2, 5)]);
    assert_eq!(ctx.remaining_accounts.len(), 4);
}

#[test]
fn native_recipient_must_be_the_registered_holder() {
    let mut ctx = native(&[(1, 1), (2, 1), (3, 1)], 30, &[1, 3, 2]);
    let before = ctx.clone();
    assert_eq!(distribute_rewards(&mut ctx).unwrap_err(), ErrorCode::InvalidRecipient);
    assert_eq!(ctx, before);
}

#[test]
fn native_pool_overflows_on_what_it_has_received() {
    let mut ctx = native(&[(1, 1)], 2, &[1]);
    ctx.pool.total_distributed = u64::MAX - 1;
    let before = ctx.clone();
    assert_eq!(distribute_rewards(&mut ctx).unwrap_err(), ErrorCode::MathOverflow);
    assert_eq!(ctx, before);
    ctx.pool_vault.balance = 1;
    let approved = distribute_rewards(&mut ctx).unwrap();
    assert_eq!(approved.payouts, vec![payout(0, 1, 1)]);
    assert_eq!(ctx.pool.total_distributed, u64::MAX);
    assert_eq!(ctx.pool.total_rewards, u64::MAX);
}

#[test]
fn native_overflow_is_reported_before_a_wrong_recipient() {
    let mut ctx = native(&[(1, 1)], 2, &[9]);
    ctx.pool.total_distributed = u64::MAX;
    assert_eq!(distribute_rewards(&mut ctx).unwrap_err(), ErrorCode::MathOverflow);
}

#[test]
fn proportional_split_rounds_every_share_down() {
    let mut ctx = token(&[(1, 3), (2, 2), (3, 2)], 10, &[1, 2, 3]);
    let approved = distribute_rewards(&mut ctx).unwrap();
    assert_eq!(approved.payouts, vec![payout(0, 1, 4), payout(1, 2, 2), payout(2, 3, 2)]);
    assert_eq!(ctx.pool.total_distributed, 8);
    assert_eq!(ctx.pool_vault.balance, 2);
    assert_eq!(ctx.pool.total_rewards, 0);
}

#[test]
fn proportional_split_skips_a_share_of_zero() {
    let mut ctx = token(&[(1, 1000), (2, 1), (3, 0)], 100, &[1, 2, 3]);
    ctx.remaining_accounts[1] = wallet(99);
    ctx.remaining_accounts[2].program = key(OTHER_PROGRAM);
    let approved = distribute_rewards(&mut ctx).unwrap();
    assert_eq!(approved.payouts, vec![payout(0, 1, 99)]);
    assert_eq!(ctx.pool.total_distributed, 99);
    assert_eq!(ctx.pool_vault.balance, 1);
}

#[test]
fn proportional_split_multiplies_in_128_bits() {
    let mut ctx = token(&[(1, u64::MAX), (2, u64::MAX)], u64::MAX, &[1, 2]);
    let approved = distribute_rewards(&mut ctx).unwrap();
    let half = u64::MAX / 2;
    assert_eq!(approved.payouts, vec![payout(0, 1, half), payout(1, 2, half)]);
    assert_eq!(ctx.pool.total_distributed, u64::MAX - 1);
    assert_eq!(ctx.pool_vault.balance, 1);
}

#[test]
fn proportional_split_of_a_single_holder_pays_everything() {
    let mut ctx = token(&[(1, 7)], 1234, &[1]);
    let approved = distribute_rewards(&mut ctx).unwrap();
    assert_eq!(approved.payouts, vec![payout(0, 1, 1234)]);
    assert_eq!(ctx.pool_vault.balance, 0);
}

#[test]
fn token_pool_overflows_on_what_it_has_paid() {
    let mut ctx = token(&[(1, 1), (2, 1)], 10, &[1, 2]);
    ctx.pool.total_distributed = u64::MAX - 9;
    let before = ctx.clone();
    assert_eq!(distribute_rewards(&mut ctx).unwrap_err(), ErrorCode::MathOverflow);
    assert_eq!(ctx, before);
    ctx.pool.total_distributed = u64::MAX - 10;
    distribute_rewards(&mut ctx).unwrap();
    assert_eq!(ctx.pool.total_distributed, u64::MAX);
}

#[test]
fn token_recipient_must_be_the_registered_account() {
    let mut ctx = token(&[(1, 5), (2, 5)], 10, &[1, 3]);
    let before = ctx.clone();
    assert_eq!(distribute_rewards(&mut ctx).unwrap_err(), ErrorCode::InvalidRecipient);
    assert_eq!(ctx, before);
}

#[test]
fn token_recipient_must_hold_the_pool_token() {
    let mut ctx = token(&[(1, 5), (2, 5)], 10, &[1, 2]);
    ctx.remaining_accounts[1].mint = Some(key(OTHER_MINT));
    let before = ctx.clone();
    assert_eq!(distribute_rewards(&mut ctx).unwrap_err(), ErrorCode::InvalidMint);
    assert_eq!(ctx, before);
    ctx.remaining_accounts[1].mint = None;
    assert_eq!(distribute_rewards(&mut ctx).unwrap_err(), ErrorCode::InvalidMint);
}

#[test]
fn token_recipient_must_be_run_by_the_token_program() {
    let mut ctx = token(&[(1, 5), (2, 5)], 10, &[1, 2]);
    ctx.remaining_accounts[0].program = key(OTHER_PROGRAM);
    let before = ctx.clone();
    assert_eq!(distribute_rewards(&mut ctx).unwrap_err(), ErrorCode::InvalidTokenProgram);
    assert_eq!(ctx, before);
}

#[test]
fn first_mismatch_decides_the_error() {
    let mut ctx = token(&[(1, 5), (2, 5), (3, 5)], 30, &[1, 2, 9]);
    ctx.remaining_accounts[1].mint = Some(key(OTHER_MINT));
    assert_eq!(distribute_rewards(&mut ctx).unwrap_err(), ErrorCode::InvalidMint);
    ctx.remaining_accounts[0].program = key(OTHER_PROGRAM);
    assert_eq!(distribute_rewards(&mut ctx).unwrap_err(), ErrorCode::InvalidTokenProgram);
}

#[test]
fn check_recipient_looks_at_address_then_mint_then_program() {
    let holder = HolderInfo { address: key(1), balance: 10 };
    let mint = Some(key(MINT));
    let program = key(TOKEN_PROGRAM);
    assert_eq!(check_recipient(&mint, &program, &holder, &token_account(1)), None);
    let mut all_wrong = token_account(2);
    all_wrong.mint = Some(key(OTHER_MINT));
    all_wrong.program = key(OTHER_PROGRAM);
    assert_eq!(check_recipient(&mint, &program, &holder, &all_wrong), Some(ErrorCode::InvalidRecipient));
    all_wrong.address = key(1);
    assert_eq!(check_recipient(&mint, &program, &holder, &all_wrong), Some(ErrorCode::InvalidMint));
    all_wrong.mint = mint;
    assert_eq!(check_recipient(&mint, &program, &holder, &all_wrong), Some(ErrorCode::InvalidTokenProgram));
    assert_eq!(check_recipient(&None, &program, &holder, &all_wrong), None);
    assert_eq!(check_recipient(&None, &program, &holder, &wallet(1)), None);
    assert_eq!(check_recipient(&None, &program, &holder, &wallet(2)), Some(ErrorCode::InvalidRecipient));
}

#[test]
fn planning_touches_nothing() {
    let ctx = token(&[(1, 100), (2, 50), (3, 50)], 201, &[1, 2, 3]);
    let plan =
        plan_distribution(&ctx.pool, ctx.pool_vault.balance, &ctx.asset_program, &ctx.remaining_accounts)
            .unwrap();
    assert_eq!(plan.total_distributed, 200);
    assert_eq!(plan.total_rewards, 0);
    assert_eq!(plan.vault_balance, 1);
    assert_eq!(plan.payouts.len(), 3);
    assert_eq!(ctx.pool.total_distributed, 0);
}

#[test]
fn shares_follow_the_policy() {
    let holders: Vec<HolderInfo> =
        [(1u8, 100u64), (2, 50), (3, 50)].iter().map(|(t, b)| HolderInfo { address: key(*t), balance: *b }).collect();
    assert_eq!(compute_shares(DistributionPolicy::EqualSplit, 201, &holders), vec![67, 67, 67]);
    assert_eq!(compute_shares(DistributionPolicy::ProportionalSplit, 201, &holders), vec![100, 50, 50]);
    assert_eq!(compute_shares(DistributionPolicy::EqualSplit, 2, &holders), vec![0, 0, 0]);
    assert_eq!(compute_shares(DistributionPolicy::ProportionalSplit, 3, &holders), vec![1, 0, 0]);
    assert!(compute_shares(DistributionPolicy::EqualSplit, 5, &Vec::new()).is_empty());
    assert!(compute_shares(DistributionPolicy::ProportionalSplit, 5, &Vec::new()).is_empty());
}

#[test]
fn shares_never_add_up_to_more_than_the_balance() {
    let holders: Vec<HolderInfo> =
        (1..=20u8).map(|i| HolderInfo { address: key(i), balance: (i as u64) * 1_000_003 + 17 }).collect();
    for balance in [1u64, 19, 20, 21, 1_000, 999_999_937, u64::MAX] {
        let equal: u128 = compute_shares(DistributionPolicy::EqualSplit, balance, &holders).iter().map(|s| *s as u128).sum();
        assert_eq!(equal, (balance / 20) as u128 * 20);
        assert!(balance as u128 - equal < 20);
        let weighted: u128 =
            compute_shares(DistributionPolicy::ProportionalSplit, balance, &holders).iter().map(|s| *s as u128).sum();
        assert!(weighted <= balance as u128);
    }
}

#[test]
fn native_authority_signs_with_domain_and_bump() {
    let mut ctx = native(&[(1, 1)], 5, &[1]);
    let approved = distribute_rewards(&mut ctx).unwrap();
    assert_eq!(approved.authority.signer_seeds(), vec![b"vault".to_vec(), vec![253u8]]);
}

#[test]
fn token_authority_signs_with_the_mint_as_well() {
    let mut ctx = token(&[(1, 1)], 5, &[1]);
    let approved = distribute_rewards(&mut ctx).unwrap();
    assert_eq!(approved.authority.signer_seeds(), vec![b"vault".to_vec(), vec![MINT; 32], vec![253u8]]);
}
