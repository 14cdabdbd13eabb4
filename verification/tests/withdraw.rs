use reward_pool::{owner_withdraw, Address, ErrorCode, HolderInfo, OwnerWithdraw, RewardPool, Vault};

fn id(tag: u8) -> Address {
    Address::new([tag; 32])
}

fn withdrawal_by(signer: u8, vault: u64) -> OwnerWithdraw {
    let mut pool = RewardPool::new(id(1), None, 250, 251);
    pool.total_rewards = 900;
    pool.total_distributed = 400;
    pool.top_holders.push(HolderInfo { address: id(5), balance: 10 });
    OwnerWithdraw { pool, pool_vault: Vault { balance: vault }, owner: id(signer) }
}

#[test]
fn owner_takes_part_of_the_vault() {
    let mut ctx = withdrawal_by(1, 500);
    let pool_before = ctx.pool.clone();
    let approved = owner_withdraw(&mut ctx, 120).unwrap();
    assert_eq!(approved.amount, 120);
    assert_eq!(approved.to, id(1));
    assert_eq!(approved.authority.signer_seeds(), vec![b"vault".to_vec(), vec![251u8]]);
    assert_eq!(ctx.pool_vault.balance, 380);
    assert_eq!(ctx.pool, pool_before);
}

#[test]
fn owner_may_empty_the_vault() {
    let mut ctx = withdrawal_by(1, 500);
    assert_eq!(owner_withdraw(&mut ctx, 500).unwrap().amount, 500);
    assert_eq!(ctx.pool_vault.balance, 0);
}

#[test]
fn owner_may_withdraw_nothing() {
    let mut ctx = withdrawal_by(1, 0);
    assert_eq!(owner_withdraw(&mut ctx, 0).unwrap().amount, 0);
    assert_eq!(ctx.pool_vault.balance, 0);
}

#[test]
fn nobody_else_may_withdraw() {
    for amount in [0u64, 1, 500, 501, u64::MAX] {
        let mut ctx = withdrawal_by(2, 500);
        let before = ctx.clone();
        assert_eq!(owner_withdraw(&mut ctx, amount).unwrap_err(), ErrorCode::Unauthorized);
        assert_eq!(ctx, before);
    }
}

#[test]
fn owner_cannot_take_more_than_the_vault_holds() {
    let mut ctx = withdrawal_by(1, 500);
    let before = ctx.clone();
    assert_eq!(owner_withdraw(&mut ctx, 501).unwrap_err(), ErrorCode::InsufficientBalance);
    assert_eq!(ctx, before);
}

#[test]
fn token_pool_checks_the_balance_too() {
    let mut ctx = OwnerWithdraw {
        pool: RewardPool::new(id(1), Some(id(70)), 250, 251),
        pool_vault: Vault { balance: 10 },
        owner: id(1),
    };
    assert_eq!(owner_withdraw(&mut ctx, 11).unwrap_err(), ErrorCode::InsufficientBalance);
    let approved = owner_withdraw(&mut ctx, 10).unwrap();
    assert_eq!(approved.authority.signer_seeds(), vec![b"vault".to_vec(), vec![70u8; 32], vec![251u8]]);
    assert_eq!(ctx.pool_vault.balance, 0);
}
