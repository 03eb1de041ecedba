use nft_staking::state::{ErrorCode, ItemType, UserType, Vault, VaultStatus};
use nft_staking::stake::{stake, unstake};
use nft_staking::vault::{
    create_user, create_vault, fund, withdraw_aliens_pool, withdraw_ctzns_pool,
    withdraw_gods_pool,
};

const AUTHORITY: u64 = 7;
const MINT: u64 = 9;

fn ready_vault() -> Vault {
    let mut v = Vault::default();
    create_vault(&mut v, AUTHORITY, MINT).unwrap();
    v
}

#[test]
fn create_vault_initializes_everything() {
    let mut v = Vault::default();
    assert_eq!(create_vault(&mut v, AUTHORITY, MINT), Ok(()));
    assert_eq!(v.status, VaultStatus::Initialized);
    assert_eq!(v.authority, AUTHORITY);
    assert_eq!(v.reward_mint, MINT);
    assert_eq!(v.ctzns_pool_amount, 0);
    assert_eq!(v.aliens_pool_amount, 0);
    assert_eq!(v.gods_pool_amount, 0);
    assert_eq!(v.normal_aliens_count, 0);
    assert_eq!(v.alpha_aliens_count, 0);
    assert!(v.aliens.is_empty());
}

#[test]
fn create_vault_twice_fails_and_changes_nothing() {
    let mut v = ready_vault();
    fund(&mut v, 500).unwrap();
    let before_status = v.status;
    let before_pool = v.ctzns_pool_amount;
    assert_eq!(create_vault(&mut v, 1234, 5678), Err(ErrorCode::VaultAlreadyCreated));
    assert_eq!(v.status, before_status);
    assert_eq!(v.ctzns_pool_amount, before_pool);
    assert_eq!(v.authority, AUTHORITY);
    assert_eq!(v.reward_mint, MINT);
}

#[test]
fn create_user_roles() {
    let v = ready_vault();
    let ctzn = create_user(&v, 1, 42, 0).unwrap();
    assert_eq!(ctzn.user_type, UserType::Ctzn);
    assert_eq!(ctzn.key, 42);
    assert_eq!(ctzn.vault, 1);
    assert_eq!(ctzn.items_count, 0);
    assert!(ctzn.items.is_empty());
    let alien = create_user(&v, 1, 43, 1).unwrap();
    assert_eq!(alien.user_type, UserType::Alien);
}

#[test]
fn create_user_requires_initialized_vault() {
    let v = Vault::default();
    assert_eq!(create_user(&v, 1, 42, 0).unwrap_err(), ErrorCode::VaultNotInitialized);
}

#[test]
fn fund_adds_to_ctzn_pool_only() {
    let mut v = ready_vault();
    assert_eq!(fund(&mut v, 250), Ok(()));
    assert_eq!(fund(&mut v, 750), Ok(()));
    assert_eq!(v.ctzns_pool_amount, 1000);
    assert_eq!(v.aliens_pool_amount, 0);
    assert_eq!(v.gods_pool_amount, 0);
}

#[test]
fn fund_requires_initialized_vault() {
    let mut v = Vault::default();
    assert_eq!(fund(&mut v, 10), Err(ErrorCode::VaultNotInitialized));
}

#[test]
fn fund_overflow_is_an_arithmetic_fault() {
    let mut v = ready_vault();
    fund(&mut v, u64::MAX).unwrap();
    assert_eq!(fund(&mut v, 1), Err(ErrorCode::ArithmeticFault));
    assert_eq!(v.ctzns_pool_amount, u64::MAX);
}

#[test]
fn stake_records_item_and_mirrors_aliens() {
    let mut v = ready_vault();
    let mut u = create_user(&v, 1, 42, 0).unwrap();
    assert_eq!(stake(&mut u, &mut v, 100, 200, 0, 5000), Ok(()));
    assert_eq!(u.items_count, 1);
    assert_eq!(u.items[0].mint, 100);
    assert_eq!(u.items[0].mint_account, 200);
    assert_eq!(u.items[0].item_type, ItemType::NormalCTZN);
    assert_eq!(u.items[0].first_staked_time, 5000);
    assert_eq!(u.items[0].last_claimed_time, 5000);
    assert_eq!(u.items[0].earned_reward, 0);
    assert!(v.aliens.is_empty());

    assert_eq!(stake(&mut u, &mut v, 101, 201, 1, 5001), Ok(()));
    assert_eq!(stake(&mut u, &mut v, 102, 202, 2, 5002), Ok(()));
    assert_eq!(stake(&mut u, &mut v, 103, 203, 3, 5003), Ok(()));
    assert_eq!(u.items_count, 4);
    assert_eq!(v.normal_aliens_count, 1);
    assert_eq!(v.alpha_aliens_count, 1);
    assert_eq!(v.aliens.len(), 2);
    assert_eq!(v.aliens[0].mint_account, 201);
    assert_eq!(v.aliens[0].item_type, ItemType::NormalAlien);
    assert_eq!(v.aliens[1].mint_account, 202);
    assert_eq!(v.aliens[1].item_type, ItemType::AlphaAlien);
    assert_eq!(u.items[3].item_type, ItemType::AlienGod);
}

#[test]
fn stake_same_asset_twice_fails_same_ledger() {
    let mut v = ready_vault();
    let mut u = create_user(&v, 1, 42, 0).unwrap();
    stake(&mut u, &mut v, 100, 200, 0, 0).unwrap();
    assert_eq!(stake(&mut u, &mut v, 100, 200, 0, 1), Err(ErrorCode::AlreadyStakedAccount));
    assert_eq!(u.items_count, 1);
}

#[test]
fn stake_same_alien_asset_twice_fails_across_ledgers() {
    let mut v = ready_vault();
    let mut a = create_user(&v, 1, 42, 1).unwrap();
    let mut b = create_user(&v, 1, 43, 1).unwrap();
    stake(&mut a, &mut v, 100, 200, 1, 0).unwrap();
    assert_eq!(stake(&mut b, &mut v, 100, 200, 1, 1), Err(ErrorCode::AlreadyStakedAccount));
    assert_eq!(v.normal_aliens_count, 1);
    assert_eq!(b.items_count, 0);
}

#[test]
fn stake_requires_initialized_vault() {
    let v = ready_vault();
    let mut u = create_user(&v, 1, 42, 0).unwrap();
    let mut raw = Vault::default();
    assert_eq!(stake(&mut u, &mut raw, 1, 2, 0, 0), Err(ErrorCode::VaultNotInitialized));
}

#[test]
fn stake_unstake_round_trip_restores_everything() {
    let mut v = ready_vault();
    let mut u = create_user(&v, 1, 42, 0).unwrap();
    stake(&mut u, &mut v, 100, 200, 2, 0).unwrap();
    let items_before = u.items.clone();
    let aliens_before = v.aliens.clone();
    stake(&mut u, &mut v, 101, 201, 1, 10).unwrap();
    assert_eq!(unstake(&mut u, &mut v, 201, true, 20), Ok(()));
    assert_eq!(u.items, items_before);
    assert_eq!(u.items_count, 1);
    assert_eq!(v.aliens, aliens_before);
    assert_eq!(v.normal_aliens_count, 0);
    assert_eq!(v.alpha_aliens_count, 1);
}

#[test]
fn unstake_unknown_asset_fails() {
    let mut v = ready_vault();
    let mut u = create_user(&v, 1, 42, 0).unwrap();
    assert_eq!(unstake(&mut u, &mut v, 999, true, 0), Err(ErrorCode::StakedAccountDoesNotExist));
}

#[test]
fn alien_unstake_is_locked_for_two_days() {
    let t: u64 = 1_000_000;
    let mut v = ready_vault();
    let mut u = create_user(&v, 1, 42, 1).unwrap();
    stake(&mut u, &mut v, 100, 200, 1, t).unwrap();
    assert_eq!(unstake(&mut u, &mut v, 200, false, t), Err(ErrorCode::CannotUnstakeAlien));
    assert_eq!(
        unstake(&mut u, &mut v, 200, false, t + 172_799),
        Err(ErrorCode::CannotUnstakeAlien)
    );
    assert_eq!(u.items_count, 1);
    assert_eq!(v.normal_aliens_count, 1);
    assert_eq!(unstake(&mut u, &mut v, 200, false, t + 172_800), Ok(()));
    assert_eq!(u.items_count, 0);
    assert_eq!(v.normal_aliens_count, 0);
}

#[test]
fn forced_unstake_ignores_the_lock() {
    let t: u64 = 1_000_000;
    let mut v = ready_vault();
    let mut u = create_user(&v, 1, 42, 1).unwrap();
    stake(&mut u, &mut v, 100, 200, 2, t).unwrap();
    assert_eq!(unstake(&mut u, &mut v, 200, true, t), Ok(()));
    assert_eq!(u.items_count, 0);
    assert_eq!(v.alpha_aliens_count, 0);
}

#[test]
fn ctzn_role_unstake_is_never_locked() {
    let t: u64 = 1_000_000;
    let mut v = ready_vault();
    let mut u = create_user(&v, 1, 42, 0).unwrap();
    stake(&mut u, &mut v, 100, 200, 1, t).unwrap();
    assert_eq!(unstake(&mut u, &mut v, 200, false, t), Ok(()));
}

#[test]
fn withdrawals_draw_their_own_pools() {
    let mut v = ready_vault();
    fund(&mut v, 1000).unwrap();
    v.aliens_pool_amount = 300;
    v.gods_pool_amount = 200;
    assert_eq!(withdraw_ctzns_pool(&mut v, AUTHORITY, 400), Ok(()));
    assert_eq!(withdraw_aliens_pool(&mut v, AUTHORITY, 100), Ok(()));
    assert_eq!(withdraw_gods_pool(&mut v, AUTHORITY, 150), Ok(()));
    assert_eq!(v.ctzns_pool_amount, 600);
    assert_eq!(v.aliens_pool_amount, 200);
    assert_eq!(v.gods_pool_amount, 50);
}

#[test]
fn withdrawal_by_stranger_is_unauthorized() {
    let mut v = ready_vault();
    fund(&mut v, 1000).unwrap();
    assert_eq!(withdraw_ctzns_pool(&mut v, 999, 10), Err(ErrorCode::Unauthorized));
    assert_eq!(withdraw_aliens_pool(&mut v, 999, 0), Err(ErrorCode::Unauthorized));
    assert_eq!(withdraw_gods_pool(&mut v, 999, 0), Err(ErrorCode::Unauthorized));
    assert_eq!(v.ctzns_pool_amount, 1000);
}

#[test]
fn withdrawal_beyond_the_pool_fails() {
    let mut v = ready_vault();
    fund(&mut v, 100).unwrap();
    assert_eq!(withdraw_ctzns_pool(&mut v, AUTHORITY, 101), Err(ErrorCode::InsufficientBalance));
    assert_eq!(v.ctzns_pool_amount, 100);
}

#[test]
fn withdrawal_requires_initialized_vault() {
    let mut v = Vault::default();
    assert_eq!(withdraw_ctzns_pool(&mut v, 0, 0), Err(ErrorCode::VaultNotInitialized));
}
