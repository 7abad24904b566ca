use amm_core::config::{Config, PoolAuthority};
use amm_core::curve::{DepositQuote, SwapQuote, WithdrawQuote};
use amm_core::error::AmmError;
use amm_core::ops::{deposit, initialize, lock, swap, unlock, withdraw};

const ADMIN: u64 = 77;
const STRANGER: u64 = 78;

fn open_pool(fee: u16) -> Config {
    initialize(1, fee, PoolAuthority::Authority(ADMIN), 10, 11, 254, 253).unwrap()
}

#[test]
fn initialize_rejects_full_scale_fee() {
    assert_eq!(
        initialize(1, 10000, PoolAuthority::NoAuthority, 10, 11, 254, 253),
        Err(AmmError::InvalidAmount)
    );
    assert_eq!(
        initialize(1, u16::MAX, PoolAuthority::NoAuthority, 10, 11, 254, 253),
        Err(AmmError::InvalidAmount)
    );
}

#[test]
fn initialize_creates_an_unlocked_pool() {
    let config = open_pool(30);
    assert_eq!(config.fee, 30);
    assert!(!config.locked);
    assert_eq!(config.seed, 1);
    assert_eq!(config.authority, PoolAuthority::Authority(ADMIN));
    assert_eq!((config.mint_x, config.mint_y), (10, 11));
    assert_eq!((config.config_bump, config.lp_bump), (254, 253));
}

#[test]
fn first_deposit_scenario() {
    // Empty pool: deposit (1000, 4000) mints sqrt(1000*4000) = 2000 and the
    // reserves become exactly the deposited amounts.
    let config = open_pool(30);
    let outcome = deposit(&config, 0, 0, 0, 1000, 4000).unwrap();
    assert_eq!(outcome, DepositQuote { amount_x: 1000, amount_y: 4000, minted: 2000 });
    let reserve_x = 0 + outcome.amount_x;
    let reserve_y = 0 + outcome.amount_y;
    let lp_supply = 0 + outcome.minted;
    assert_eq!((reserve_x, reserve_y, lp_supply), (1000, 4000, 2000));
}

#[test]
fn deposit_never_takes_more_than_the_caller_allowed() {
    let config = open_pool(30);
    let outcome = deposit(&config, 1000, 4000, 2000, 500, 500).unwrap();
    assert!(outcome.amount_x <= 500);
    assert!(outcome.amount_y <= 500);
    assert_eq!(outcome, DepositQuote { amount_x: 125, amount_y: 500, minted: 250 });
}

#[test]
fn swap_scenario_with_fee() {
    // Reserves (1000, 4000), fee 30 bps, 100 of X in: 360 of Y out.
    let config = open_pool(30);
    let outcome = swap(&config, 1000, 4000, 2000, 100, 360, true).unwrap();
    assert_eq!(outcome, SwapQuote { amount_in_after_fee: 99, amount_out: 360 });
}

#[test]
fn swap_slippage_bound_is_enforced() {
    let config = open_pool(30);
    assert_eq!(swap(&config, 1000, 4000, 2000, 100, 361, true), Err(AmmError::SlippageExceeded));
    assert_eq!(swap(&config, 1000, 4000, 2000, 100, 360, true).unwrap().amount_out, 360);
}

#[test]
fn swap_operation_rejects_zero_input() {
    let config = open_pool(30);
    assert_eq!(swap(&config, 1000, 4000, 2000, 0, 0, true), Err(AmmError::InvalidAmount));
}

#[test]
fn withdraw_scenario() {
    // Reserves (1100, 3640), supply 2000, withdraw 500 claim tokens.
    let config = open_pool(30);
    let outcome = withdraw(&config, 1100, 3640, 2000, 500, 500, 275, 910).unwrap();
    assert_eq!(outcome, WithdrawQuote { amount_x: 275, amount_y: 910 });
}

#[test]
fn withdraw_slippage_bounds_are_enforced() {
    let config = open_pool(30);
    assert_eq!(
        withdraw(&config, 1100, 3640, 2000, 500, 500, 276, 910),
        Err(AmmError::SlippageExceeded)
    );
    assert_eq!(
        withdraw(&config, 1100, 3640, 2000, 500, 500, 275, 911),
        Err(AmmError::SlippageExceeded)
    );
}

#[test]
fn withdraw_needs_the_claimed_balance() {
    let config = open_pool(30);
    assert_eq!(
        withdraw(&config, 1100, 3640, 2000, 499, 500, 0, 0),
        Err(AmmError::InsufficientBalance)
    );
}

#[test]
fn withdraw_of_zero_is_invalid() {
    let config = open_pool(30);
    assert_eq!(withdraw(&config, 1100, 3640, 2000, 500, 0, 0, 0), Err(AmmError::InvalidAmount));
}

#[test]
fn locked_pool_rejects_every_trading_operation() {
    let mut config = open_pool(30);
    lock(&mut config, ADMIN).unwrap();
    assert!(config.locked);
    assert_eq!(deposit(&config, 0, 0, 0, 1000, 4000), Err(AmmError::PoolLocked));
    assert_eq!(swap(&config, 1000, 4000, 2000, 100, 0, true), Err(AmmError::PoolLocked));
    assert_eq!(withdraw(&config, 1100, 3640, 2000, 500, 500, 0, 0), Err(AmmError::PoolLocked));
}

#[test]
fn only_the_authority_may_lock_or_unlock() {
    let mut config = open_pool(30);
    assert_eq!(lock(&mut config, STRANGER), Err(AmmError::Unauthorized));
    assert!(!config.locked);
    lock(&mut config, ADMIN).unwrap();
    assert_eq!(unlock(&mut config, STRANGER), Err(AmmError::Unauthorized));
    assert!(config.locked);
    unlock(&mut config, ADMIN).unwrap();
    assert!(!config.locked);
}

#[test]
fn an_authority_less_pool_can_never_be_locked() {
    let mut config = initialize(1, 30, PoolAuthority::NoAuthority, 10, 11, 254, 253).unwrap();
    assert_eq!(lock(&mut config, ADMIN), Err(AmmError::Unauthorized));
    assert_eq!(lock(&mut config, STRANGER), Err(AmmError::Unauthorized));
    assert!(!config.locked);
}

#[test]
fn redundant_lock_transitions_are_rejected() {
    let mut config = open_pool(30);
    assert_eq!(unlock(&mut config, ADMIN), Err(AmmError::PoolUnlocked));
    lock(&mut config, ADMIN).unwrap();
    assert_eq!(lock(&mut config, ADMIN), Err(AmmError::PoolLocked));
}

#[test]
fn lock_and_unlock_change_nothing_but_the_flag() {
    let mut config = open_pool(30);
    let before = config;
    lock(&mut config, ADMIN).unwrap();
    assert_eq!(config, Config { locked: true, ..before });
    unlock(&mut config, ADMIN).unwrap();
    assert_eq!(config, before);
}

#[test]
fn a_full_session_keeps_the_product_growing() {
    // Deposit, swap both ways, withdraw; the reserve product net of minted
    // claims never drops across a swap.
    let config = open_pool(30);
    let d = deposit(&config, 0, 0, 0, 1000, 4000).unwrap();
    let (mut rx, mut ry, supply) = (d.amount_x, d.amount_y, d.minted);

    let s1 = swap(&config, rx, ry, supply, 100, 0, true).unwrap();
    let before = rx as u128 * ry as u128;
    rx += 100;
    ry -= s1.amount_out;
    assert!(rx as u128 * ry as u128 >= before);

    let s2 = swap(&config, rx, ry, supply, 200, 0, false).unwrap();
    let before = rx as u128 * ry as u128;
    ry += 200;
    rx -= s2.amount_out;
    assert!(rx as u128 * ry as u128 >= before);

    let w = withdraw(&config, rx, ry, supply, supply, supply, 0, 0).unwrap();
    assert!(w.amount_x <= rx && w.amount_y <= ry);
}
