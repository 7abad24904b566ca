//! The per-operation state machine of one pool. Each function takes the
//! pool's configuration and the live figures read fresh from the custody
//! layer, validates the operation's gates in order (circuit-breaker, input
//! sanity, balance, quote, slippage bound), and returns either the exact
//! amounts the caller must move or the error that aborts the whole
//! operation. Nothing here moves funds: the caller performs the returned
//! moves as one atomic unit.

use crate::config::{Config, PoolAuthority};
use crate::curve::{
    deposit_quote_matches, quote_deposit, quote_swap, quote_withdraw, swap_quote_spec,
    withdraw_quote_spec, CurveSnapshot, DepositQuote, LiquidityPair, SwapQuote, WithdrawQuote,
    FEE_SCALE,
};
use crate::error::AmmError;
use vstd::prelude::*;

verus! {

/// Creates the configuration of a new pool, in the unlocked state. Rejects
/// a fee of the full scale or more, since such a fee would leave no input
/// to price a swap with.
pub fn initialize(
    seed: u64,
    fee: u16,
    authority: PoolAuthority,
    mint_x: u64,
    mint_y: u64,
    config_bump: u8,
    lp_bump: u8,
) -> (res: Result<Config, AmmError>)
    ensures
        fee >= FEE_SCALE ==> res == Err::<Config, AmmError>(AmmError::InvalidAmount),
        fee < FEE_SCALE ==> res == Ok::<Config, AmmError>(
            (Config { seed, authority, mint_x, mint_y, fee, locked: false, config_bump, lp_bump }),
        ),
        res is Ok ==> res->Ok_0.wf() && !res->Ok_0.locked,
{
    if (fee as u64) >= FEE_SCALE {
        return Err(AmmError::InvalidAmount);
    }
    Ok(Config { seed, authority, mint_x, mint_y, fee, locked: false, config_bump, lp_bump })
}

/// Deposits paired assets. The desired amounts act as upper bounds on what
/// the pool may take: the realized amounts of a successful deposit never
/// exceed them, and the claim minted is always positive. Rejected outright
/// with `PoolLocked` while the circuit-breaker is set.
pub fn deposit(
    config: &Config,
    reserve_x: u64,
    reserve_y: u64,
    lp_supply: u64,
    max_x: u64,
    max_y: u64,
) -> (res: Result<DepositQuote, AmmError>)
    requires
        config.wf(),
    ensures
        config.locked ==> res == Err::<DepositQuote, AmmError>(AmmError::PoolLocked),
        !config.locked ==> deposit_quote_matches(
            reserve_x as int,
            reserve_y as int,
            lp_supply as int,
            max_x as int,
            max_y as int,
            res,
        ),
        res is Ok ==> res->Ok_0.amount_x <= max_x && res->Ok_0.amount_y <= max_y
            && res->Ok_0.minted >= 1,
{
    if config.locked {
        return Err(AmmError::PoolLocked);
    }
    let snapshot = CurveSnapshot { reserve_x, reserve_y, lp_supply, fee_bps: config.fee };
    let quote = match quote_deposit(snapshot, max_x, max_y) {
        Ok(q) => q,
        Err(e) => {
            return Err(e);
        },
    };
    if quote.amount_x > max_x || quote.amount_y > max_y {
        return Err(AmmError::SlippageExceeded);
    }
    Ok(quote)
}

/// Swaps `amount_in` of one asset for the other. `is_x` selects the input
/// asset. Fails with `SlippageExceeded` exactly when the quoted output of
/// an otherwise valid swap falls below `min_amount_out`; rejected outright
/// with `PoolLocked` while the circuit-breaker is set. On success the
/// constant-product invariant, net of the fee retained by the pool, has not
/// decreased.
pub fn swap(
    config: &Config,
    reserve_x: u64,
    reserve_y: u64,
    lp_supply: u64,
    amount_in: u64,
    min_amount_out: u64,
    is_x: bool,
) -> (res: Result<SwapQuote, AmmError>)
    requires
        config.wf(),
    ensures
        config.locked ==> res == Err::<SwapQuote, AmmError>(AmmError::PoolLocked),
        !config.locked ==> {
            let r_in = if is_x {
                reserve_x as int
            } else {
                reserve_y as int
            };
            let r_out = if is_x {
                reserve_y as int
            } else {
                reserve_x as int
            };
            match swap_quote_spec(r_in, r_out, config.fee as int, amount_in as int) {
                Err(e) => res == Err::<SwapQuote, AmmError>(e),
                Ok(q) => if q.amount_out < min_amount_out {
                    res == Err::<SwapQuote, AmmError>(AmmError::SlippageExceeded)
                } else {
                    res == Ok::<SwapQuote, AmmError>(q)
                },
            }
        },
        res is Ok ==> {
            let r_in = if is_x {
                reserve_x as int
            } else {
                reserve_y as int
            };
            let r_out = if is_x {
                reserve_y as int
            } else {
                reserve_x as int
            };
            let out = res->Ok_0.amount_out as int;
            &&& res->Ok_0.amount_out >= min_amount_out
            &&& res->Ok_0.amount_in_after_fee <= amount_in
            &&& 0 < out <= r_out
            &&& (r_in > 0 ==> out < r_out)
            &&& (r_in + amount_in) * (r_out - out) >= r_in * r_out
            &&& (config.fee > 0 && r_in > 0 ==> (r_in + amount_in) * (r_out - out) > r_in * r_out)
        },
{
    if config.locked {
        return Err(AmmError::PoolLocked);
    }
    let snapshot = CurveSnapshot { reserve_x, reserve_y, lp_supply, fee_bps: config.fee };
    let pair = if is_x {
        LiquidityPair::X
    } else {
        LiquidityPair::Y
    };
    let quote = match quote_swap(snapshot, pair, amount_in) {
        Ok(q) => q,
        Err(e) => {
            return Err(e);
        },
    };
    if quote.amount_out < min_amount_out {
        return Err(AmmError::SlippageExceeded);
    }
    Ok(quote)
}

/// Redeems `lp_amount` of the caller's liquidity claim for the proportional
/// share of both reserves. Fails with `SlippageExceeded` exactly when
/// either quoted share of an otherwise valid withdrawal falls below its
/// minimum, and with `InsufficientBalance` when the caller's claim balance
/// cannot cover the redemption; rejected outright with `PoolLocked` while
/// the circuit-breaker is set.
pub fn withdraw(
    config: &Config,
    reserve_x: u64,
    reserve_y: u64,
    lp_supply: u64,
    user_lp_balance: u64,
    lp_amount: u64,
    min_x: u64,
    min_y: u64,
) -> (res: Result<WithdrawQuote, AmmError>)
    requires
        config.wf(),
    ensures
        config.locked ==> res == Err::<WithdrawQuote, AmmError>(AmmError::PoolLocked),
        !config.locked && lp_amount == 0 ==> res == Err::<WithdrawQuote, AmmError>(
            AmmError::InvalidAmount,
        ),
        !config.locked && lp_amount > 0 && user_lp_balance < lp_amount ==> res == Err::<
            WithdrawQuote,
            AmmError,
        >(AmmError::InsufficientBalance),
        !config.locked && lp_amount > 0 && user_lp_balance >= lp_amount ==> match withdraw_quote_spec(
            reserve_x as int,
            reserve_y as int,
            lp_supply as int,
            lp_amount as int,
        ) {
            Err(e) => res == Err::<WithdrawQuote, AmmError>(e),
            Ok(q) => if q.amount_x < min_x || q.amount_y < min_y {
                res == Err::<WithdrawQuote, AmmError>(AmmError::SlippageExceeded)
            } else {
                res == Ok::<WithdrawQuote, AmmError>(q)
            },
        },
        res is Ok ==> {
            &&& res->Ok_0.amount_x >= min_x
            &&& res->Ok_0.amount_y >= min_y
            &&& (lp_amount <= lp_supply ==> res->Ok_0.amount_x <= reserve_x
                && res->Ok_0.amount_y <= reserve_y)
        },
{
    if config.locked {
        return Err(AmmError::PoolLocked);
    }
    if lp_amount == 0 {
        return Err(AmmError::InvalidAmount);
    }
    if user_lp_balance < lp_amount {
        return Err(AmmError::InsufficientBalance);
    }
    let snapshot = CurveSnapshot { reserve_x, reserve_y, lp_supply, fee_bps: config.fee };
    let quote = match quote_withdraw(snapshot, lp_amount) {
        Ok(q) => q,
        Err(e) => {
            return Err(e);
        },
    };
    if quote.amount_x < min_x || quote.amount_y < min_y {
        return Err(AmmError::SlippageExceeded);
    }
    Ok(quote)
}

/// Sets the circuit-breaker. Only the pool's authority may do so — a pool
/// without one can never be locked — and locking an already locked pool is
/// rejected rather than ignored. On failure the configuration is unchanged;
/// on success only `locked` changes.
pub fn lock(config: &mut Config, caller: u64) -> (res: Result<(), AmmError>)
    ensures
        !old(config).authority.permits(caller) ==> res == Err::<(), AmmError>(
            AmmError::Unauthorized,
        ) && *final(config) == *old(config),
        old(config).authority.permits(caller) && old(config).locked ==> res == Err::<(), AmmError>(
            AmmError::PoolLocked,
        ) && *final(config) == *old(config),
        old(config).authority.permits(caller) && !old(config).locked ==> res == Ok::<(), AmmError>(
            (),
        ) && *final(config) == (Config { locked: true, ..*old(config) }),
{
    let authorized: bool = match config.authority {
        PoolAuthority::NoAuthority => false,
        PoolAuthority::Authority(id) => id == caller,
    };
    if !authorized {
        return Err(AmmError::Unauthorized);
    }
    if config.locked {
        return Err(AmmError::PoolLocked);
    }
    config.locked = true;
    Ok(())
}

/// Clears the circuit-breaker. Only the pool's authority may do so, and
/// unlocking an already unlocked pool is rejected rather than ignored. On
/// failure the configuration is unchanged; on success only `locked`
/// changes.
pub fn unlock(config: &mut Config, caller: u64) -> (res: Result<(), AmmError>)
    ensures
        !old(config).authority.permits(caller) ==> res == Err::<(), AmmError>(
            AmmError::Unauthorized,
        ) && *final(config) == *old(config),
        old(config).authority.permits(caller) && !old(config).locked ==> res == Err::<
            (),
            AmmError,
        >(AmmError::PoolUnlocked) && *final(config) == *old(config),
        old(config).authority.permits(caller) && old(config).locked ==> res == Ok::<(), AmmError>(
            (),
        ) && *final(config) == (Config { locked: false, ..*old(config) }),
{
    let authorized: bool = match config.authority {
        PoolAuthority::NoAuthority => false,
        PoolAuthority::Authority(id) => id == caller,
    };
    if !authorized {
        return Err(AmmError::Unauthorized);
    }
    if !config.locked {
        return Err(AmmError::PoolUnlocked);
    }
    config.locked = false;
    Ok(())
}

} // verus!
