//! The constant-product curve: pure, stateless quoting functions over a
//! point-in-time snapshot of the pool. Deposits quote the liquidity minted
//! for a pair of desired amounts, swaps quote the output for a given input
//! net of fees, and withdrawals quote the proportional share of the
//! reserves. Replaying the same snapshot and inputs always yields the same
//! outputs.

use crate::error::AmmError;
use crate::math::{
    integer_sqrt, is_floor_sqrt, mul_div, mul_div_ceil, mul_div_floor, Rounding,
};
use vstd::arithmetic::div_mod::{
    lemma_div_by_multiple, lemma_div_is_ordered, lemma_div_multiples_vanish,
    lemma_div_multiples_vanish_fancy, lemma_div_pos_is_pos, lemma_fundamental_div_mod,
    lemma_multiply_divide_le, lemma_multiply_divide_lt,
};
use vstd::prelude::*;

verus! {

/// The full fee scale: `fee_bps` basis points out of this many are kept by
/// the pool on every swap input.
pub const FEE_SCALE: u64 = 10000;

/// Which asset enters the pool in a swap; the other one leaves it.
#[derive(Clone, Copy, Debug, PartialEq, Eq, Structural)]
pub enum LiquidityPair {
    X,
    Y,
}

/// A point-in-time reading of one pool: live reserves, live outstanding
/// liquidity-claim supply, and the configured swap fee. The core never
/// caches one of these across operations.
#[derive(Clone, Copy, Debug, PartialEq, Eq, Structural)]
pub struct CurveSnapshot {
    pub reserve_x: u64,
    pub reserve_y: u64,
    pub lp_supply: u64,
    pub fee_bps: u16,
}

impl CurveSnapshot {
    /// The fee must leave the swap input a positive share.
    pub open spec fn wf(self) -> bool {
        self.fee_bps < FEE_SCALE
    }

    /// The reserve of the asset entering the pool.
    pub open spec fn reserve_in(self, pair: LiquidityPair) -> int {
        if pair == LiquidityPair::X {
            self.reserve_x as int
        } else {
            self.reserve_y as int
        }
    }

    /// The reserve of the asset leaving the pool.
    pub open spec fn reserve_out(self, pair: LiquidityPair) -> int {
        if pair == LiquidityPair::X {
            self.reserve_y as int
        } else {
            self.reserve_x as int
        }
    }
}

/// What a swap quote resolves to: the input net of fees (the part that
/// prices the trade) and the output owed to the caller.
#[derive(Clone, Copy, Debug, PartialEq, Eq, Structural)]
pub struct SwapQuote {
    pub amount_in_after_fee: u64,
    pub amount_out: u64,
}

/// What a deposit quote resolves to: the amounts actually required from the
/// caller and the liquidity claim minted for them.
#[derive(Clone, Copy, Debug, PartialEq, Eq, Structural)]
pub struct DepositQuote {
    pub amount_x: u64,
    pub amount_y: u64,
    pub minted: u64,
}

/// What a withdrawal quote resolves to: the share of each reserve owed to
/// the caller for the claim being redeemed.
#[derive(Clone, Copy, Debug, PartialEq, Eq, Structural)]
pub struct WithdrawQuote {
    pub amount_x: u64,
    pub amount_y: u64,
}

/// The swap input net of the fee: `floor(amount_in * (10000 - fee) / 10000)`.
pub open spec fn spec_after_fee(amount_in: int, fee_bps: int) -> int {
    amount_in * (FEE_SCALE - fee_bps) / (FEE_SCALE as int)
}

/// The constant-product output for an input already net of fees:
/// `floor(reserve_out * after_fee / (reserve_in + after_fee))`.
pub open spec fn spec_swap_out(reserve_in: int, reserve_out: int, after_fee: int) -> int {
    reserve_out * after_fee / (reserve_in + after_fee)
}

/// The proportional share of one reserve for a redeemed claim:
/// `floor(reserve * lp_amount / lp_supply)`.
pub open spec fn spec_withdraw_amount(reserve: int, lp_amount: int, lp_supply: int) -> int {
    reserve * lp_amount / lp_supply
}

/// The exact result `quote_swap` returns for every input, as a function of
/// the snapshot alone.
pub open spec fn swap_quote_spec(
    reserve_in: int,
    reserve_out: int,
    fee_bps: int,
    amount_in: int,
) -> Result<SwapQuote, AmmError> {
    let after_fee = spec_after_fee(amount_in, fee_bps);
    if amount_in == 0 {
        Err(AmmError::InvalidAmount)
    } else if reserve_in + after_fee == 0 {
        Err(AmmError::DivisionByZero)
    } else {
        let out = spec_swap_out(reserve_in, reserve_out, after_fee);
        if out == 0 {
            Err(AmmError::InvalidAmount)
        } else {
            Ok(
                (SwapQuote {
                    amount_in_after_fee: after_fee as u64,
                    amount_out: out as u64,
                }),
            )
        }
    }
}

/// Quotes a swap of `amount_in` of the `pair` asset against the snapshot.
///
/// On success the output is the constant-product quote, and the invariant
/// can only grow: crediting the full input to the in-reserve and debiting
/// the output from the out-reserve leaves the product of the reserves at
/// least what it was, strictly greater whenever a positive fee is charged
/// against a funded in-reserve.
pub fn quote_swap(snapshot: CurveSnapshot, pair: LiquidityPair, amount_in: u64) -> (res: Result<
    SwapQuote,
    AmmError,
>)
    requires
        snapshot.wf(),
    ensures
        res == swap_quote_spec(
            snapshot.reserve_in(pair),
            snapshot.reserve_out(pair),
            snapshot.fee_bps as int,
            amount_in as int,
        ),
        res is Ok ==> {
            let r_in = snapshot.reserve_in(pair);
            let r_out = snapshot.reserve_out(pair);
            let out = res->Ok_0.amount_out as int;
            &&& res->Ok_0.amount_in_after_fee <= amount_in
            &&& 0 < out <= r_out
            &&& (r_in > 0 ==> out < r_out)
            &&& (r_in + amount_in) * (r_out - out) >= r_in * r_out
            &&& (snapshot.fee_bps > 0 && r_in > 0 ==> (r_in + amount_in) * (r_out - out) > r_in * r_out)
        },
{
    if amount_in == 0 {
        return Err(AmmError::InvalidAmount);
    }
    let (r_in, r_out): (u64, u64) = match pair {
        LiquidityPair::X => (snapshot.reserve_x, snapshot.reserve_y),
        LiquidityPair::Y => (snapshot.reserve_y, snapshot.reserve_x),
    };
    let fee_keep: u64 = FEE_SCALE - (snapshot.fee_bps as u64);
    proof {
        assert((amount_in as int) * (fee_keep as int) <= (FEE_SCALE as int) * (amount_in as int))
            by (nonlinear_arith)
            requires
                fee_keep <= FEE_SCALE,
                0 <= amount_in,
        ;
        lemma_multiply_divide_le(
            (amount_in as int) * (fee_keep as int),
            FEE_SCALE as int,
            amount_in as int,
        );
    }
    let after_fee: u64 = match mul_div(amount_in, fee_keep, FEE_SCALE as u128, Rounding::Down) {
        Ok(v) => v,
        Err(e) => {
            return Err(e);
        },
    };
    let denom: u128 = (r_in as u128) + (after_fee as u128);
    if denom == 0 {
        return Err(AmmError::DivisionByZero);
    }
    proof {
        assert((r_out as int) * (after_fee as int) <= (denom as int) * (r_out as int))
            by (nonlinear_arith)
            requires
                after_fee <= denom,
                0 <= r_out,
        ;
        lemma_multiply_divide_le((r_out as int) * (after_fee as int), denom as int, r_out as int);
    }
    let out: u64 = match mul_div(r_out, after_fee, denom, Rounding::Down) {
        Ok(v) => v,
        Err(e) => {
            return Err(e);
        },
    };
    if out == 0 {
        return Err(AmmError::InvalidAmount);
    }
    proof {
        lemma_swap_keeps_product(
            r_in as int,
            r_out as int,
            snapshot.fee_bps as int,
            amount_in as int,
            after_fee as int,
            out as int,
        );
    }
    Ok(SwapQuote { amount_in_after_fee: after_fee, amount_out: out })
}

/// The constant-product invariant can only grow across a swap: with the
/// full input credited to the in-reserve and the floored output debited
/// from the out-reserve, the product of the reserves does not decrease, and
/// it strictly increases whenever a positive fee is charged against a
/// funded in-reserve.
pub proof fn lemma_swap_keeps_product(
    r_in: int,
    r_out: int,
    fee_bps: int,
    amount_in: int,
    after_fee: int,
    out: int,
)
    requires
        0 <= r_in,
        0 <= r_out,
        0 <= fee_bps < FEE_SCALE,
        0 < amount_in,
        after_fee == spec_after_fee(amount_in, fee_bps),
        r_in + after_fee > 0,
        out == spec_swap_out(r_in, r_out, after_fee),
    ensures
        0 <= after_fee <= amount_in,
        0 <= out <= r_out,
        (r_in + amount_in) * (r_out - out) >= r_in * r_out,
        r_in > 0 && out > 0 ==> out < r_out,
        fee_bps > 0 && r_in > 0 && out > 0 ==> (r_in + amount_in) * (r_out - out) > r_in * r_out,
{
    let scale = FEE_SCALE as int;
    let denom = r_in + after_fee;
    assert(amount_in * (scale - fee_bps) <= scale * amount_in) by (nonlinear_arith)
        requires
            0 <= fee_bps < scale,
            0 < amount_in,
    ;
    lemma_multiply_divide_le(amount_in * (scale - fee_bps), scale, amount_in);
    assert(0 <= after_fee) by {
        lemma_div_pos_is_pos(amount_in * (scale - fee_bps), scale);
        assert(0 <= amount_in * (scale - fee_bps)) by (nonlinear_arith)
            requires
                0 < amount_in,
                0 <= scale - fee_bps,
        ;
    }
    assert(r_out * after_fee <= denom * r_out) by (nonlinear_arith)
        requires
            0 <= after_fee <= denom,
            0 <= r_out,
    ;
    lemma_multiply_divide_le(r_out * after_fee, denom, r_out);
    assert(0 <= out) by {
        assert(0 <= r_out * after_fee) by (nonlinear_arith)
            requires
                0 <= r_out,
                0 <= after_fee,
        ;
        lemma_div_pos_is_pos(r_out * after_fee, denom);
    }
    lemma_fundamental_div_mod(r_out * after_fee, denom);
    assert(denom * out <= r_out * after_fee);
    assert((r_in + after_fee) * (r_out - out) >= r_in * r_out) by (nonlinear_arith)
        requires
            denom == r_in + after_fee,
            denom * out <= r_out * after_fee,
            0 <= out <= r_out,
            0 <= r_in,
            0 <= after_fee,
    ;
    assert((r_in + amount_in) * (r_out - out) >= (r_in + after_fee) * (r_out - out))
        by (nonlinear_arith)
        requires
            after_fee <= amount_in,
            0 <= out <= r_out,
    ;
    if r_in > 0 && out > 0 {
        assert(r_out * after_fee < denom * r_out) by (nonlinear_arith)
            requires
                0 <= after_fee,
                after_fee < denom,
                0 < r_out,
        ;
        lemma_multiply_divide_lt(r_out * after_fee, denom, r_out);
    }
    if fee_bps > 0 && r_in > 0 && out > 0 {
        assert(amount_in * (scale - fee_bps) < scale * amount_in) by (nonlinear_arith)
            requires
                0 < fee_bps < scale,
                0 < amount_in,
        ;
        lemma_multiply_divide_lt(amount_in * (scale - fee_bps), scale, amount_in);
        assert(after_fee < amount_in);
        assert((r_in + amount_in) * (r_out - out) > r_in * r_out) by (nonlinear_arith)
            requires
                after_fee + 1 <= amount_in,
                out + 1 <= r_out,
                denom == r_in + after_fee,
                (r_in + after_fee) * (r_out - out) >= r_in * r_out,
                0 <= out,
                0 <= r_in,
                0 <= after_fee,
        ;
    }
}

/// Ordering fractions by cross-multiplication orders their floors: when
/// `p1 / q1 <= p2 / q2` holds of the rationals, it holds of the integer
/// quotients too.
proof fn lemma_div_cross_ordered(p1: int, q1: int, p2: int, q2: int)
    requires
        0 <= p1,
        0 < q1,
        0 <= p2,
        0 < q2,
        p1 * q2 <= p2 * q1,
    ensures
        p1 / q1 <= p2 / q2,
{
    let k = p1 / q1;
    lemma_div_pos_is_pos(p1, q1);
    lemma_fundamental_div_mod(p1, q1);
    assert(q1 * k <= p1);
    assert(q2 * k <= p2) by (nonlinear_arith)
        requires
            q1 * k <= p1,
            p1 * q2 <= p2 * q1,
            0 < q1,
            0 < q2,
            0 <= p1,
    ;
    lemma_div_is_ordered(q2 * k, p2, q2);
    lemma_div_multiples_vanish(k, q2);
}

/// A proportional share of a reserve never exceeds the reserve itself when
/// the claim being redeemed does not exceed the supply.
pub proof fn lemma_proportional_share_le(reserve: int, lp_amount: int, lp_supply: int)
    requires
        0 <= reserve,
        0 < lp_supply,
        0 <= lp_amount <= lp_supply,
    ensures
        0 <= spec_withdraw_amount(reserve, lp_amount, lp_supply) <= reserve,
{
    assert(0 <= reserve * lp_amount <= lp_supply * reserve) by (nonlinear_arith)
        requires
            0 <= reserve,
            0 <= lp_amount <= lp_supply,
    ;
    lemma_multiply_divide_le(reserve * lp_amount, lp_supply, reserve);
    lemma_div_pos_is_pos(reserve * lp_amount, lp_supply);
}

/// The amount a deposit actually requires, rounded up against the current
/// price, never exceeds the desired amount the mint figure was floored
/// from.
proof fn lemma_required_le_desired(m: int, desired: int, reserve: int, lp_supply: int)
    requires
        0 < reserve,
        0 < lp_supply,
        0 <= desired,
        0 <= m <= mul_div_floor(desired, lp_supply, reserve),
    ensures
        0 <= mul_div_ceil(m, reserve, lp_supply) <= desired,
{
    let q = desired * lp_supply / reserve;
    lemma_fundamental_div_mod(desired * lp_supply, reserve);
    assert(reserve * q <= desired * lp_supply);
    assert(m * reserve <= desired * lp_supply) by (nonlinear_arith)
        requires
            m <= q,
            reserve * q <= desired * lp_supply,
            0 < reserve,
            0 <= m,
    ;
    lemma_div_is_ordered(m * reserve + lp_supply - 1, desired * lp_supply + lp_supply - 1, lp_supply);
    lemma_div_multiples_vanish_fancy(desired, lp_supply - 1, lp_supply);
    assert(lp_supply * desired == desired * lp_supply) by (nonlinear_arith);
    assert(0 <= m * reserve) by (nonlinear_arith)
        requires
            0 <= m,
            0 < reserve,
    ;
    lemma_div_pos_is_pos(m * reserve + lp_supply - 1, lp_supply);
}

/// The exact result `quote_withdraw` returns for every input, as a function
/// of the snapshot alone.
pub open spec fn withdraw_quote_spec(
    reserve_x: int,
    reserve_y: int,
    lp_supply: int,
    lp_amount: int,
) -> Result<WithdrawQuote, AmmError> {
    if lp_amount == 0 || lp_supply == 0 {
        Err(AmmError::InvalidAmount)
    } else {
        let ax = spec_withdraw_amount(reserve_x, lp_amount, lp_supply);
        let ay = spec_withdraw_amount(reserve_y, lp_amount, lp_supply);
        if ax > u64::MAX || ay > u64::MAX {
            Err(AmmError::Overflow)
        } else {
            Ok((WithdrawQuote { amount_x: ax as u64, amount_y: ay as u64 }))
        }
    }
}

/// Quotes the redemption of `lp_amount` claim tokens: the caller is owed
/// the floored proportional share of each reserve. When the claim does not
/// exceed the supply, neither share exceeds its reserve.
pub fn quote_withdraw(snapshot: CurveSnapshot, lp_amount: u64) -> (res: Result<
    WithdrawQuote,
    AmmError,
>)
    ensures
        res == withdraw_quote_spec(
            snapshot.reserve_x as int,
            snapshot.reserve_y as int,
            snapshot.lp_supply as int,
            lp_amount as int,
        ),
        res is Ok && lp_amount <= snapshot.lp_supply ==> res->Ok_0.amount_x <= snapshot.reserve_x
            && res->Ok_0.amount_y <= snapshot.reserve_y,
{
    if lp_amount == 0 || snapshot.lp_supply == 0 {
        return Err(AmmError::InvalidAmount);
    }
    let ax: u64 = match mul_div(
        snapshot.reserve_x,
        lp_amount,
        snapshot.lp_supply as u128,
        Rounding::Down,
    ) {
        Ok(v) => v,
        Err(e) => {
            return Err(e);
        },
    };
    let ay: u64 = match mul_div(
        snapshot.reserve_y,
        lp_amount,
        snapshot.lp_supply as u128,
        Rounding::Down,
    ) {
        Ok(v) => v,
        Err(e) => {
            return Err(e);
        },
    };
    proof {
        if lp_amount <= snapshot.lp_supply {
            lemma_proportional_share_le(
                snapshot.reserve_x as int,
                lp_amount as int,
                snapshot.lp_supply as int,
            );
            lemma_proportional_share_le(
                snapshot.reserve_y as int,
                lp_amount as int,
                snapshot.lp_supply as int,
            );
        }
    }
    Ok(WithdrawQuote { amount_x: ax, amount_y: ay })
}

/// The relation `quote_deposit` establishes between its inputs and its
/// result. The first deposit into an empty pool mints the floor square root
/// of the product of the desired amounts and takes both amounts as given;
/// any later deposit mints the largest claim the desired amounts can cover
/// at the current price and requires the matching amounts, rounded up.
pub open spec fn deposit_quote_matches(
    reserve_x: int,
    reserve_y: int,
    lp_supply: int,
    desired_x: int,
    desired_y: int,
    res: Result<DepositQuote, AmmError>,
) -> bool {
    if lp_supply == 0 {
        if desired_x * desired_y == 0 {
            res == Err::<DepositQuote, AmmError>(AmmError::InvalidAmount)
        } else {
            &&& res is Ok
            &&& is_floor_sqrt(desired_x * desired_y, res->Ok_0.minted as int)
            &&& res->Ok_0.amount_x == desired_x
            &&& res->Ok_0.amount_y == desired_y
        }
    } else if reserve_x == 0 || reserve_y == 0 {
        res == Err::<DepositQuote, AmmError>(AmmError::DivisionByZero)
    } else {
        let mx = mul_div_floor(desired_x, lp_supply, reserve_x);
        let my = mul_div_floor(desired_y, lp_supply, reserve_y);
        if mx > u64::MAX || my > u64::MAX {
            res == Err::<DepositQuote, AmmError>(AmmError::Overflow)
        } else {
            let m = if mx <= my {
                mx
            } else {
                my
            };
            if m == 0 {
                res == Err::<DepositQuote, AmmError>(AmmError::InvalidAmount)
            } else {
                res == Ok::<DepositQuote, AmmError>(
                    (DepositQuote {
                        amount_x: mul_div_ceil(m, reserve_x, lp_supply) as u64,
                        amount_y: mul_div_ceil(m, reserve_y, lp_supply) as u64,
                        minted: m as u64,
                    }),
                )
            }
        }
    }
}

/// Quotes a deposit of up to (`desired_x`, `desired_y`). The amounts a
/// successful quote requires never exceed the desired amounts, and a
/// successful quote always mints a positive claim.
pub fn quote_deposit(snapshot: CurveSnapshot, desired_x: u64, desired_y: u64) -> (res: Result<
    DepositQuote,
    AmmError,
>)
    ensures
        deposit_quote_matches(
            snapshot.reserve_x as int,
            snapshot.reserve_y as int,
            snapshot.lp_supply as int,
            desired_x as int,
            desired_y as int,
            res,
        ),
        res is Ok ==> res->Ok_0.amount_x <= desired_x && res->Ok_0.amount_y <= desired_y
            && res->Ok_0.minted >= 1,
{
    if snapshot.lp_supply == 0 {
        proof {
            assert((desired_x as int) * (desired_y as int) <= u128::MAX) by (nonlinear_arith)
                requires
                    desired_x <= u64::MAX,
                    desired_y <= u64::MAX,
            ;
        }
        let product: u128 = (desired_x as u128) * (desired_y as u128);
        let minted: u64 = integer_sqrt(product);
        if minted == 0 {
            proof {
                assert((0int + 1) * (0int + 1) == 1) by (nonlinear_arith);
            }
            return Err(AmmError::InvalidAmount);
        }
        proof {
            assert(1 <= (minted as int) * (minted as int)) by (nonlinear_arith)
                requires
                    1 <= minted,
            ;
        }
        return Ok(DepositQuote { amount_x: desired_x, amount_y: desired_y, minted });
    }
    if snapshot.reserve_x == 0 || snapshot.reserve_y == 0 {
        return Err(AmmError::DivisionByZero);
    }
    let mx: u64 = match mul_div(
        desired_x,
        snapshot.lp_supply,
        snapshot.reserve_x as u128,
        Rounding::Down,
    ) {
        Ok(v) => v,
        Err(e) => {
            return Err(e);
        },
    };
    let my: u64 = match mul_div(
        desired_y,
        snapshot.lp_supply,
        snapshot.reserve_y as u128,
        Rounding::Down,
    ) {
        Ok(v) => v,
        Err(e) => {
            return Err(e);
        },
    };
    let minted: u64 = if mx <= my {
        mx
    } else {
        my
    };
    if minted == 0 {
        return Err(AmmError::InvalidAmount);
    }
    proof {
        lemma_required_le_desired(
            minted as int,
            desired_x as int,
            snapshot.reserve_x as int,
            snapshot.lp_supply as int,
        );
        lemma_required_le_desired(
            minted as int,
            desired_y as int,
            snapshot.reserve_y as int,
            snapshot.lp_supply as int,
        );
    }
    let amount_x: u64 = match mul_div(
        minted,
        snapshot.reserve_x,
        snapshot.lp_supply as u128,
        Rounding::Up,
    ) {
        Ok(v) => v,
        Err(e) => {
            return Err(e);
        },
    };
    let amount_y: u64 = match mul_div(
        minted,
        snapshot.reserve_y,
        snapshot.lp_supply as u128,
        Rounding::Up,
    ) {
        Ok(v) => v,
        Err(e) => {
            return Err(e);
        },
    };
    Ok(DepositQuote { amount_x, amount_y, minted })
}

/// Depositing (`x`, `y`) into an empty pool mints a claim of the floor
/// square root of `x * y`; immediately withdrawing that whole claim is a
/// valid withdrawal and returns amounts no greater than what was deposited,
/// so rounding can only ever favour the pool.
pub proof fn lemma_deposit_withdraw_roundtrip(x: u64, y: u64, minted: u64)
    requires
        0 < x,
        0 < y,
        is_floor_sqrt((x as int) * (y as int), minted as int),
    ensures
        0 < minted,
        withdraw_quote_spec(x as int, y as int, minted as int, minted as int)
            == Ok::<WithdrawQuote, AmmError>((WithdrawQuote { amount_x: x, amount_y: y })),
        spec_withdraw_amount(x as int, minted as int, minted as int) <= x as int,
        spec_withdraw_amount(y as int, minted as int, minted as int) <= y as int,
{
    assert(1 <= (x as int) * (y as int)) by (nonlinear_arith)
        requires
            1 <= x,
            1 <= y,
    ;
    if minted == 0 {
        assert((0int + 1) * (0int + 1) == 1) by (nonlinear_arith);
        assert(false);
    }
    lemma_div_by_multiple(x as int, minted as int);
    lemma_div_by_multiple(y as int, minted as int);
}

/// The pool-level solvency invariant across a withdrawal: out of a pool
/// whose reserves and supply are all positive, a partial redemption leaves
/// both reserves positive, while redeeming the whole supply drains both
/// reserves exactly — so the supply is zero exactly when both reserves are.
pub proof fn lemma_withdraw_preserves_solvency(
    reserve_x: u64,
    reserve_y: u64,
    lp_supply: u64,
    lp_amount: u64,
)
    requires
        1 <= reserve_x,
        1 <= reserve_y,
        1 <= lp_amount <= lp_supply,
    ensures
        lp_amount < lp_supply ==> spec_withdraw_amount(
            reserve_x as int,
            lp_amount as int,
            lp_supply as int,
        ) < reserve_x && spec_withdraw_amount(
            reserve_y as int,
            lp_amount as int,
            lp_supply as int,
        ) < reserve_y,
        lp_amount == lp_supply ==> spec_withdraw_amount(
            reserve_x as int,
            lp_amount as int,
            lp_supply as int,
        ) == reserve_x && spec_withdraw_amount(
            reserve_y as int,
            lp_amount as int,
            lp_supply as int,
        ) == reserve_y,
{
    if lp_amount < lp_supply {
        assert((reserve_x as int) * (lp_amount as int) < (lp_supply as int) * (reserve_x as int))
            by (nonlinear_arith)
            requires
                1 <= reserve_x,
                lp_amount < lp_supply,
        ;
        lemma_multiply_divide_lt(
            (reserve_x as int) * (lp_amount as int),
            lp_supply as int,
            reserve_x as int,
        );
        assert((reserve_y as int) * (lp_amount as int) < (lp_supply as int) * (reserve_y as int))
            by (nonlinear_arith)
            requires
                1 <= reserve_y,
                lp_amount < lp_supply,
        ;
        lemma_multiply_divide_lt(
            (reserve_y as int) * (lp_amount as int),
            lp_supply as int,
            reserve_y as int,
        );
    } else {
        lemma_div_by_multiple(reserve_x as int, lp_supply as int);
        lemma_div_by_multiple(reserve_y as int, lp_supply as int);
    }
}

/// The swap output is non-decreasing in the fee-adjusted input, reserves
/// held fixed.
proof fn lemma_swap_out_monotone_after_fee(r_in: int, r_out: int, x1: int, x2: int)
    requires
        0 <= r_in,
        0 <= r_out,
        0 <= x1 <= x2,
        0 < r_in + x1,
    ensures
        spec_swap_out(r_in, r_out, x1) <= spec_swap_out(r_in, r_out, x2),
{
    assert(0 <= r_out * x1 && 0 <= r_out * x2 && (r_out * x1) * (r_in + x2) <= (r_out * x2) * (r_in
        + x1)) by (nonlinear_arith)
        requires
            0 <= r_in,
            0 <= r_out,
            0 <= x1 <= x2,
    ;
    lemma_div_cross_ordered(r_out * x1, r_in + x1, r_out * x2, r_in + x2);
}

/// The swap output is non-decreasing in the input amount, reserves and fee
/// held fixed, wherever the smaller input already yields a well-defined
/// quote (a positive denominator).
pub proof fn lemma_swap_out_monotone_in_amount(
    r_in: int,
    r_out: int,
    fee_bps: int,
    amount_1: int,
    amount_2: int,
)
    requires
        0 <= r_in,
        0 <= r_out,
        0 <= fee_bps < FEE_SCALE,
        0 <= amount_1 <= amount_2,
        0 < r_in + spec_after_fee(amount_1, fee_bps),
    ensures
        spec_swap_out(r_in, r_out, spec_after_fee(amount_1, fee_bps)) <= spec_swap_out(
            r_in,
            r_out,
            spec_after_fee(amount_2, fee_bps),
        ),
{
    let keep = FEE_SCALE - fee_bps;
    assert(0 <= amount_1 * keep <= amount_2 * keep) by (nonlinear_arith)
        requires
            0 <= amount_1 <= amount_2,
            0 < keep,
    ;
    lemma_div_is_ordered(amount_1 * keep, amount_2 * keep, FEE_SCALE as int);
    lemma_div_pos_is_pos(amount_1 * keep, FEE_SCALE as int);
    lemma_swap_out_monotone_after_fee(
        r_in,
        r_out,
        spec_after_fee(amount_1, fee_bps),
        spec_after_fee(amount_2, fee_bps),
    );
}

/// The swap output is non-increasing in the fee, reserves and input held
/// fixed, wherever the higher fee already yields a well-defined quote.
pub proof fn lemma_swap_out_antitone_in_fee(
    r_in: int,
    r_out: int,
    fee_1: int,
    fee_2: int,
    amount_in: int,
)
    requires
        0 <= r_in,
        0 <= r_out,
        0 <= fee_1 <= fee_2 < FEE_SCALE,
        0 <= amount_in,
        0 < r_in + spec_after_fee(amount_in, fee_2),
    ensures
        spec_swap_out(r_in, r_out, spec_after_fee(amount_in, fee_2)) <= spec_swap_out(
            r_in,
            r_out,
            spec_after_fee(amount_in, fee_1),
        ),
{
    assert(0 <= amount_in * (FEE_SCALE - fee_2) <= amount_in * (FEE_SCALE - fee_1))
        by (nonlinear_arith)
        requires
            0 <= fee_1 <= fee_2 < FEE_SCALE,
            0 <= amount_in,
    ;
    lemma_div_is_ordered(
        amount_in * (FEE_SCALE - fee_2),
        amount_in * (FEE_SCALE - fee_1),
        FEE_SCALE as int,
    );
    lemma_div_pos_is_pos(amount_in * (FEE_SCALE - fee_2), FEE_SCALE as int);
    lemma_swap_out_monotone_after_fee(
        r_in,
        r_out,
        spec_after_fee(amount_in, fee_2),
        spec_after_fee(amount_in, fee_1),
    );
}

} // verus!
