use vstd::prelude::*;

verus! {

/// The error taxonomy of the pool core. Every operation either succeeds or
/// aborts as a whole with exactly one of these kinds; there is no partial
/// effect and no retry inside the core.
#[derive(Clone, Copy, Debug, PartialEq, Eq, Structural)]
pub enum AmmError {
    /// Zero or otherwise nonsensical input, or a quoted result of zero.
    InvalidAmount,
    /// A realized amount violates a caller-supplied bound.
    SlippageExceeded,
    /// The caller lacks the liquidity-claim balance the operation needs.
    InsufficientBalance,
    /// The operation requires an unlocked pool.
    PoolLocked,
    /// The operation requires a locked pool.
    PoolUnlocked,
    /// The caller is not the pool's authority.
    Unauthorized,
    /// A computed quantity exceeds the representable range.
    Overflow,
    /// A quotient was requested with a zero denominator.
    DivisionByZero,
}

} // verus!
