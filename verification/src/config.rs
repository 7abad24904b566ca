//! The persistent record describing one pool instance. Reserves are not
//! stored here; they are read live from the custody layer on every call.

use vstd::prelude::*;

verus! {

/// Governance of a pool: either nobody may lock or unlock it, ever, or
/// exactly one identity may. Modelled as a tagged variant so every check
/// matches on it rather than testing for absence.
#[derive(Clone, Copy, Debug, PartialEq, Eq, Structural)]
pub enum PoolAuthority {
    /// The pool is permanently ungoverned: no identity can lock or unlock it.
    NoAuthority,
    /// Only this identity may lock or unlock the pool.
    Authority(u64),
}

impl PoolAuthority {
    /// Whether `caller` is entitled to lock or unlock the pool. An
    /// authority-less pool grants this to nobody.
    pub open spec fn permits(self, caller: u64) -> bool {
        match self {
            PoolAuthority::NoAuthority => false,
            PoolAuthority::Authority(id) => id == caller,
        }
    }
}

/// One pool's configuration, created once and mutated only by lock/unlock.
#[derive(Clone, Copy, Debug, PartialEq, Eq, Structural)]
pub struct Config {
    /// Caller-chosen disambiguator; part of the pool's identity.
    pub seed: u64,
    /// Who may lock and unlock the pool.
    pub authority: PoolAuthority,
    /// Identifier of the first traded asset; immutable after creation.
    pub mint_x: u64,
    /// Identifier of the second traded asset; immutable after creation.
    pub mint_y: u64,
    /// Swap fee in basis points, charged on the input amount.
    pub fee: u16,
    /// Circuit-breaker: when true, deposit/swap/withdraw are rejected.
    pub locked: bool,
    /// Derivation tag for the pool's configuration address; opaque here.
    pub config_bump: u8,
    /// Derivation tag for the liquidity-claim token address; opaque here.
    pub lp_bump: u8,
}

impl Config {
    /// Well-formedness: the fee must leave the input a positive share, so it
    /// is strictly below the full 10000 basis points.
    pub open spec fn wf(self) -> bool {
        self.fee < 10000
    }
}

} // verus!
