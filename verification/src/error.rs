use vstd::prelude::*;

verus! {

/// Error kinds raised by the exchange's own validation rules.
#[derive(Clone, Copy, PartialEq, Eq, Structural, Debug)]
pub enum FortuneError {
    /// A bid was below the acceptable floor.
    BidTooLow,
    /// The pool's prize has already been claimed; it no longer sells.
    PoolClosed,
    /// Only the seller may change an ask.
    InvalidAskAuth,
    /// The listing is locked.
    LockedListing,
    /// An ask cannot be less than zero.
    ZeroAsk,
    /// The burn amount exceeded the per-burn limit.
    BurnLimit,
    /// Ptokens are still outstanding, so the pool cannot close.
    OutstandingProb,
    /// A won prize is still waiting to be claimed, so the pool cannot close.
    ActiveClaim,
    /// No claim is pending on this pool.
    NoClaim,
    /// The initial reserve amount is below the configured minimum.
    LamportInitMin,
    /// The initial reserve amount is at or above the configured maximum.
    LamportInitMax,
    /// The initial ptoken amount is below the configured minimum.
    PtokenInitMin,
    /// The initial ptoken amount is at or above the configured maximum.
    PtokenInitMax,
    /// No ptokens are left to buy.
    SoldOut,
}

/// How a failed operation aborts.  Either the exchange itself rejects the
/// request with one of its own error kinds, or the host substrate does:
/// an account constraint or lookup fails, a token-ledger transfer exceeds
/// the source balance, or checked arithmetic leaves the machine range.
/// Every abort is all-or-nothing: no state mutation survives it.
#[derive(Clone, Copy, PartialEq, Eq, Structural, Debug)]
pub enum OpError {
    /// One of the exchange's own validation rules failed.
    Fortune(FortuneError),
    /// An account identity or addressing constraint did not hold, or a
    /// required account does not exist.
    Constraint,
    /// A token movement asked for more than the source balance holds.
    InsufficientFunds,
    /// An arithmetic step would overflow, underflow, or divide by zero.
    Arithmetic,
}

} // verus!
