//! Per-user ptoken custody inside one pool.
//!
//! For each user a pool tracks three balances of its ptoken mint: the
//! pool-scoped holding vault fed by buys, the burn staging balance fed by
//! burn requests, and the user's personal account fed by withdrawals.
//! Their total over all users is the pool's conservation quantity: it
//! always equals the pool's outstanding ptokens.

use vstd::prelude::*;

verus! {

/// One user's ptoken balances under one pool.
#[derive(Clone, Copy, PartialEq, Eq, Structural, Debug)]
pub struct UserHolding {
    /// The user's identity.
    pub user: u64,
    /// Pool-scoped holding vault: ptokens bought and still held with the
    /// protocol.
    pub vault: u64,
    /// Burn staging balance: ptokens irrevocably committed to a draw.
    pub staged: u64,
    /// The user's personal account: ptokens withdrawn from the holding
    /// vault.
    pub personal: u64,
}

/// All ptokens a holding accounts for.
pub open spec fn holding_amount(h: UserHolding) -> int {
    h.vault + h.staged + h.personal
}

/// Total ptokens accounted for across a pool's holdings.
pub open spec fn holdings_total(s: Seq<UserHolding>) -> int
    decreases s.len(),
{
    if s.len() == 0 {
        0
    } else {
        holding_amount(s[0]) + holdings_total(s.skip(1))
    }
}

/// The total is never negative.
pub proof fn lemma_total_nonneg(s: Seq<UserHolding>)
    ensures
        holdings_total(s) >= 0,
    decreases s.len(),
{
    if s.len() > 0 {
        lemma_total_nonneg(s.skip(1));
    }
}

/// Appending one holding adds its amount to the total.
pub proof fn lemma_total_push(s: Seq<UserHolding>, h: UserHolding)
    ensures
        holdings_total(s.push(h)) == holdings_total(s) + holding_amount(h),
    decreases s.len(),
{
    if s.len() == 0 {
        assert(s.push(h)[0] == h);
        assert(s.push(h).skip(1) =~= Seq::<UserHolding>::empty());
        assert(holdings_total(s.push(h).skip(1)) == 0) by {
            reveal_with_fuel(holdings_total, 2);
        }
    } else {
        assert(s.push(h)[0] == s[0]);
        assert(s.push(h).skip(1) =~= s.skip(1).push(h));
        lemma_total_push(s.skip(1), h);
    }
}

/// Replacing one holding shifts the total by the difference.
pub proof fn lemma_total_update(s: Seq<UserHolding>, i: int, h: UserHolding)
    requires
        0 <= i < s.len(),
    ensures
        holdings_total(s.update(i, h)) == holdings_total(s) - holding_amount(s[i]) + holding_amount(h),
    decreases s.len(),
{
    if i == 0 {
        assert(s.update(0, h).skip(1) =~= s.skip(1));
    } else {
        assert(s.update(i, h).skip(1) =~= s.skip(1).update(i - 1, h));
        lemma_total_update(s.skip(1), i - 1, h);
    }
}

/// No single holding exceeds the total.
pub proof fn lemma_amount_le_total(s: Seq<UserHolding>, i: int)
    requires
        0 <= i < s.len(),
    ensures
        holding_amount(s[i]) <= holdings_total(s),
    decreases s.len(),
{
    if i == 0 {
        lemma_total_nonneg(s.skip(1));
    } else {
        lemma_amount_le_total(s.skip(1), i - 1);
    }
}

} // verus!
