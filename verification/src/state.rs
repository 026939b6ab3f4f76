//! The protocol's records: the process-wide configuration singleton and the
//! per-pool record.

use vstd::prelude::*;

use crate::directory::VaultKey;

verus! {

/// Process-wide configuration, created once by `initialize` and mutated only
/// by re-running `initialize` under the same authority.
#[derive(Clone, Copy, PartialEq, Eq, Structural, Debug)]
pub struct State {
    /// The protocol authority: the identity that initialized the protocol.
    pub authority: u64,
    /// Flat fee charged per burn request, credited to the protocol vault.
    pub burn_cost: u64,
    /// Denominator of the swap fee: `fee = cost * swap_fee / fee_scalar`.
    pub fee_scalar: u64,
    /// Numerator of the swap fee.
    pub swap_fee: u64,
    /// Pool creation accepts an initial reserve amount in
    /// `[lamport_init_min, lamport_init_max)`.
    pub lamport_init_min: u64,
    pub lamport_init_max: u64,
    /// Pool creation accepts an initial ptoken amount in
    /// `[ptoken_init_min, ptoken_init_max)`.
    pub ptoken_init_max: u64,
    pub ptoken_init_min: u64,
}

/// One exchange instance: a prize asset held against a fixed ptoken issue
/// and a constant-product market between ptokens and the reserve currency.
#[derive(Clone, Copy, PartialEq, Eq, Structural, Debug)]
pub struct ProbPool {
    /// The creator, entitled to the proceeds on close.
    pub authority: u64,
    /// The identity currently entitled to claim the prize: the creator
    /// until a burn wins, the winner afterwards.
    pub nft_authority: u64,
    /// Derived identity of the pool's reserve vault.
    pub lamport_vault: VaultKey,
    /// Derived identity of the pool's ptoken vault.
    pub ptoken_vault: VaultKey,
    /// Derived identity of the pool's ptoken mint.
    pub ptoken_mint: VaultKey,
    /// Identity of the prize asset's mint (external to the pool).
    pub nft_mint: u64,
    /// True once the prize has been physically transferred out.
    pub claimed: bool,
    /// True between a winning burn and the transfer of the prize; at most
    /// one pending claim exists at a time.
    pub to_claim: bool,
    /// Current reserve-side balance of the market.
    pub lamport_supply: u64,
    /// Current ptoken-side balance of the market.
    pub ptoken_supply: u64,
    /// Ptokens sold but not yet burned; must reach zero before close.
    pub outstanding_ptokens: u64,
}

} // verus!
