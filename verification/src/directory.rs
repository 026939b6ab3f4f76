//! Deterministic addressing of pool-owned resources.
//!
//! Every resource a pool owns (its ptoken mint and its two vaults) has an
//! identity derived from a fixed tag plus the owning pool's key, so the same
//! inputs always resolve to the same identity and no identity is ever passed
//! arbitrarily.  A pool record stores these derived identities, and pool
//! well-formedness pins them to the derivation.

use vstd::prelude::*;

verus! {

/// The role a pool-owned resource plays; the fixed tag of its address.
#[derive(Clone, Copy, PartialEq, Eq, Structural, Debug)]
pub enum VaultTag {
    /// The mint of the pool's probability tokens.
    PtokenMint,
    /// The pool's reserve vault holding the currency side of the market.
    LamportVault,
    /// The pool's vault holding unsold probability tokens.
    PtokenVault,
}

/// The derived identity of a pool-owned resource: a fixed tag plus the
/// owning pool's key.  Equal inputs give equal identities, and identities
/// with different tags or owners never collide.
#[derive(Clone, Copy, PartialEq, Eq, Structural, Debug)]
pub struct VaultKey {
    pub tag: VaultTag,
    pub pool: u64,
}

/// Identity of the ptoken mint owned by pool `pool`.
pub open spec fn ptoken_mint_key(pool: u64) -> VaultKey {
    VaultKey { tag: VaultTag::PtokenMint, pool }
}

/// Identity of the reserve vault owned by pool `pool`.
pub open spec fn lamport_vault_key(pool: u64) -> VaultKey {
    VaultKey { tag: VaultTag::LamportVault, pool }
}

/// Identity of the ptoken vault owned by pool `pool`.
pub open spec fn ptoken_vault_key(pool: u64) -> VaultKey {
    VaultKey { tag: VaultTag::PtokenVault, pool }
}

} // verus!
