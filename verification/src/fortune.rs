//! The pool lifecycle manager: the central ledger-state machine.
//!
//! A `Fortune` value holds everything the protocol is accountable for: the
//! configuration singleton, the protocol fee vault, and every live pool
//! with its balances.  Each operation mirrors one host transaction: it
//! validates identities, addressing, and arithmetic against a consistent
//! pre-state and either commits all of its balance rewrites or returns an
//! error having changed nothing.
//!
//! Each operation's contract names the exact error for every rejected
//! input (`*_check`) and the exact rewrite for every accepted one
//! (`*_applies`); well-formedness (`wf`) is preserved throughout.

use vstd::pervasive::VecAdditionalExecFns;
use vstd::prelude::*;

use crate::amm;
use crate::directory::{lamport_vault_key, ptoken_mint_key, ptoken_vault_key};
use crate::error::{FortuneError, OpError};
use crate::holdings::{holdings_total, UserHolding};
use crate::pool::PoolAccounts;
use crate::random::le_value;
use crate::state::{ProbPool, State};

verus! {

/// Everything the protocol owns: the configuration singleton, the protocol
/// fee vault's balance, the live pools, and the keys of pools already
/// closed (a closed pool's identity may not be reused).
pub struct Fortune {
    /// The configuration singleton; `None` until `initialize` runs.
    pub state: Option<State>,
    /// Balance of the protocol's fee vault.
    pub protocol_vault: u64,
    /// Every live pool, keyed by its `key` field.
    pub pools: Vec<PoolAccounts>,
    /// Keys of pools that were closed; never reusable.
    pub retired: Vec<u64>,
}

/// Each pool key appears at most once.
pub open spec fn pools_unique_seq(s: Seq<PoolAccounts>) -> bool {
    forall|i: int, j: int| 0 <= i < j < s.len() ==> s[i].key != s[j].key
}

/// Some pool in `s` has key `key`.
pub open spec fn seq_has_pool(s: Seq<PoolAccounts>, key: u64) -> bool {
    exists|i: int| 0 <= i < s.len() && s[i].key == key
}

/// The pool with key `key` (meaningful when it exists and keys are
/// unique).
pub open spec fn seq_pool_of(s: Seq<PoolAccounts>, key: u64) -> PoolAccounts {
    s[choose|i: int| 0 <= i < s.len() && s[i].key == key]
}

/// With unique keys, any index holding `key` is the pool `seq_pool_of`
/// speaks of.
pub proof fn lemma_pool_at(s: Seq<PoolAccounts>, i: int, key: u64)
    requires
        pools_unique_seq(s),
        0 <= i < s.len(),
        s[i].key == key,
    ensures
        seq_has_pool(s, key),
        seq_pool_of(s, key) == s[i],
{
    assert(seq_has_pool(s, key));
    let j = choose|j: int| 0 <= j < s.len() && s[j].key == key;
    if i < j {
        assert(s[i].key != s[j].key);
    } else if j < i {
        assert(s[j].key != s[i].key);
    }
}

/// Appending a pool with a fresh key: it becomes reachable under its key
/// and every other key resolves as before.
pub proof fn lemma_pools_push_frame(s: Seq<PoolAccounts>, s2: Seq<PoolAccounts>, p: PoolAccounts)
    requires
        pools_unique_seq(s),
        !seq_has_pool(s, p.key),
        s2 == s.push(p),
    ensures
        pools_unique_seq(s2),
        seq_has_pool(s2, p.key),
        seq_pool_of(s2, p.key) == p,
        forall|k: u64| k != p.key ==> #[trigger] seq_has_pool(s2, k) == seq_has_pool(s, k),
        forall|k: u64|
            k != p.key && seq_has_pool(s, k) ==> #[trigger] seq_pool_of(s2, k) == seq_pool_of(s, k),
{
    assert forall|i: int, j: int| 0 <= i < j < s2.len() implies s2[i].key != s2[j].key by {
        if j < s.len() {
        } else {
            assert(s2[j] == p);
            assert(s2[i] == s[i]);
            assert(!(s[i].key == p.key));
        }
    }
    lemma_pool_at(s2, s.len() as int, p.key);
    assert forall|k: u64| k != p.key implies #[trigger] seq_has_pool(s2, k) == seq_has_pool(s, k) by {
        if seq_has_pool(s, k) {
            let i = choose|i: int| 0 <= i < s.len() && s[i].key == k;
            assert(s2[i].key == k);
        }
        if seq_has_pool(s2, k) {
            let i = choose|i: int| 0 <= i < s2.len() && s2[i].key == k;
            assert(i < s.len());
            assert(s[i].key == k);
        }
    }
    assert forall|k: u64| k != p.key && seq_has_pool(s, k) implies #[trigger] seq_pool_of(s2, k)
        == seq_pool_of(s, k) by {
        let i = choose|i: int| 0 <= i < s.len() && s[i].key == k;
        lemma_pool_at(s, i, k);
        assert(s2[i].key == k);
        lemma_pool_at(s2, i, k);
    }
}

/// Replacing the pool at `i` by one with the same key: the new pool is
/// reachable under that key and every other key resolves as before.
pub proof fn lemma_pools_update_frame(s: Seq<PoolAccounts>, s2: Seq<PoolAccounts>, i: int, p: PoolAccounts)
    requires
        pools_unique_seq(s),
        0 <= i < s.len(),
        p.key == s[i].key,
        s2 == s.update(i, p),
    ensures
        pools_unique_seq(s2),
        seq_has_pool(s2, p.key),
        seq_pool_of(s2, p.key) == p,
        forall|k: u64| k != p.key ==> #[trigger] seq_has_pool(s2, k) == seq_has_pool(s, k),
        forall|k: u64|
            k != p.key && seq_has_pool(s, k) ==> #[trigger] seq_pool_of(s2, k) == seq_pool_of(s, k),
{
    assert(forall|x: int| 0 <= x < s.len() ==> s2[x].key == s[x].key);
    assert forall|i2: int, j2: int| 0 <= i2 < j2 < s2.len() implies s2[i2].key != s2[j2].key by {
        assert(s[i2].key != s[j2].key);
    }
    lemma_pool_at(s2, i, p.key);
    assert forall|k: u64| k != p.key implies #[trigger] seq_has_pool(s2, k) == seq_has_pool(s, k) by {
        if seq_has_pool(s, k) {
            let x = choose|x: int| 0 <= x < s.len() && s[x].key == k;
            assert(s2[x].key == k);
        }
        if seq_has_pool(s2, k) {
            let x = choose|x: int| 0 <= x < s2.len() && s2[x].key == k;
            assert(s[x].key == k);
        }
    }
    assert forall|k: u64| k != p.key && seq_has_pool(s, k) implies #[trigger] seq_pool_of(s2, k)
        == seq_pool_of(s, k) by {
        let x = choose|x: int| 0 <= x < s.len() && s[x].key == k;
        lemma_pool_at(s, x, k);
        assert(x != i);
        assert(s2[x] == s[x]);
        lemma_pool_at(s2, x, k);
    }
}

/// Removing the pool at `i`: its key stops resolving and every other key
/// resolves as before.
pub proof fn lemma_pools_remove_frame(s: Seq<PoolAccounts>, s2: Seq<PoolAccounts>, i: int)
    requires
        pools_unique_seq(s),
        0 <= i < s.len(),
        s2 == s.remove(i),
    ensures
        pools_unique_seq(s2),
        !seq_has_pool(s2, s[i].key),
        forall|k: u64| k != s[i].key ==> #[trigger] seq_has_pool(s2, k) == seq_has_pool(s, k),
        forall|k: u64|
            k != s[i].key && seq_has_pool(s, k) ==> #[trigger] seq_pool_of(s2, k) == seq_pool_of(
                s,
                k,
            ),
{
    let key = s[i].key;
    assert forall|i2: int, j2: int| 0 <= i2 < j2 < s2.len() implies s2[i2].key != s2[j2].key by {
        let a = if i2 < i { i2 } else { i2 + 1 };
        let b = if j2 < i { j2 } else { j2 + 1 };
        assert(s2[i2] == s[a]);
        assert(s2[j2] == s[b]);
        assert(s[a].key != s[b].key);
    }
    assert forall|x: int| 0 <= x < s2.len() implies s2[x].key != key by {
        let a = if x < i { x } else { x + 1 };
        assert(s2[x] == s[a]);
        assert(a != i);
        assert(s[a].key != s[i].key);
    }
    assert forall|k: u64| k != key implies #[trigger] seq_has_pool(s2, k) == seq_has_pool(s, k) by {
        if seq_has_pool(s, k) {
            let x = choose|x: int| 0 <= x < s.len() && s[x].key == k;
            assert(x != i);
            let x2 = if x < i { x } else { x - 1 };
            assert(s2[x2] == s[x]);
        }
        if seq_has_pool(s2, k) {
            let x = choose|x: int| 0 <= x < s2.len() && s2[x].key == k;
            let a = if x < i { x } else { x + 1 };
            assert(s2[x] == s[a]);
        }
    }
    assert forall|k: u64| k != key && seq_has_pool(s, k) implies #[trigger] seq_pool_of(s2, k)
        == seq_pool_of(s, k) by {
        let x = choose|x: int| 0 <= x < s.len() && s[x].key == k;
        lemma_pool_at(s, x, k);
        assert(x != i);
        let x2 = if x < i { x } else { x - 1 };
        assert(s2[x2] == s[x]);
        lemma_pool_at(s2, x2, k);
    }
}

impl Fortune {
    /// Pool keys are unique.
    pub open spec fn pools_unique(self) -> bool {
        pools_unique_seq(self.pools@)
    }

    /// A live pool with key `key` exists.
    pub open spec fn has_pool(self, key: u64) -> bool {
        seq_has_pool(self.pools@, key)
    }

    /// The live pool with key `key`.
    pub open spec fn pool_of(self, key: u64) -> PoolAccounts {
        seq_pool_of(self.pools@, key)
    }

    /// The whole ledger's invariant: pool keys are unique, no live pool is
    /// retired, and every pool is internally well-formed.
    pub open spec fn wf(self) -> bool {
        &&& self.pools_unique()
        &&& forall|i: int| 0 <= i < self.pools@.len() ==> (#[trigger] self.pools@[i]).wf()
        &&& forall|i: int|
            0 <= i < self.pools@.len() ==> !self.retired@.contains(
                (#[trigger] self.pools@[i]).key,
            )
    }

    /// An empty ledger: nothing initialized, nothing owed.
    pub fn new() -> (f: Fortune)
        ensures
            f.wf(),
            f.state.is_none(),
            f.protocol_vault == 0,
            f.pools@.len() == 0,
            f.retired@.len() == 0,
    {
        Fortune { state: None, protocol_vault: 0, pools: Vec::new(), retired: Vec::new() }
    }

    /// Find the index of the pool with key `key`.
    fn find_pool(&self, key: u64) -> (r: Option<usize>)
        ensures
            match r {
                Some(i) => i < self.pools@.len() && self.pools@[i as int].key == key,
                None => !self.has_pool(key),
            },
    {
        let mut i: usize = 0;
        while i < self.pools.len()
            invariant
                i <= self.pools@.len(),
                forall|j: int| 0 <= j < i ==> self.pools@[j].key != key,
            decreases self.pools@.len() - i,
        {
            if self.pools[i].key == key {
                return Some(i);
            }
            i = i + 1;
        }
        None
    }

    /// Whether `key` belongs to a closed pool.
    fn is_retired(&self, key: u64) -> (r: bool)
        ensures
            r == self.retired@.contains(key),
    {
        let mut i: usize = 0;
        while i < self.retired.len()
            invariant
                i <= self.retired@.len(),
                forall|j: int| 0 <= j < i ==> self.retired@[j] != key,
            decreases self.retired@.len() - i,
        {
            if self.retired[i] == key {
                assert(self.retired@.contains(key));
                return true;
            }
            i = i + 1;
        }
        assert(!self.retired@.contains(key));
        false
    }
}

/// Exactly when `initialize` is rejected: the singleton exists and belongs
/// to another authority.
pub open spec fn initialize_check(pre: Fortune, signer: u64) -> Option<OpError> {
    if pre.state.is_some() && pre.state.unwrap().authority != signer {
        Some(OpError::Constraint)
    } else {
        None
    }
}

/// What a successful `initialize` leaves behind: the configuration set
/// from the arguments under the signer's authority, all balances and pools
/// untouched.
pub open spec fn initialize_applies(
    pre: Fortune,
    post: Fortune,
    signer: u64,
    swap_fee: u64,
    burn_cost: u64,
    fee_scalar: u64,
    lamport_min: u64,
    lamport_max: u64,
    ptoken_max: u64,
    ptoken_min: u64,
) -> bool {
    &&& post.state == Some(
        State {
            authority: signer,
            burn_cost,
            fee_scalar,
            swap_fee,
            lamport_init_min: lamport_min,
            lamport_init_max: lamport_max,
            ptoken_init_max: ptoken_max,
            ptoken_init_min: ptoken_min,
        },
    )
    &&& post.protocol_vault == pre.protocol_vault
    &&& post.pools@ == pre.pools@
    &&& post.retired@ == pre.retired@
}

impl Fortune {
    /// Create or re-create the configuration singleton (an idempotent
    /// upsert, allowed only under the authority that created it).
    pub fn initialize(
        &mut self,
        signer: u64,
        swap_fee: u64,
        burn_cost: u64,
        fee_scalar: u64,
        lamport_min: u64,
        lamport_max: u64,
        ptoken_max: u64,
        ptoken_min: u64,
    ) -> (r: Result<(), OpError>)
        requires
            old(self).wf(),
        ensures
            final(self).wf(),
            match r {
                Ok(()) => {
                    &&& initialize_check(*old(self), signer) is None
                    &&& initialize_applies(
                        *old(self),
                        *final(self),
                        signer,
                        swap_fee,
                        burn_cost,
                        fee_scalar,
                        lamport_min,
                        lamport_max,
                        ptoken_max,
                        ptoken_min,
                    )
                },
                Err(e) => {
                    &&& initialize_check(*old(self), signer) == Some(e)
                    &&& *final(self) == *old(self)
                },
            },
    {
        match &self.state {
            Some(st) => {
                if st.authority != signer {
                    return Err(OpError::Constraint);
                }
            },
            None => {},
        }
        self.state = Some(
            State {
                authority: signer,
                burn_cost,
                fee_scalar,
                swap_fee,
                lamport_init_min: lamport_min,
                lamport_init_max: lamport_max,
                ptoken_init_max: ptoken_max,
                ptoken_init_min: ptoken_min,
            },
        );
        Ok(())
    }
}

/// Exactly when `create_pool` is rejected, and with which error: no
/// configuration yet or a pool key already in use (or retired) fail the
/// substrate's account constraints; creation parameters outside the
/// configured bounds fail with the matching bound error, checked in this
/// order.
pub open spec fn create_pool_check(
    pre: Fortune,
    pool_key: u64,
    lamport_amount: u64,
    ptoken_amount: u64,
) -> Option<OpError> {
    if pre.state.is_none() {
        Some(OpError::Constraint)
    } else if pre.has_pool(pool_key) || pre.retired@.contains(pool_key) {
        Some(OpError::Constraint)
    } else if lamport_amount < pre.state.unwrap().lamport_init_min {
        Some(OpError::Fortune(FortuneError::LamportInitMin))
    } else if lamport_amount >= pre.state.unwrap().lamport_init_max {
        Some(OpError::Fortune(FortuneError::LamportInitMax))
    } else if ptoken_amount >= pre.state.unwrap().ptoken_init_max {
        Some(OpError::Fortune(FortuneError::PtokenInitMax))
    } else if ptoken_amount < pre.state.unwrap().ptoken_init_min {
        Some(OpError::Fortune(FortuneError::PtokenInitMin))
    } else {
        None
    }
}

/// What a successful `create_pool` leaves behind: one new pool under
/// `pool_key` whose record names the creator and the derived resource
/// identities, whose market opens at the creator-supplied reserves (so the
/// opening product is exactly `lamport_amount * ptoken_amount`), whose
/// ptoken vault holds the whole freshly minted issue, whose prize vault
/// holds the prize, and with no ptokens outstanding.  Everything else is
/// untouched.
pub open spec fn create_pool_applies(
    pre: Fortune,
    post: Fortune,
    signer: u64,
    pool_key: u64,
    nft_mint: u64,
    lamport_amount: u64,
    ptoken_amount: u64,
) -> bool {
    &&& post.state == pre.state
    &&& post.protocol_vault == pre.protocol_vault
    &&& post.retired@ == pre.retired@
    &&& post.has_pool(pool_key)
    &&& {
        let p = post.pool_of(pool_key);
        &&& p.key == pool_key
        &&& p.record == (ProbPool {
            authority: signer,
            nft_authority: signer,
            lamport_vault: lamport_vault_key(pool_key),
            ptoken_vault: ptoken_vault_key(pool_key),
            ptoken_mint: ptoken_mint_key(pool_key),
            nft_mint,
            claimed: false,
            to_claim: false,
            lamport_supply: lamport_amount,
            ptoken_supply: ptoken_amount,
            outstanding_ptokens: 0,
        })
        &&& p.ptoken_vault == ptoken_amount
        &&& p.lamport_vault == 0
        &&& p.nft_vault == 1
        &&& p.holdings@.len() == 0
    }
    &&& forall|k: u64| k != pool_key ==> #[trigger] post.has_pool(k) == pre.has_pool(k)
    &&& forall|k: u64|
        k != pool_key && pre.has_pool(k) ==> #[trigger] post.pool_of(k) == pre.pool_of(k)
}

impl Fortune {
    /// Create one pool: deposit the creator's prize, mint the fixed ptoken
    /// issue into the pool's vault, and open the market at the supplied
    /// reserves.
    pub fn create_pool(
        &mut self,
        signer: u64,
        pool_key: u64,
        nft_mint: u64,
        lamport_amount: u64,
        ptoken_amount: u64,
    ) -> (r: Result<(), OpError>)
        requires
            old(self).wf(),
        ensures
            final(self).wf(),
            match r {
                Ok(()) => {
                    &&& create_pool_check(*old(self), pool_key, lamport_amount, ptoken_amount)
                        is None
                    &&& create_pool_applies(
                        *old(self),
                        *final(self),
                        signer,
                        pool_key,
                        nft_mint,
                        lamport_amount,
                        ptoken_amount,
                    )
                },
                Err(e) => {
                    &&& create_pool_check(*old(self), pool_key, lamport_amount, ptoken_amount)
                        == Some(e)
                    &&& *final(self) == *old(self)
                },
            },
    {
        let st = match &self.state {
            Some(st) => *st,
            None => {
                return Err(OpError::Constraint);
            },
        };
        if self.find_pool(pool_key).is_some() {
            return Err(OpError::Constraint);
        }
        if self.is_retired(pool_key) {
            return Err(OpError::Constraint);
        }
        if lamport_amount < st.lamport_init_min {
            return Err(OpError::Fortune(FortuneError::LamportInitMin));
        }
        if lamport_amount >= st.lamport_init_max {
            return Err(OpError::Fortune(FortuneError::LamportInitMax));
        }
        if ptoken_amount >= st.ptoken_init_max {
            return Err(OpError::Fortune(FortuneError::PtokenInitMax));
        }
        if ptoken_amount < st.ptoken_init_min {
            return Err(OpError::Fortune(FortuneError::PtokenInitMin));
        }
        let record = ProbPool {
            authority: signer,
            nft_authority: signer,
            lamport_vault: crate::directory::VaultKey {
                tag: crate::directory::VaultTag::LamportVault,
                pool: pool_key,
            },
            ptoken_vault: crate::directory::VaultKey {
                tag: crate::directory::VaultTag::PtokenVault,
                pool: pool_key,
            },
            ptoken_mint: crate::directory::VaultKey {
                tag: crate::directory::VaultTag::PtokenMint,
                pool: pool_key,
            },
            nft_mint,
            claimed: false,
            to_claim: false,
            lamport_supply: lamport_amount,
            ptoken_supply: ptoken_amount,
            outstanding_ptokens: 0,
        };
        let p = PoolAccounts {
            key: pool_key,
            record,
            ptoken_vault: ptoken_amount,
            lamport_vault: 0,
            nft_vault: 1,
            holdings: Vec::new(),
        };
        let ghost pre_pools = self.pools@;
        proof {
            assert(holdings_total(p.holdings@) == 0);
            lemma_pools_push_frame(pre_pools, pre_pools.push(p), p);
        }
        self.pools.push(p);
        Ok(())
    }
}

/// Exactly when `buy` is rejected, and with which error: missing
/// configuration or pool fail the substrate's constraints; a claimed pool
/// fails `PoolClosed`; a supply at the market floor fails `SoldOut`; any
/// arithmetic step outside the machine range aborts.
pub open spec fn buy_check(pre: Fortune, pool_key: u64, amount: u64) -> Option<OpError> {
    if pre.state.is_none() {
        Some(OpError::Constraint)
    } else if !pre.has_pool(pool_key) {
        Some(OpError::Constraint)
    } else {
        let st = pre.state.unwrap();
        let p = pre.pool_of(pool_key);
        let s = p.record.ptoken_supply;
        let l = p.record.lamport_supply;
        if p.record.claimed {
            Some(OpError::Fortune(FortuneError::PoolClosed))
        } else if s <= 1 {
            Some(OpError::Fortune(FortuneError::SoldOut))
        } else if !amm::quote_ok(s, l, amount, st.swap_fee, st.fee_scalar) {
            Some(OpError::Arithmetic)
        } else if p.record.outstanding_ptokens + amount > u64::MAX {
            Some(OpError::Arithmetic)
        } else if pre.protocol_vault + amm::quote_fee(s, l, amount, st.swap_fee, st.fee_scalar)
            > u64::MAX {
            Some(OpError::Arithmetic)
        } else if p.lamport_vault + amm::quote_cost(s, l, amount) > u64::MAX {
            Some(OpError::Arithmetic)
        } else {
            None
        }
    }
}

/// The buyer's holding after a buy: `amount` more in the pool-scoped
/// vault, opening the holding at zero balances if this is the user's
/// first.
pub open spec fn holding_after_buy(p: PoolAccounts, signer: u64, amount: u64) -> UserHolding {
    if p.has_holding(signer) {
        let h = p.holding_of(signer);
        UserHolding { vault: (h.vault + amount) as u64, ..h }
    } else {
        UserHolding { user: signer, vault: amount, staged: 0, personal: 0 }
    }
}

/// What a successful `buy` leaves behind.  With pre-buy reserves
/// `(s, l)`: the supply falls by `amount`, the reserve moves to the
/// truncated constant-product value `(s * l) / (s - amount)`, the buyer
/// pays the reserve growth into the pool's reserve vault and the scaled
/// fee into the protocol vault, `amount` ptokens move from the pool's
/// vault into the buyer's holding, and the outstanding count grows by
/// exactly `amount`.  Everything else is untouched.
pub open spec fn buy_applies(
    pre: Fortune,
    post: Fortune,
    signer: u64,
    pool_key: u64,
    amount: u64,
) -> bool {
    let st = pre.state.unwrap();
    let p = pre.pool_of(pool_key);
    let s = p.record.ptoken_supply;
    let l = p.record.lamport_supply;
    let cost = amm::quote_cost(s, l, amount);
    let fee = amm::quote_fee(s, l, amount, st.swap_fee, st.fee_scalar);
    &&& post.state == pre.state
    &&& post.retired@ == pre.retired@
    &&& post.protocol_vault == pre.protocol_vault + fee
    &&& post.has_pool(pool_key)
    &&& {
        let p2 = post.pool_of(pool_key);
        &&& p2.key == p.key
        &&& p2.record == (ProbPool {
            ptoken_supply: (s - amount) as u64,
            lamport_supply: amm::quote_new_lamports(s, l, amount) as u64,
            outstanding_ptokens: (p.record.outstanding_ptokens + amount) as u64,
            ..p.record
        })
        &&& p2.ptoken_vault == p.ptoken_vault - amount
        &&& p2.lamport_vault == p.lamport_vault + cost
        &&& p2.nft_vault == p.nft_vault
        &&& p2.has_holding(signer)
        &&& p2.holding_of(signer) == holding_after_buy(p, signer, amount)
        &&& forall|u: u64| u != signer ==> #[trigger] p2.has_holding(u) == p.has_holding(u)
        &&& forall|u: u64|
            u != signer && p.has_holding(u) ==> #[trigger] p2.holding_of(u) == p.holding_of(u)
    }
    &&& forall|k: u64| k != pool_key ==> #[trigger] post.has_pool(k) == pre.has_pool(k)
    &&& forall|k: u64|
        k != pool_key && pre.has_pool(k) ==> #[trigger] post.pool_of(k) == pre.pool_of(k)
}

impl Fortune {
    /// Buy `amount` ptokens from a pool at the constant-product price plus
    /// the protocol fee.
    pub fn buy(&mut self, signer: u64, pool_key: u64, amount: u64) -> (r: Result<(), OpError>)
        requires
            old(self).wf(),
        ensures
            final(self).wf(),
            match r {
                Ok(()) => {
                    &&& buy_check(*old(self), pool_key, amount) is None
                    &&& buy_applies(*old(self), *final(self), signer, pool_key, amount)
                },
                Err(e) => {
                    &&& buy_check(*old(self), pool_key, amount) == Some(e)
                    &&& *final(self) == *old(self)
                },
            },
    {
        let st = match &self.state {
            Some(st) => *st,
            None => {
                return Err(OpError::Constraint);
            },
        };
        let i = match self.find_pool(pool_key) {
            Some(i) => i,
            None => {
                return Err(OpError::Constraint);
            },
        };
        let ghost pre_pools = self.pools@;
        proof {
            lemma_pool_at(pre_pools, i as int, pool_key);
        }
        if self.pools[i].record.claimed {
            return Err(OpError::Fortune(FortuneError::PoolClosed));
        }
        if self.pools[i].record.ptoken_supply <= 1 {
            return Err(OpError::Fortune(FortuneError::SoldOut));
        }
        let quote = match amm::buy_quote(
            self.pools[i].record.ptoken_supply,
            self.pools[i].record.lamport_supply,
            amount,
            st.swap_fee,
            st.fee_scalar,
        ) {
            Ok(q) => q,
            Err(e) => {
                return Err(e);
            },
        };
        let new_outstanding = match self.pools[i].record.outstanding_ptokens.checked_add(amount) {
            Some(v) => v,
            None => {
                return Err(OpError::Arithmetic);
            },
        };
        let new_protocol = match self.protocol_vault.checked_add(quote.fee) {
            Some(v) => v,
            None => {
                return Err(OpError::Arithmetic);
            },
        };
        let new_pool_lamports = match self.pools[i].lamport_vault.checked_add(quote.cost) {
            Some(v) => v,
            None => {
                return Err(OpError::Arithmetic);
            },
        };
        let mut p = self.pools.remove(i);
        let ghost pre_p = p;
        proof {
            assert(pre_p.wf());
        }
        p.record.ptoken_supply = quote.new_ptoken_supply;
        p.record.lamport_supply = quote.new_lamport_supply;
        p.record.outstanding_ptokens = new_outstanding;
        p.ptoken_vault = p.ptoken_vault - amount;
        p.lamport_vault = new_pool_lamports;
        self.protocol_vault = new_protocol;
        match p.find_holding(signer) {
            Some(j) => {
                let h = p.holdings[j];
                proof {
                    p.lemma_holding_at(j as int, signer);
                    crate::holdings::lemma_amount_le_total(p.holdings@, j as int);
                }
                let h2 = UserHolding { vault: h.vault + amount, ..h };
                proof {
                    crate::holdings::lemma_total_update(p.holdings@, j as int, h2);
                }
                p.holdings.set(j, h2);
                proof {
                    pre_p.lemma_holdings_update_frame(p, j as int, h2);
                }
            },
            None => {
                let h2 = UserHolding { user: signer, vault: amount, staged: 0, personal: 0 };
                proof {
                    crate::holdings::lemma_total_push(p.holdings@, h2);
                }
                p.holdings.push(h2);
                proof {
                    pre_p.lemma_holdings_push_frame(p, h2);
                }
            },
        }
        proof {
            assert(pre_pools.remove(i as int).insert(i as int, p) =~= pre_pools.update(i as int, p));
        }
        self.pools.insert(i, p);
        proof {
            lemma_pools_update_frame(pre_pools, self.pools@, i as int, p);
        }
        Ok(())
    }
}

/// Exactly when `request_burn` is rejected, and with which error: missing
/// configuration, pool, or holding fail the substrate's constraints; a
/// request beyond the user's held balance fails the ledger transfer; a fee
/// credit outside the machine range aborts.
pub open spec fn request_burn_check(
    pre: Fortune,
    signer: u64,
    pool_key: u64,
    amount: u64,
) -> Option<OpError> {
    if pre.state.is_none() {
        Some(OpError::Constraint)
    } else if !pre.has_pool(pool_key) {
        Some(OpError::Constraint)
    } else if !pre.pool_of(pool_key).has_holding(signer) {
        Some(OpError::Constraint)
    } else if pre.pool_of(pool_key).holding_of(signer).vault < amount {
        Some(OpError::InsufficientFunds)
    } else if pre.protocol_vault + pre.state.unwrap().burn_cost > u64::MAX {
        Some(OpError::Arithmetic)
    } else {
        None
    }
}

/// What a successful `request_burn` leaves behind: `amount` ptokens move
/// from the signer's holding vault into the burn staging balance (fixing
/// the bet size; no randomness is consulted), and the flat burn fee is
/// credited to the protocol vault.  Everything else, the pool record
/// included, is untouched.
pub open spec fn request_burn_applies(
    pre: Fortune,
    post: Fortune,
    signer: u64,
    pool_key: u64,
    amount: u64,
) -> bool {
    let p = pre.pool_of(pool_key);
    let h = p.holding_of(signer);
    &&& post.state == pre.state
    &&& post.retired@ == pre.retired@
    &&& post.protocol_vault == pre.protocol_vault + pre.state.unwrap().burn_cost
    &&& post.has_pool(pool_key)
    &&& {
        let p2 = post.pool_of(pool_key);
        &&& p2.key == p.key
        &&& p2.record == p.record
        &&& p2.ptoken_vault == p.ptoken_vault
        &&& p2.lamport_vault == p.lamport_vault
        &&& p2.nft_vault == p.nft_vault
        &&& p2.has_holding(signer)
        &&& p2.holding_of(signer) == (UserHolding {
            vault: (h.vault - amount) as u64,
            staged: (h.staged + amount) as u64,
            ..h
        })
        &&& forall|u: u64| u != signer ==> #[trigger] p2.has_holding(u) == p.has_holding(u)
        &&& forall|u: u64|
            u != signer && p.has_holding(u) ==> #[trigger] p2.holding_of(u) == p.holding_of(u)
    }
    &&& forall|k: u64| k != pool_key ==> #[trigger] post.has_pool(k) == pre.has_pool(k)
    &&& forall|k: u64|
        k != pool_key && pre.has_pool(k) ==> #[trigger] post.pool_of(k) == pre.pool_of(k)
}

impl Fortune {
    /// Irrevocably dedicate `amount` held ptokens to a future draw, and
    /// pay the flat burn fee.
    pub fn request_burn(&mut self, signer: u64, pool_key: u64, amount: u64) -> (r: Result<
        (),
        OpError,
    >)
        requires
            old(self).wf(),
        ensures
            final(self).wf(),
            match r {
                Ok(()) => {
                    &&& request_burn_check(*old(self), signer, pool_key, amount) is None
                    &&& request_burn_applies(*old(self), *final(self), signer, pool_key, amount)
                },
                Err(e) => {
                    &&& request_burn_check(*old(self), signer, pool_key, amount) == Some(e)
                    &&& *final(self) == *old(self)
                },
            },
    {
        let st = match &self.state {
            Some(st) => *st,
            None => {
                return Err(OpError::Constraint);
            },
        };
        let i = match self.find_pool(pool_key) {
            Some(i) => i,
            None => {
                return Err(OpError::Constraint);
            },
        };
        let ghost pre_pools = self.pools@;
        proof {
            lemma_pool_at(pre_pools, i as int, pool_key);
        }
        let j = match self.pools[i].find_holding(signer) {
            Some(j) => j,
            None => {
                return Err(OpError::Constraint);
            },
        };
        proof {
            self.pools@[i as int].lemma_holding_at(j as int, signer);
        }
        let h = self.pools[i].holdings[j];
        if h.vault < amount {
            return Err(OpError::InsufficientFunds);
        }
        let new_protocol = match self.protocol_vault.checked_add(st.burn_cost) {
            Some(v) => v,
            None => {
                return Err(OpError::Arithmetic);
            },
        };
        let mut p = self.pools.remove(i);
        let ghost pre_p = p;
        proof {
            assert(pre_p.wf());
            crate::holdings::lemma_amount_le_total(p.holdings@, j as int);
        }
        let h2 = UserHolding {
            user: h.user,
            vault: h.vault - amount,
            staged: h.staged + amount,
            personal: h.personal,
        };
        proof {
            crate::holdings::lemma_total_update(p.holdings@, j as int, h2);
        }
        p.holdings.set(j, h2);
        self.protocol_vault = new_protocol;
        proof {
            pre_p.lemma_holdings_update_frame(p, j as int, h2);
            assert(pre_pools.remove(i as int).insert(i as int, p) =~= pre_pools.update(i as int, p));
        }
        self.pools.insert(i, p);
        proof {
            lemma_pools_update_frame(pre_pools, self.pools@, i as int, p);
        }
        Ok(())
    }
}

/// Exactly when `user_withdraw` is rejected, and with which error: missing
/// pool or holding fail the substrate's constraints; a withdrawal beyond
/// the held balance fails the ledger transfer.
pub open spec fn user_withdraw_check(
    pre: Fortune,
    signer: u64,
    pool_key: u64,
    amount: u64,
) -> Option<OpError> {
    if !pre.has_pool(pool_key) {
        Some(OpError::Constraint)
    } else if !pre.pool_of(pool_key).has_holding(signer) {
        Some(OpError::Constraint)
    } else if pre.pool_of(pool_key).holding_of(signer).vault < amount {
        Some(OpError::InsufficientFunds)
    } else {
        None
    }
}

/// What a successful `user_withdraw` leaves behind: `amount` ptokens move
/// from the signer's pool-scoped holding vault to the signer's personal
/// account.  Pure balance conservation: no pricing effect, no change to the
/// pool record or any other balance.
pub open spec fn user_withdraw_applies(
    pre: Fortune,
    post: Fortune,
    signer: u64,
    pool_key: u64,
    amount: u64,
) -> bool {
    let p = pre.pool_of(pool_key);
    let h = p.holding_of(signer);
    &&& post.state == pre.state
    &&& post.retired@ == pre.retired@
    &&& post.protocol_vault == pre.protocol_vault
    &&& post.has_pool(pool_key)
    &&& {
        let p2 = post.pool_of(pool_key);
        &&& p2.key == p.key
        &&& p2.record == p.record
        &&& p2.ptoken_vault == p.ptoken_vault
        &&& p2.lamport_vault == p.lamport_vault
        &&& p2.nft_vault == p.nft_vault
        &&& p2.has_holding(signer)
        &&& p2.holding_of(signer) == (UserHolding {
            vault: (h.vault - amount) as u64,
            personal: (h.personal + amount) as u64,
            ..h
        })
        &&& forall|u: u64| u != signer ==> #[trigger] p2.has_holding(u) == p.has_holding(u)
        &&& forall|u: u64|
            u != signer && p.has_holding(u) ==> #[trigger] p2.holding_of(u) == p.holding_of(u)
    }
    &&& forall|k: u64| k != pool_key ==> #[trigger] post.has_pool(k) == pre.has_pool(k)
    &&& forall|k: u64|
        k != pool_key && pre.has_pool(k) ==> #[trigger] post.pool_of(k) == pre.pool_of(k)
}

impl Fortune {
    /// Move held ptokens back to the signer's personal account.
    pub fn user_withdraw(&mut self, signer: u64, pool_key: u64, amount: u64) -> (r: Result<
        (),
        OpError,
    >)
        requires
            old(self).wf(),
        ensures
            final(self).wf(),
            match r {
                Ok(()) => {
                    &&& user_withdraw_check(*old(self), signer, pool_key, amount) is None
                    &&& user_withdraw_applies(*old(self), *final(self), signer, pool_key, amount)
                },
                Err(e) => {
                    &&& user_withdraw_check(*old(self), signer, pool_key, amount) == Some(e)
                    &&& *final(self) == *old(self)
                },
            },
    {
        let i = match self.find_pool(pool_key) {
            Some(i) => i,
            None => {
                return Err(OpError::Constraint);
            },
        };
        let ghost pre_pools = self.pools@;
        proof {
            lemma_pool_at(pre_pools, i as int, pool_key);
        }
        let j = match self.pools[i].find_holding(signer) {
            Some(j) => j,
            None => {
                return Err(OpError::Constraint);
            },
        };
        proof {
            self.pools@[i as int].lemma_holding_at(j as int, signer);
        }
        let h = self.pools[i].holdings[j];
        if h.vault < amount {
            return Err(OpError::InsufficientFunds);
        }
        let mut p = self.pools.remove(i);
        let ghost pre_p = p;
        proof {
            assert(pre_p.wf());
            crate::holdings::lemma_amount_le_total(p.holdings@, j as int);
        }
        let h2 = UserHolding {
            user: h.user,
            vault: h.vault - amount,
            staged: h.staged,
            personal: h.personal + amount,
        };
        proof {
            crate::holdings::lemma_total_update(p.holdings@, j as int, h2);
        }
        p.holdings.set(j, h2);
        proof {
            pre_p.lemma_holdings_update_frame(p, j as int, h2);
            assert(pre_pools.remove(i as int).insert(i as int, p) =~= pre_pools.update(i as int, p));
        }
        self.pools.insert(i, p);
        proof {
            lemma_pools_update_frame(pre_pools, self.pools@, i as int, p);
        }
        Ok(())
    }
}

/// Whether a burn of `amount` against `supply` wins, given the entropy
/// record: the draw is reduced modulo the current supply, one uniform
/// sample over `[0, supply)`, and wins exactly when it falls in the top
/// `amount`-wide slice, so the chance of winning is `amount / supply`.
pub open spec fn burn_wins(entropy: Seq<u8>, supply: u64, amount: u64) -> bool {
    le_value(
        entropy.subrange(
            crate::random::ENTROPY_OFFSET as int,
            crate::random::ENTROPY_OFFSET + 8,
        ),
    ) % (supply as nat) >= supply - amount
}

/// Exactly when `execute_burn` is rejected, and with which error: it is a
/// permissioned call, so a signer other than the protocol authority fails
/// the substrate's constraints, as do a missing pool or burn record and a
/// malformed entropy record; destroying more than the staged balance fails
/// the ledger burn; reducing the draw modulo a zero supply or burning more
/// than the whole supply aborts the arithmetic.
pub open spec fn execute_burn_check(
    pre: Fortune,
    fortune_authority: u64,
    user: u64,
    pool_key: u64,
    entropy: Seq<u8>,
    amount: u64,
) -> Option<OpError> {
    if pre.state.is_none() || pre.state.unwrap().authority != fortune_authority {
        Some(OpError::Constraint)
    } else if !pre.has_pool(pool_key) {
        Some(OpError::Constraint)
    } else if !pre.pool_of(pool_key).has_holding(user) {
        Some(OpError::Constraint)
    } else if pre.pool_of(pool_key).holding_of(user).staged < amount {
        Some(OpError::InsufficientFunds)
    } else if entropy.len() < crate::random::ENTROPY_OFFSET + 8 {
        Some(OpError::Constraint)
    } else if pre.pool_of(pool_key).record.ptoken_supply == 0 {
        Some(OpError::Arithmetic)
    } else if amount > pre.pool_of(pool_key).record.ptoken_supply {
        Some(OpError::Arithmetic)
    } else {
        None
    }
}

/// What a successful `execute_burn` leaves behind: the staged ptokens are
/// destroyed (a sunk cost, win or lose) and the outstanding count falls by
/// exactly `amount`, in either outcome.  On a win the burning user becomes
/// the claimant and the one-shot pending-claim gate opens; the market's
/// reserves are untouched by burns.
pub open spec fn execute_burn_applies(
    pre: Fortune,
    post: Fortune,
    user: u64,
    pool_key: u64,
    entropy: Seq<u8>,
    amount: u64,
) -> bool {
    let p = pre.pool_of(pool_key);
    let h = p.holding_of(user);
    let wins = burn_wins(entropy, p.record.ptoken_supply, amount);
    &&& post.state == pre.state
    &&& post.retired@ == pre.retired@
    &&& post.protocol_vault == pre.protocol_vault
    &&& post.has_pool(pool_key)
    &&& {
        let p2 = post.pool_of(pool_key);
        &&& p2.key == p.key
        &&& p2.record == (ProbPool {
            nft_authority: if wins {
                user
            } else {
                p.record.nft_authority
            },
            to_claim: if wins {
                true
            } else {
                p.record.to_claim
            },
            outstanding_ptokens: (p.record.outstanding_ptokens - amount) as u64,
            ..p.record
        })
        &&& p2.ptoken_vault == p.ptoken_vault
        &&& p2.lamport_vault == p.lamport_vault
        &&& p2.nft_vault == p.nft_vault
        &&& p2.has_holding(user)
        &&& p2.holding_of(user) == (UserHolding { staged: (h.staged - amount) as u64, ..h })
        &&& forall|u: u64| u != user ==> #[trigger] p2.has_holding(u) == p.has_holding(u)
        &&& forall|u: u64|
            u != user && p.has_holding(u) ==> #[trigger] p2.holding_of(u) == p.holding_of(u)
    }
    &&& forall|k: u64| k != pool_key ==> #[trigger] post.has_pool(k) == pre.has_pool(k)
    &&& forall|k: u64|
        k != pool_key && pre.has_pool(k) ==> #[trigger] post.pool_of(k) == pre.pool_of(k)
}

impl Fortune {
    /// Destroy a user's staged ptokens and resolve their draw against the
    /// host's entropy record.  Permissioned: only the protocol authority
    /// executes burns, on the named user's behalf.
    ///
    /// A deliberate quirk of the design: burns are not forbidden while a
    /// claim is pending, so a second winning burn overwrites the pending
    /// claimant, and the first winner loses eligibility.
    pub fn execute_burn(
        &mut self,
        fortune_authority: u64,
        user: u64,
        pool_key: u64,
        entropy_record: &Vec<u8>,
        amount: u64,
    ) -> (r: Result<(), OpError>)
        requires
            old(self).wf(),
        ensures
            final(self).wf(),
            match r {
                Ok(()) => {
                    &&& execute_burn_check(
                        *old(self),
                        fortune_authority,
                        user,
                        pool_key,
                        entropy_record@,
                        amount,
                    ) is None
                    &&& execute_burn_applies(
                        *old(self),
                        *final(self),
                        user,
                        pool_key,
                        entropy_record@,
                        amount,
                    )
                },
                Err(e) => {
                    &&& execute_burn_check(
                        *old(self),
                        fortune_authority,
                        user,
                        pool_key,
                        entropy_record@,
                        amount,
                    ) == Some(e)
                    &&& *final(self) == *old(self)
                },
            },
    {
        let st = match &self.state {
            Some(st) => *st,
            None => {
                return Err(OpError::Constraint);
            },
        };
        if st.authority != fortune_authority {
            return Err(OpError::Constraint);
        }
        let i = match self.find_pool(pool_key) {
            Some(i) => i,
            None => {
                return Err(OpError::Constraint);
            },
        };
        let ghost pre_pools = self.pools@;
        proof {
            lemma_pool_at(pre_pools, i as int, pool_key);
        }
        let j = match self.pools[i].find_holding(user) {
            Some(j) => j,
            None => {
                return Err(OpError::Constraint);
            },
        };
        proof {
            self.pools@[i as int].lemma_holding_at(j as int, user);
        }
        let h = self.pools[i].holdings[j];
        if h.staged < amount {
            return Err(OpError::InsufficientFunds);
        }
        let entropy = match crate::random::draw_entropy(entropy_record) {
            Ok(v) => v,
            Err(e) => {
                return Err(e);
            },
        };
        let supply = self.pools[i].record.ptoken_supply;
        if supply == 0 {
            return Err(OpError::Arithmetic);
        }
        if amount > supply {
            return Err(OpError::Arithmetic);
        }
        let rng = entropy % supply;
        let wins = rng >= supply - amount;
        let mut p = self.pools.remove(i);
        let ghost pre_p = p;
        proof {
            assert(pre_p.wf());
            crate::holdings::lemma_amount_le_total(p.holdings@, j as int);
        }
        if wins {
            p.record.nft_authority = user;
            p.record.to_claim = true;
        }
        p.record.outstanding_ptokens = p.record.outstanding_ptokens - amount;
        let h2 = UserHolding {
            user: h.user,
            vault: h.vault,
            staged: h.staged - amount,
            personal: h.personal,
        };
        proof {
            crate::holdings::lemma_total_update(p.holdings@, j as int, h2);
        }
        p.holdings.set(j, h2);
        proof {
            pre_p.lemma_holdings_update_frame(p, j as int, h2);
            assert(pre_pools.remove(i as int).insert(i as int, p) =~= pre_pools.update(i as int, p));
        }
        self.pools.insert(i, p);
        proof {
            lemma_pools_update_frame(pre_pools, self.pools@, i as int, p);
        }
        Ok(())
    }
}

/// Exactly when `claim_asset` is rejected, and with which error: a missing
/// pool or a claimant other than the entitled one fail the substrate's
/// constraints; without an open pending claim it fails `NoClaim`; an empty
/// prize vault (the prize already left) fails the ledger transfer.
pub open spec fn claim_asset_check(pre: Fortune, signer: u64, pool_key: u64) -> Option<OpError> {
    if !pre.has_pool(pool_key) {
        Some(OpError::Constraint)
    } else if pre.pool_of(pool_key).record.nft_authority != signer {
        Some(OpError::Constraint)
    } else if !pre.pool_of(pool_key).record.to_claim {
        Some(OpError::Fortune(FortuneError::NoClaim))
    } else if pre.pool_of(pool_key).nft_vault < 1 {
        Some(OpError::InsufficientFunds)
    } else {
        None
    }
}

/// What a successful `claim_asset` leaves behind: the prize leaves the
/// pool's vault for the claimant, the pool is marked claimed, and the
/// one-shot pending-claim gate closes, so this transition happens at most
/// once per win.  Every balance besides the prize is untouched.
pub open spec fn claim_asset_applies(
    pre: Fortune,
    post: Fortune,
    signer: u64,
    pool_key: u64,
) -> bool {
    let p = pre.pool_of(pool_key);
    &&& post.state == pre.state
    &&& post.retired@ == pre.retired@
    &&& post.protocol_vault == pre.protocol_vault
    &&& post.has_pool(pool_key)
    &&& {
        let p2 = post.pool_of(pool_key);
        &&& p2.key == p.key
        &&& p2.record == (ProbPool { claimed: true, to_claim: false, ..p.record })
        &&& p2.ptoken_vault == p.ptoken_vault
        &&& p2.lamport_vault == p.lamport_vault
        &&& p2.nft_vault == p.nft_vault - 1
        &&& p2.holdings@ == p.holdings@
    }
    &&& forall|k: u64| k != pool_key ==> #[trigger] post.has_pool(k) == pre.has_pool(k)
    &&& forall|k: u64|
        k != pool_key && pre.has_pool(k) ==> #[trigger] post.pool_of(k) == pre.pool_of(k)
}

impl Fortune {
    /// Transfer the prize to the entitled claimant and close the pending
    /// claim.
    pub fn claim_asset(&mut self, signer: u64, pool_key: u64) -> (r: Result<(), OpError>)
        requires
            old(self).wf(),
        ensures
            final(self).wf(),
            match r {
                Ok(()) => {
                    &&& claim_asset_check(*old(self), signer, pool_key) is None
                    &&& claim_asset_applies(*old(self), *final(self), signer, pool_key)
                },
                Err(e) => {
                    &&& claim_asset_check(*old(self), signer, pool_key) == Some(e)
                    &&& *final(self) == *old(self)
                },
            },
    {
        let i = match self.find_pool(pool_key) {
            Some(i) => i,
            None => {
                return Err(OpError::Constraint);
            },
        };
        let ghost pre_pools = self.pools@;
        proof {
            lemma_pool_at(pre_pools, i as int, pool_key);
        }
        if self.pools[i].record.nft_authority != signer {
            return Err(OpError::Constraint);
        }
        if !self.pools[i].record.to_claim {
            return Err(OpError::Fortune(FortuneError::NoClaim));
        }
        if self.pools[i].nft_vault < 1 {
            return Err(OpError::InsufficientFunds);
        }
        let mut p = self.pools.remove(i);
        let ghost pre_p = p;
        proof {
            assert(pre_p.wf());
        }
        p.nft_vault = p.nft_vault - 1;
        p.record.claimed = true;
        p.record.to_claim = false;
        proof {
            assert(pre_pools.remove(i as int).insert(i as int, p) =~= pre_pools.update(i as int, p));
        }
        self.pools.insert(i, p);
        proof {
            lemma_pools_update_frame(pre_pools, self.pools@, i as int, p);
        }
        Ok(())
    }
}

/// Exactly when `close_pool` is rejected, and with which error: a missing
/// pool or a signer other than the creator fail the substrate's
/// constraints; live ptokens fail `OutstandingProb`; an open pending claim
/// fails `ActiveClaim`.
pub open spec fn close_pool_check(pre: Fortune, signer: u64, pool_key: u64) -> Option<OpError> {
    if !pre.has_pool(pool_key) {
        Some(OpError::Constraint)
    } else if pre.pool_of(pool_key).record.authority != signer {
        Some(OpError::Constraint)
    } else if pre.pool_of(pool_key).record.outstanding_ptokens != 0 {
        Some(OpError::Fortune(FortuneError::OutstandingProb))
    } else if pre.pool_of(pool_key).record.to_claim {
        Some(OpError::Fortune(FortuneError::ActiveClaim))
    } else {
        None
    }
}

/// What a successful `close_pool` leaves behind: the pool is gone and its
/// key is retired forever.  The prize (if never won) returns to the
/// creator, the reserves drain to the creator's recipient, and the unsold
/// ptokens are burned — all leave the system, and nothing was owed to any
/// user: close is reachable only with zero outstanding ptokens, so every
/// user's balances under this pool were already zero.
pub open spec fn close_pool_applies(pre: Fortune, post: Fortune, pool_key: u64) -> bool {
    let p = pre.pool_of(pool_key);
    &&& post.state == pre.state
    &&& post.protocol_vault == pre.protocol_vault
    &&& post.retired@ == pre.retired@.push(pool_key)
    &&& !post.has_pool(pool_key)
    &&& forall|u: u64|
        #[trigger] p.has_holding(u) ==> p.holding_of(u).vault == 0 && p.holding_of(u).staged == 0
            && p.holding_of(u).personal == 0
    &&& forall|k: u64| k != pool_key ==> #[trigger] post.has_pool(k) == pre.has_pool(k)
    &&& forall|k: u64|
        k != pool_key && pre.has_pool(k) ==> #[trigger] post.pool_of(k) == pre.pool_of(k)
}

impl Fortune {
    /// Close a pool: return the prize if it was never won, drain the
    /// reserves, burn the unsold ptokens, reclaim the storage, and retire
    /// the pool's identity.
    pub fn close_pool(&mut self, signer: u64, pool_key: u64) -> (r: Result<(), OpError>)
        requires
            old(self).wf(),
        ensures
            final(self).wf(),
            match r {
                Ok(()) => {
                    &&& close_pool_check(*old(self), signer, pool_key) is None
                    &&& close_pool_applies(*old(self), *final(self), pool_key)
                },
                Err(e) => {
                    &&& close_pool_check(*old(self), signer, pool_key) == Some(e)
                    &&& *final(self) == *old(self)
                },
            },
    {
        let i = match self.find_pool(pool_key) {
            Some(i) => i,
            None => {
                return Err(OpError::Constraint);
            },
        };
        let ghost pre_pools = self.pools@;
        let ghost pre_retired = self.retired@;
        proof {
            lemma_pool_at(pre_pools, i as int, pool_key);
        }
        if self.pools[i].record.authority != signer {
            return Err(OpError::Constraint);
        }
        if self.pools[i].record.outstanding_ptokens != 0 {
            return Err(OpError::Fortune(FortuneError::OutstandingProb));
        }
        if self.pools[i].record.to_claim {
            return Err(OpError::Fortune(FortuneError::ActiveClaim));
        }
        let p = self.pools.remove(i);
        self.retired.push(pool_key);
        proof {
            assert(p.wf());
            lemma_pools_remove_frame(pre_pools, self.pools@, i as int);
            assert forall|u: u64| #[trigger] p.has_holding(u) implies p.holding_of(u).vault == 0
                && p.holding_of(u).staged == 0 && p.holding_of(u).personal == 0 by {
                let x = choose|x: int| 0 <= x < p.holdings@.len() && p.holdings@[x].user == u;
                p.lemma_holding_at(x, u);
                crate::holdings::lemma_amount_le_total(p.holdings@, x);
            }
            assert forall|x: int| 0 <= x < self.pools@.len() implies (#[trigger] self.pools@[x]).wf()
                && !self.retired@.contains(self.pools@[x].key) by {
                let a = if x < i { x } else { x + 1 };
                assert(self.pools@[x] == pre_pools[a]);
                assert(pre_pools[a].wf());
                assert(!pre_retired.contains(pre_pools[a].key));
                assert(a != i);
                assert(pre_pools[a].key != pool_key);
                assert forall|y: int| 0 <= y < self.retired@.len() implies self.retired@[y]
                    != self.pools@[x].key by {
                    if y < pre_retired.len() {
                        assert(pre_retired[y] != pre_pools[a].key);
                    } else {
                        assert(self.retired@[y] == pool_key);
                    }
                }
            }
        }
        Ok(())
    }
}

/// A freshly created pool opens exactly on the constant-product curve: its
/// reserves' product equals the product of the creation amounts, and no
/// ptokens are outstanding.
pub proof fn lemma_create_pool_opening_product(
    pre: Fortune,
    post: Fortune,
    signer: u64,
    pool_key: u64,
    nft_mint: u64,
    lamport_amount: u64,
    ptoken_amount: u64,
)
    requires
        create_pool_applies(pre, post, signer, pool_key, nft_mint, lamport_amount, ptoken_amount),
    ensures
        post.pool_of(pool_key).record.ptoken_supply * post.pool_of(pool_key).record.lamport_supply
            == lamport_amount * ptoken_amount,
        post.pool_of(pool_key).record.outstanding_ptokens == 0,
{
    vstd::arithmetic::mul::lemma_mul_is_commutative(lamport_amount as int, ptoken_amount as int);
}

/// What one accepted buy does to the market.  The outstanding count grows
/// by exactly the bought amount.  Truncation is the pool-favoring rounding
/// policy: the reserve never shrinks, and the reserves' product stays
/// within one divisor below the pre-buy product — exactly on it whenever
/// the division is exact.
pub proof fn lemma_buy_product(pre: Fortune, post: Fortune, signer: u64, pool_key: u64, amount: u64)
    requires
        buy_check(pre, pool_key, amount) is None,
        buy_applies(pre, post, signer, pool_key, amount),
        amount > 0,
    ensures
        post.pool_of(pool_key).record.outstanding_ptokens == pre.pool_of(
            pool_key,
        ).record.outstanding_ptokens + amount,
        post.pool_of(pool_key).record.ptoken_supply * post.pool_of(pool_key).record.lamport_supply
            <= pre.pool_of(pool_key).record.ptoken_supply * pre.pool_of(
            pool_key,
        ).record.lamport_supply,
        pre.pool_of(pool_key).record.ptoken_supply * pre.pool_of(pool_key).record.lamport_supply - (
        pre.pool_of(pool_key).record.ptoken_supply - amount) < post.pool_of(
            pool_key,
        ).record.ptoken_supply * post.pool_of(pool_key).record.lamport_supply,
        post.pool_of(pool_key).record.lamport_supply >= pre.pool_of(
            pool_key,
        ).record.lamport_supply,
        (pre.pool_of(pool_key).record.ptoken_supply * pre.pool_of(pool_key).record.lamport_supply)
            % (pre.pool_of(pool_key).record.ptoken_supply - amount) == 0 ==> post.pool_of(
            pool_key,
        ).record.ptoken_supply * post.pool_of(pool_key).record.lamport_supply == pre.pool_of(
            pool_key,
        ).record.ptoken_supply * pre.pool_of(pool_key).record.lamport_supply,
{
    let s = pre.pool_of(pool_key).record.ptoken_supply;
    let l = pre.pool_of(pool_key).record.lamport_supply;
    crate::amm::lemma_buy_product_bounds(s, l, amount);
    if (s * l) % (s as int - amount as int) == 0 {
        crate::amm::lemma_buy_product_exact(s, l, amount);
    }
}

/// A claim is single-use: after one succeeds, a second attempt by the same
/// claimant fails with `NoClaim`, because the pending-claim gate was
/// closed.
pub proof fn lemma_claim_is_single_use(pre: Fortune, post: Fortune, signer: u64, pool_key: u64)
    requires
        claim_asset_check(pre, signer, pool_key) is None,
        claim_asset_applies(pre, post, signer, pool_key),
    ensures
        claim_asset_check(post, signer, pool_key) == Some(OpError::Fortune(FortuneError::NoClaim)),
{
}

/// Close is gated by full settlement: whenever `close_pool` would be
/// accepted, no user holds any ptokens of that pool — held, staged, or
/// withdrawn — because the outstanding count equals the sum of all user
/// balances and must be zero.
pub proof fn lemma_close_only_when_nothing_held(pre: Fortune, signer: u64, pool_key: u64)
    requires
        pre.wf(),
        close_pool_check(pre, signer, pool_key) is None,
    ensures
        forall|u: u64|
            #[trigger] pre.pool_of(pool_key).has_holding(u) ==> pre.pool_of(pool_key).holding_of(
                u,
            ).vault == 0 && pre.pool_of(pool_key).holding_of(u).staged == 0 && pre.pool_of(
                pool_key,
            ).holding_of(u).personal == 0,
{
    let p = pre.pool_of(pool_key);
    let i = choose|i: int| 0 <= i < pre.pools@.len() && pre.pools@[i].key == pool_key;
    assert(pre.pools@[i].wf());
    assert(p == pre.pools@[i]);
    assert forall|u: u64| #[trigger] p.has_holding(u) implies p.holding_of(u).vault == 0
        && p.holding_of(u).staged == 0 && p.holding_of(u).personal == 0 by {
        let x = choose|x: int| 0 <= x < p.holdings@.len() && p.holdings@[x].user == u;
        p.lemma_holding_at(x, u);
        crate::holdings::lemma_amount_le_total(p.holdings@, x);
    }
}

} // verus!
