//! One pool together with every balance it is accountable for.
//!
//! The pool record, the balances of the three pool-owned vaults, and the
//! per-user holdings form a closed system for the pool's ptoken mint: all
//! ptokens in existence were minted at pool creation, so the pool vault
//! plus every user-side balance always accounts for the whole issue.  The
//! well-formedness predicate states that conservation together with the
//! prize-custody and addressing invariants; every operation preserves it.

use vstd::prelude::*;

use crate::directory::{lamport_vault_key, ptoken_mint_key, ptoken_vault_key};
use crate::holdings::{holdings_total, UserHolding};
use crate::state::ProbPool;

verus! {

/// One pool: its key (the account the record lives in), the record, the
/// balances of its three vaults, and the per-user holdings of its ptokens.
pub struct PoolAccounts {
    /// The pool's own identity.
    pub key: u64,
    /// The pool record.
    pub record: ProbPool,
    /// Balance of the pool's ptoken vault: unsold ptokens.
    pub ptoken_vault: u64,
    /// Balance of the pool's reserve vault: what buyers have paid in.
    pub lamport_vault: u64,
    /// Balance of the pool's prize vault: 1 until the prize leaves.
    pub nft_vault: u64,
    /// Per-user ptoken balances, one entry per user.
    pub holdings: Vec<UserHolding>,
}

impl PoolAccounts {
    /// Each user appears at most once among the holdings.
    pub open spec fn users_unique(self) -> bool {
        forall|i: int, j: int|
            0 <= i < j < self.holdings@.len() ==> self.holdings@[i].user != self.holdings@[j].user
    }

    /// Some holding belongs to `user`.
    pub open spec fn has_holding(self, user: u64) -> bool {
        exists|i: int| 0 <= i < self.holdings@.len() && self.holdings@[i].user == user
    }

    /// The holding of `user` (meaningful when it exists and users are
    /// unique).
    pub open spec fn holding_of(self, user: u64) -> UserHolding {
        self.holdings@[choose|i: int|
            0 <= i < self.holdings@.len() && self.holdings@[i].user == user]
    }

    /// The pool's invariant.
    ///
    /// - holdings are keyed by user;
    /// - the ptoken vault holds exactly the unsold supply;
    /// - user-side balances together equal the outstanding ptokens
    ///   (conservation of the issue);
    /// - the prize sits in the prize vault exactly until it is claimed;
    /// - the record's resource identities are the derived addresses.
    pub open spec fn wf(self) -> bool {
        &&& self.users_unique()
        &&& self.ptoken_vault == self.record.ptoken_supply
        &&& holdings_total(self.holdings@) == self.record.outstanding_ptokens
        &&& (self.record.claimed <==> self.nft_vault == 0)
        &&& self.nft_vault <= 1
        &&& self.record.ptoken_mint == ptoken_mint_key(self.key)
        &&& self.record.ptoken_vault == ptoken_vault_key(self.key)
        &&& self.record.lamport_vault == lamport_vault_key(self.key)
    }

    /// Find the index of `user`'s holding.
    pub fn find_holding(&self, user: u64) -> (r: Option<usize>)
        ensures
            match r {
                Some(i) => i < self.holdings@.len() && self.holdings@[i as int].user == user,
                None => !self.has_holding(user),
            },
    {
        let mut i: usize = 0;
        while i < self.holdings.len()
            invariant
                i <= self.holdings@.len(),
                forall|j: int| 0 <= j < i ==> self.holdings@[j].user != user,
            decreases self.holdings@.len() - i,
        {
            if self.holdings[i].user == user {
                return Some(i);
            }
            i = i + 1;
        }
        None
    }

    /// With unique users, the found index is the holding `holding_of`
    /// speaks of.
    pub proof fn lemma_holding_at(self, i: int, user: u64)
        requires
            self.users_unique(),
            0 <= i < self.holdings@.len(),
            self.holdings@[i].user == user,
        ensures
            self.has_holding(user),
            self.holding_of(user) == self.holdings@[i],
    {
        assert(self.has_holding(user));
        let j = choose|j: int| 0 <= j < self.holdings@.len() && self.holdings@[j].user == user;
        if i < j {
            assert(self.holdings@[i].user != self.holdings@[j].user);
        } else if j < i {
            assert(self.holdings@[j].user != self.holdings@[i].user);
        }
    }

    /// Replacing the holding at `i` by one of the same user: the new
    /// holding is reachable under that user and every other user resolves
    /// as before.
    pub proof fn lemma_holdings_update_frame(self, post: PoolAccounts, i: int, h: UserHolding)
        requires
            self.users_unique(),
            0 <= i < self.holdings@.len(),
            h.user == self.holdings@[i].user,
            post.holdings@ == self.holdings@.update(i, h),
        ensures
            post.users_unique(),
            post.has_holding(h.user),
            post.holding_of(h.user) == h,
            forall|u: u64| u != h.user ==> #[trigger] post.has_holding(u) == self.has_holding(u),
            forall|u: u64|
                u != h.user && self.has_holding(u) ==> #[trigger] post.holding_of(u)
                    == self.holding_of(u),
    {
        let s = self.holdings@;
        let s2 = post.holdings@;
        assert(forall|x: int| 0 <= x < s.len() ==> s2[x].user == s[x].user);
        assert forall|i2: int, j2: int| 0 <= i2 < j2 < s2.len() implies s2[i2].user != s2[j2].user by {
            assert(s[i2].user != s[j2].user);
        }
        post.lemma_holding_at(i, h.user);
        assert forall|u: u64| u != h.user implies #[trigger] post.has_holding(u)
            == self.has_holding(u) by {
            if self.has_holding(u) {
                let x = choose|x: int| 0 <= x < s.len() && s[x].user == u;
                assert(s2[x].user == u);
            }
            if post.has_holding(u) {
                let x = choose|x: int| 0 <= x < s2.len() && s2[x].user == u;
                assert(s[x].user == u);
            }
        }
        assert forall|u: u64| u != h.user && self.has_holding(u) implies #[trigger] post.holding_of(
            u,
        ) == self.holding_of(u) by {
            let x = choose|x: int| 0 <= x < s.len() && s[x].user == u;
            self.lemma_holding_at(x, u);
            assert(x != i);
            assert(s2[x] == s[x]);
            post.lemma_holding_at(x, u);
        }
    }

    /// Appending a holding for a fresh user: it becomes reachable under
    /// that user and every other user resolves as before.
    pub proof fn lemma_holdings_push_frame(self, post: PoolAccounts, h: UserHolding)
        requires
            self.users_unique(),
            !self.has_holding(h.user),
            post.holdings@ == self.holdings@.push(h),
        ensures
            post.users_unique(),
            post.has_holding(h.user),
            post.holding_of(h.user) == h,
            forall|u: u64| u != h.user ==> #[trigger] post.has_holding(u) == self.has_holding(u),
            forall|u: u64|
                u != h.user && self.has_holding(u) ==> #[trigger] post.holding_of(u)
                    == self.holding_of(u),
    {
        let s = self.holdings@;
        let s2 = post.holdings@;
        assert forall|i2: int, j2: int| 0 <= i2 < j2 < s2.len() implies s2[i2].user != s2[j2].user by {
            if j2 < s.len() {
            } else {
                assert(s2[j2] == h);
                assert(s2[i2] == s[i2]);
                assert(!(s[i2].user == h.user));
            }
        }
        post.lemma_holding_at(s.len() as int, h.user);
        assert forall|u: u64| u != h.user implies #[trigger] post.has_holding(u)
            == self.has_holding(u) by {
            if self.has_holding(u) {
                let x = choose|x: int| 0 <= x < s.len() && s[x].user == u;
                assert(s2[x].user == u);
            }
            if post.has_holding(u) {
                let x = choose|x: int| 0 <= x < s2.len() && s2[x].user == u;
                assert(x < s.len());
                assert(s[x].user == u);
            }
        }
        assert forall|u: u64| u != h.user && self.has_holding(u) implies #[trigger] post.holding_of(
            u,
        ) == self.holding_of(u) by {
            let x = choose|x: int| 0 <= x < s.len() && s[x].user == u;
            self.lemma_holding_at(x, u);
            assert(s2[x] == s[x]);
            post.lemma_holding_at(x, u);
        }
    }

}

} // verus!
