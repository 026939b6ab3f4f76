//! A probabilistic-prize exchange, modelled as a verified ledger-state
//! machine.
//!
//! A seller deposits a unique prize asset into a pool and mints a fixed
//! supply of fungible probability tokens (ptokens) against it.  Buyers
//! purchase ptokens through a constant-product market; holders may
//! irrevocably burn ptokens for a chance, proportional to the burned
//! fraction of the outstanding supply, to win the prize.
//!
//! The host substrate (token ledger, account storage, entropy oracle) is an
//! external collaborator: its balances and records are modelled here as
//! plain values, and every operation validates its inputs and rewrites those
//! balances atomically, or fails closed with an explicit error.

pub mod amm;
pub mod directory;
pub mod error;
pub mod fortune;
pub mod holdings;
pub mod pool;
pub mod random;
pub mod state;
