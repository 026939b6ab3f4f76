//! The constant-product pricing engine.
//!
//! A pool is a market between its ptoken supply `P` and its reserve `L`
//! with product `k = P * L`.  Buying `amount` ptokens moves the supply to
//! `P - amount` and the reserve to `k / (P - amount)` (integer division),
//! so the buyer pays the difference in reserves plus a separate protocol
//! fee of `cost * swap_fee / fee_scalar`.

use vstd::arithmetic::div_mod::{
    lemma_div_is_ordered, lemma_div_multiples_vanish, lemma_fundamental_div_mod,
    lemma_mod_division_less_than_divisor,
};
use vstd::arithmetic::mul::lemma_mul_inequality;
use vstd::prelude::*;

use crate::error::OpError;

verus! {

/// The outcome of pricing one buy against a pool's reserves.
#[derive(Clone, Copy, PartialEq, Eq, Structural, Debug)]
pub struct BuyQuote {
    /// Ptoken supply after the buy: `P - amount`.
    pub new_ptoken_supply: u64,
    /// Reserve after the buy: `(P * L) / (P - amount)`.
    pub new_lamport_supply: u64,
    /// What the buyer pays into the reserve: the growth of the reserve.
    pub cost: u64,
    /// The separate protocol fee: `cost * swap_fee / fee_scalar`.
    pub fee: u64,
}

/// Reserve after buying `amount` out of a `(supply, lamports)` market.
pub open spec fn quote_new_lamports(supply: u64, lamports: u64, amount: u64) -> int {
    (supply * lamports) / (supply - amount)
}

/// What the buyer pays into the reserve.
pub open spec fn quote_cost(supply: u64, lamports: u64, amount: u64) -> int {
    quote_new_lamports(supply, lamports, amount) - lamports
}

/// The protocol fee on top of the cost.
pub open spec fn quote_fee(supply: u64, lamports: u64, amount: u64, swap_fee: u64, fee_scalar: u64) -> int {
    (quote_cost(supply, lamports, amount) * swap_fee) / (fee_scalar as int)
}

/// Exactly when pricing succeeds: every arithmetic step stays inside the
/// machine range and the divisors are nonzero.
pub open spec fn quote_ok(supply: u64, lamports: u64, amount: u64, swap_fee: u64, fee_scalar: u64) -> bool {
    &&& supply * lamports <= u64::MAX
    &&& amount < supply
    &&& quote_cost(supply, lamports, amount) * swap_fee <= u64::MAX
    &&& fee_scalar > 0
}

/// The reserve never shrinks across a buy: `k / (supply - amount)` is at
/// least `lamports` whenever `amount < supply`.
proof fn lemma_new_lamports_ge(supply: u64, lamports: u64, amount: u64)
    requires
        amount < supply,
    ensures
        quote_new_lamports(supply, lamports, amount) >= lamports,
{
    let k = supply as int * lamports as int;
    let p2 = supply as int - amount as int;
    lemma_mul_inequality(p2, supply as int, lamports as int);
    lemma_div_is_ordered(p2 * lamports, k, p2);
    lemma_div_multiples_vanish(lamports as int, p2);
}

/// Integer truncation keeps the post-buy product within one divisor of the
/// constant-product curve: with `P' = supply - amount` and
/// `L' = (supply * lamports) / P'`, the product `P' * L'` never exceeds the
/// pre-buy product and falls short of it by less than `P'`.  The reserve
/// itself never shrinks.
pub proof fn lemma_buy_product_bounds(supply: u64, lamports: u64, amount: u64)
    requires
        0 < amount < supply,
    ensures
        (supply - amount) * quote_new_lamports(supply, lamports, amount) <= supply * lamports,
        supply * lamports - (supply - amount) < (supply - amount) * quote_new_lamports(supply, lamports, amount),
        quote_new_lamports(supply, lamports, amount) >= lamports,
{
    let k = supply as int * lamports as int;
    let p2 = supply as int - amount as int;
    lemma_fundamental_div_mod(k, p2);
    lemma_mod_division_less_than_divisor(k, p2);
    lemma_new_lamports_ge(supply, lamports, amount);
}

/// When the divisor divides the pre-buy product exactly, truncation loses
/// nothing and a buy preserves the constant product: the post-buy product
/// equals (so in particular is at least) the pre-buy product.
pub proof fn lemma_buy_product_exact(supply: u64, lamports: u64, amount: u64)
    requires
        0 < amount < supply,
        (supply * lamports) % (supply - amount) == 0,
    ensures
        (supply - amount) * quote_new_lamports(supply, lamports, amount) == supply * lamports,
{
    let k = supply as int * lamports as int;
    let p2 = supply as int - amount as int;
    lemma_fundamental_div_mod(k, p2);
}

/// Price one buy.  Mirrors the abort-on-overflow discipline of the host:
/// any step that would leave the machine range fails the whole quote.
pub fn buy_quote(supply: u64, lamports: u64, amount: u64, swap_fee: u64, fee_scalar: u64) -> (r: Result<
    BuyQuote,
    OpError,
>)
    ensures
        match r {
            Ok(q) => {
                &&& quote_ok(supply, lamports, amount, swap_fee, fee_scalar)
                &&& q.new_ptoken_supply == supply - amount
                &&& q.new_lamport_supply == quote_new_lamports(supply, lamports, amount)
                &&& q.cost == quote_cost(supply, lamports, amount)
                &&& q.fee == quote_fee(supply, lamports, amount, swap_fee, fee_scalar)
            },
            Err(e) => {
                &&& e == OpError::Arithmetic
                &&& !quote_ok(supply, lamports, amount, swap_fee, fee_scalar)
            },
        },
{
    let k = match supply.checked_mul(lamports) {
        Some(k) => k,
        None => {
            return Err(OpError::Arithmetic);
        },
    };
    if amount >= supply {
        return Err(OpError::Arithmetic);
    }
    let new_ptoken_supply = supply - amount;
    let new_lamport_supply = k / new_ptoken_supply;
    proof {
        lemma_new_lamports_ge(supply, lamports, amount);
    }
    let cost = new_lamport_supply - lamports;
    let scaled = match cost.checked_mul(swap_fee) {
        Some(s) => s,
        None => {
            return Err(OpError::Arithmetic);
        },
    };
    if fee_scalar == 0 {
        return Err(OpError::Arithmetic);
    }
    let fee = scaled / fee_scalar;
    Ok(BuyQuote { new_ptoken_supply, new_lamport_supply, cost, fee })
}

} // verus!
