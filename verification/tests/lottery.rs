use fortune::error::{FortuneError, OpError};
use fortune::fortune::Fortune;

const AUTH: u64 = 1;
const CREATOR: u64 = 2;
const BUYER: u64 = 3;
const POOL: u64 = 100;
const NFT_MINT: u64 = 500;

fn setup() -> Fortune {
    let mut f = Fortune::new();
    f.initialize(AUTH, 1, 5, 100, 1, 1_000_000_000, 1_000_000, 1)
        .unwrap();
    f
}

/// A pool whose supply is exactly 100 after the buyer acquires `amount`.
fn pool_with_supply_100(amount: u64) -> Fortune {
    let mut f = setup();
    f.create_pool(CREATOR, POOL, NFT_MINT, 1000, 100 + amount)
        .unwrap();
    f.buy(BUYER, POOL, amount).unwrap();
    assert_eq!(f.pools[0].record.ptoken_supply, 100);
    f
}

fn entropy_record(draw: u64) -> Vec<u8> {
    let mut record = vec![0u8; 16];
    record.extend_from_slice(&draw.to_le_bytes());
    record
}

#[test]
fn request_burn_stages_exactly_the_requested_amount() {
    let mut f = pool_with_supply_100(25);
    assert_eq!(f.request_burn(BUYER, POOL, 25), Ok(()));
    let h = &f.pools[0].holdings[0];
    assert_eq!(h.staged, 25);
    assert_eq!(h.vault, 0);
    // the flat burn cost went to the protocol vault, on top of the buy fee
    assert_eq!(f.protocol_vault, 5 + 2);
}

#[test]
fn request_burn_rejects_more_than_held() {
    let mut f = pool_with_supply_100(25);
    assert_eq!(
        f.request_burn(BUYER, POOL, 26),
        Err(OpError::InsufficientFunds)
    );
}

#[test]
fn request_burn_requires_a_holding() {
    let mut f = setup();
    f.create_pool(CREATOR, POOL, NFT_MINT, 1000, 100).unwrap();
    assert_eq!(f.request_burn(BUYER, POOL, 1), Err(OpError::Constraint));
}

#[test]
fn draw_of_80_against_75_wins() {
    // supply 100, burn 25: the draw reduced mod 100 must reach
    // 100 - 25 = 75; a draw of 80 wins.
    let mut f = pool_with_supply_100(25);
    f.request_burn(BUYER, POOL, 25).unwrap();
    let record = entropy_record(80);
    assert_eq!(f.execute_burn(AUTH, BUYER, POOL, &record, 25), Ok(()));
    let p = &f.pools[0];
    assert!(p.record.to_claim);
    assert_eq!(p.record.nft_authority, BUYER);
    assert_eq!(p.record.outstanding_ptokens, 0);
    assert_eq!(p.holdings[0].staged, 0);
}

#[test]
fn draw_of_50_against_75_loses() {
    let mut f = pool_with_supply_100(25);
    f.request_burn(BUYER, POOL, 25).unwrap();
    let record = entropy_record(50);
    assert_eq!(f.execute_burn(AUTH, BUYER, POOL, &record, 25), Ok(()));
    let p = &f.pools[0];
    assert!(!p.record.to_claim);
    assert_eq!(p.record.nft_authority, CREATOR);
    // the burn is a sunk cost: outstanding fell by exactly 25 anyway
    assert_eq!(p.record.outstanding_ptokens, 0);
    assert_eq!(p.holdings[0].staged, 0);
}

#[test]
fn the_draw_is_reduced_modulo_the_supply() {
    // 380 mod 100 = 80, which wins against the threshold 75
    let mut f = pool_with_supply_100(25);
    f.request_burn(BUYER, POOL, 25).unwrap();
    let record = entropy_record(380);
    f.execute_burn(AUTH, BUYER, POOL, &record, 25).unwrap();
    assert!(f.pools[0].record.to_claim);
}

#[test]
fn execute_burn_reduces_outstanding_independent_of_outcome() {
    for draw in [0u64, 50, 74, 75, 80, 99, 150] {
        let mut f = pool_with_supply_100(25);
        f.request_burn(BUYER, POOL, 25).unwrap();
        let record = entropy_record(draw);
        f.execute_burn(AUTH, BUYER, POOL, &record, 25).unwrap();
        assert_eq!(f.pools[0].record.outstanding_ptokens, 0);
        assert_eq!(f.pools[0].holdings[0].staged, 0);
        // win exactly when the reduced draw reaches the threshold
        assert_eq!(f.pools[0].record.to_claim, draw % 100 >= 75);
    }
}

#[test]
fn execute_burn_is_permissioned() {
    let mut f = pool_with_supply_100(25);
    f.request_burn(BUYER, POOL, 25).unwrap();
    let record = entropy_record(80);
    assert_eq!(
        f.execute_burn(BUYER, BUYER, POOL, &record, 25),
        Err(OpError::Constraint)
    );
}

#[test]
fn execute_burn_requires_an_existing_pool() {
    let mut f = setup();
    let record = entropy_record(80);
    assert_eq!(
        f.execute_burn(AUTH, BUYER, POOL, &record, 1),
        Err(OpError::Constraint)
    );
}

#[test]
fn execute_burn_rejects_more_than_staged() {
    let mut f = pool_with_supply_100(25);
    f.request_burn(BUYER, POOL, 20).unwrap();
    let record = entropy_record(80);
    assert_eq!(
        f.execute_burn(AUTH, BUYER, POOL, &record, 25),
        Err(OpError::InsufficientFunds)
    );
}

#[test]
fn execute_burn_rejects_a_short_entropy_record() {
    let mut f = pool_with_supply_100(25);
    f.request_burn(BUYER, POOL, 25).unwrap();
    let record = vec![0u8; 23];
    assert_eq!(
        f.execute_burn(AUTH, BUYER, POOL, &record, 25),
        Err(OpError::Constraint)
    );
}

#[test]
fn burning_the_whole_supply_always_wins() {
    // with supply == burn amount the threshold is 0, so any draw wins
    let mut f = setup();
    f.create_pool(CREATOR, POOL, NFT_MINT, 1000, 10).unwrap();
    f.buy(BUYER, POOL, 5).unwrap();
    f.request_burn(BUYER, POOL, 5).unwrap();
    let record = entropy_record(1);
    f.execute_burn(AUTH, BUYER, POOL, &record, 5).unwrap();
    assert!(f.pools[0].record.to_claim);
}

#[test]
fn burning_more_than_the_supply_aborts() {
    // staging can exceed the market's remaining supply; resolving such a
    // burn would underflow the win threshold and aborts instead
    let mut f = setup();
    f.create_pool(CREATOR, POOL, NFT_MINT, 1000, 10).unwrap();
    f.buy(BUYER, POOL, 8).unwrap();
    f.request_burn(BUYER, POOL, 8).unwrap();
    assert_eq!(f.pools[0].record.ptoken_supply, 2);
    let record = entropy_record(1);
    assert_eq!(
        f.execute_burn(AUTH, BUYER, POOL, &record, 8),
        Err(OpError::Arithmetic)
    );
    // nothing changed
    assert_eq!(f.pools[0].holdings[0].staged, 8);
    assert_eq!(f.pools[0].record.outstanding_ptokens, 8);
}

#[test]
fn second_win_overwrites_a_pending_claim() {
    // the known one-shot gate hazard: a second winning burn while a claim
    // is pending reassigns the claimant and the first winner loses
    // eligibility
    let mut f = setup();
    f.create_pool(CREATOR, POOL, NFT_MINT, 1000, 150).unwrap();
    f.buy(BUYER, POOL, 25).unwrap();
    f.buy(4, POOL, 25).unwrap();
    f.request_burn(BUYER, POOL, 25).unwrap();
    f.request_burn(4, POOL, 25).unwrap();
    let record = entropy_record(99);
    f.execute_burn(AUTH, BUYER, POOL, &record, 25).unwrap();
    assert_eq!(f.pools[0].record.nft_authority, BUYER);
    f.execute_burn(AUTH, 4, POOL, &record, 25).unwrap();
    assert_eq!(f.pools[0].record.nft_authority, 4);
    assert!(f.pools[0].record.to_claim);
}
