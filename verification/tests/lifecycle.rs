use fortune::error::{FortuneError, OpError};
use fortune::fortune::Fortune;

const AUTH: u64 = 1;
const CREATOR: u64 = 2;
const BUYER: u64 = 3;
const POOL: u64 = 100;
const NFT_MINT: u64 = 500;

/// A protocol with wide creation bounds, a 1% swap fee, and a flat burn
/// cost of 5.
fn setup() -> Fortune {
    let mut f = Fortune::new();
    f.initialize(AUTH, 1, 5, 100, 1, 1_000_000_000, 1_000_000, 1)
        .unwrap();
    f
}

#[test]
fn initialize_sets_configuration() {
    let f = setup();
    let st = f.state.unwrap();
    assert_eq!(st.authority, AUTH);
    assert_eq!(st.swap_fee, 1);
    assert_eq!(st.burn_cost, 5);
    assert_eq!(st.fee_scalar, 100);
    assert_eq!(st.lamport_init_min, 1);
    assert_eq!(st.lamport_init_max, 1_000_000_000);
    assert_eq!(st.ptoken_init_max, 1_000_000);
    assert_eq!(st.ptoken_init_min, 1);
}

#[test]
fn initialize_is_an_idempotent_upsert_under_same_authority() {
    let mut f = setup();
    assert_eq!(f.initialize(AUTH, 2, 7, 200, 10, 2_000, 5_000, 2), Ok(()));
    let st = f.state.unwrap();
    assert_eq!(st.swap_fee, 2);
    assert_eq!(st.burn_cost, 7);
}

#[test]
fn initialize_rejects_another_authority() {
    let mut f = setup();
    assert_eq!(
        f.initialize(CREATOR, 1, 5, 100, 1, 1_000_000_000, 1_000_000, 1),
        Err(OpError::Constraint)
    );
    assert_eq!(f.state.unwrap().authority, AUTH);
}

#[test]
fn create_pool_opens_on_the_curve() {
    let mut f = setup();
    assert_eq!(f.create_pool(CREATOR, POOL, NFT_MINT, 1000, 100), Ok(()));
    let p = &f.pools[0];
    assert_eq!(p.key, POOL);
    assert_eq!(p.record.authority, CREATOR);
    assert_eq!(p.record.nft_authority, CREATOR);
    assert_eq!(p.record.nft_mint, NFT_MINT);
    assert_eq!(p.record.lamport_supply, 1000);
    assert_eq!(p.record.ptoken_supply, 100);
    // the opening product equals the product of the creation amounts
    assert_eq!(
        p.record.ptoken_supply as u128 * p.record.lamport_supply as u128,
        100u128 * 1000u128
    );
    assert_eq!(p.record.outstanding_ptokens, 0);
    assert!(!p.record.claimed);
    assert!(!p.record.to_claim);
    assert_eq!(p.ptoken_vault, 100);
    assert_eq!(p.lamport_vault, 0);
    assert_eq!(p.nft_vault, 1);
    assert!(p.holdings.is_empty());
}

#[test]
fn create_pool_requires_configuration() {
    let mut f = Fortune::new();
    assert_eq!(
        f.create_pool(CREATOR, POOL, NFT_MINT, 1000, 100),
        Err(OpError::Constraint)
    );
}

#[test]
fn create_pool_rejects_duplicate_key() {
    let mut f = setup();
    f.create_pool(CREATOR, POOL, NFT_MINT, 1000, 100).unwrap();
    assert_eq!(
        f.create_pool(CREATOR, POOL, NFT_MINT, 1000, 100),
        Err(OpError::Constraint)
    );
}

#[test]
fn create_pool_enforces_bounds_in_order() {
    let mut f = setup();
    assert_eq!(
        f.create_pool(CREATOR, POOL, NFT_MINT, 0, 100),
        Err(OpError::Fortune(FortuneError::LamportInitMin))
    );
    assert_eq!(
        f.create_pool(CREATOR, POOL, NFT_MINT, 1_000_000_000, 100),
        Err(OpError::Fortune(FortuneError::LamportInitMax))
    );
    assert_eq!(
        f.create_pool(CREATOR, POOL, NFT_MINT, 1000, 1_000_000),
        Err(OpError::Fortune(FortuneError::PtokenInitMax))
    );
    assert_eq!(
        f.create_pool(CREATOR, POOL, NFT_MINT, 1000, 0),
        Err(OpError::Fortune(FortuneError::PtokenInitMin))
    );
    // a failed creation leaves nothing behind
    assert!(f.pools.is_empty());
}

#[test]
fn close_pool_returns_storage_and_retires_the_key() {
    let mut f = setup();
    f.create_pool(CREATOR, POOL, NFT_MINT, 1000, 100).unwrap();
    assert_eq!(f.close_pool(CREATOR, POOL), Ok(()));
    assert!(f.pools.is_empty());
    // a closed pool's identity may not be reused
    assert_eq!(
        f.create_pool(CREATOR, POOL, NFT_MINT, 1000, 100),
        Err(OpError::Constraint)
    );
}

#[test]
fn close_pool_requires_the_creator() {
    let mut f = setup();
    f.create_pool(CREATOR, POOL, NFT_MINT, 1000, 100).unwrap();
    assert_eq!(f.close_pool(BUYER, POOL), Err(OpError::Constraint));
    assert_eq!(f.pools.len(), 1);
}

#[test]
fn close_pool_blocked_by_outstanding_ptokens() {
    let mut f = setup();
    f.create_pool(CREATOR, POOL, NFT_MINT, 1000, 100).unwrap();
    f.buy(BUYER, POOL, 10).unwrap();
    assert_eq!(
        f.close_pool(CREATOR, POOL),
        Err(OpError::Fortune(FortuneError::OutstandingProb))
    );
    // withdrawing does not settle the debt either: outstanding only falls
    // through burns
    f.user_withdraw(BUYER, POOL, 10).unwrap();
    assert_eq!(
        f.close_pool(CREATOR, POOL),
        Err(OpError::Fortune(FortuneError::OutstandingProb))
    );
}

#[test]
fn close_pool_blocked_by_pending_claim() {
    let mut f = setup();
    f.create_pool(CREATOR, POOL, NFT_MINT, 1000, 125).unwrap();
    f.buy(BUYER, POOL, 25).unwrap();
    f.request_burn(BUYER, POOL, 25).unwrap();
    // a draw of 99 against supply 100 wins for any amount >= 1
    let record = entropy_record(99);
    f.execute_burn(AUTH, BUYER, POOL, &record, 25).unwrap();
    assert!(f.pools[0].record.to_claim);
    assert_eq!(
        f.close_pool(CREATOR, POOL),
        Err(OpError::Fortune(FortuneError::ActiveClaim))
    );
}

#[test]
fn close_pool_succeeds_once_everything_is_burned() {
    let mut f = setup();
    f.create_pool(CREATOR, POOL, NFT_MINT, 1000, 125).unwrap();
    f.buy(BUYER, POOL, 25).unwrap();
    f.request_burn(BUYER, POOL, 25).unwrap();
    // a draw of 0 against supply 100 loses for any amount < 100
    let record = entropy_record(0);
    f.execute_burn(AUTH, BUYER, POOL, &record, 25).unwrap();
    assert_eq!(f.pools[0].record.outstanding_ptokens, 0);
    assert_eq!(f.close_pool(CREATOR, POOL), Ok(()));
    assert!(f.pools.is_empty());
}

#[test]
fn claim_asset_requires_a_pending_claim() {
    let mut f = setup();
    f.create_pool(CREATOR, POOL, NFT_MINT, 1000, 100).unwrap();
    assert_eq!(
        f.claim_asset(CREATOR, POOL),
        Err(OpError::Fortune(FortuneError::NoClaim))
    );
}

#[test]
fn claim_asset_requires_the_entitled_claimant() {
    let mut f = setup();
    f.create_pool(CREATOR, POOL, NFT_MINT, 1000, 100).unwrap();
    assert_eq!(f.claim_asset(BUYER, POOL), Err(OpError::Constraint));
}

#[test]
fn claim_asset_is_single_use() {
    let mut f = setup();
    f.create_pool(CREATOR, POOL, NFT_MINT, 1000, 125).unwrap();
    f.buy(BUYER, POOL, 25).unwrap();
    f.request_burn(BUYER, POOL, 25).unwrap();
    let record = entropy_record(99);
    f.execute_burn(AUTH, BUYER, POOL, &record, 25).unwrap();
    assert_eq!(f.pools[0].record.nft_authority, BUYER);
    assert_eq!(f.claim_asset(BUYER, POOL), Ok(()));
    assert!(f.pools[0].record.claimed);
    assert!(!f.pools[0].record.to_claim);
    assert_eq!(f.pools[0].nft_vault, 0);
    // a second claim after a successful one fails with NoClaim
    assert_eq!(
        f.claim_asset(BUYER, POOL),
        Err(OpError::Fortune(FortuneError::NoClaim))
    );
}

/// A recent-history record whose most recent entry's hash starts with the
/// little-endian bytes of `draw`.
fn entropy_record(draw: u64) -> Vec<u8> {
    let mut record = vec![0u8; 16];
    record.extend_from_slice(&draw.to_le_bytes());
    record
}
