use fortune::error::OpError;
use fortune::random::{draw_entropy, expand_with_num, expand_with_pubkey, read_u64_le, u64_le_bytes};

#[test]
fn draw_entropy_reads_the_fixed_offset_little_endian() {
    // 8-byte length, 8-byte slot, then the newest entry's hash: the draw
    // is the first 8 hash bytes as a little-endian integer
    let mut record = vec![0xAAu8; 16];
    record.extend_from_slice(&[0x01, 0x02, 0x03, 0x04, 0x05, 0x06, 0x07, 0x08]);
    record.extend_from_slice(&[0xBB; 8]);
    assert_eq!(draw_entropy(&record), Ok(0x0807_0605_0403_0201));
}

#[test]
fn draw_entropy_rejects_a_short_record() {
    assert_eq!(draw_entropy(&vec![0u8; 23]), Err(OpError::Constraint));
    assert_eq!(draw_entropy(&Vec::new()), Err(OpError::Constraint));
}

#[test]
fn draw_entropy_accepts_a_minimal_record() {
    let mut record = vec![0u8; 16];
    record.extend_from_slice(&42u64.to_le_bytes());
    assert_eq!(draw_entropy(&record), Ok(42));
}

#[test]
fn le_bytes_round_trip() {
    for x in [0u64, 1, 255, 256, 0x0123_4567_89AB_CDEF, u64::MAX] {
        let bytes = u64_le_bytes(x);
        assert_eq!(bytes, x.to_le_bytes().to_vec());
        assert_eq!(read_u64_le(&bytes, 0), x);
    }
}

#[test]
fn read_u64_le_honors_the_offset() {
    let mut bytes = vec![0xFFu8; 3];
    bytes.extend_from_slice(&7u64.to_le_bytes());
    assert_eq!(read_u64_le(&bytes, 3), 7);
}

#[test]
fn expand_with_num_matches_the_keccak_digest() {
    // the expansion must equal hashing the seed and the counter's bytes
    // through the keccak hasher directly
    let seed = [7u8; 32];
    for n in [0u64, 1, 42, u64::MAX] {
        let mut hasher = solana_program::keccak::Hasher::default();
        hasher.hash(&seed);
        hasher.hash(&n.to_le_bytes());
        let digest = hasher.result().to_bytes();
        let expected = u64::from_le_bytes(digest[0..8].try_into().unwrap());
        assert_eq!(expand_with_num(seed, n), expected);
    }
}

#[test]
fn expand_with_num_depends_on_the_counter() {
    let seed = [9u8; 32];
    assert_ne!(expand_with_num(seed, 1), expand_with_num(seed, 2));
}

#[test]
fn expand_with_pubkey_matches_the_keccak_digest() {
    let seed = [3u8; 32];
    let key = [0x11u8; 32];
    let mut hasher = solana_program::keccak::Hasher::default();
    hasher.hash(&seed);
    hasher.hash(&key);
    let digest = hasher.result().to_bytes();
    let expected = u64::from_le_bytes(digest[0..8].try_into().unwrap());
    assert_eq!(expand_with_pubkey(seed, key), expected);
}

#[test]
fn expand_with_pubkey_depends_on_the_key() {
    let seed = [3u8; 32];
    assert_ne!(
        expand_with_pubkey(seed, [0u8; 32]),
        expand_with_pubkey(seed, [1u8; 32])
    );
}
