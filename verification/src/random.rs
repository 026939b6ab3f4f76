//! The entropy adapter and randomness expansion.
//!
//! One lottery draw consumes one fresh value from the host's entropy
//! oracle: the 8-byte little-endian integer at a fixed byte offset of the
//! host-maintained recent-history record.  The expansion helpers derive
//! further 64-bit values from a 32-byte seed by hashing it together with a
//! counter or an identity, reading the first eight bytes of the digest as a
//! little-endian integer.
//!
//! The draw is deterministic given the record, so it is only as
//! unpredictable as the host's exposed history: parties that observe the
//! record before the draw is accepted can predict it.  That weakness is a
//! known, deliberate property of the design; a stronger entropy source
//! would change observable win rates.

use vstd::arithmetic::power::{lemma_pow_increases, pow};
use vstd::prelude::*;

use crate::error::OpError;

verus! {

/// Byte offset of the draw inside the host's recent-history record: the
/// record starts with an 8-byte length and an 8-byte slot, and the draw is
/// read from the start of the newest entry's hash.
pub const ENTROPY_OFFSET: usize = 16;

/// The little-endian encoding of `n` in `len` bytes.
pub open spec fn le_bytes(n: nat, len: nat) -> Seq<u8>
    decreases len,
{
    if len == 0 {
        Seq::empty()
    } else {
        seq![(n % 256) as u8] + le_bytes(n / 256, (len - 1) as nat)
    }
}

/// The value of a little-endian byte string.
pub open spec fn le_value(s: Seq<u8>) -> nat
    decreases s.len(),
{
    if s.len() == 0 {
        0
    } else {
        (s[0] + 256 * le_value(s.skip(1))) as nat
    }
}

/// A little-endian byte string of length `len` encodes a value below
/// `256^len`.
proof fn lemma_le_value_bound(s: Seq<u8>)
    ensures
        le_value(s) < pow(256, s.len()),
    decreases s.len(),
{
    reveal(pow);
    if s.len() == 0 {
    } else {
        lemma_le_value_bound(s.skip(1));
        assert(pow(256, s.len()) == 256 * pow(256, (s.len() - 1) as nat));
    }
}

/// Eight little-endian bytes or fewer always fit in a machine word.
proof fn lemma_le_value_fits_u64(s: Seq<u8>)
    requires
        s.len() <= 8,
    ensures
        le_value(s) <= u64::MAX,
{
    lemma_le_value_bound(s);
    lemma_pow_increases(256, s.len(), 8);
    assert(pow(256, 8) == 0x1_0000_0000_0000_0000) by {
        reveal_with_fuel(pow, 9);
    }
}

/// Read the 8-byte little-endian integer at `offset`.
pub fn read_u64_le(bytes: &Vec<u8>, offset: usize) -> (r: u64)
    requires
        offset + 8 <= bytes.len(),
    ensures
        r == le_value(bytes@.subrange(offset as int, offset + 8)),
{
    let mut r: u64 = 0;
    let mut i: usize = 8;
    while i > 0
        invariant
            i <= 8,
            offset + 8 <= bytes.len(),
            r == le_value(bytes@.subrange(offset + i, offset + 8)),
        decreases i,
    {
        i = i - 1;
        let b = bytes[offset + i];
        proof {
            let tail = bytes@.subrange(offset + i + 1, offset + 8);
            let whole = bytes@.subrange(offset + i, offset + 8);
            assert(whole.skip(1) =~= tail);
            assert(whole[0] == b);
            lemma_le_value_fits_u64(whole);
        }
        r = r * 256 + (b as u64);
    }
    r
}

/// Encode `n` as its 8 little-endian bytes.
pub fn u64_le_bytes(n: u64) -> (r: Vec<u8>)
    ensures
        r@ == le_bytes(n as nat, 8),
{
    let mut r: Vec<u8> = Vec::new();
    let mut x: u64 = n;
    let mut i: usize = 0;
    proof {
        assert(Seq::<u8>::empty() + le_bytes(n as nat, 8) =~= le_bytes(n as nat, 8));
    }
    while i < 8
        invariant
            i <= 8,
            r@.len() == i,
            le_bytes(n as nat, 8) == r@ + le_bytes(x as nat, (8 - i) as nat),
        decreases 8 - i,
    {
        let b: u8 = (x % 256) as u8;
        proof {
            let rest = le_bytes(x as nat / 256, (8 - i - 1) as nat);
            assert(le_bytes(x as nat, (8 - i) as nat) == seq![b] + rest);
            assert(r@ + (seq![b] + rest) =~= (r@ + seq![b]) + rest);
            assert(r@.push(b) =~= r@ + seq![b]);
        }
        r.push(b);
        x = x / 256;
        i = i + 1;
    }
    proof {
        assert(r@ + le_bytes(x as nat, 0) =~= r@);
    }
    r
}

/// The Keccak-256 digest of a byte string: 32 bytes, a function of the
/// bytes alone.
pub uninterp spec fn keccak256_of(data: Seq<u8>) -> Seq<u8>;

/// Relies on `solana_program::keccak::hashv`, which returns the Keccak-256
/// digest of the concatenation of its inputs: 32 bytes, depending on those
/// bytes alone.
#[verifier::external_body]
fn keccak256_concat(a: &[u8], b: &[u8]) -> (r: Vec<u8>)
    ensures
        r@ == keccak256_of(a@ + b@),
        r@.len() == 32,
{
    solana_program::keccak::hashv(&[a, b]).to_bytes().to_vec()
}

/// Derive a 64-bit value from a 32-byte seed and a counter: hash the seed
/// followed by the counter's 8 little-endian bytes, and read the first
/// eight digest bytes as a little-endian integer.
pub fn expand_with_num(randomness: [u8; 32], n: u64) -> (r: u64)
    ensures
        r == le_value(keccak256_of(randomness@ + le_bytes(n as nat, 8)).subrange(0, 8)),
{
    let nb = u64_le_bytes(n);
    let h = keccak256_concat(randomness.as_slice(), nb.as_slice());
    read_u64_le(&h, 0)
}

/// Derive a 64-bit value from a 32-byte seed and a 32-byte identity: hash
/// the seed followed by the identity, and read the first eight digest bytes
/// as a little-endian integer.
pub fn expand_with_pubkey(randomness: [u8; 32], n: [u8; 32]) -> (r: u64)
    ensures
        r == le_value(keccak256_of(randomness@ + n@).subrange(0, 8)),
{
    let h = keccak256_concat(randomness.as_slice(), n.as_slice());
    read_u64_le(&h, 0)
}

/// Extract one draw from the host's recent-history record.  The record is
/// malformed (an account-constraint failure) unless it reaches past the
/// fixed offset; otherwise the draw is exactly the 8-byte little-endian
/// integer found there.
pub fn draw_entropy(record: &Vec<u8>) -> (r: Result<u64, OpError>)
    ensures
        match r {
            Ok(v) => record@.len() >= ENTROPY_OFFSET + 8 && v == le_value(
                record@.subrange(ENTROPY_OFFSET as int, ENTROPY_OFFSET + 8),
            ),
            Err(e) => e == OpError::Constraint && record@.len() < ENTROPY_OFFSET + 8,
        },
{
    if record.len() < ENTROPY_OFFSET + 8 {
        Err(OpError::Constraint)
    } else {
        Ok(read_u64_le(record, ENTROPY_OFFSET))
    }
}

} // verus!
