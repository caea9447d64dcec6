use sha2::Digest;
use vstd::prelude::*;
use vstd::bytes::{spec_u64_from_le_bytes, spec_u64_to_le_bytes, u64_from_le_bytes, u64_to_le_bytes};

verus! {

/// The SHA-256 digest of `data`, as computed by the `sha2` crate.
pub uninterp spec fn spec_sha256(data: Seq<u8>) -> Seq<u8>;

/// Calls `sha2::Sha256` (`new`, `chain_update`, `finalize`) on `data`.
/// Trusted: the result is the digest named `spec_sha256` of the input, and it
/// is 32 bytes long (`Sha256`'s `OutputSize` is `U32` in the crate's source).
#[verifier::external_body]
fn sha256_digest(data: &[u8]) -> (res: Vec<u8>)
    ensures
        res@ == spec_sha256(data@),
        res@.len() == 32,
{
    sha2::Sha256::new().chain_update(data).finalize().to_vec()
}

/// The two words that are hashed to draw a pseudo-random number.
pub struct HashStruct {
    pub nonce: u64,
    pub initial_seed: u64,
}

/// The bytes of a `HashStruct` as it lies in memory on a little-endian
/// machine: the nonce, then the seed.
pub open spec fn hash_input(nonce: u64, initial_seed: u64) -> Seq<u8> {
    spec_u64_to_le_bytes(nonce) + spec_u64_to_le_bytes(initial_seed)
}

/// The pseudo-random number drawn from `seed` and `nonce`: the first eight
/// bytes of the digest of their memory image, read as a little-endian `u64`.
pub open spec fn spec_hashed_random(seed: u64, nonce: u64) -> u64 {
    spec_u64_from_le_bytes(spec_sha256(hash_input(nonce, seed)).subrange(0, 8))
}

impl HashStruct {
    /// The memory image of the structure: the nonce, then the seed, each in
    /// little-endian byte order.
    pub fn to_bytes(&self) -> (res: Vec<u8>)
        ensures
            res@ == hash_input(self.nonce, self.initial_seed),
    {
        let mut res = u64_to_le_bytes(self.nonce);
        let mut tail = u64_to_le_bytes(self.initial_seed);
        res.append(&mut tail);
        res
    }
}

/// The drawn number is the first eight bytes, little-endian, of the SHA-256
/// digest of the nonce's little-endian bytes followed by the seed's.
pub proof fn lemma_hashed_random_is_digest_prefix(seed: u64, nonce: u64)
    ensures
        spec_hashed_random(seed, nonce) == spec_u64_from_le_bytes(
            spec_sha256(spec_u64_to_le_bytes(nonce) + spec_u64_to_le_bytes(seed)).subrange(0, 8),
        ),
{
}

/// Reads the first eight bytes of a digest as a little-endian `u64`.
pub fn random_from_digest(digest: &[u8]) -> (r: u64)
    requires
        digest@.len() >= 8,
    ensures
        r == spec_u64_from_le_bytes(digest@.subrange(0, 8)),
{
    let mut head: Vec<u8> = Vec::new();
    let mut i: usize = 0;
    while i < 8
        invariant
            i <= 8,
            digest@.len() >= 8,
            head@ == digest@.subrange(0, i as int),
        decreases 8 - i,
    {
        head.push(digest[i]);
        i = i + 1;
    }
    u64_from_le_bytes(head.as_slice())
}

/// Draws a pseudo-random `u64` by hashing `seed` and `nonce` with SHA-256.
pub fn get_sha256_hashed_random(seed: u64, nonce: u64) -> (r: u64)
    ensures
        r == spec_hashed_random(seed, nonce),
        // the digest of the nonce's bytes then the full seed's bytes, read from
        // its first eight bytes, little-endian
        r == spec_u64_from_le_bytes(
            spec_sha256(spec_u64_to_le_bytes(nonce) + spec_u64_to_le_bytes(seed)).subrange(0, 8),
        ),
{
    let hashstruct = HashStruct { nonce: nonce, initial_seed: seed };
    let bytes = hashstruct.to_bytes();
    let hash = sha256_digest(bytes.as_slice());
    random_from_digest(hash.as_slice())
}

} // verus!
