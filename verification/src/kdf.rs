use vstd::prelude::*;
use vstd::slice::{slice_subrange, slice_to_vec};
use cipher::{BlockEncrypt, NewBlockCipher};
use sha2::Digest;
use crate::errors::CryptoError;

verus! {

// The two key-stretching functions that derive a 32-byte transformed key
// from a 32-byte composite key: an AES-based transformer and Argon2d.
// Both are pure functions of their parameters and the input key.

/// What one AES-256 block encryption makes of a 16-byte block.
pub uninterp spec fn aes256_block_enc(key: Seq<u8>, block: Seq<u8>) -> Seq<u8>;

/// The SHA-256 digest of a byte sequence.
pub uninterp spec fn sha256_of(b: Seq<u8>) -> Seq<u8>;

/// The Argon2d hash with 32-byte output, empty secret and associated
/// data, for the given costs, lanes, version, salt and input key.
pub uninterp spec fn argon2d_hash(
    mem_kib: int,
    time: int,
    lanes: int,
    version: int,
    salt: Seq<u8>,
    key: Seq<u8>,
) -> Seq<u8>;

/// Relies on aes::Aes256's `encrypt_block`: a 16-byte block maps to a
/// 16-byte block, as a function of key and block alone.
#[verifier::external_body]
fn aes256_encrypt_block(key: &[u8], block: &[u8]) -> (r: Vec<u8>)
    requires
        key@.len() == 32,
        block@.len() == 16,
    ensures
        r@ == aes256_block_enc(key@, block@),
        r@.len() == 16,
{
    let cipher = aes::Aes256::new(cipher::generic_array::GenericArray::from_slice(key));
    let mut b = cipher::generic_array::GenericArray::clone_from_slice(block);
    cipher.encrypt_block(&mut b);
    b.to_vec()
}

/// Relies on sha2::Sha256: the digest is 32 bytes and a function of the
/// input alone.
#[verifier::external_body]
fn sha256_digest(b: &[u8]) -> (r: Vec<u8>)
    ensures
        r@ == sha256_of(b@),
        r@.len() == 32,
{
    sha2::Sha256::digest(b).to_vec()
}

/// The block after `n` rounds of AES-256 encryption under `key`.
pub open spec fn aes_kdf_rounds(key: Seq<u8>, block: Seq<u8>, n: int) -> Seq<u8>
    decreases n,
{
    if n <= 0 {
        block
    } else {
        aes256_block_enc(key, aes_kdf_rounds(key, block, n - 1))
    }
}

/// The AES key transformer: the two 16-byte halves of the composite key
/// are each encrypted `rounds` times under the seed, and the transformed
/// key is SHA-256 of their concatenation.
pub struct AesKdf {
    pub seed: Vec<u8>,
    pub rounds: u64,
}

impl AesKdf {
    /// The transformed key this configuration derives from a composite
    /// key: a pure function of seed, rounds and input.
    pub open spec fn spec_transform(&self, composite_key: Seq<u8>) -> Seq<u8> {
        sha256_of(
            aes_kdf_rounds(self.seed@, composite_key.subrange(0, 16), self.rounds as int)
                + aes_kdf_rounds(self.seed@, composite_key.subrange(16, 32), self.rounds as int),
        )
    }

    /// Derives the 32-byte transformed key.
    pub fn transform_key(&self, composite_key: &[u8]) -> (r: Result<Vec<u8>, CryptoError>)
        requires
            self.seed@.len() == 32,
            composite_key@.len() == 32,
        ensures
            r is Ok,
            r->Ok_0@ == self.spec_transform(composite_key@),
            r->Ok_0@.len() == 32,
    {
        let mut block1 = slice_to_vec(slice_subrange(composite_key, 0, 16));
        let mut block2 = slice_to_vec(slice_subrange(composite_key, 16, 32));
        let mut i: u64 = 0;
        while i < self.rounds
            invariant
                i <= self.rounds,
                self.seed@.len() == 32,
                block1@ == aes_kdf_rounds(self.seed@, composite_key@.subrange(0, 16), i as int),
                block2@ == aes_kdf_rounds(self.seed@, composite_key@.subrange(16, 32), i as int),
                block1@.len() == 16,
                block2@.len() == 16,
            decreases self.rounds - i,
        {
            block1 = aes256_encrypt_block(self.seed.as_slice(), block1.as_slice());
            block2 = aes256_encrypt_block(self.seed.as_slice(), block2.as_slice());
            i = i + 1;
        }
        let mut joined = block1;
        let mut j: usize = 0;
        let ghost b1 = joined@;
        while j < block2.len()
            invariant
                j <= block2@.len(),
                joined@ == b1 + block2@.subrange(0, j as int),
            decreases block2@.len() - j,
        {
            joined.push(block2[j]);
            proof {
                assert(b1 + block2@.subrange(0, j + 1) =~= joined@);
            }
            j = j + 1;
        }
        proof {
            assert(block2@.subrange(0, block2@.len() as int) =~= block2@);
        }
        Ok(sha256_digest(joined.as_slice()))
    }
}

/// The Argon2 versions the format names.
#[derive(Debug, Clone, Copy, PartialEq, Eq, Structural)]
pub enum Argon2Version {
    Version10,
    Version13,
}

/// The number a version is named by.
pub open spec fn argon2_version_num(v: Argon2Version) -> int {
    match v {
        Argon2Version::Version10 => 0x10,
        Argon2Version::Version13 => 0x13,
    }
}

/// Relies on rust-argon2's `hash_raw`: with a 32-byte output, empty
/// secret and associated data, it succeeds when lanes, memory cost, time
/// cost and salt length lie in the documented ranges (the memory ceiling
/// depends on the target, so only the range every target accepts is
/// promised), fails outside them, and its hash is a function of the
/// parameters and inputs alone.
#[verifier::external_body]
fn argon2d_hash_raw(
    mem_cost: u32,
    time_cost: u32,
    lanes: u32,
    version: Argon2Version,
    salt: &[u8],
    pwd: &[u8],
) -> (r: Result<Vec<u8>, CryptoError>)
    ensures
        (1 <= lanes <= 0xFF_FFFF && mem_cost >= 8 && mem_cost >= 8 * lanes && mem_cost
            <= 0x20_0000 && time_cost >= 1 && 8 <= salt@.len() <= 0xFFFF_FFFFu64) ==> r is Ok,
        r is Ok ==> (1 <= lanes <= 0xFF_FFFF && mem_cost >= 8 && mem_cost >= 8 * lanes
            && time_cost >= 1 && 8 <= salt@.len() <= 0xFFFF_FFFFu64),
        match r {
            Ok(k) => k@ == argon2d_hash(
                mem_cost as int,
                time_cost as int,
                lanes as int,
                argon2_version_num(version),
                salt@,
                pwd@,
            ) && k@.len() == 32,
            Err(e) => e == CryptoError::Argon2,
        },
{
    let config = argon2::Config {
        ad: &[],
        hash_length: 32,
        lanes,
        mem_cost,
        secret: &[],
        thread_mode: argon2::ThreadMode::default(),
        time_cost,
        variant: argon2::Variant::Argon2d,
        version: match version {
            Argon2Version::Version10 => argon2::Version::Version10,
            Argon2Version::Version13 => argon2::Version::Version13,
        },
    };
    argon2::hash_raw(pwd, salt, &config).map_err(|_e| CryptoError::Argon2)
}

/// The Argon2d key transformer.
pub struct Argon2Kdf {
    pub memory: u64,
    pub salt: Vec<u8>,
    pub iterations: u64,
    pub parallelism: u32,
    pub version: Argon2Version,
}

impl Argon2Kdf {
    /// The memory cost handed on: bytes scaled to kibibytes, in 32 bits.
    pub open spec fn spec_mem_cost(&self) -> int {
        (self.memory as int / 1024) % 0x1_0000_0000
    }

    /// The time cost handed on: the iteration count, in 32 bits.
    pub open spec fn spec_time_cost(&self) -> int {
        (self.iterations as int) % 0x1_0000_0000
    }

    /// Whether the configuration lies in the ranges Argon2 accepts.
    pub open spec fn spec_params_ok(&self) -> bool {
        1 <= self.parallelism <= 0xFF_FFFF && self.spec_mem_cost() >= 8 && self.spec_mem_cost()
            >= 8 * self.parallelism && self.spec_time_cost() >= 1 && 8 <= self.salt@.len()
            <= 0xFFFF_FFFFu64
    }

    /// Whether the memory cost also lies below the ceiling every target
    /// accepts.
    pub open spec fn spec_mem_in_common_range(&self) -> bool {
        self.spec_mem_cost() <= 0x20_0000
    }

    /// The transformed key this configuration derives from a composite
    /// key: a pure function of the parameters and the input.
    pub open spec fn spec_transform(&self, composite_key: Seq<u8>) -> Seq<u8> {
        argon2d_hash(
            self.spec_mem_cost(),
            self.spec_time_cost(),
            self.parallelism as int,
            argon2_version_num(self.version),
            self.salt@,
            composite_key,
        )
    }

    /// Derives the 32-byte transformed key; succeeds where the
    /// parameters lie inside the ranges Argon2 accepts on every target,
    /// and fails where they lie outside them on any.
    pub fn transform_key(&self, composite_key: &[u8]) -> (r: Result<Vec<u8>, CryptoError>)
        requires
            composite_key@.len() == 32,
        ensures
            self.spec_params_ok() && self.spec_mem_in_common_range() ==> r is Ok,
            r is Ok ==> self.spec_params_ok(),
            match r {
                Ok(k) => k@ == self.spec_transform(composite_key@) && k@.len() == 32,
                Err(e) => e == CryptoError::Argon2,
            },
    {
        let q = self.memory / 1024;
        let it = self.iterations;
        let mem_cost = #[verifier::truncate] (q as u32);
        let time_cost = #[verifier::truncate] (it as u32);
        proof {
            assert(((q as u32) as int) == (q as int) % 0x1_0000_0000) by (bit_vector);
            assert(((it as u32) as int) == (it as int) % 0x1_0000_0000) by (bit_vector);
        }
        argon2d_hash_raw(
            mem_cost,
            time_cost,
            self.parallelism,
            self.version,
            self.salt.as_slice(),
            composite_key,
        )
    }
}

/// Both key transformers are deterministic: two configurations with
/// identical parameters derive byte-identical keys from one composite
/// key.
pub proof fn lemma_kdf_deterministic(a: AesKdf, b: AesKdf, p: Argon2Kdf, q: Argon2Kdf, k: Seq<u8>)
    requires
        a.seed@ == b.seed@,
        a.rounds == b.rounds,
        p.memory == q.memory,
        p.salt@ == q.salt@,
        p.iterations == q.iterations,
        p.parallelism == q.parallelism,
        p.version == q.version,
    ensures
        a.spec_transform(k) == b.spec_transform(k),
        p.spec_transform(k) == q.spec_transform(k),
{
}

} // verus!
