use vstd::prelude::*;
use vstd::slice::slice_to_vec;
use vstd::slice::slice_subrange;
use block_modes::BlockMode;
use salsa20::cipher::{NewCipher, StreamCipher};
use sha2::Digest;
use crate::errors::CryptoError;

verus! {

// The uniform en/decrypt contract over the five concrete ciphers that
// the format uses: AES-256-CBC and Twofish-CBC with PKCS#7 padding for
// the file body, Salsa20 and ChaCha20 keystreams for inner protection,
// and a pass-through for files that declare no inner protection. Stream
// cipher state advances with every call; block ciphers rebuild their
// state from the stored key and IV on each call.

/// No stream operation may take a Salsa20 keystream past this position;
/// the underlying implementation counts 64-byte blocks in 64 bits, so
/// everything below this bound is well inside its range.
pub const SALSA_STREAM_LIMIT: u64 = 0x1000_0000_0000_0000;

/// No stream operation may take a ChaCha20 keystream past this position;
/// the underlying implementation stops at 2^32 64-byte blocks.
pub const CHACHA_STREAM_LIMIT: u64 = 0x10_0000_0000;

/// The ciphertext that AES-256-CBC with PKCS#7 padding makes of a
/// plaintext under a key and IV.
pub uninterp spec fn aes256_cbc_enc(key: Seq<u8>, iv: Seq<u8>, p: Seq<u8>) -> Seq<u8>;

/// What AES-256-CBC decryption with PKCS#7 unpadding makes of a
/// ciphertext: the plaintext, or `None` where the padding is bad.
pub uninterp spec fn aes256_cbc_dec(key: Seq<u8>, iv: Seq<u8>, ct: Seq<u8>) -> Option<Seq<u8>>;

/// The ciphertext that Twofish-CBC with PKCS#7 padding makes of a
/// plaintext under a key and IV.
pub uninterp spec fn twofish_cbc_enc(key: Seq<u8>, iv: Seq<u8>, p: Seq<u8>) -> Seq<u8>;

/// What Twofish-CBC decryption with PKCS#7 unpadding makes of a
/// ciphertext: the plaintext, or `None` where the padding is bad.
pub uninterp spec fn twofish_cbc_dec(key: Seq<u8>, iv: Seq<u8>, ct: Seq<u8>) -> Option<Seq<u8>>;

/// Byte `i` of the Salsa20 keystream for a key and nonce.
pub uninterp spec fn salsa20_keystream(key: Seq<u8>, iv: Seq<u8>, i: int) -> u8;

/// Byte `i` of the ChaCha20 keystream for a key and nonce.
pub uninterp spec fn chacha20_keystream(key: Seq<u8>, nonce: Seq<u8>, i: int) -> u8;

/// The SHA-512 digest of a byte sequence.
pub uninterp spec fn sha512_of(b: Seq<u8>) -> Seq<u8>;

/// Relies on block_modes' `Cbc<Aes256, Pkcs7>`: encryption of any
/// plaintext under a 32-byte key and 16-byte IV succeeds and is a
/// function of key, IV and plaintext alone.
#[verifier::external_body]
fn aes_cbc_encrypt_raw(key: &[u8], iv: &[u8], data: &[u8]) -> (r: Vec<u8>)
    requires
        key@.len() == 32,
        iv@.len() == 16,
    ensures
        r@ == aes256_cbc_enc(key@, iv@, data@),
{
    let cipher = block_modes::Cbc::<aes::Aes256, block_modes::block_padding::Pkcs7>::new_from_slices(
        key,
        iv,
    ).unwrap();
    cipher.encrypt_vec(data)
}

/// Relies on block_modes' `Cbc<Aes256, Pkcs7>`: decryption is a function
/// of key, IV and ciphertext, fails exactly on bad padding, and returns
/// the plaintext of anything the paired encryption produced.
#[verifier::external_body]
fn aes_cbc_decrypt_raw(key: &[u8], iv: &[u8], ct: &[u8]) -> (r: Result<Vec<u8>, CryptoError>)
    requires
        key@.len() == 32,
        iv@.len() == 16,
    ensures
        match r {
            Ok(p) => aes256_cbc_dec(key@, iv@, ct@) == Some(p@),
            Err(e) => aes256_cbc_dec(key@, iv@, ct@) is None && e == CryptoError::InvalidPadding,
        },
        forall|p: Seq<u8>|
            ct@ == #[trigger] aes256_cbc_enc(key@, iv@, p) ==> r is Ok && r->Ok_0@ == p,
{
    let cipher = block_modes::Cbc::<aes::Aes256, block_modes::block_padding::Pkcs7>::new_from_slices(
        key,
        iv,
    ).unwrap();
    cipher.decrypt_vec(ct).map_err(|_e| CryptoError::InvalidPadding)
}

/// Relies on block_modes' `Cbc<Twofish, Pkcs7>`: as for AES-256-CBC.
#[verifier::external_body]
fn twofish_cbc_encrypt_raw(key: &[u8], iv: &[u8], data: &[u8]) -> (r: Vec<u8>)
    requires
        key@.len() == 32,
        iv@.len() == 16,
    ensures
        r@ == twofish_cbc_enc(key@, iv@, data@),
{
    let cipher = block_modes::Cbc::<
        twofish::Twofish,
        block_modes::block_padding::Pkcs7,
    >::new_from_slices(key, iv).unwrap();
    cipher.encrypt_vec(data)
}

/// Relies on block_modes' `Cbc<Twofish, Pkcs7>`: as for AES-256-CBC.
#[verifier::external_body]
fn twofish_cbc_decrypt_raw(key: &[u8], iv: &[u8], ct: &[u8]) -> (r: Result<Vec<u8>, CryptoError>)
    requires
        key@.len() == 32,
        iv@.len() == 16,
    ensures
        match r {
            Ok(p) => twofish_cbc_dec(key@, iv@, ct@) == Some(p@),
            Err(e) => twofish_cbc_dec(key@, iv@, ct@) is None && e == CryptoError::InvalidPadding,
        },
        forall|p: Seq<u8>|
            ct@ == #[trigger] twofish_cbc_enc(key@, iv@, p) ==> r is Ok && r->Ok_0@ == p,
{
    let cipher = block_modes::Cbc::<
        twofish::Twofish,
        block_modes::block_padding::Pkcs7,
    >::new_from_slices(key, iv).unwrap();
    cipher.decrypt_vec(ct).map_err(|_e| CryptoError::InvalidPadding)
}

/// Relies on sha2::Sha512: the digest is 64 bytes and a function of the
/// input alone.
#[verifier::external_body]
fn sha512_digest(b: &[u8]) -> (r: Vec<u8>)
    ensures
        r@ == sha512_of(b@),
        r@.len() == 64,
{
    sha2::Sha512::digest(b).to_vec()
}

/// A live Salsa20 keystream of the `salsa20` crate.
#[verifier::external_body]
pub struct SalsaState {
    inner: salsa20::Salsa20,
}

/// The key a Salsa20 keystream was made with.
pub uninterp spec fn salsa_state_key(s: SalsaState) -> Seq<u8>;

/// The nonce a Salsa20 keystream was made with.
pub uninterp spec fn salsa_state_iv(s: SalsaState) -> Seq<u8>;

/// How many keystream bytes have been consumed.
pub uninterp spec fn salsa_state_pos(s: SalsaState) -> int;

/// Relies on salsa20::Salsa20::new: a fresh keystream for the key and
/// nonce, positioned at its start.
#[verifier::external_body]
fn salsa_state_new(key: &[u8], iv: &[u8]) -> (r: SalsaState)
    requires
        key@.len() == 32,
        iv@.len() == 8,
    ensures
        salsa_state_key(r) == key@,
        salsa_state_iv(r) == iv@,
        salsa_state_pos(r) == 0,
{
    SalsaState {
        inner: salsa20::Salsa20::new(
            salsa20::Key::from_slice(key),
            salsa20::Nonce::from_slice(iv),
        ),
    }
}

/// Relies on Salsa20's `apply_keystream`: XORs the buffer against the
/// keystream bytes at the current position and advances by the buffer's
/// length; below the position bound it cannot fail.
#[verifier::external_body]
fn salsa_state_apply(s: &mut SalsaState, data: &mut Vec<u8>)
    requires
        salsa_state_pos(*old(s)) + old(data)@.len() <= SALSA_STREAM_LIMIT,
        salsa_state_pos(*old(s)) >= 0,
    ensures
        salsa_state_key(*final(s)) == salsa_state_key(*old(s)),
        salsa_state_iv(*final(s)) == salsa_state_iv(*old(s)),
        salsa_state_pos(*final(s)) == salsa_state_pos(*old(s)) + old(data)@.len(),
        final(data)@.len() == old(data)@.len(),
        forall|i: int|
            0 <= i < old(data)@.len() ==> final(data)@[i] == old(data)@[i] ^ salsa20_keystream(
                salsa_state_key(*old(s)),
                salsa_state_iv(*old(s)),
                salsa_state_pos(*old(s)) + i,
            ),
{
    s.inner.apply_keystream(data.as_mut_slice());
}

/// A live ChaCha20 keystream of the `chacha20` crate.
#[verifier::external_body]
pub struct ChaChaState {
    inner: chacha20::ChaCha20,
}

/// The key a ChaCha20 keystream was made with.
pub uninterp spec fn chacha_state_key(s: ChaChaState) -> Seq<u8>;

/// The nonce a ChaCha20 keystream was made with.
pub uninterp spec fn chacha_state_nonce(s: ChaChaState) -> Seq<u8>;

/// How many keystream bytes have been consumed.
pub uninterp spec fn chacha_state_pos(s: ChaChaState) -> int;

/// Relies on chacha20::ChaCha20::new: a fresh keystream for the key and
/// nonce, positioned at its start.
#[verifier::external_body]
fn chacha_state_new(key: &[u8], nonce: &[u8]) -> (r: ChaChaState)
    requires
        key@.len() == 32,
        nonce@.len() == 12,
    ensures
        chacha_state_key(r) == key@,
        chacha_state_nonce(r) == nonce@,
        chacha_state_pos(r) == 0,
{
    ChaChaState {
        inner: chacha20::ChaCha20::new(
            chacha20::Key::from_slice(key),
            chacha20::Nonce::from_slice(nonce),
        ),
    }
}

/// Relies on ChaCha20's `apply_keystream`: as for Salsa20; the block
/// counter stops at 2^32, and below the position bound it cannot fail.
#[verifier::external_body]
fn chacha_state_apply(s: &mut ChaChaState, data: &mut Vec<u8>)
    requires
        chacha_state_pos(*old(s)) + old(data)@.len() <= CHACHA_STREAM_LIMIT,
        chacha_state_pos(*old(s)) >= 0,
    ensures
        chacha_state_key(*final(s)) == chacha_state_key(*old(s)),
        chacha_state_nonce(*final(s)) == chacha_state_nonce(*old(s)),
        chacha_state_pos(*final(s)) == chacha_state_pos(*old(s)) + old(data)@.len(),
        final(data)@.len() == old(data)@.len(),
        forall|i: int|
            0 <= i < old(data)@.len() ==> final(data)@[i] == old(data)@[i] ^ chacha20_keystream(
                chacha_state_key(*old(s)),
                chacha_state_nonce(*old(s)),
                chacha_state_pos(*old(s)) + i,
            ),
{
    s.inner.apply_keystream(data.as_mut_slice());
}

/// The abstract state of a cipher: enough to determine what either
/// operation returns and how the state moves.
#[verifier::ext_equal]
pub enum CipherView {
    AesCbc { key: Seq<u8>, iv: Seq<u8> },
    TwofishCbc { key: Seq<u8>, iv: Seq<u8> },
    Salsa { key: Seq<u8>, iv: Seq<u8>, pos: int },
    ChaCha { key: Seq<u8>, nonce: Seq<u8>, pos: int },
    Plain,
}

/// The keystream byte a stream-cipher state would use at offset `i` from
/// its position.
pub open spec fn stream_byte(c: CipherView, i: int) -> u8
    recommends
        c is Salsa || c is ChaCha,
{
    match c {
        CipherView::Salsa { key, iv, pos } => salsa20_keystream(key, iv, pos + i),
        CipherView::ChaCha { key, nonce, pos } => chacha20_keystream(key, nonce, pos + i),
        _ => 0,
    }
}

/// Whether the keystream has room for `n` more bytes; block ciphers and
/// the pass-through always do.
pub open spec fn stream_room(c: CipherView, n: int) -> bool {
    match c {
        CipherView::Salsa { pos, .. } => pos + n <= SALSA_STREAM_LIMIT,
        CipherView::ChaCha { pos, .. } => pos + n <= CHACHA_STREAM_LIMIT,
        _ => true,
    }
}

/// What encryption returns, and the state it leaves behind.
pub open spec fn cipher_encrypt(c: CipherView, p: Seq<u8>) -> (Seq<u8>, CipherView) {
    match c {
        CipherView::AesCbc { key, iv } => (aes256_cbc_enc(key, iv, p), c),
        CipherView::TwofishCbc { key, iv } => (twofish_cbc_enc(key, iv, p), c),
        CipherView::Salsa { key, iv, pos } => (
            Seq::new(p.len(), |i: int| p[i] ^ stream_byte(c, i)),
            CipherView::Salsa { key, iv, pos: pos + p.len() },
        ),
        CipherView::ChaCha { key, nonce, pos } => (
            Seq::new(p.len(), |i: int| p[i] ^ stream_byte(c, i)),
            CipherView::ChaCha { key, nonce, pos: pos + p.len() },
        ),
        CipherView::Plain => (p, c),
    }
}

/// What decryption returns (`None` standing for a padding failure), and
/// the state it leaves behind.
pub open spec fn cipher_decrypt(c: CipherView, ct: Seq<u8>) -> (Option<Seq<u8>>, CipherView) {
    match c {
        CipherView::AesCbc { key, iv } => (aes256_cbc_dec(key, iv, ct), c),
        CipherView::TwofishCbc { key, iv } => (twofish_cbc_dec(key, iv, ct), c),
        CipherView::Salsa { key, iv, pos } => (
            Some(Seq::new(ct.len(), |i: int| ct[i] ^ stream_byte(c, i))),
            CipherView::Salsa { key, iv, pos: pos + ct.len() },
        ),
        CipherView::ChaCha { key, nonce, pos } => (
            Some(Seq::new(ct.len(), |i: int| ct[i] ^ stream_byte(c, i))),
            CipherView::ChaCha { key, nonce, pos: pos + ct.len() },
        ),
        CipherView::Plain => (Some(ct), c),
    }
}

/// For every cipher that is not CBC-block based, decrypting what was
/// just encrypted — with a second state equal to the first — returns the
/// plaintext, and both states move in step.
pub proof fn lemma_cipher_roundtrip(c: CipherView, p: Seq<u8>)
    requires
        !(c is AesCbc),
        !(c is TwofishCbc),
    ensures
        ({
            let (ct, c_enc) = cipher_encrypt(c, p);
            let (res, c_dec) = cipher_decrypt(c, ct);
            &&& res == Some(p)
            &&& c_dec == c_enc
            &&& ct.len() == p.len()
        }),
{
    let (ct, c_enc) = cipher_encrypt(c, p);
    let (res, c_dec) = cipher_decrypt(c, ct);
    assert forall|a: u8, k: u8| ((a ^ k) ^ k) == a by {
        assert(forall|a: u8, k: u8| ((a ^ k) ^ k) == a) by (bit_vector);
    }
    match c {
        CipherView::Salsa { key, iv, pos } => {
            assert(res.unwrap() =~= p);
        },
        CipherView::ChaCha { key, nonce, pos } => {
            assert(res.unwrap() =~= p);
        },
        CipherView::Plain => {},
        _ => {},
    }
}

/// AES-256 in CBC mode with PKCS#7 padding. Each operation rebuilds the
/// cipher from the stored key and IV, so repeated calls with one
/// instance behave like calls on fresh instances.
pub struct AES256Cipher {
    pub key: Vec<u8>,
    pub iv: Vec<u8>,
}

impl AES256Cipher {
    /// Whether the stored material has the lengths the cipher needs.
    pub open spec fn wf(&self) -> bool {
        self.key@.len() == 32 && self.iv@.len() == 16
    }

    /// Accepts exactly a 32-byte key and a 16-byte IV.
    pub fn new(key: &[u8], iv: &[u8]) -> (r: Result<AES256Cipher, CryptoError>)
        ensures
            match r {
                Ok(c) => key@.len() == 32 && iv@.len() == 16 && c.key@ == key@ && c.iv@ == iv@
                    && c.wf(),
                Err(CryptoError::InvalidKeyLength) => key@.len() != 32,
                Err(CryptoError::InvalidIvLength) => key@.len() == 32 && iv@.len() != 16,
                Err(_) => false,
            },
    {
        if key.len() != 32 {
            Err(CryptoError::InvalidKeyLength)
        } else if iv.len() != 16 {
            Err(CryptoError::InvalidIvLength)
        } else {
            Ok(AES256Cipher { key: slice_to_vec(key), iv: slice_to_vec(iv) })
        }
    }

    /// Decrypts, failing exactly on bad padding; anything this cipher's
    /// `encrypt` produced comes back as the plaintext it was made from.
    pub fn decrypt(&mut self, ciphertext: &[u8]) -> (r: Result<Vec<u8>, CryptoError>)
        requires
            old(self).wf(),
        ensures
            *final(self) == *old(self),
            match r {
                Ok(p) => aes256_cbc_dec(old(self).key@, old(self).iv@, ciphertext@) == Some(p@),
                Err(e) => aes256_cbc_dec(old(self).key@, old(self).iv@, ciphertext@) is None && e
                    == CryptoError::InvalidPadding,
            },
            forall|p: Seq<u8>|
                ciphertext@ == #[trigger] aes256_cbc_enc(old(self).key@, old(self).iv@, p) ==> r
                    is Ok && r->Ok_0@ == p,
    {
        aes_cbc_decrypt_raw(self.key.as_slice(), self.iv.as_slice(), ciphertext)
    }

    /// Encrypts; with a well-formed cipher this always succeeds.
    pub fn encrypt(&mut self, data: &[u8]) -> (r: Result<Vec<u8>, CryptoError>)
        requires
            old(self).wf(),
        ensures
            *final(self) == *old(self),
            r is Ok,
            r->Ok_0@ == aes256_cbc_enc(old(self).key@, old(self).iv@, data@),
    {
        Ok(aes_cbc_encrypt_raw(self.key.as_slice(), self.iv.as_slice(), data))
    }
}

/// Twofish in CBC mode with PKCS#7 padding; the contract of
/// `AES256Cipher` with the Twofish block cipher substituted.
pub struct TwofishCipher {
    pub key: Vec<u8>,
    pub iv: Vec<u8>,
}

impl TwofishCipher {
    /// Whether the stored material has the lengths the cipher needs.
    pub open spec fn wf(&self) -> bool {
        self.key@.len() == 32 && self.iv@.len() == 16
    }

    /// Accepts exactly a 32-byte key and a 16-byte IV.
    pub fn new(key: &[u8], iv: &[u8]) -> (r: Result<TwofishCipher, CryptoError>)
        ensures
            match r {
                Ok(c) => key@.len() == 32 && iv@.len() == 16 && c.key@ == key@ && c.iv@ == iv@
                    && c.wf(),
                Err(CryptoError::InvalidKeyLength) => key@.len() != 32,
                Err(CryptoError::InvalidIvLength) => key@.len() == 32 && iv@.len() != 16,
                Err(_) => false,
            },
    {
        if key.len() != 32 {
            Err(CryptoError::InvalidKeyLength)
        } else if iv.len() != 16 {
            Err(CryptoError::InvalidIvLength)
        } else {
            Ok(TwofishCipher { key: slice_to_vec(key), iv: slice_to_vec(iv) })
        }
    }

    /// Decrypts, failing exactly on bad padding; anything this cipher's
    /// `encrypt` produced comes back as the plaintext it was made from.
    pub fn decrypt(&mut self, ciphertext: &[u8]) -> (r: Result<Vec<u8>, CryptoError>)
        requires
            old(self).wf(),
        ensures
            *final(self) == *old(self),
            match r {
                Ok(p) => twofish_cbc_dec(old(self).key@, old(self).iv@, ciphertext@) == Some(p@),
                Err(e) => twofish_cbc_dec(old(self).key@, old(self).iv@, ciphertext@) is None && e
                    == CryptoError::InvalidPadding,
            },
            forall|p: Seq<u8>|
                ciphertext@ == #[trigger] twofish_cbc_enc(old(self).key@, old(self).iv@, p) ==> r
                    is Ok && r->Ok_0@ == p,
    {
        twofish_cbc_decrypt_raw(self.key.as_slice(), self.iv.as_slice(), ciphertext)
    }

    /// Encrypts; with a well-formed cipher this always succeeds.
    pub fn encrypt(&mut self, data: &[u8]) -> (r: Result<Vec<u8>, CryptoError>)
        requires
            old(self).wf(),
        ensures
            *final(self) == *old(self),
            r is Ok,
            r->Ok_0@ == twofish_cbc_enc(old(self).key@, old(self).iv@, data@),
    {
        Ok(twofish_cbc_encrypt_raw(self.key.as_slice(), self.iv.as_slice(), data))
    }
}

/// The fixed nonce the format mandates for Salsa20 inner protection.
pub open spec fn salsa_fixed_iv() -> Seq<u8> {
    seq![0xE8u8, 0x30u8, 0x09u8, 0x4Bu8, 0x97u8, 0x20u8, 0x5Du8, 0x2Au8]
}

/// Salsa20 keyed for inner protection, with the fixed nonce the format
/// mandates. Stateful: every operation consumes keystream.
pub struct Salsa20Cipher {
    state: SalsaState,
    pos: u64,
}

impl Salsa20Cipher {
    /// The key the keystream runs under.
    pub closed spec fn key(&self) -> Seq<u8> {
        salsa_state_key(self.state)
    }

    /// The nonce the keystream runs under.
    pub closed spec fn iv(&self) -> Seq<u8> {
        salsa_state_iv(self.state)
    }

    /// How many keystream bytes have been consumed.
    pub closed spec fn pos(&self) -> int {
        self.pos as int
    }

    /// The keystream position trackers agree and are in range.
    pub closed spec fn wf(&self) -> bool {
        salsa_state_pos(self.state) == self.pos as int && self.pos <= SALSA_STREAM_LIMIT
    }

    /// Accepts exactly a 32-byte key; the nonce is the fixed one.
    pub fn new(key: &[u8]) -> (r: Result<Salsa20Cipher, CryptoError>)
        ensures
            match r {
                Ok(c) => key@.len() == 32 && c.wf() && c.key() == key@ && c.iv() == salsa_fixed_iv()
                    && c.pos() == 0,
                Err(e) => key@.len() != 32 && e == CryptoError::InvalidKeyLength,
            },
    {
        if key.len() != 32 {
            return Err(CryptoError::InvalidKeyLength);
        }
        let iv: Vec<u8> = vec![0xE8u8, 0x30u8, 0x09u8, 0x4Bu8, 0x97u8, 0x20u8, 0x5Du8, 0x2Au8];
        proof {
            assert(iv@ =~= salsa_fixed_iv());
        }
        let state = salsa_state_new(key, iv.as_slice());
        Ok(Salsa20Cipher { state, pos: 0 })
    }

    /// XORs the input against the keystream at the current position and
    /// advances; fails only where the keystream bound would be passed.
    pub fn decrypt(&mut self, ciphertext: &[u8]) -> (r: Result<Vec<u8>, CryptoError>)
        requires
            old(self).wf(),
        ensures
            final(self).wf(),
            final(self).key() == old(self).key(),
            final(self).iv() == old(self).iv(),
            if old(self).pos() + ciphertext@.len() <= SALSA_STREAM_LIMIT {
                &&& r is Ok
                &&& r->Ok_0@.len() == ciphertext@.len()
                &&& forall|i: int|
                    0 <= i < ciphertext@.len() ==> r->Ok_0@[i] == ciphertext@[i]
                        ^ salsa20_keystream(old(self).key(), old(self).iv(), old(self).pos() + i)
                &&& final(self).pos() == old(self).pos() + ciphertext@.len()
            } else {
                &&& r == Err::<Vec<u8>, CryptoError>(CryptoError::KeystreamExhausted)
                &&& *final(self) == *old(self)
            },
    {
        if ciphertext.len() as u64 > SALSA_STREAM_LIMIT - self.pos {
            return Err(CryptoError::KeystreamExhausted);
        }
        let mut buf = slice_to_vec(ciphertext);
        salsa_state_apply(&mut self.state, &mut buf);
        self.pos = self.pos + ciphertext.len() as u64;
        Ok(buf)
    }

    /// The stream operation is its own inverse: encryption is the same
    /// XOR against the same keystream.
    pub fn encrypt(&mut self, data: &[u8]) -> (r: Result<Vec<u8>, CryptoError>)
        requires
            old(self).wf(),
        ensures
            final(self).wf(),
            final(self).key() == old(self).key(),
            final(self).iv() == old(self).iv(),
            if old(self).pos() + data@.len() <= SALSA_STREAM_LIMIT {
                &&& r is Ok
                &&& r->Ok_0@.len() == data@.len()
                &&& forall|i: int|
                    0 <= i < data@.len() ==> r->Ok_0@[i] == data@[i] ^ salsa20_keystream(
                        old(self).key(),
                        old(self).iv(),
                        old(self).pos() + i,
                    )
                &&& final(self).pos() == old(self).pos() + data@.len()
            } else {
                &&& r == Err::<Vec<u8>, CryptoError>(CryptoError::KeystreamExhausted)
                &&& *final(self) == *old(self)
            },
    {
        self.decrypt(data)
    }
}

/// ChaCha20 keyed either for inner protection (key and nonce drawn from
/// SHA-512 of the input key) or directly from a 32-byte key and 12-byte
/// nonce. Stateful: every operation consumes keystream.
pub struct ChaCha20Cipher {
    state: ChaChaState,
    pos: u64,
}

impl ChaCha20Cipher {
    /// The key the keystream runs under.
    pub closed spec fn key(&self) -> Seq<u8> {
        chacha_state_key(self.state)
    }

    /// The nonce the keystream runs under.
    pub closed spec fn nonce(&self) -> Seq<u8> {
        chacha_state_nonce(self.state)
    }

    /// How many keystream bytes have been consumed.
    pub closed spec fn pos(&self) -> int {
        self.pos as int
    }

    /// The keystream position trackers agree and are in range.
    pub closed spec fn wf(&self) -> bool {
        chacha_state_pos(self.state) == self.pos as int && self.pos <= CHACHA_STREAM_LIMIT
    }

    /// The derived construction: SHA-512 of the input key supplies the
    /// 32-byte key in its first half and the 12-byte nonce right after.
    pub fn new(key: &[u8]) -> (r: Result<ChaCha20Cipher, CryptoError>)
        ensures
            r is Ok,
            ({
                let c = r->Ok_0;
                &&& c.wf()
                &&& c.key() == sha512_of(key@).subrange(0, 32)
                &&& c.nonce() == sha512_of(key@).subrange(32, 44)
                &&& c.pos() == 0
            }),
    {
        let digest = sha512_digest(key);
        let dk = slice_subrange(digest.as_slice(), 0, 32);
        let dn = slice_subrange(digest.as_slice(), 32, 44);
        let state = chacha_state_new(dk, dn);
        Ok(ChaCha20Cipher { state, pos: 0 })
    }

    /// The direct construction: accepts exactly a 32-byte key and a
    /// 12-byte nonce.
    pub fn new_key_iv(key: &[u8], iv: &[u8]) -> (r: Result<ChaCha20Cipher, CryptoError>)
        ensures
            match r {
                Ok(c) => key@.len() == 32 && iv@.len() == 12 && c.wf() && c.key() == key@
                    && c.nonce() == iv@ && c.pos() == 0,
                Err(CryptoError::InvalidKeyLength) => key@.len() != 32,
                Err(CryptoError::InvalidIvLength) => key@.len() == 32 && iv@.len() != 12,
                Err(_) => false,
            },
    {
        if key.len() != 32 {
            Err(CryptoError::InvalidKeyLength)
        } else if iv.len() != 12 {
            Err(CryptoError::InvalidIvLength)
        } else {
            let state = chacha_state_new(key, iv);
            Ok(ChaCha20Cipher { state, pos: 0 })
        }
    }

    /// XORs the input against the keystream at the current position and
    /// advances; fails only where the keystream bound would be passed.
    pub fn decrypt(&mut self, ciphertext: &[u8]) -> (r: Result<Vec<u8>, CryptoError>)
        requires
            old(self).wf(),
        ensures
            final(self).wf(),
            final(self).key() == old(self).key(),
            final(self).nonce() == old(self).nonce(),
            if old(self).pos() + ciphertext@.len() <= CHACHA_STREAM_LIMIT {
                &&& r is Ok
                &&& r->Ok_0@.len() == ciphertext@.len()
                &&& forall|i: int|
                    0 <= i < ciphertext@.len() ==> r->Ok_0@[i] == ciphertext@[i]
                        ^ chacha20_keystream(
                        old(self).key(),
                        old(self).nonce(),
                        old(self).pos() + i,
                    )
                &&& final(self).pos() == old(self).pos() + ciphertext@.len()
            } else {
                &&& r == Err::<Vec<u8>, CryptoError>(CryptoError::KeystreamExhausted)
                &&& *final(self) == *old(self)
            },
    {
        if ciphertext.len() as u64 > CHACHA_STREAM_LIMIT - self.pos {
            return Err(CryptoError::KeystreamExhausted);
        }
        let mut buf = slice_to_vec(ciphertext);
        chacha_state_apply(&mut self.state, &mut buf);
        self.pos = self.pos + ciphertext.len() as u64;
        Ok(buf)
    }

    /// The stream operation is its own inverse: encryption is the same
    /// XOR against the same keystream.
    pub fn encrypt(&mut self, data: &[u8]) -> (r: Result<Vec<u8>, CryptoError>)
        requires
            old(self).wf(),
        ensures
            final(self).wf(),
            final(self).key() == old(self).key(),
            final(self).nonce() == old(self).nonce(),
            if old(self).pos() + data@.len() <= CHACHA_STREAM_LIMIT {
                &&& r is Ok
                &&& r->Ok_0@.len() == data@.len()
                &&& forall|i: int|
                    0 <= i < data@.len() ==> r->Ok_0@[i] == data@[i] ^ chacha20_keystream(
                        old(self).key(),
                        old(self).nonce(),
                        old(self).pos() + i,
                    )
                &&& final(self).pos() == old(self).pos() + data@.len()
            } else {
                &&& r == Err::<Vec<u8>, CryptoError>(CryptoError::KeystreamExhausted)
                &&& *final(self) == *old(self)
            },
    {
        self.decrypt(data)
    }
}

/// A cipher that applies no transformation: both directions return the
/// input unchanged. Chosen when the format declares no inner protection.
pub struct PlainCipher;

impl PlainCipher {
    /// The key is accepted and ignored.
    pub fn new(_key: &[u8]) -> (r: Result<PlainCipher, CryptoError>)
        ensures
            r is Ok,
    {
        Ok(PlainCipher)
    }

    /// Returns the input unchanged.
    pub fn decrypt(&mut self, ciphertext: &[u8]) -> (r: Result<Vec<u8>, CryptoError>)
        ensures
            r is Ok,
            r->Ok_0@ == ciphertext@,
    {
        Ok(slice_to_vec(ciphertext))
    }

    /// Returns the input unchanged.
    pub fn encrypt(&mut self, data: &[u8]) -> (r: Result<Vec<u8>, CryptoError>)
        ensures
            r is Ok,
            r->Ok_0@ == data@,
    {
        Ok(slice_to_vec(data))
    }
}

/// One of the five ciphers, behind the uniform contract the codec and
/// the envelope share.
pub enum InnerCipher {
    Aes(AES256Cipher),
    Twofish(TwofishCipher),
    Salsa20(Salsa20Cipher),
    ChaCha20(ChaCha20Cipher),
    Plain(PlainCipher),
}

impl View for InnerCipher {
    type V = CipherView;

    open spec fn view(&self) -> CipherView {
        match self {
            InnerCipher::Aes(c) => CipherView::AesCbc { key: c.key@, iv: c.iv@ },
            InnerCipher::Twofish(c) => CipherView::TwofishCbc { key: c.key@, iv: c.iv@ },
            InnerCipher::Salsa20(c) => CipherView::Salsa { key: c.key(), iv: c.iv(), pos: c.pos() },
            InnerCipher::ChaCha20(c) => CipherView::ChaCha {
                key: c.key(),
                nonce: c.nonce(),
                pos: c.pos(),
            },
            InnerCipher::Plain(_) => CipherView::Plain,
        }
    }
}

impl InnerCipher {
    /// Whether the held cipher is well-formed.
    pub open spec fn wf(&self) -> bool {
        match self {
            InnerCipher::Aes(c) => c.wf(),
            InnerCipher::Twofish(c) => c.wf(),
            InnerCipher::Salsa20(c) => c.wf(),
            InnerCipher::ChaCha20(c) => c.wf(),
            InnerCipher::Plain(_) => true,
        }
    }

    /// Decrypts with the held cipher: the result and the state after are
    /// the ones `cipher_decrypt` gives, a `None` there surfacing as the
    /// padding error; the keystream-bound failure leaves the state
    /// unchanged.
    pub fn decrypt(&mut self, ciphertext: &[u8]) -> (r: Result<Vec<u8>, CryptoError>)
        requires
            old(self).wf(),
        ensures
            final(self).wf(),
            stream_room(old(self)@, ciphertext@.len() as int) ==> ({
                let (res, cv) = cipher_decrypt(old(self)@, ciphertext@);
                match r {
                    Ok(p) => res == Some(p@) && final(self)@ == cv,
                    Err(e) => res is None && e == CryptoError::InvalidPadding && final(self)@
                        == old(self)@,
                }
            }),
            !stream_room(old(self)@, ciphertext@.len() as int) ==> r == Err::<
                Vec<u8>,
                CryptoError,
            >(CryptoError::KeystreamExhausted) && final(self)@ == old(self)@,
    {
        match self {
            InnerCipher::Aes(c) => c.decrypt(ciphertext),
            InnerCipher::Twofish(c) => c.decrypt(ciphertext),
            InnerCipher::Salsa20(c) => {
                let r = c.decrypt(ciphertext);
                proof {
                    if r is Ok {
                        let (res, cv) = cipher_decrypt(old(self)@, ciphertext@);
                        assert(r->Ok_0@ =~= res.unwrap());
                    }
                }
                r
            },
            InnerCipher::ChaCha20(c) => {
                let r = c.decrypt(ciphertext);
                proof {
                    if r is Ok {
                        let (res, cv) = cipher_decrypt(old(self)@, ciphertext@);
                        assert(r->Ok_0@ =~= res.unwrap());
                    }
                }
                r
            },
            InnerCipher::Plain(c) => c.decrypt(ciphertext),
        }
    }

    /// Encrypts with the held cipher: the result and the state after are
    /// the ones `cipher_encrypt` gives; the keystream-bound failure
    /// leaves the state unchanged.
    pub fn encrypt(&mut self, data: &[u8]) -> (r: Result<Vec<u8>, CryptoError>)
        requires
            old(self).wf(),
        ensures
            final(self).wf(),
            stream_room(old(self)@, data@.len() as int) ==> ({
                let (ct, cv) = cipher_encrypt(old(self)@, data@);
                r is Ok && r->Ok_0@ == ct && final(self)@ == cv
            }),
            !stream_room(old(self)@, data@.len() as int) ==> r == Err::<Vec<u8>, CryptoError>(
                CryptoError::KeystreamExhausted,
            ) && final(self)@ == old(self)@,
    {
        match self {
            InnerCipher::Aes(c) => c.encrypt(data),
            InnerCipher::Twofish(c) => c.encrypt(data),
            InnerCipher::Salsa20(c) => {
                let r = c.encrypt(data);
                proof {
                    if r is Ok {
                        let (ct, cv) = cipher_encrypt(old(self)@, data@);
                        assert(r->Ok_0@ =~= ct);
                    }
                }
                r
            },
            InnerCipher::ChaCha20(c) => {
                let r = c.encrypt(data);
                proof {
                    if r is Ok {
                        let (ct, cv) = cipher_encrypt(old(self)@, data@);
                        assert(r->Ok_0@ =~= ct);
                    }
                }
                r
            },
            InnerCipher::Plain(c) => c.encrypt(data),
        }
    }
}

} // verus!
