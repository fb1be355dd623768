use block_modes::{BlockMode, Cbc};
use cipher::{BlockEncrypt, NewBlockCipher};
use kdbx_core::ciphers::{AES256Cipher, ChaCha20Cipher, PlainCipher, Salsa20Cipher, TwofishCipher};
use kdbx_core::errors::CryptoError;
use kdbx_core::kdf::{AesKdf, Argon2Kdf, Argon2Version};
use sha2::Digest;

#[test]
fn test_decrypt_encrypt_plain() {
    let data = "hi this is a test";
    let bdata: Vec<u8> = data.as_bytes().to_vec();
    let mut cipher = PlainCipher::new(&[]).unwrap();
    let encrypted = cipher.encrypt(&bdata).unwrap();
    let decrypted = cipher.decrypt(&encrypted).unwrap();
    assert_eq!(bdata, decrypted);
}

#[test]
fn aes_roundtrip_fresh_instances() {
    let key = [7u8; 32];
    let iv = [9u8; 16];
    let data = b"some plaintext that is not block aligned";
    let mut c1 = AES256Cipher::new(&key, &iv).unwrap();
    let ct = c1.encrypt(data).unwrap();
    assert_ne!(&ct[..data.len().min(ct.len())], &data[..]);
    let mut c2 = AES256Cipher::new(&key, &iv).unwrap();
    let pt = c2.decrypt(&ct).unwrap();
    assert_eq!(pt, data.to_vec());
}

#[test]
fn aes_matches_block_modes_directly() {
    let key = [1u8; 32];
    let iv = [2u8; 16];
    let data = b"check against the crate itself";
    let mut c = AES256Cipher::new(&key, &iv).unwrap();
    let ours = c.encrypt(data).unwrap();
    let direct = Cbc::<aes::Aes256, block_modes::block_padding::Pkcs7>::new_from_slices(&key, &iv)
        .unwrap()
        .encrypt_vec(data);
    assert_eq!(ours, direct);
}

#[test]
fn aes_construction_errors() {
    assert!(matches!(
        AES256Cipher::new(&[0u8; 16], &[0u8; 16]),
        Err(CryptoError::InvalidKeyLength)
    ));
    assert!(matches!(
        AES256Cipher::new(&[0u8; 32], &[0u8; 8]),
        Err(CryptoError::InvalidIvLength)
    ));
}

#[test]
fn aes_bad_padding_is_rejected() {
    let key = [3u8; 32];
    let iv = [4u8; 16];
    let mut c = AES256Cipher::new(&key, &iv).unwrap();
    // random 16 bytes essentially never unpad correctly under this key
    let bogus = [0xAAu8; 16];
    assert_eq!(c.decrypt(&bogus).unwrap_err(), CryptoError::InvalidPadding);
}

#[test]
fn twofish_roundtrip_fresh_instances() {
    let key = [11u8; 32];
    let iv = [13u8; 16];
    let data = b"twofish carries the same contract";
    let mut c1 = TwofishCipher::new(&key, &iv).unwrap();
    let ct = c1.encrypt(data).unwrap();
    let mut c2 = TwofishCipher::new(&key, &iv).unwrap();
    assert_eq!(c2.decrypt(&ct).unwrap(), data.to_vec());
}

#[test]
fn salsa20_inner_protection_roundtrip() {
    let key = [0u8; 32];
    let mut enc = Salsa20Cipher::new(&key).unwrap();
    let ct = enc.encrypt(b"password").unwrap();
    assert_ne!(ct, b"password".to_vec());
    let mut dec = Salsa20Cipher::new(&key).unwrap();
    assert_eq!(dec.decrypt(&ct).unwrap(), b"password".to_vec());
}

#[test]
fn salsa20_rejects_short_key() {
    assert!(matches!(
        Salsa20Cipher::new(&[0u8; 16]),
        Err(CryptoError::InvalidKeyLength)
    ));
}

#[test]
fn stream_state_advances_but_concatenation_decrypts() {
    // one instance encrypting twice does not return the originals on a
    // second pass, but a fresh instance decrypts the concatenation
    let key = [5u8; 32];
    let mut enc = Salsa20Cipher::new(&key).unwrap();
    let c1 = enc.encrypt(b"first").unwrap();
    let c2 = enc.encrypt(b"second").unwrap();
    let mut joined = c1.clone();
    joined.extend_from_slice(&c2);
    let mut dec = Salsa20Cipher::new(&key).unwrap();
    let plain = dec.decrypt(&joined).unwrap();
    assert_eq!(plain, b"firstsecond".to_vec());
    // decrypting the first ciphertext again with the same advanced
    // instance does not give the plaintext back
    let mut advanced = Salsa20Cipher::new(&key).unwrap();
    let _ = advanced.encrypt(b"first").unwrap();
    assert_ne!(advanced.decrypt(&c1).unwrap(), b"first".to_vec());
}

#[test]
fn chacha20_derived_and_direct_roundtrip() {
    let key = b"an inner key of any length at all";
    let mut enc = ChaCha20Cipher::new(key).unwrap();
    let ct = enc.encrypt(b"secret value").unwrap();
    let mut dec = ChaCha20Cipher::new(key).unwrap();
    assert_eq!(dec.decrypt(&ct).unwrap(), b"secret value".to_vec());

    let k = [21u8; 32];
    let nonce = [22u8; 12];
    let mut enc2 = ChaCha20Cipher::new_key_iv(&k, &nonce).unwrap();
    let ct2 = enc2.encrypt(b"outer data").unwrap();
    let mut dec2 = ChaCha20Cipher::new_key_iv(&k, &nonce).unwrap();
    assert_eq!(dec2.decrypt(&ct2).unwrap(), b"outer data".to_vec());
    assert!(matches!(
        ChaCha20Cipher::new_key_iv(&k, &[0u8; 8]),
        Err(CryptoError::InvalidIvLength)
    ));
}

#[test]
fn aes_kdf_fixed_vector() {
    // seed and composite key all zero, one round: the output is SHA-256
    // of two AES-256 encryptions of the zero block under the zero key
    let kdf = AesKdf {
        seed: vec![0u8; 32],
        rounds: 1,
    };
    let out = kdf.transform_key(&[0u8; 32]).unwrap();
    let aes = aes::Aes256::new(cipher::generic_array::GenericArray::from_slice(&[0u8; 32]));
    let mut block = cipher::generic_array::GenericArray::clone_from_slice(&[0u8; 16]);
    aes.encrypt_block(&mut block);
    let mut digest = sha2::Sha256::new();
    digest.update(block);
    digest.update(block);
    let expected: Vec<u8> = digest.finalize().to_vec();
    assert_eq!(out, expected);
}

#[test]
fn aes_kdf_deterministic() {
    let kdf1 = AesKdf { seed: vec![9u8; 32], rounds: 100 };
    let kdf2 = AesKdf { seed: vec![9u8; 32], rounds: 100 };
    let key = [42u8; 32];
    assert_eq!(kdf1.transform_key(&key).unwrap(), kdf2.transform_key(&key).unwrap());
}

#[test]
fn argon2_kdf_matches_crate_and_is_deterministic() {
    let kdf = Argon2Kdf {
        memory: 65536,
        salt: b"saltsalt".to_vec(),
        iterations: 1,
        parallelism: 1,
        version: Argon2Version::Version13,
    };
    let key = [7u8; 32];
    let out1 = kdf.transform_key(&key).unwrap();
    let out2 = kdf.transform_key(&key).unwrap();
    assert_eq!(out1, out2);
    assert_eq!(out1.len(), 32);
    let config = argon2::Config {
        ad: &[],
        hash_length: 32,
        lanes: 1,
        mem_cost: 64,
        secret: &[],
        thread_mode: argon2::ThreadMode::default(),
        time_cost: 1,
        variant: argon2::Variant::Argon2d,
        version: argon2::Version::Version13,
    };
    let direct = argon2::hash_raw(&key, b"saltsalt", &config).unwrap();
    assert_eq!(out1, direct);
}

#[test]
fn argon2_kdf_rejects_bad_parameters() {
    let kdf = Argon2Kdf {
        memory: 65536,
        salt: b"shrt".to_vec(),  // below the eight-byte minimum
        iterations: 1,
        parallelism: 1,
        version: Argon2Version::Version13,
    };
    assert_eq!(kdf.transform_key(&[0u8; 32]).unwrap_err(), CryptoError::Argon2);
    let kdf2 = Argon2Kdf {
        memory: 65536,
        salt: b"saltsalt".to_vec(),
        iterations: 1,
        parallelism: 0,
        version: Argon2Version::Version10,
    };
    assert_eq!(kdf2.transform_key(&[0u8; 32]).unwrap_err(), CryptoError::Argon2);
}

#[test]
fn chacha20_derived_mode_splits_sha512() {
    // the derived construction must take its key from the first 32
    // digest bytes and its nonce from the 12 after; a wrapper handing
    // the input through unchanged would not match
    let key = [3u8; 32];
    let digest = sha2::Sha512::digest(&key);
    let mut derived = ChaCha20Cipher::new(&key).unwrap();
    let mut manual = ChaCha20Cipher::new_key_iv(&digest[0..32], &digest[32..44]).unwrap();
    let ct1 = derived.encrypt(b"same keystream").unwrap();
    let ct2 = manual.encrypt(b"same keystream").unwrap();
    assert_eq!(ct1, ct2);
}
