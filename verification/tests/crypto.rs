use isg::crypto::{CryptoEngine, EncryptedData};
use aes_gcm::aead::Aead;
use aes_gcm::KeyInit;
use argon2::PasswordHasher;
use isg::Error;
use sha2::Digest;

#[test]
fn test_encrypt_decrypt() {
    let key = CryptoEngine::generate_key();
    let engine = CryptoEngine::new(key);

    let plaintext = b"Hello, world!";
    let encrypted = engine.encrypt(plaintext).unwrap();
    let decrypted = engine.decrypt(&encrypted).unwrap();

    assert_eq!(plaintext, decrypted.as_slice());
}

#[test]
fn test_derive_key() {
    let password = "my secure password";
    let salt = b"some random salt";

    let key1 = CryptoEngine::derive_key_from_password(password, salt).unwrap();
    let key2 = CryptoEngine::derive_key_from_password(password, salt).unwrap();

    // Same password and salt should produce same key
    assert_eq!(key1, key2);
}

#[test]
fn derived_key_is_the_digest_of_the_argon2_hash() {
    let salt = argon2::password_hash::SaltString::encode_b64(b"isg_salt_12345678").unwrap();
    let hashed = argon2::Argon2::default().hash_password(b"pw", &salt).unwrap();
    let expected = sha2::Sha256::digest(hashed.hash.unwrap().as_bytes());
    let key = CryptoEngine::derive_key_from_password("pw", b"isg_salt_12345678").unwrap();
    assert_eq!(&key[..], &expected[..]);
}

#[test]
fn derived_key_depends_on_password_and_salt() {
    let key = CryptoEngine::derive_key_from_password("pw", b"some random salt").unwrap();
    assert_ne!(key, CryptoEngine::derive_key_from_password("pW", b"some random salt").unwrap());
    assert_ne!(key, CryptoEngine::derive_key_from_password("pw", b"some random sal7").unwrap());
}

#[test]
fn key_derivation_rejects_a_salt_that_cannot_be_encoded() {
    assert_eq!(CryptoEngine::derive_key_from_password("pw", b"").unwrap_err(), Error::CryptoKdf);
    assert_eq!(CryptoEngine::derive_key_from_password("pw", b"ab").unwrap_err(), Error::CryptoKdf);
    let long = [1u8; 100];
    assert_eq!(CryptoEngine::derive_key_from_password("pw", &long).unwrap_err(), Error::CryptoKdf);
}

#[test]
fn encryption_roundtrips_for_many_plaintexts() {
    let engine = CryptoEngine::new([9u8; 32]);
    for len in [0usize, 1, 15, 16, 17, 1000] {
        let plaintext: Vec<u8> = (0..len).map(|i| (i * 7) as u8).collect();
        let encrypted = engine.encrypt(&plaintext).unwrap();
        assert_eq!(encrypted.ciphertext.len(), len + 16);
        assert_eq!(engine.decrypt(&encrypted).unwrap(), plaintext);
    }
}

#[test]
fn successive_encryptions_differ() {
    let engine = CryptoEngine::new([3u8; 32]);
    let first = engine.encrypt(b"same").unwrap();
    let second = engine.encrypt(b"same").unwrap();
    assert_ne!(first.nonce, second.nonce);
    assert_ne!(first.ciphertext, second.ciphertext);
}

#[test]
fn encryption_under_a_given_nonce_is_aes_256_gcm() {
    let key = [5u8; 32];
    let nonce = [6u8; 12];
    let engine = CryptoEngine::new(key);
    let encrypted = engine.encrypt_with_nonce(nonce, b"known answer").unwrap();
    let cipher = aes_gcm::Aes256Gcm::new_from_slice(&key).unwrap();
    let expected = cipher.encrypt(aes_gcm::Nonce::from_slice(&nonce), &b"known answer"[..]).unwrap();
    assert_eq!(encrypted.nonce, nonce);
    assert_eq!(encrypted.ciphertext, expected);
    assert_ne!(&encrypted.ciphertext[..12], b"known answer");
    let again = engine.encrypt_with_nonce(nonce, b"known answer").unwrap();
    assert_eq!(again.ciphertext, encrypted.ciphertext);
}

#[test]
fn decryption_fails_for_every_flipped_bit() {
    let engine = CryptoEngine::new([1u8; 32]);
    let encrypted = engine.encrypt(b"integrity").unwrap();
    for byte in 0..encrypted.ciphertext.len() {
        for bit in 0..8 {
            let mut tampered = encrypted.clone();
            tampered.ciphertext[byte] ^= 1 << bit;
            assert_eq!(engine.decrypt(&tampered).unwrap_err(), Error::CryptoIntegrity);
        }
    }
    let mut other_nonce = encrypted.clone();
    other_nonce.nonce[0] ^= 1;
    assert_eq!(engine.decrypt(&other_nonce).unwrap_err(), Error::CryptoIntegrity);
}

#[test]
fn decryption_fails_under_another_key() {
    let encrypted = CryptoEngine::new([1u8; 32]).encrypt(b"secret").unwrap();
    let other = CryptoEngine::new([2u8; 32]);
    assert_eq!(other.decrypt(&encrypted).unwrap_err(), Error::CryptoIntegrity);
    let short = EncryptedData { nonce: [0u8; 12], ciphertext: vec![1, 2, 3] };
    assert_eq!(other.decrypt(&short).unwrap_err(), Error::CryptoIntegrity);
}

#[test]
fn generated_keys_differ() {
    assert_ne!(CryptoEngine::generate_key(), CryptoEngine::generate_key());
}

#[test]
fn wire_form_is_nonce_then_ciphertext() {
    let encrypted = EncryptedData { nonce: [7u8; 12], ciphertext: vec![1, 2, 3] };
    let wire = encrypted.to_bytes();
    assert_eq!(wire, vec![7, 7, 7, 7, 7, 7, 7, 7, 7, 7, 7, 7, 1, 2, 3]);
    let parsed = EncryptedData::from_bytes(&wire).unwrap();
    assert_eq!(parsed.nonce, [7u8; 12]);
    assert_eq!(parsed.ciphertext, vec![1, 2, 3]);
    let bare = EncryptedData::from_bytes(&[9u8; 12]).unwrap();
    assert!(bare.ciphertext.is_empty());
    assert_eq!(EncryptedData::from_bytes(&[9u8; 11]).unwrap_err(), Error::CryptoIntegrity);
    assert_eq!(EncryptedData::from_bytes(&[]).unwrap_err(), Error::CryptoIntegrity);
}
