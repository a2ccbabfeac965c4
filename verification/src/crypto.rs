//! Authenticated encryption with password-derived keys.

use vstd::prelude::*;
use crate::error::Error;
use crate::hash;
use crate::hash::sha256;

verus! {

/// A 256-bit encryption key.
pub type Key = [u8; 32];

/// A 96-bit nonce.
pub type AesNonce = [u8; 12];

/// The AES-256-GCM ciphertext, tag included, of a plaintext under a key and
/// a nonce, or `None` where the cipher refuses the plaintext.
pub uninterp spec fn aes_gcm_seal(key: Seq<u8>, nonce: Seq<u8>, plaintext: Seq<u8>) -> Option<
    Seq<u8>,
>;

/// The plaintext that an AES-256-GCM ciphertext opens to under a key and a
/// nonce, or `None` where authentication fails.
pub uninterp spec fn aes_gcm_open(key: Seq<u8>, nonce: Seq<u8>, ciphertext: Seq<u8>) -> Option<
    Seq<u8>,
>;

/// The Argon2id hash of a password under a salt, with the `argon2` crate's
/// default parameters, or `None` where the crate accepts the salt for
/// encoding and then refuses it.
pub uninterp spec fn argon2id(password: Seq<char>, salt: Seq<u8>) -> Option<Seq<u8>>;

/// Encrypts with `aes_gcm::Aes256Gcm` (`new`, then `encrypt`). The
/// ciphertext depends on key, nonce and plaintext alone and is the
/// plaintext's length plus a 16-byte tag.
#[verifier::external_body]
fn seal(key: &Key, nonce: &AesNonce, plaintext: &[u8]) -> (r: Option<Vec<u8>>)
    ensures
        match r {
            Some(ciphertext) => {
                &&& aes_gcm_seal(key@, nonce@, plaintext@) == Some(ciphertext@)
                &&& ciphertext@.len() == plaintext@.len() + 16
            },
            None => aes_gcm_seal(key@, nonce@, plaintext@) is None,
        },
{
    let cipher = <aes_gcm::Aes256Gcm as aes_gcm::KeyInit>::new(key.into());
    aes_gcm::aead::Aead::encrypt(&cipher, nonce.into(), plaintext).ok()
}

/// Decrypts with `aes_gcm::Aes256Gcm` (`new`, then `decrypt`). Decryption
/// undoes encryption: a ciphertext that the cipher emits for a plaintext
/// under the same key and nonce opens, and to that plaintext only.
#[verifier::external_body]
fn open(key: &Key, nonce: &AesNonce, ciphertext: &[u8]) -> (r: Option<Vec<u8>>)
    ensures
        match r {
            Some(plaintext) => {
                &&& aes_gcm_open(key@, nonce@, ciphertext@) == Some(plaintext@)
                &&& forall|p: Seq<u8>|
                    #[trigger] aes_gcm_seal(key@, nonce@, p) == Some(ciphertext@) ==> p
                        == plaintext@
            },
            None => {
                &&& aes_gcm_open(key@, nonce@, ciphertext@) is None
                &&& forall|p: Seq<u8>|
                    #[trigger] aes_gcm_seal(key@, nonce@, p) != Some(ciphertext@)
            },
        },
{
    let cipher = <aes_gcm::Aes256Gcm as aes_gcm::KeyInit>::new(key.into());
    aes_gcm::aead::Aead::decrypt(&cipher, nonce.into(), ciphertext).ok()
}

/// Draws bytes from the operating system's generator with
/// `rand::RngCore::fill_bytes` on `aes_gcm::aead::OsRng`. Nothing is
/// promised about the bytes.
#[verifier::external_body]
pub(crate) fn random_bytes<const N: usize>() -> [u8; N] {
    let mut bytes = [0u8; N];
    rand::RngCore::fill_bytes(&mut aes_gcm::aead::OsRng, &mut bytes);
    bytes
}

/// Hashes a password with `argon2::Argon2::default()` (`hash_password`)
/// under the salt as encoded by `SaltString::encode_b64`, and returns the
/// raw hash. The hash depends on password and salt alone. A salt of fewer
/// than three bytes encodes to a string that `hash_password` panics on, so
/// such a salt is not admitted.
#[verifier::external_body]
fn argon2_hash(password: &str, salt: &[u8]) -> (r: Option<Vec<u8>>)
    requires
        salt@.len() >= 3,
    ensures
        match r {
            Some(hash) => argon2id(password@, salt@) == Some(hash@),
            None => argon2id(password@, salt@) is None,
        },
{
    let salt = argon2::password_hash::SaltString::encode_b64(salt).ok()?;
    let hasher = argon2::Argon2::default();
    let hashed = argon2::PasswordHasher::hash_password(&hasher, password.as_bytes(), &salt).ok()?;
    Some(hashed.hash?.as_bytes().to_vec())
}

/// A ciphertext together with the nonce it was made under.
#[derive(Clone, Debug)]
pub struct EncryptedData {
    /// The nonce.
    pub nonce: AesNonce,
    /// The ciphertext, tag included.
    pub ciphertext: Vec<u8>,
}

impl EncryptedData {
    /// The wire form: the nonce, then the ciphertext.
    pub open spec fn framed(&self) -> Seq<u8> {
        self.nonce@ + self.ciphertext@
    }

    /// Serialises to the wire form.
    pub fn to_bytes(&self) -> (bytes: Vec<u8>)
        ensures
            bytes@ == self.framed(),
    {
        let mut bytes: Vec<u8> = Vec::new();
        let mut i: usize = 0;
        while i < 12
            invariant
                i <= 12,
                bytes@ == self.nonce@.subrange(0, i as int),
            decreases 12 - i,
        {
            bytes.push(self.nonce[i]);
            i += 1;
        }
        assert(self.nonce@.subrange(0, 12) == self.nonce@);
        let mut j: usize = 0;
        while j < self.ciphertext.len()
            invariant
                j <= self.ciphertext@.len(),
                bytes@ == self.nonce@ + self.ciphertext@.subrange(0, j as int),
            decreases self.ciphertext@.len() - j,
        {
            bytes.push(self.ciphertext[j]);
            j += 1;
        }
        assert(self.ciphertext@.subrange(0, j as int) == self.ciphertext@);
        bytes
    }

    /// Parses the wire form: the first twelve bytes are the nonce, the rest
    /// is the ciphertext. Fails with `CryptoIntegrity` on fewer than twelve
    /// bytes.
    pub fn from_bytes(bytes: &[u8]) -> (r: Result<EncryptedData, Error>)
        ensures
            match r {
                Ok(encrypted) => bytes@.len() >= 12 && encrypted.framed() == bytes@,
                Err(e) => bytes@.len() < 12 && e == Error::CryptoIntegrity,
            },
    {
        if bytes.len() < 12 {
            return Err(Error::CryptoIntegrity);
        }
        let mut nonce = [0u8; 12];
        let mut i: usize = 0;
        while i < 12
            invariant
                i <= 12,
                bytes@.len() >= 12,
                forall|k: int| 0 <= k < i ==> nonce@[k] == bytes@[k],
            decreases 12 - i,
        {
            nonce[i] = bytes[i];
            i += 1;
        }
        let mut ciphertext: Vec<u8> = Vec::new();
        let mut j: usize = 12;
        while j < bytes.len()
            invariant
                12 <= j <= bytes@.len(),
                ciphertext@ == bytes@.subrange(12, j as int),
            decreases bytes@.len() - j,
        {
            ciphertext.push(bytes[j]);
            j += 1;
        }
        let encrypted = EncryptedData { nonce, ciphertext };
        assert(encrypted.framed() =~= bytes@);
        Ok(encrypted)
    }
}

/// Encrypts and decrypts under one key.
pub struct CryptoEngine {
    key: Key,
}

impl CryptoEngine {
    /// The engine's key.
    pub closed spec fn key(&self) -> Seq<u8> {
        self.key@
    }

    /// An engine for the given key.
    pub fn new(key: Key) -> (engine: CryptoEngine)
        ensures
            engine.key() == key@,
    {
        CryptoEngine { key }
    }

    /// The key that a password and a salt derive: the SHA-256 digest of the
    /// password's Argon2id hash, where there is one. A salt of fewer than
    /// three bytes is too short to be encoded and derives no key.
    pub open spec fn derived_key(password: Seq<char>, salt: Seq<u8>) -> Option<Seq<u8>> {
        if salt.len() < 3 {
            None
        } else {
            match argon2id(password, salt) {
                Some(hash) => Some(sha256(hash)),
                None => None,
            }
        }
    }

    /// Derives a key from a password and a salt. The same password and salt
    /// always give the same key. Fails with `CryptoKdf` where the salt
    /// cannot be encoded or is refused.
    pub fn derive_key_from_password(password: &str, salt: &[u8]) -> (r: Result<Key, Error>)
        ensures
            match r {
                Ok(key) => Self::derived_key(password@, salt@) == Some(key@),
                Err(e) => e == Error::CryptoKdf && Self::derived_key(password@, salt@) is None,
            },
    {
        if salt.len() < 3 {
            return Err(Error::CryptoKdf);
        }
        match argon2_hash(password, salt) {
            Some(hashed) => Ok(*hash::Hash::from_data(hashed.as_slice()).as_bytes()),
            None => Err(Error::CryptoKdf),
        }
    }

    /// Draws a fresh random key.
    pub fn generate_key() -> Key {
        random_bytes::<32>()
    }

    /// Encrypts under a given nonce. Fails with `Other` where the cipher
    /// refuses the plaintext.
    pub fn encrypt_with_nonce(&self, nonce: AesNonce, plaintext: &[u8]) -> (r: Result<
        EncryptedData,
        Error,
    >)
        ensures
            match r {
                Ok(encrypted) => {
                    &&& encrypted.nonce == nonce
                    &&& aes_gcm_seal(self.key(), nonce@, plaintext@) == Some(encrypted.ciphertext@)
                    &&& encrypted.ciphertext@.len() == plaintext@.len() + 16
                },
                Err(e) => e == Error::Other && aes_gcm_seal(self.key(), nonce@, plaintext@) is None,
            },
    {
        match seal(&self.key, &nonce, plaintext) {
            Some(ciphertext) => Ok(EncryptedData { nonce, ciphertext }),
            None => Err(Error::Other),
        }
    }

    /// Encrypts under a fresh random nonce. Whatever nonce is drawn, the
    /// result carries it together with the ciphertext made under it; the
    /// call fails with `Other` where the cipher refuses the plaintext under
    /// the nonce drawn.
    pub fn encrypt(&self, plaintext: &[u8]) -> (r: Result<EncryptedData, Error>)
        ensures
            match r {
                Ok(encrypted) => {
                    &&& aes_gcm_seal(self.key(), encrypted.nonce@, plaintext@) == Some(
                        encrypted.ciphertext@,
                    )
                    &&& encrypted.ciphertext@.len() == plaintext@.len() + 16
                },
                Err(e) => e == Error::Other && exists|nonce: Seq<u8>|
                    nonce.len() == 12 && (#[trigger] aes_gcm_seal(self.key(), nonce, plaintext@))
                        is None,
            },
    {
        self.encrypt_with_nonce(random_bytes::<12>(), plaintext)
    }

    /// Decrypts. Fails with `CryptoIntegrity` where authentication fails.
    ///
    /// What this engine's key encrypted to `encrypted` under its nonce is
    /// what comes back.
    pub fn decrypt(&self, encrypted: &EncryptedData) -> (r: Result<Vec<u8>, Error>)
        ensures
            match r {
                Ok(plaintext) => aes_gcm_open(self.key(), encrypted.nonce@, encrypted.ciphertext@)
                    == Some(plaintext@),
                Err(e) => e == Error::CryptoIntegrity && aes_gcm_open(
                    self.key(),
                    encrypted.nonce@,
                    encrypted.ciphertext@,
                ) is None,
            },
            forall|plaintext: Seq<u8>|
                #![trigger aes_gcm_seal(self.key(), encrypted.nonce@, plaintext)]
                aes_gcm_seal(self.key(), encrypted.nonce@, plaintext) == Some(
                    encrypted.ciphertext@,
                ) ==> r is Ok && r.unwrap()@ == plaintext,
    {
        match open(&self.key, &encrypted.nonce, encrypted.ciphertext.as_slice()) {
            Some(plaintext) => Ok(plaintext),
            None => Err(Error::CryptoIntegrity),
        }
    }
}

} // verus!
