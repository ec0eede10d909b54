//! Authenticated encryption and password-based key derivation.
//!
//! The cipher is AES-256-GCM; the key-derivation function is Argon2 with
//! its default parameters. Both run in outside crates, so their results
//! are described here by uninterpreted spec functions: `opened_of` is what
//! AEAD decryption yields, `derived_key_of` the derived key bytes, and
//! `verified_of` the outcome of checking a password against a stored
//! verifier string. Everything around those calls is verified against
//! these descriptions.

use aes_gcm::aead::{Aead, AeadCore, OsRng};
use aes_gcm::KeyInit;
use argon2::password_hash::{PasswordHash, SaltString};
use argon2::{PasswordHasher, PasswordVerifier};
use rand::RngCore;
use vstd::prelude::*;
use vstd::utf8::{decode_utf8, encode_utf8, valid_utf8};

use crate::errors::VaultError;

verus! {

/// What AES-256-GCM decryption yields for a key, nonce and ciphertext:
/// `None` when the integrity tag does not verify, otherwise the
/// authenticated plaintext bytes. A deterministic function of its
/// arguments.
pub uninterp spec fn opened_of(key: Seq<u8>, nonce: Seq<u8>, ciphertext: Seq<u8>) -> Option<
    Seq<u8>,
>;

/// The 32 key bytes that Argon2 derives from a password and a salt.
/// Deterministic: the same password and salt always give the same key.
pub uninterp spec fn derived_key_of(password: Seq<char>, salt: Seq<u8>) -> Seq<u8>;

/// The outcome of checking a password against a stored verifier string:
/// `None` when the verifier cannot be parsed, otherwise whether the
/// recomputed hash matches. A deterministic function of the two strings.
pub uninterp spec fn verified_of(password: Seq<char>, verifier: Seq<char>) -> Option<bool>;

/// Whether `verifier` authenticates `password`.
pub open spec fn password_matches(password: Seq<char>, verifier: Seq<char>) -> bool {
    verified_of(password, verifier) == Some(true)
}

/// The AEAD message-length bound of AES-GCM: longer plaintexts are
/// rejected by the cipher.
pub open spec fn aead_plaintext_max() -> int {
    0x10_0000_0000
}

/// The outcome of decrypting `ciphertext` under `key` and `nonce`:
/// a nonce that does not have the cipher's 96 bits, or a tag failure,
/// is `Decryption`; authenticated bytes that are not valid text are
/// `Encoding`; otherwise the decoded text comes back.
pub open spec fn decrypt_outcome(key: Seq<u8>, nonce: Seq<u8>, ciphertext: Seq<u8>) -> Result<
    Seq<char>,
    VaultError,
> {
    if nonce.len() != 12 {
        Err(VaultError::Decryption)
    } else {
        match opened_of(key, nonce, ciphertext) {
            None => Err(VaultError::Decryption),
            Some(b) => if valid_utf8(b) {
                Ok(decode_utf8(b))
            } else {
                Err(VaultError::Encoding)
            },
        }
    }
}

/// A 256-bit symmetric key, held only in memory for the session.
///
/// Destructor hooks sit outside what the verifier accepts, so the
/// overwrite-on-release discipline is an explicit call: the embedding
/// program calls [`SecretKey::clear`] once the key handle is no longer
/// needed. The crypto engine keeps its own working copy of the bytes
/// for the session's lifetime.
pub struct SecretKey([u8; 32]);

impl View for SecretKey {
    type V = Seq<u8>;

    closed spec fn view(&self) -> Seq<u8> {
        self.0@
    }
}

impl SecretKey {
    pub fn new(key: [u8; 32]) -> (r: Self)
        ensures
            r@ == key@,
    {
        SecretKey(key)
    }

    pub fn as_bytes(&self) -> (r: &[u8; 32])
        ensures
            r@ == self@,
    {
        &self.0
    }

    /// Overwrite the key bytes with zeroes before the handle is
    /// released.
    pub fn clear(&mut self)
        ensures
            forall|k: int| 0 <= k < final(self)@.len() ==> final(self)@[k] == 0,
    {
        self.0 = [0u8; 32];
    }
}

/// Ciphertext together with the nonce it was sealed under.
#[derive(Debug, Clone, PartialEq, Eq)]
pub struct EncryptedData {
    pub ciphertext: Vec<u8>,
    pub nonce: Vec<u8>,
}

impl EncryptedData {
    /// A copy with the same bytes.
    pub fn duplicate(&self) -> (r: Self)
        ensures
            r.ciphertext@ == self.ciphertext@,
            r.nonce@ == self.nonce@,
    {
        EncryptedData {
            ciphertext: vstd::slice::slice_to_vec(self.ciphertext.as_slice()),
            nonce: vstd::slice::slice_to_vec(self.nonce.as_slice()),
        }
    }
}

/// Relies on `aes_gcm::Aes256Gcm`: seals `plaintext` under `key` with a
/// fresh random 96-bit nonce from the operating system, appending the
/// 16-byte integrity tag to the ciphertext. The cipher rejects only
/// messages longer than its length bound; the sealed bytes open back
/// to the plaintext's UTF-8 encoding under the same key and nonce.
#[verifier::external_body]
fn aead_seal(key: &[u8; 32], plaintext: &str) -> (r: Result<EncryptedData, VaultError>)
    ensures
        r matches Ok(e) ==> e.nonce@.len() == 12 && opened_of(key@, e.nonce@, e.ciphertext@)
            == Some(encode_utf8(plaintext@)),
        r matches Ok(e) ==> e.ciphertext@.len() == encode_utf8(plaintext@).len() + 16,
        r matches Err(e) ==> e == VaultError::Encryption,
        encode_utf8(plaintext@).len() <= aead_plaintext_max() ==> r is Ok,
{
    let cipher = aes_gcm::Aes256Gcm::new(aes_gcm::Key::<aes_gcm::Aes256Gcm>::from_slice(key));
    let nonce = aes_gcm::Aes256Gcm::generate_nonce(&mut OsRng);
    match cipher.encrypt(&nonce, plaintext.as_bytes()) {
        Ok(ciphertext) => Ok(EncryptedData { ciphertext, nonce: nonce.to_vec() }),
        Err(_) => Err(VaultError::Encryption),
    }
}

/// Relies on `aes_gcm::Aes256Gcm`: opens `data` under `key`, failing
/// exactly when the integrity tag does not verify. The cipher's nonce
/// type holds exactly 96 bits, so the caller checks the length first.
#[verifier::external_body]
fn aead_open(key: &[u8; 32], data: &EncryptedData) -> (r: Result<Vec<u8>, VaultError>)
    requires
        data.nonce@.len() == 12,
    ensures
        r matches Ok(b) ==> opened_of(key@, data.nonce@, data.ciphertext@) == Some(b@),
        r matches Err(e) ==> e == VaultError::Decryption,
        opened_of(key@, data.nonce@, data.ciphertext@) is Some ==> r is Ok,
{
    let cipher = aes_gcm::Aes256Gcm::new(aes_gcm::Key::<aes_gcm::Aes256Gcm>::from_slice(key));
    let nonce = aes_gcm::Nonce::from_slice(&data.nonce);
    cipher.decrypt(nonce, data.ciphertext.as_ref()).map_err(|_| VaultError::Decryption)
}

/// Relies on `String::from_utf8`: succeeds exactly on valid UTF-8 and
/// returns the decoded text.
#[verifier::external_body]
fn utf8_to_string(bytes: Vec<u8>) -> (r: Result<String, VaultError>)
    ensures
        r matches Ok(s) ==> s@ == decode_utf8(bytes@),
        valid_utf8(bytes@) ==> r is Ok,
        !valid_utf8(bytes@) ==> r is Err,
        r matches Err(e) ==> e == VaultError::Encoding,
{
    String::from_utf8(bytes).map_err(|_| VaultError::Encoding)
}

/// Stateless authenticated encryption under one fixed key.
pub struct CryptoEngine {
    key: [u8; 32],
}

impl View for CryptoEngine {
    type V = Seq<u8>;

    closed spec fn view(&self) -> Seq<u8> {
        self.key@
    }
}

impl CryptoEngine {
    pub fn new(key: &SecretKey) -> (r: Self)
        ensures
            r@ == key@,
    {
        CryptoEngine { key: *key.as_bytes() }
    }

    /// Seal `plaintext` under this engine's key with a fresh random
    /// nonce. Fails only on a message longer than the cipher's length
    /// bound; on success the result opens back to `plaintext`.
    pub fn encrypt(&self, plaintext: &str) -> (r: Result<EncryptedData, VaultError>)
        ensures
            r matches Ok(e) ==> e.nonce@.len() == 12 && opened_of(self@, e.nonce@, e.ciphertext@)
                == Some(encode_utf8(plaintext@)),
            r matches Ok(e) ==> e.ciphertext@.len() == encode_utf8(plaintext@).len() + 16,
            r is Err ==> r == Err::<EncryptedData, VaultError>(VaultError::Encryption)
                && encode_utf8(plaintext@).len() > aead_plaintext_max(),
            encode_utf8(plaintext@).len() <= aead_plaintext_max() ==> r is Ok,
    {
        aead_seal(&self.key, plaintext)
    }

    /// Open `data` under this engine's key. Fails with `Decryption`
    /// exactly when the tag does not verify (wrong key, tampered
    /// ciphertext or nonce, truncated data), and with `Encoding` exactly
    /// when the authenticated bytes are not valid text; no plaintext is
    /// ever returned on failure.
    pub fn decrypt(&self, data: &EncryptedData) -> (r: Result<String, VaultError>)
        ensures
            r matches Ok(s) ==> decrypt_outcome(self@, data.nonce@, data.ciphertext@) == Ok::<
                Seq<char>,
                VaultError,
            >(s@),
            r matches Err(e) ==> decrypt_outcome(self@, data.nonce@, data.ciphertext@) == Err::<
                Seq<char>,
                VaultError,
            >(e),
    {
        if data.nonce.len() != 12 {
            return Err(VaultError::Decryption);
        }
        let bytes = match aead_open(&self.key, data) {
            Ok(bytes) => bytes,
            Err(e) => {
                return Err(e);
            },
        };
        utf8_to_string(bytes)
    }
}

/// Round trip: for every plaintext and key, what `encrypt` promises of
/// its result — that the ciphertext opens to the plaintext's UTF-8
/// encoding — makes `decrypt` under the same key return exactly that
/// plaintext.
pub proof fn lemma_encrypt_decrypt_round_trip(
    key: Seq<u8>,
    nonce: Seq<u8>,
    ciphertext: Seq<u8>,
    plaintext: Seq<char>,
)
    requires
        nonce.len() == 12,
        opened_of(key, nonce, ciphertext) == Some(encode_utf8(plaintext)),
    ensures
        decrypt_outcome(key, nonce, ciphertext) == Ok::<Seq<char>, VaultError>(plaintext),
{
    broadcast use vstd::utf8::encode_utf8_valid_utf8, vstd::utf8::encode_utf8_decode_utf8;

}

/// Relies on `argon2::Argon2::hash_password` with the default parameters:
/// deterministic in the password and salt, 32 output bytes; succeeds for
/// a 32-byte salt and any password within the algorithm's length bound.
#[verifier::external_body]
pub fn derive_key_from_password(password: &str, salt: &[u8]) -> (r: Result<SecretKey, VaultError>)
    ensures
        r matches Ok(k) ==> k@ == derived_key_of(password@, salt@) && k@.len() == 32,
        salt@.len() == 32 && encode_utf8(password@).len() <= 0xFFFF_FFFF ==> r is Ok,
{
    let argon2 = argon2::Argon2::default();
    let salt = SaltString::encode_b64(salt).map_err(|_| VaultError::CorruptVault)?;
    let password_hash = argon2.hash_password(password.as_bytes(), &salt).map_err(
        |_| VaultError::CorruptVault,
    )?;
    let hash_bytes = password_hash.hash.ok_or(VaultError::CorruptVault)?;
    if hash_bytes.len() < 32 {
        return Err(VaultError::CorruptVault);
    }
    let mut key = [0u8; 32];
    key.copy_from_slice(&hash_bytes.as_bytes()[..32]);
    Ok(SecretKey::new(key))
}

/// Relies on `argon2::Argon2::verify_password`: parses the verifier
/// string and recomputes the hash under the parameters and salt stored
/// in it; the outcome is a function of the two strings alone.
#[verifier::external_body]
pub fn verify_password(password: &str, hash_str: &str) -> (r: Result<bool, VaultError>)
    ensures
        r matches Ok(b) ==> verified_of(password@, hash_str@) == Some(b),
        r matches Err(e) ==> e == VaultError::CorruptVault,
        verified_of(password@, hash_str@) is Some ==> r is Ok,
        verified_of(password@, hash_str@) is None ==> r is Err,
{
    let parsed_hash = PasswordHash::new(hash_str).map_err(|_| VaultError::CorruptVault)?;
    let argon2 = argon2::Argon2::default();
    Ok(argon2.verify_password(password.as_bytes(), &parsed_hash).is_ok())
}

/// Relies on `argon2::Argon2::hash_password` with a salt freshly drawn
/// from the operating system: the returned verifier string embeds that
/// salt and the parameters, and checking the same password against it
/// succeeds. The result is randomized; only that much holds of every
/// outcome.
#[verifier::external_body]
pub fn hash_password(password: &str) -> (r: Result<String, VaultError>)
    ensures
        r matches Ok(h) ==> verified_of(password@, h@) == Some(true),
        encode_utf8(password@).len() <= 0xFFFF_FFFF ==> r is Ok,
{
    let salt = SaltString::generate(&mut OsRng);
    let argon2 = argon2::Argon2::default();
    let password_hash = argon2.hash_password(password.as_bytes(), &salt).map_err(
        |_| VaultError::CorruptVault,
    )?;
    Ok(password_hash.to_string())
}

/// Relies on `rand::rngs::OsRng`: 32 bytes drawn from the operating
/// system. Random; nothing holds of the value.
#[verifier::external_body]
pub fn generate_salt() -> (r: [u8; 32])
    ensures
        r@.len() == 32,
{
    let mut salt = [0u8; 32];
    rand::rngs::OsRng.fill_bytes(&mut salt);
    salt
}

} // verus!
