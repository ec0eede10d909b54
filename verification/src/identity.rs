//! The persisted identity and the authentication flow.
//!
//! An identity holds a randomized password-verification hash, a
//! dedicated key-derivation salt and a creation timestamp. It is
//! written once at initialization and read every session; reading and
//! writing the identity file is the embedding program's business, which
//! hands the record in here as plain values.

use vstd::prelude::*;
use vstd::utf8::encode_utf8;

use crate::crypto::{
    derive_key_from_password, derived_key_of, generate_salt, hash_password, password_matches,
    verified_of, verify_password, SecretKey,
};
use crate::errors::VaultError;
use crate::utils::{now_ts, secure_compare};
use vstd::slice::slice_to_vec;

verus! {

/// The persisted identity record.
pub struct Identity {
    /// Self-describing password-verification hash, with its own salt
    /// and algorithm parameters baked in.
    pub password_hash: String,
    /// The independent salt dedicated to key derivation.
    pub salt: Vec<u8>,
    pub created_at: i64,
}

impl Identity {
    /// The key-derivation salt has its full 32 bytes.
    pub open spec fn wf(&self) -> bool {
        self.salt@.len() == 32
    }

    /// Create a fresh identity for `password`: a randomized verifier
    /// and a freshly drawn key-derivation salt.
    pub fn new(password: &str) -> (r: Result<Identity, VaultError>)
        ensures
            r matches Ok(id) ==> id.wf() && password_matches(password@, id.password_hash@),
            encode_utf8(password@).len() <= 0xFFFF_FFFF ==> r is Ok,
    {
        let password_hash = match hash_password(password) {
            Ok(h) => h,
            Err(e) => {
                return Err(e);
            },
        };
        let salt_bytes = generate_salt();
        let salt = slice_to_vec(salt_bytes.as_slice());
        let created_at = now_ts();
        Ok(Identity { password_hash, salt, created_at })
    }

    /// Whether `password` matches the stored verifier; fails only on a
    /// verifier that cannot be parsed.
    pub fn verify_password(&self, password: &str) -> (r: Result<bool, VaultError>)
        ensures
            r matches Ok(b) ==> b == password_matches(password@, self.password_hash@),
            r matches Err(e) ==> e == VaultError::CorruptVault && verified_of(
                password@,
                self.password_hash@,
            ) is None,
            verified_of(password@, self.password_hash@) is Some ==> r is Ok,
            verified_of(password@, self.password_hash@) is None ==> r is Err,
    {
        verify_password(password, self.password_hash.as_str())
    }

    /// Check `password` against the verifier and, on success, derive
    /// the session key from it and the stored salt. A mismatch is
    /// `InvalidCredentials`; an unreadable verifier is `CorruptVault`.
    pub fn derive_key(&self, password: &str) -> (r: Result<SecretKey, VaultError>)
        ensures
            r matches Ok(k) ==> password_matches(password@, self.password_hash@) && k@
                == derived_key_of(password@, self.salt@) && k@.len() == 32,
            verified_of(password@, self.password_hash@) == Some(false) ==> (r matches Err(e)
                && e == VaultError::InvalidCredentials),
            verified_of(password@, self.password_hash@) is None ==> (r matches Err(e) && e
                == VaultError::CorruptVault),
            self.wf() && password_matches(password@, self.password_hash@) && encode_utf8(
                password@,
            ).len() <= 0xFFFF_FFFF ==> r is Ok,
    {
        match self.verify_password(password) {
            Ok(true) => derive_key_from_password(password, self.salt.as_slice()),
            Ok(false) => Err(VaultError::InvalidCredentials),
            Err(e) => Err(e),
        }
    }
}

/// The authentication flow: verify the supplied password against the
/// loaded identity and derive the session key from it. The key is
/// never stored; it exists only as this function's result.
pub fn authenticate(identity: &Identity, password: &str) -> (r: Result<SecretKey, VaultError>)
    ensures
        r matches Ok(k) ==> password_matches(password@, identity.password_hash@) && k@
            == derived_key_of(password@, identity.salt@) && k@.len() == 32,
        verified_of(password@, identity.password_hash@) == Some(false) ==> (r matches Err(e)
            && e == VaultError::InvalidCredentials),
        verified_of(password@, identity.password_hash@) is None ==> (r matches Err(e) && e
            == VaultError::CorruptVault),
        identity.wf() && password_matches(password@, identity.password_hash@) && encode_utf8(
            password@,
        ).len() <= 0xFFFF_FFFF ==> r is Ok,
{
    identity.derive_key(password)
}

/// The rule for an existing master password: at least 8 characters.
pub fn check_master_password(password: &str) -> (r: Result<(), VaultError>)
    ensures
        r is Ok <==> password@.len() >= 8,
        r matches Err(e) ==> e == VaultError::WeakPassword,
{
    if password.unicode_len() < 8 {
        Err(VaultError::WeakPassword)
    } else {
        Ok(())
    }
}

/// The rule for a new master password: at least 8 characters, and the
/// confirmation must repeat it exactly.
pub fn check_new_password(password: &str, confirm: &str) -> (r: Result<(), VaultError>)
    ensures
        r is Ok <==> password@.len() >= 8 && password@ == confirm@,
        password@.len() < 8 ==> (r matches Err(e) && e == VaultError::WeakPassword),
        password@.len() >= 8 && password@ != confirm@ ==> (r matches Err(e) && e
            == VaultError::PasswordMismatch),
{
    if password.unicode_len() < 8 {
        return Err(VaultError::WeakPassword);
    }
    if !secure_compare(password, confirm) {
        return Err(VaultError::PasswordMismatch);
    }
    Ok(())
}

/// Key determinism: deriving from the same password and the same salt
/// always yields the same key bytes — the derivation is a function of
/// its two inputs alone.
pub proof fn lemma_derive_key_deterministic(
    password: Seq<char>,
    salt: Seq<u8>,
    k1: Seq<u8>,
    k2: Seq<u8>,
)
    requires
        k1 == derived_key_of(password, salt),
        k2 == derived_key_of(password, salt),
    ensures
        k1 == k2,
{
}

} // verus!
