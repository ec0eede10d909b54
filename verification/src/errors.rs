//! The error taxonomy of the vault.

use vstd::prelude::*;

verus! {

/// Everything that can go wrong inside the store.
///
/// `Validation` covers bad names, values and duration strings;
/// `WeakPassword` and `PasswordMismatch` are the preconditions of
/// creating an identity; `InvalidCredentials` is a wrong master
/// password; `MissingVault` and `AlreadyInitialized` are state
/// preconditions; `CorruptVault` is a persisted record that cannot be
/// read back; `Decryption` is an authentication-tag failure;
/// `Encoding` is decrypted bytes that are not valid text; `NotFound`
/// is an operation on a secret that does not exist; `Encryption` and
/// `Io` surface failures of the cipher and of the filesystem.
#[derive(Clone, Copy, Debug, PartialEq, Eq, Structural)]
pub enum VaultError {
    Validation,
    WeakPassword,
    PasswordMismatch,
    InvalidCredentials,
    MissingVault,
    AlreadyInitialized,
    CorruptVault,
    Decryption,
    Encoding,
    NotFound,
    Encryption,
    Io,
}

impl VaultError {
    /// A short human-readable description, for the embedding program.
    pub fn message(&self) -> &'static str {
        match self {
            VaultError::Validation => "invalid input",
            VaultError::WeakPassword => "password must be at least 8 characters long",
            VaultError::PasswordMismatch => "passwords do not match",
            VaultError::InvalidCredentials => "invalid password",
            VaultError::MissingVault => "vault not initialized",
            VaultError::AlreadyInitialized => "vault already initialized",
            VaultError::CorruptVault => "vault data is corrupt",
            VaultError::Decryption => "decryption failed",
            VaultError::Encoding => "decrypted data is not valid text",
            VaultError::NotFound => "secret not found",
            VaultError::Encryption => "encryption failed",
            VaultError::Io => "filesystem failure",
        }
    }
}

} // verus!
