//! The error taxonomy of the vault.
use vstd::prelude::*;

verus! {

/// Every failure that can cross the vault's boundary.
///
/// Low-level codec and crypto failures are wrapped into these kinds before
/// they reach a caller; no raw error of an underlying library escapes.
#[derive(Clone, Copy, Debug, PartialEq, Eq, Structural)]
pub enum VaultError {
    /// The vault was never opened and no remembered context exists.
    NotInitialized,
    /// The key could not be derived from the password and salt.
    KeyDerivationFailed,
    /// The snapshot blob exists but fails to decrypt or parse.
    Corrupt,
    /// An entry or account that an operation requires is absent.
    NotFound,
    /// Stored bytes are not valid text or JSON where the operation expects it.
    EncodingError,
    /// Sealing the snapshot failed: no randomness was available or the
    /// serialized snapshot is too long for the cipher.
    CryptoFailed,
}

impl VaultError {
    /// A human-readable message for the user-facing layer.
    pub fn message(&self) -> &'static str {
        match self {
            VaultError::NotInitialized => "vault is not initialized",
            VaultError::KeyDerivationFailed => "failed to derive the vault key",
            VaultError::Corrupt => "vault snapshot is corrupted",
            VaultError::NotFound => "requested entry was not found",
            VaultError::EncodingError => "stored bytes are not valid text",
            VaultError::CryptoFailed => "failed to seal the vault snapshot",
        }
    }
}

} // verus!
