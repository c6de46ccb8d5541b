//! Key derivation, sealing and randomness.
//!
//! The vault's key is derived from a password and a salt with a memory-hard
//! password hash, and the serialized snapshot is sealed with an
//! authenticated cipher under a fresh random nonce.  The outside calls stand
//! behind the trusted items of this module; everything around them is
//! verified against their contracts.
use vstd::prelude::*;

use chacha20poly1305::aead::{Aead, KeyInit};
use chacha20poly1305::{XChaCha20Poly1305, XNonce};

verus! {

/// The derived vault key for a password and salt.  The password hash is
/// deterministic: the same password and salt give the same key on every
/// machine.
pub uninterp spec fn derived_key_of(password: Seq<u8>, salt: Seq<u8>) -> Seq<u8>;

/// What unsealing yields for a key, nonce and sealed byte string; `None`
/// when the bytes are not an authentic sealing under that key and nonce.
/// Unsealing is deterministic in its three inputs.
pub uninterp spec fn opened_of(key: Seq<u8>, nonce: Seq<u8>, sealed: Seq<u8>) -> Option<Seq<u8>>;

/// The key length of the cipher.
pub const KEY_LEN: usize = 32;

/// The nonce length of the cipher.
pub const NONCE_LEN: usize = 24;

/// No plaintext of this length or more can be sealed: the cipher refuses
/// more than its maximum block count.
pub const SEAL_MAX: u64 = 274877906880;

/// Relies on Argon2::hash_password_into with default parameters: the output
/// is a function of the password and salt alone.  It fails when the salt is
/// shorter than its documented minimum of eight bytes, when password or
/// salt exceed the documented maximum length, or when the working memory
/// cannot be allocated.
#[verifier::external_body]
pub fn derive_key(password: &[u8], salt: &[u8]) -> (r: Option<Vec<u8>>)
    ensures
        match r {
            Some(k) => k@ == derived_key_of(password@, salt@) && k@.len() == KEY_LEN,
            None => true,
        },
        salt@.len() < 8 ==> r is None,
{
    let mut out = [0u8; 32];
    match argon2::Argon2::default().hash_password_into(password, salt, &mut out) {
        Ok(()) => Some(out.to_vec()),
        Err(_) => None,
    }
}

/// Relies on XChaCha20Poly1305::encrypt: seals the plaintext under the key
/// and nonce.  It fails exactly when the plaintext reaches the cipher's
/// maximum length; on success, unsealing the result with the same key and
/// nonce yields the plaintext again.
#[verifier::external_body]
pub fn aead_seal(key: &[u8], nonce: &[u8], plain: &[u8]) -> (r: Option<Vec<u8>>)
    requires
        key@.len() == KEY_LEN,
        nonce@.len() == NONCE_LEN,
    ensures
        match r {
            Some(c) => plain@.len() < SEAL_MAX && opened_of(key@, nonce@, c@) == Some(plain@)
                && c@.len() == plain@.len() + 16,
            None => plain@.len() >= SEAL_MAX,
        },
{
    let cipher = match XChaCha20Poly1305::new_from_slice(key) {
        Ok(c) => c,
        Err(_) => return None,
    };
    let n = match XNonce::try_from(nonce) {
        Ok(n) => n,
        Err(_) => return None,
    };
    cipher.encrypt(&n, plain).ok()
}

/// Relies on XChaCha20Poly1305::decrypt: unseals a sealed byte string.
/// The result is a function of key, nonce and input alone; inauthentic
/// input is rejected.
#[verifier::external_body]
pub fn aead_open(key: &[u8], nonce: &[u8], sealed: &[u8]) -> (r: Option<Vec<u8>>)
    requires
        key@.len() == KEY_LEN,
        nonce@.len() == NONCE_LEN,
    ensures
        match r {
            Some(p) => opened_of(key@, nonce@, sealed@) == Some(p@),
            None => opened_of(key@, nonce@, sealed@) is None,
        },
{
    let cipher = match XChaCha20Poly1305::new_from_slice(key) {
        Ok(c) => c,
        Err(_) => return None,
    };
    let n = match XNonce::try_from(nonce) {
        Ok(n) => n,
        Err(_) => return None,
    };
    cipher.decrypt(&n, sealed).ok()
}

/// Relies on getrandom::fill: fills a buffer with operating-system
/// randomness.  Nothing is promised of the contents; it fails only when the
/// operating system's randomness source does.
#[verifier::external_body]
pub fn random_bytes(n: usize) -> (r: Option<Vec<u8>>)
    ensures
        match r {
            Some(v) => v@.len() == n,
            None => true,
        },
{
    let mut v = vec![0u8; n];
    match getrandom::fill(&mut v) {
        Ok(()) => Some(v),
        Err(_) => None,
    }
}

} // verus!
