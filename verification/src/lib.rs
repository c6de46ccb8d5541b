//! An encrypted credential vault: a password-derived-key, snapshot-persisted,
//! namespaced key-value store for per-account authentication material and
//! small pieces of launcher metadata.
//!
//! The vault keeps a decrypted snapshot in memory; persistence is a single
//! encrypted blob.  Disk traffic is modelled by [`vault::BlobSlot`], a value
//! holding the bytes of the blob file: the embedding application reads the
//! file into a slot before calling in, and writes the slot back out after.
pub mod accounts;
pub mod assoc;
pub mod codec;
pub mod crypto;
pub mod decimal;
pub mod jsonidx;
pub mod laws;
pub mod namespace;
pub mod snapshot;
pub mod errors;
pub mod types;
pub mod vault;
