//! Codec for account-bound encrypted save files: key derivation from an
//! account identifier, the container format with AES-256-CBC under zero
//! padding, and the per-file decisions of a directory transfer.

pub mod codec;
pub mod key_derivation;
pub mod transfer;
