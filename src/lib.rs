//! Precomputation of pairwise master keys: for every pair of a network name
//! and a candidate password, PBKDF2-HMAC-SHA256 with the network name as salt,
//! kept as the lowercase hex of its first sixteen bytes.
//!
//! - `kdf`: the derivation of one key.
//! - `hex`: lowercase hexadecimal text of bytes.
//! - `engine`: the units of work, one per network, and the result set that
//!   gathers their keys.
//! - `text`: the line format of the input lists and of the output.
//! - `error`: what can stop a run.

pub mod engine;
pub mod error;
pub mod hex;
pub mod kdf;
pub mod text;
