//! Content digests of byte streams under bounded memory, and the keeping of
//! Ed25519 signing keys as text.
//!
//! - `digest`: the SHA-512 digest of a source that is read chunk by chunk,
//!   and the state machine that the reading loop follows.
//! - `keypair`: key pairs, the two files that hold them, and the rule that
//!   an existing file is not overwritten unless asked for.
//! - `signature`: the check of a detached signature, which tells a
//!   signature that cannot be read from one that does not fit.
//! - `encoding`, `hex`, `base58`: the two ways of writing bytes as text, with
//!   the proof that each can be read back.
//! - `numeral`: numerals in any radix, on which Base58 rests.
//! - `error`: what can go wrong.
//!
//! Hashing, key generation and signature checking are done by sodiumoxide,
//! Base58 by bs58. What this library believes of them without proof is said
//! where they are called.

pub mod base58;
pub mod digest;
pub mod encoding;
pub mod error;
pub mod hex;
pub mod keypair;
pub mod numeral;
pub mod signature;
