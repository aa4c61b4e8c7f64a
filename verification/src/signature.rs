//! Detached signatures: their form, and their check against a payload and a
//! public key.
//!
//! A signature that cannot be read is an error. A signature that can be read
//! and does not fit the payload is an answer: `false`.

use crate::encoding::{decode_line, line_decoded, Encoding};
use crate::error::{FormatError, VerifyError};
use crate::keypair::{key_parsed, PublicKey, PUBLIC_KEY_LEN};
use vstd::prelude::*;
use vstd::slice::slice_to_vec;

verus! {

/// Number of bytes in a signature.
pub const SIGNATURE_LEN: usize = 64;

/// `bytes` have the form of a signature: their number, and the three
/// highest bits of the last byte clear.
pub open spec fn is_signature(bytes: Seq<u8>) -> bool {
    bytes.len() == SIGNATURE_LEN && bytes[SIGNATURE_LEN - 1] & 0xe0 == 0
}

/// What taking `bytes` for a signature gives.
pub open spec fn signature_checked(bytes: Seq<u8>) -> Result<Seq<u8>, FormatError> {
    if bytes.len() != SIGNATURE_LEN {
        Err(FormatError::Length { found: bytes.len() as usize })
    } else if bytes[SIGNATURE_LEN - 1] & 0xe0 != 0 {
        Err(FormatError::Unreduced)
    } else {
        Ok(bytes)
    }
}

/// What reading a line as a signature gives.
pub open spec fn signature_parsed(line: Seq<char>) -> Result<Seq<u8>, FormatError> {
    match line_decoded(line, Encoding::Base58) {
        Err(error) => Err(FormatError::Encoding(error)),
        Ok(bytes) => signature_checked(bytes),
    }
}

/// Whether Ed25519 accepts `signature` as one of `message` under
/// `public_key`. Nothing is proved of it but that equal arguments give equal
/// answers.
pub uninterp spec fn ed25519_accepts(
    signature: Seq<u8>,
    message: Seq<u8>,
    public_key: Seq<u8>,
) -> bool;

/// Calls `verify_detached` of sodiumoxide's `crypto::sign`, on a signature
/// and a public key given as bytes that `Signature::from_bytes` and
/// `PublicKey::from_slice` take. Believed without proof: the result is
/// Ed25519's answer for these bytes.
#[verifier::external_body]
fn ed25519_verify(signature: &[u8], message: &[u8], public_key: &[u8]) -> (accepted: bool)
    requires
        is_signature(signature@),
        public_key@.len() == PUBLIC_KEY_LEN,
    ensures
        accepted == ed25519_accepts(signature@, message@, public_key@),
{
    let signature = sodiumoxide::crypto::sign::Signature::from_bytes(signature).unwrap();
    let public_key = sodiumoxide::crypto::sign::PublicKey::from_slice(public_key).unwrap();
    sodiumoxide::crypto::sign::verify_detached(&signature, message, &public_key)
}

/// A detached signature: bytes in the form of one.
#[derive(Debug, PartialEq, Eq)]
pub struct Signature {
    bytes: Vec<u8>,
}

impl View for Signature {
    type V = Seq<u8>;

    closed spec fn view(&self) -> Seq<u8> {
        self.bytes@
    }
}

impl Signature {
    #[verifier::type_invariant]
    spec fn well_formed(self) -> bool {
        is_signature(self.bytes@)
    }

    /// The signature that consists of `bytes`, or why they are none.
    pub fn from_bytes(bytes: &[u8]) -> (checked: Result<Signature, FormatError>)
        ensures
            match checked {
                Ok(signature) => signature_checked(bytes@) == Ok::<Seq<u8>, FormatError>(
                    signature@,
                ),
                Err(error) => signature_checked(bytes@) == Err::<Seq<u8>, FormatError>(error),
            },
    {
        if bytes.len() != SIGNATURE_LEN {
            Err(FormatError::Length { found: bytes.len() })
        } else if bytes[SIGNATURE_LEN - 1] & 0xe0 != 0 {
            Err(FormatError::Unreduced)
        } else {
            Ok(Signature { bytes: slice_to_vec(bytes) })
        }
    }

    /// The signature that `line` holds, or why it holds none.
    pub fn from_line(line: &str) -> (parsed: Result<Signature, FormatError>)
        ensures
            match parsed {
                Ok(signature) => signature_parsed(line@) == Ok::<Seq<u8>, FormatError>(
                    signature@,
                ),
                Err(error) => signature_parsed(line@) == Err::<Seq<u8>, FormatError>(error),
            },
    {
        match decode_line(line, Encoding::Base58) {
            Err(error) => Err(FormatError::Encoding(error)),
            Ok(bytes) => Signature::from_bytes(bytes.as_slice()),
        }
    }

    /// The bytes of the signature.
    pub fn as_bytes(&self) -> (bytes: &[u8])
        ensures
            bytes@ == self@,
            is_signature(bytes@),
    {
        proof {
            use_type_invariant(self);
        }
        self.bytes.as_slice()
    }

    /// Whether this is a signature of `payload` under `public_key`.
    pub fn fits(&self, payload: &[u8], public_key: &PublicKey) -> (accepted: bool)
        ensures
            accepted == ed25519_accepts(self@, payload@, public_key@),
    {
        ed25519_verify(self.as_bytes(), payload, public_key.as_bytes())
    }
}

/// What checking the signature in one line against a payload and the public
/// key in another line gives. The signature is read first: where both lines
/// are malformed, the error is the signature's.
pub open spec fn verified(payload: Seq<u8>, signature: Seq<char>, public_key: Seq<char>) -> Result<
    bool,
    VerifyError,
> {
    match signature_parsed(signature) {
        Err(error) => Err(VerifyError::SignatureFormat(error)),
        Ok(signature_bytes) => match key_parsed(public_key, PUBLIC_KEY_LEN as nat) {
            Err(error) => Err(VerifyError::KeyFormat(error)),
            Ok(key_bytes) => Ok(ed25519_accepts(signature_bytes, payload, key_bytes)),
        },
    }
}

/// Checks the signature that the line `signature` holds against `payload`
/// and the public key that the line `public_key` holds.
pub fn verify(payload: &[u8], signature: &str, public_key: &str) -> (outcome: Result<
    bool,
    VerifyError,
>)
    ensures
        outcome == verified(payload@, signature@, public_key@),
{
    match Signature::from_line(signature) {
        Err(error) => Err(VerifyError::SignatureFormat(error)),
        Ok(signature) => match PublicKey::from_line(public_key) {
            Err(error) => Err(VerifyError::KeyFormat(error)),
            Ok(public_key) => Ok(signature.fits(payload, &public_key)),
        },
    }
}

} // verus!
