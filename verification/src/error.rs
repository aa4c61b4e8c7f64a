//! What can go wrong.

use vstd::prelude::*;

verus! {

/// Why a text is not the encoding of any byte sequence.
#[derive(Clone, Copy, Debug, PartialEq, Eq, Structural)]
pub enum DecodeError {
    /// The character at `index`, counted in characters from zero, is the
    /// first one that the encoding has no use for.
    InvalidCharacter { index: usize },
    /// Every character is a hexadecimal digit, but their number is odd.
    OddLength,
}

/// Why a text is not the line of a key or of a signature.
#[derive(Clone, Copy, Debug, PartialEq, Eq, Structural)]
pub enum FormatError {
    /// The text is no Base58.
    Encoding(DecodeError),
    /// The text is Base58, but of `found` bytes, which is not the length
    /// asked for.
    Length { found: usize },
    /// The bytes have the length of a signature, but one of the three
    /// highest bits of the last byte is set, as in no signature.
    Unreduced,
}

/// Why no key pair was generated.
#[derive(Clone, Copy, Debug, PartialEq, Eq, Structural)]
pub enum GenerateError {
    /// A key file exists already, and overwriting was not asked for.
    PreconditionFailed,
}

/// Why a signature could not be checked at all. A signature that was
/// checked and found wrong is no error.
#[derive(Clone, Copy, Debug, PartialEq, Eq, Structural)]
pub enum VerifyError {
    /// The text of the signature is malformed.
    SignatureFormat(FormatError),
    /// The text of the public key is malformed.
    KeyFormat(FormatError),
}

/// The outcome of a decoding, with the bytes as a sequence.
pub open spec fn decoded_view(decoded: Result<Vec<u8>, DecodeError>) -> Result<
    Seq<u8>,
    DecodeError,
> {
    match decoded {
        Ok(bytes) => Ok(bytes@),
        Err(error) => Err(error),
    }
}

} // verus!
