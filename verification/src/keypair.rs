//! Signing key pairs: their generation, and the two files that hold them.
//!
//! A key file holds one line: the Base58 text of the key, then a newline.
//! The two files of one generation hold the two halves of one pair: the
//! secret key is a seed followed by the public key that belongs to the seed.
//!
//! Keys are generated by sodiumoxide, which asks a program that uses threads
//! to call `sodiumoxide::init` once before it generates a key.

use crate::encoding::{decode_line, encode_line, line_decoded, line_of, Encoding};
use crate::error::{FormatError, GenerateError};
use vstd::prelude::*;
use vstd::slice::slice_to_vec;

verus! {

/// Number of bytes in a public key.
pub const PUBLIC_KEY_LEN: usize = 32;

/// Number of bytes in a secret key.
pub const SECRET_KEY_LEN: usize = 64;

/// Number of bytes in the seed from which a key pair is made. A secret key
/// is its seed, then its public key.
pub const SEED_LEN: usize = 32;

/// Name of the file that holds the public key.
pub const PUBLIC_KEY_FILE: &'static str = "key.pub";

/// Name of the file that holds the secret key.
pub const SECRET_KEY_FILE: &'static str = "key.sec";

/// What reading a line as a key of `len` bytes gives.
pub open spec fn key_parsed(line: Seq<char>, len: nat) -> Result<Seq<u8>, FormatError> {
    match line_decoded(line, Encoding::Base58) {
        Err(error) => Err(FormatError::Encoding(error)),
        Ok(bytes) => if bytes.len() == len {
            Ok(bytes)
        } else {
            Err(FormatError::Length { found: bytes.len() as usize })
        },
    }
}

/// The bytes that `line` holds, if they are `len` many.
pub fn parse_key(line: &str, len: usize) -> (parsed: Result<Vec<u8>, FormatError>)
    ensures
        match parsed {
            Ok(bytes) => key_parsed(line@, len as nat) == Ok::<Seq<u8>, FormatError>(bytes@),
            Err(error) => key_parsed(line@, len as nat) == Err::<Seq<u8>, FormatError>(error),
        },
{
    match decode_line(line, Encoding::Base58) {
        Err(error) => Err(FormatError::Encoding(error)),
        Ok(bytes) => {
            if bytes.len() == len {
                Ok(bytes)
            } else {
                Err(FormatError::Length { found: bytes.len() })
            }
        },
    }
}

/// The public half of a key pair: always `PUBLIC_KEY_LEN` bytes.
#[derive(Debug, PartialEq, Eq)]
pub struct PublicKey {
    bytes: Vec<u8>,
}

impl View for PublicKey {
    type V = Seq<u8>;

    closed spec fn view(&self) -> Seq<u8> {
        self.bytes@
    }
}

impl PublicKey {
    #[verifier::type_invariant]
    spec fn well_formed(self) -> bool {
        self.bytes@.len() == PUBLIC_KEY_LEN
    }

    /// The key that consists of `bytes`, if they are `PUBLIC_KEY_LEN` many.
    pub fn from_bytes(bytes: &[u8]) -> (key: Option<PublicKey>)
        ensures
            key is Some <==> bytes@.len() == PUBLIC_KEY_LEN,
            key matches Some(k) ==> k@ == bytes@,
    {
        if bytes.len() == PUBLIC_KEY_LEN {
            Some(PublicKey { bytes: slice_to_vec(bytes) })
        } else {
            None
        }
    }

    /// The bytes of the key.
    pub fn as_bytes(&self) -> (bytes: &[u8])
        ensures
            bytes@ == self@,
            bytes@.len() == PUBLIC_KEY_LEN,
    {
        proof {
            use_type_invariant(self);
        }
        self.bytes.as_slice()
    }

    /// The line that a key file holds for this key, from which `from_line`
    /// gives the key again.
    pub fn to_line(&self) -> (line: String)
        ensures
            line@ == line_of(self@, Encoding::Base58),
            key_parsed(line@, PUBLIC_KEY_LEN as nat) == Ok::<Seq<u8>, FormatError>(self@),
    {
        proof {
            use_type_invariant(self);
        }
        encode_line(self.bytes.as_slice(), Encoding::Base58)
    }

    /// The key that `line` holds.
    pub fn from_line(line: &str) -> (parsed: Result<PublicKey, FormatError>)
        ensures
            match parsed {
                Ok(key) => key_parsed(line@, PUBLIC_KEY_LEN as nat) == Ok::<Seq<u8>, FormatError>(
                    key@,
                ),
                Err(error) => key_parsed(line@, PUBLIC_KEY_LEN as nat) == Err::<
                    Seq<u8>,
                    FormatError,
                >(error),
            },
    {
        match parse_key(line, PUBLIC_KEY_LEN) {
            Ok(bytes) => Ok(PublicKey { bytes }),
            Err(error) => Err(error),
        }
    }
}

/// The secret half of a key pair: always `SECRET_KEY_LEN` bytes.
pub struct SecretKey {
    bytes: Vec<u8>,
}

impl View for SecretKey {
    type V = Seq<u8>;

    closed spec fn view(&self) -> Seq<u8> {
        self.bytes@
    }
}

impl SecretKey {
    #[verifier::type_invariant]
    spec fn well_formed(self) -> bool {
        self.bytes@.len() == SECRET_KEY_LEN
    }

    /// The key that consists of `bytes`, if they are `SECRET_KEY_LEN` many.
    pub fn from_bytes(bytes: &[u8]) -> (key: Option<SecretKey>)
        ensures
            key is Some <==> bytes@.len() == SECRET_KEY_LEN,
            key matches Some(k) ==> k@ == bytes@,
    {
        if bytes.len() == SECRET_KEY_LEN {
            Some(SecretKey { bytes: slice_to_vec(bytes) })
        } else {
            None
        }
    }

    /// The bytes of the key.
    pub fn as_bytes(&self) -> (bytes: &[u8])
        ensures
            bytes@ == self@,
            bytes@.len() == SECRET_KEY_LEN,
    {
        proof {
            use_type_invariant(self);
        }
        self.bytes.as_slice()
    }

    /// The line that a key file holds for this key, from which `from_line`
    /// gives the key again.
    pub fn to_line(&self) -> (line: String)
        ensures
            line@ == line_of(self@, Encoding::Base58),
            key_parsed(line@, SECRET_KEY_LEN as nat) == Ok::<Seq<u8>, FormatError>(self@),
    {
        proof {
            use_type_invariant(self);
        }
        encode_line(self.bytes.as_slice(), Encoding::Base58)
    }

    /// The key that `line` holds.
    pub fn from_line(line: &str) -> (parsed: Result<SecretKey, FormatError>)
        ensures
            match parsed {
                Ok(key) => key_parsed(line@, SECRET_KEY_LEN as nat) == Ok::<Seq<u8>, FormatError>(
                    key@,
                ),
                Err(error) => key_parsed(line@, SECRET_KEY_LEN as nat) == Err::<
                    Seq<u8>,
                    FormatError,
                >(error),
            },
    {
        match parse_key(line, SECRET_KEY_LEN) {
            Ok(bytes) => Ok(SecretKey { bytes }),
            Err(error) => Err(error),
        }
    }
}

/// A public key and a secret key. Those of `KeyPair::random` belong
/// together, as `is_key_pair` says.
pub struct KeyPair {
    pub public: PublicKey,
    pub secret: SecretKey,
}

/// What the two key files are to hold. It cannot be printed for debugging:
/// it holds the secret key.
#[derive(PartialEq, Eq)]
pub struct KeyFiles {
    /// The contents of `PUBLIC_KEY_FILE`.
    pub public: String,
    /// The contents of `SECRET_KEY_FILE`.
    pub secret: String,
}

/// The Ed25519 public key that belongs to a seed: the one that
/// `keypair_from_seed` of sodiumoxide's `crypto::sign` gives for it. Nothing
/// is proved of it but that equal seeds have equal public keys.
pub uninterp spec fn ed25519_public_key(seed: Seq<u8>) -> Seq<u8>;

/// `public` and `secret` are the two halves of one key pair: the secret key
/// is a seed followed by the public key, and the public key is the one that
/// belongs to that seed.
pub open spec fn is_key_pair(public: Seq<u8>, secret: Seq<u8>) -> bool {
    &&& public.len() == PUBLIC_KEY_LEN
    &&& secret.len() == SECRET_KEY_LEN
    &&& secret.subrange(SEED_LEN as int, SECRET_KEY_LEN as int) == public
    &&& public == ed25519_public_key(secret.subrange(0, SEED_LEN as int))
}

/// Calls `gen_keypair` of sodiumoxide's `crypto::sign`, which draws a random
/// seed and makes the Ed25519 key pair of that seed, and gives the bytes of
/// the public key and those of the secret key. Believed without proof: they
/// are 32 and 64 bytes; the secret key is the seed followed by the public
/// key; and the public key is the one that belongs to the seed. Nothing is
/// said of which seed it is: no two calls need agree.
#[verifier::external_body]
fn gen_keypair() -> (keys: (Vec<u8>, Vec<u8>))
    ensures
        keys.0@.len() == PUBLIC_KEY_LEN,
        keys.1@.len() == SECRET_KEY_LEN,
        keys.1@.subrange(32, 64) == keys.0@,
        keys.0@ == ed25519_public_key(keys.1@.subrange(0, 32)),
{
    let (public, secret) = sodiumoxide::crypto::sign::gen_keypair();
    (public.as_ref().to_vec(), secret.as_ref().to_vec())
}

impl KeyPair {
    /// A new random key pair. Both keys come from one call of the generator,
    /// so that they are the two halves of one pair.
    pub fn random() -> (pair: KeyPair)
        ensures
            is_key_pair(pair.public@, pair.secret@),
    {
        let (public, secret) = gen_keypair();
        KeyPair { public: PublicKey { bytes: public }, secret: SecretKey { bytes: secret } }
    }

    /// What the two key files are to hold for this pair: the line of each
    /// key, from which the key is read back.
    pub fn to_files(&self) -> (files: KeyFiles)
        ensures
            files.public@ == line_of(self.public@, Encoding::Base58),
            files.secret@ == line_of(self.secret@, Encoding::Base58),
            key_parsed(files.public@, PUBLIC_KEY_LEN as nat) == Ok::<Seq<u8>, FormatError>(
                self.public@,
            ),
            key_parsed(files.secret@, SECRET_KEY_LEN as nat) == Ok::<Seq<u8>, FormatError>(
                self.secret@,
            ),
    {
        KeyFiles { public: self.public.to_line(), secret: self.secret.to_line() }
    }
}

/// Generation is refused: a key file exists, and overwriting was not asked
/// for.
pub open spec fn overwrite_refused(force: bool, public_exists: bool, secret_exists: bool) -> bool {
    !force && (public_exists || secret_exists)
}

/// Decides, before any key is made, whether a key pair may be generated.
pub fn check_overwrite(force: bool, public_exists: bool, secret_exists: bool) -> (verdict: Result<
    (),
    GenerateError,
>)
    ensures
        verdict is Err <==> overwrite_refused(force, public_exists, secret_exists),
        verdict is Err ==> verdict == Err::<(), GenerateError>(GenerateError::PreconditionFailed),
{
    if !force && (public_exists || secret_exists) {
        Err(GenerateError::PreconditionFailed)
    } else {
        Ok(())
    }
}

/// Generates a key pair and gives what the two key files are to hold, given
/// which of the files exist already.
///
/// Where a file exists and `force` is not set, nothing is generated and
/// nothing is to be written. Else the files hold the two halves of one new
/// pair: read back, the lines give a public key and the secret key that it
/// belongs to.
pub fn generate(force: bool, public_exists: bool, secret_exists: bool) -> (outcome: Result<
    KeyFiles,
    GenerateError,
>)
    ensures
        outcome is Err <==> overwrite_refused(force, public_exists, secret_exists),
        outcome matches Err(error) ==> error == GenerateError::PreconditionFailed,
        outcome matches Ok(files) ==> {
            &&& key_parsed(files.public@, PUBLIC_KEY_LEN as nat) matches Ok(public)
            &&& files.public@ == line_of(public, Encoding::Base58)
            &&& key_parsed(files.secret@, SECRET_KEY_LEN as nat) matches Ok(secret)
            &&& files.secret@ == line_of(secret, Encoding::Base58)
            &&& is_key_pair(public, secret)
        },
{
    match check_overwrite(force, public_exists, secret_exists) {
        Err(error) => Err(error),
        Ok(()) => {
            let pair = KeyPair::random();
            Ok(pair.to_files())
        },
    }
}

} // verus!
