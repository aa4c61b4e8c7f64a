//! The two text encodings of byte sequences, and the one-line form in which
//! a key is kept: its encoding, then a newline.

use crate::base58;
use crate::base58::{
    base58_decoded, base58_encoding, lemma_base58_round_trip, lemma_base58_text_round_trip,
};
use crate::error::{decoded_view, DecodeError};
use crate::hex;
use crate::hex::{hex_decoded, hex_encoding, lemma_hex_round_trip, lemma_hex_text_round_trip};
use vstd::prelude::*;

verus! {

/// How bytes are written as text.
#[derive(Clone, Copy, Debug, PartialEq, Eq, Structural)]
pub enum Encoding {
    /// Two hexadecimal digits in lower case for each byte.
    Hex,
    /// Base58, the compact form.
    Base58,
}

/// The text of `bytes` in the given encoding.
pub open spec fn encoding_of(bytes: Seq<u8>, encoding: Encoding) -> Seq<char> {
    match encoding {
        Encoding::Hex => hex_encoding(bytes),
        Encoding::Base58 => base58_encoding(bytes),
    }
}

/// What decoding `text` from the given encoding gives.
pub open spec fn decoded(text: Seq<char>, encoding: Encoding) -> Result<Seq<u8>, DecodeError> {
    match encoding {
        Encoding::Hex => hex_decoded(text),
        Encoding::Base58 => base58_decoded(text),
    }
}

/// The line that holds `bytes`: their text, then a newline.
pub open spec fn line_of(bytes: Seq<u8>, encoding: Encoding) -> Seq<char> {
    encoding_of(bytes, encoding).push('\n')
}

/// `text` without the newline at its end, if it has one.
pub open spec fn without_newline(text: Seq<char>) -> Seq<char> {
    if text.len() > 0 && text.last() == '\n' {
        text.drop_last()
    } else {
        text
    }
}

/// What decoding a line gives: the newline at its end is no part of the
/// encoding, and may be missing.
pub open spec fn line_decoded(text: Seq<char>, encoding: Encoding) -> Result<
    Seq<u8>,
    DecodeError,
> {
    decoded(without_newline(text), encoding)
}

/// Decoding inverts encoding, in both encodings.
pub proof fn lemma_decode_inverts_encode(bytes: Seq<u8>, encoding: Encoding)
    ensures
        decoded(encoding_of(bytes, encoding), encoding) == Ok::<Seq<u8>, DecodeError>(bytes),
{
    match encoding {
        Encoding::Hex => {
            lemma_hex_round_trip(bytes);
            assert((2 * bytes.len()) % 2 == 0);
        },
        Encoding::Base58 => {
            lemma_base58_round_trip(bytes);
        },
    }
}

/// Encoding inverts decoding: a text that decodes is the one text of its
/// bytes.
pub proof fn lemma_encode_inverts_decode(text: Seq<char>, bytes: Seq<u8>, encoding: Encoding)
    requires
        decoded(text, encoding) == Ok::<Seq<u8>, DecodeError>(bytes),
    ensures
        encoding_of(bytes, encoding) == text,
{
    match encoding {
        Encoding::Hex => {
            lemma_hex_text_round_trip(text);
        },
        Encoding::Base58 => {
            lemma_base58_text_round_trip(text);
        },
    }
}

/// Decoding the line that holds a byte sequence gives the sequence again.
pub proof fn lemma_decode_inverts_encode_line(bytes: Seq<u8>, encoding: Encoding)
    ensures
        line_decoded(line_of(bytes, encoding), encoding) == Ok::<Seq<u8>, DecodeError>(bytes),
{
    let text = encoding_of(bytes, encoding);
    assert(text.push('\n').drop_last() == text);
    lemma_decode_inverts_encode(bytes, encoding);
}

/// The two texts of a byte sequence decode to the same bytes.
pub proof fn lemma_encodings_agree(bytes: Seq<u8>)
    ensures
        decoded(encoding_of(bytes, Encoding::Base58), Encoding::Base58) == decoded(
            encoding_of(bytes, Encoding::Hex),
            Encoding::Hex,
        ),
{
    lemma_decode_inverts_encode(bytes, Encoding::Base58);
    lemma_decode_inverts_encode(bytes, Encoding::Hex);
}

/// The text of `bytes` in the given encoding, from which `decode` gives
/// the bytes again.
pub fn encode(bytes: &[u8], encoding: Encoding) -> (text: String)
    ensures
        text@ == encoding_of(bytes@, encoding),
        decoded(text@, encoding) == Ok::<Seq<u8>, DecodeError>(bytes@),
{
    proof {
        lemma_decode_inverts_encode(bytes@, encoding);
    }
    match encoding {
        Encoding::Hex => hex::encode(bytes),
        Encoding::Base58 => base58::encode(bytes),
    }
}

/// The bytes that `text` stands for in the given encoding, or why it stands
/// for none.
pub fn decode(text: &str, encoding: Encoding) -> (outcome: Result<Vec<u8>, DecodeError>)
    ensures
        decoded_view(outcome) == decoded(text@, encoding),
{
    match encoding {
        Encoding::Hex => hex::decode(text),
        Encoding::Base58 => base58::decode(text),
    }
}

/// The line that holds `bytes`: their text, then a newline. From the line,
/// `decode_line` gives the bytes again.
pub fn encode_line(bytes: &[u8], encoding: Encoding) -> (line: String)
    ensures
        line@ == line_of(bytes@, encoding),
        line_decoded(line@, encoding) == Ok::<Seq<u8>, DecodeError>(bytes@),
{
    let mut line = encode(bytes, encoding);
    proof {
        reveal_strlit("\n");
        lemma_decode_inverts_encode_line(bytes@, encoding);
    }
    line.append("\n");
    assert(line@ =~= line_of(bytes@, encoding));
    line
}

/// The bytes that a line holds, with or without the newline at its end.
pub fn decode_line(line: &str, encoding: Encoding) -> (outcome: Result<Vec<u8>, DecodeError>)
    ensures
        decoded_view(outcome) == line_decoded(line@, encoding),
{
    let total = line.unicode_len();
    if total > 0 && line.get_char(total - 1) == '\n' {
        assert(line@.subrange(0, total - 1) == line@.drop_last());
        decode(line.substring_char(0, total - 1), encoding)
    } else {
        decode(line, encoding)
    }
}

} // verus!
