//! Base58 text.
//!
//! Base58 writes a byte sequence as a numeral of radix 58, in an alphabet
//! without the characters that are easily mistaken for one another. A zero
//! byte at the start of the sequence becomes one `1` at the start of the text.

use crate::error::{decoded_view, DecodeError};
use crate::numeral::{convert_radix, in_radix, lemma_convert_radix_round_trip};
use vstd::prelude::*;
use vstd::std_specs::iter::IteratorSpec;

verus! {

/// The characters that stand for the digits 0 to 57, in that order.
pub open spec fn alphabet() -> Seq<char> {
    "123456789ABCDEFGHJKLMNPQRSTUVWXYZabcdefghijkmnopqrstuvwxyz"@
}

/// `c` stands for a digit.
pub open spec fn is_base58_char(c: char) -> bool {
    alphabet().contains(c)
}

/// The character that stands for `digit`.
pub open spec fn digit_char(digit: u8) -> char {
    alphabet()[digit as int]
}

/// The digit that `c` stands for.
pub open spec fn char_digit(c: char) -> u8 {
    alphabet().index_of(c) as u8
}

/// Every character of `text` stands for a digit.
pub open spec fn is_base58(text: Seq<char>) -> bool {
    forall|i: int| 0 <= i < text.len() ==> is_base58_char(#[trigger] text[i])
}

/// The Base58 text of `bytes`.
pub open spec fn base58_encoding(bytes: Seq<u8>) -> Seq<char> {
    convert_radix(bytes, 256, 58).map_values(|digit: u8| digit_char(digit))
}

/// The bytes that a Base58 text stands for.
pub open spec fn base58_decoding(text: Seq<char>) -> Seq<u8> {
    convert_radix(text.map_values(|c: char| char_digit(c)), 58, 256)
}

/// `index` is the first place in `text` whose character stands for no digit.
pub open spec fn is_first_foreign(text: Seq<char>, index: int) -> bool {
    &&& 0 <= index < text.len()
    &&& !is_base58_char(text[index])
    &&& forall|i: int| 0 <= i < index ==> is_base58_char(#[trigger] text[i])
}

/// What decoding `text` gives: the bytes that it stands for, or the place of
/// its first character that stands for no digit.
pub open spec fn base58_decoded(text: Seq<char>) -> Result<Seq<u8>, DecodeError> {
    if is_base58(text) {
        Ok(base58_decoding(text))
    } else {
        Err(
            DecodeError::InvalidCharacter {
                index: (choose|index: int| is_first_foreign(text, index)) as usize,
            },
        )
    }
}

/// The place in the alphabet of the character with the given code, or -1:
/// the alphabet holds the digits `1` to `9`, the capital letters without `I`
/// and `O`, and the small letters without `l`.
pub open spec fn place(code: int) -> int {
    if 49 <= code <= 57 {
        code - 49
    } else if 65 <= code <= 72 {
        code - 56
    } else if 74 <= code <= 78 {
        code - 57
    } else if 80 <= code <= 90 {
        code - 58
    } else if 97 <= code <= 107 {
        code - 64
    } else if 109 <= code <= 122 {
        code - 65
    } else {
        -1
    }
}

/// `place` finds every character of the alphabet, and nothing else.
pub proof fn lemma_alphabet_places()
    ensures
        alphabet().len() == 58,
        forall|i: int| 0 <= i < 58 ==> place(#[trigger] alphabet()[i] as int) == i,
        forall|c: char| place(c as int) >= 0 ==> alphabet()[#[trigger] place(c as int)] == c,
{
    reveal_strlit("123456789ABCDEFGHJKLMNPQRSTUVWXYZabcdefghijkmnopqrstuvwxyz");
}

/// Whether `c` stands for a digit.
pub fn is_alphabet_char(c: char) -> (yes: bool)
    ensures
        yes == is_base58_char(c),
{
    proof {
        lemma_alphabet_places();
        if place(c as int) >= 0 {
            assert(alphabet()[place(c as int)] == c);
        }
    }
    ('1' <= c && c <= '9') || ('A' <= c && c <= 'H') || ('J' <= c && c <= 'N') || ('P' <= c && c
        <= 'Z') || ('a' <= c && c <= 'k') || ('m' <= c && c <= 'z')
}

/// Encoding and decoding are inverse to one another on digits.
pub proof fn lemma_digit_char_inverse()
    ensures
        forall|digit: u8|
            digit < 58 ==> is_base58_char(#[trigger] digit_char(digit)) && char_digit(
                digit_char(digit),
            ) == digit,
        forall|c: char|
            is_base58_char(c) ==> #[trigger] char_digit(c) < 58 && digit_char(char_digit(c)) == c,
{
    lemma_alphabet_places();
    assert forall|digit: u8| digit < 58 implies is_base58_char(#[trigger] digit_char(digit))
        && char_digit(digit_char(digit)) == digit by {
        let c = alphabet()[digit as int];
        let found = alphabet().index_of(c);
        assert(place(alphabet()[found] as int) == found);
    }
}

/// Decoding the Base58 text of a byte sequence gives the sequence again.
pub proof fn lemma_base58_round_trip(bytes: Seq<u8>)
    ensures
        is_base58(base58_encoding(bytes)),
        base58_decoding(base58_encoding(bytes)) == bytes,
{
    let digits = convert_radix(bytes, 256, 58);
    let text = base58_encoding(bytes);
    assert(in_radix(bytes, 256));
    lemma_convert_radix_round_trip(bytes, 256, 58);
    lemma_digit_char_inverse();
    assert forall|i: int| 0 <= i < text.len() implies is_base58_char(#[trigger] text[i]) by {
        assert(text[i] == digit_char(digits[i]));
        assert((digits[i] as nat) < 58);
    }
    assert(text.map_values(|c: char| char_digit(c)) == digits) by {
        let back = text.map_values(|c: char| char_digit(c));
        assert forall|i: int| 0 <= i < digits.len() implies back[i] == digits[i] by {
            assert(text[i] == digit_char(digits[i]));
            assert((digits[i] as nat) < 58);
        }
    }
}

/// Encoding the bytes that a Base58 text stands for gives the text again:
/// no two texts stand for the same bytes.
pub proof fn lemma_base58_text_round_trip(text: Seq<char>)
    requires
        is_base58(text),
    ensures
        base58_encoding(base58_decoding(text)) == text,
{
    let digits = text.map_values(|c: char| char_digit(c));
    lemma_digit_char_inverse();
    assert forall|i: int| 0 <= i < digits.len() implies (#[trigger] digits[i] as nat) < 58 by {
        assert(digits[i] == char_digit(text[i]));
        assert(is_base58_char(text[i]));
    }
    lemma_convert_radix_round_trip(digits, 58, 256);
    assert(digits.map_values(|digit: u8| digit_char(digit)) == text) by {
        let back = digits.map_values(|digit: u8| digit_char(digit));
        assert forall|i: int| 0 <= i < text.len() implies back[i] == text[i] by {
            assert(digits[i] == char_digit(text[i]));
            assert(is_base58_char(text[i]));
        }
    }
}

/// Calls `bs58::encode(..).into_string()`. Believed without proof: the
/// result is the Base58 text of `bytes` in the Bitcoin alphabet, which is the
/// default of bs58. Leading zero bytes become as many leading `1`, and the
/// rest is the shortest numeral of radix 58 for the number that the bytes
/// write in radix 256.
#[verifier::external_body]
fn bs58_encode(bytes: &[u8]) -> (text: String)
    ensures
        text@ == base58_encoding(bytes@),
{
    bs58::encode(bytes).into_string()
}

/// Calls `bs58::decode(..).into_vec()` on a text that holds characters of
/// the Bitcoin alphabet only. Believed without proof: on such a text the call
/// does not fail; leading `1` become as many leading zero bytes, and the rest
/// is the shortest numeral of radix 256 for the number that the text writes
/// in radix 58.
#[verifier::external_body]
fn bs58_decode(text: &str) -> (bytes: Vec<u8>)
    requires
        is_base58(text@),
    ensures
        bytes@ == base58_decoding(text@),
{
    bs58::decode(text).into_vec().unwrap()
}

/// The Base58 text of `bytes`.
pub fn encode(bytes: &[u8]) -> (text: String)
    ensures
        text@ == base58_encoding(bytes@),
{
    bs58_encode(bytes)
}

/// The bytes that `text` stands for, or the place of its first character
/// that stands for no digit.
pub fn decode(text: &str) -> (decoded: Result<Vec<u8>, DecodeError>)
    ensures
        decoded_view(decoded) == base58_decoded(text@),
{
    match first_foreign(text) {
        Some(index) => {
            assert(!is_base58_char(text@[index as int]));
            let ghost chosen = choose|i: int| is_first_foreign(text@, i);
            assert(is_first_foreign(text@, chosen));
            assert(chosen == index) by {
                if chosen < index {
                    assert(is_base58_char(text@[chosen]));
                }
                if index < chosen {
                    assert(is_base58_char(text@[index as int]));
                }
            }
            Err(DecodeError::InvalidCharacter { index })
        },
        None => Ok(bs58_decode(text)),
    }
}

/// The first place in `text` whose character stands for no digit.
pub fn first_foreign(text: &str) -> (found: Option<usize>)
    ensures
        match found {
            Some(index) => is_first_foreign(text@, index as int),
            None => is_base58(text@),
        },
{
    let total = text.unicode_len();
    let mut chars = text.chars();
    let mut index: usize = 0;
    while index < total
        invariant
            index <= total == text@.len(),
            chars.obeys_prophetic_iter_laws(),
            chars.remaining() == text@.skip(index as int),
            forall|i: int| 0 <= i < index ==> is_base58_char(#[trigger] text@[i]),
        decreases total - index,
    {
        assert(text@.skip(index as int)[0] == text@[index as int]);
        assert(text@.skip(index as int).drop_first() == text@.skip(index + 1));
        let c = chars.next().unwrap();
        if !is_alphabet_char(c) {
            return Some(index);
        }
        index = index + 1;
    }
    None
}

} // verus!
