//! Lowercase hexadecimal text: two characters for each byte, the high half
//! of the byte first.

use crate::error::{decoded_view, DecodeError};
use vstd::prelude::*;
use vstd::std_specs::iter::IteratorSpec;

verus! {

/// The characters that stand for the values 0 to 15, in that order.
pub open spec fn hex_digits() -> Seq<char> {
    "0123456789abcdef"@
}

/// `c` is a hexadecimal digit in lower case.
pub open spec fn is_hex_char(c: char) -> bool {
    hex_digits().contains(c)
}

/// The character that stands for `value`.
pub open spec fn hex_char(value: u8) -> char {
    hex_digits()[value as int]
}

/// The value that `c` stands for.
pub open spec fn hex_value(c: char) -> u8 {
    hex_digits().index_of(c) as u8
}

/// Every character of `text` is a hexadecimal digit in lower case.
pub open spec fn is_hex(text: Seq<char>) -> bool {
    forall|i: int| 0 <= i < text.len() ==> is_hex_char(#[trigger] text[i])
}

/// `index` is the first place in `text` whose character is no hexadecimal
/// digit in lower case.
pub open spec fn is_first_non_hex(text: Seq<char>, index: int) -> bool {
    &&& 0 <= index < text.len()
    &&& !is_hex_char(text[index])
    &&& forall|i: int| 0 <= i < index ==> is_hex_char(#[trigger] text[i])
}

/// The hexadecimal text of `bytes`.
pub open spec fn hex_encoding(bytes: Seq<u8>) -> Seq<char> {
    Seq::new(
        2 * bytes.len(),
        |i: int|
            if i % 2 == 0 {
                hex_char(bytes[i / 2] / 16)
            } else {
                hex_char(bytes[i / 2] % 16)
            },
    )
}

/// The bytes that a hexadecimal text of even length stands for.
pub open spec fn hex_decoding(text: Seq<char>) -> Seq<u8> {
    Seq::new(
        text.len() / 2,
        |i: int| (16 * hex_value(text[2 * i]) + hex_value(text[2 * i + 1])) as u8,
    )
}

/// What decoding `text` gives: the bytes that it stands for; or the place of
/// its first character that is no hexadecimal digit in lower case; or, where
/// there is no such character, that the number of its characters is odd.
pub open spec fn hex_decoded(text: Seq<char>) -> Result<Seq<u8>, DecodeError> {
    if !is_hex(text) {
        Err(
            DecodeError::InvalidCharacter {
                index: (choose|index: int| is_first_non_hex(text, index)) as usize,
            },
        )
    } else if text.len() % 2 == 1 {
        Err(DecodeError::OddLength)
    } else {
        Ok(hex_decoding(text))
    }
}

/// The hexadecimal digits, by their codes: `0` to `9`, then `a` to `f`.
pub proof fn lemma_hex_digits()
    ensures
        hex_digits().len() == 16,
        forall|value: u8|
            value < 16 ==> is_hex_char(#[trigger] hex_char(value)) && hex_value(hex_char(value))
                == value && hex_char(value) as int == if value < 10 {
                48 + value
            } else {
                87 + value
            },
        forall|c: char|
            is_hex_char(c) <==> 48 <= c as int <= 57 || 97 <= c as int <= 102,
        forall|c: char|
            is_hex_char(c) ==> #[trigger] hex_value(c) < 16 && hex_char(hex_value(c)) == c,
{
    reveal_strlit("0123456789abcdef");
    let code = |value: int| if value < 10 { 48 + value } else { 87 + value };
    assert forall|i: int| 0 <= i < 16 implies #[trigger] hex_digits()[i] as int == code(i) by {}
    assert forall|value: u8| value < 16 implies is_hex_char(#[trigger] hex_char(value))
        && hex_value(hex_char(value)) == value && hex_char(value) as int == code(
        value as int,
    ) by {
        let found = hex_digits().index_of(hex_char(value));
        assert(hex_digits()[found] as int == code(found));
    }
    assert forall|c: char| 48 <= c as int <= 57 || 97 <= c as int <= 102 implies is_hex_char(
        c,
    ) by {
        let at = if c as int <= 57 { c as int - 48 } else { c as int - 87 };
        assert(hex_digits()[at] as int == code(at));
        assert(hex_digits()[at] == c);
    }
    assert forall|c: char| is_hex_char(c) implies 48 <= c as int <= 57 || 97 <= c as int
        <= 102 by {
        let found = hex_digits().index_of(c);
        assert(hex_digits()[found] as int == code(found));
    }
}

/// Decoding the hexadecimal text of a byte sequence gives the sequence
/// again.
pub proof fn lemma_hex_round_trip(bytes: Seq<u8>)
    ensures
        is_hex(hex_encoding(bytes)),
        hex_encoding(bytes).len() == 2 * bytes.len(),
        hex_decoding(hex_encoding(bytes)) == bytes,
{
    let text = hex_encoding(bytes);
    lemma_hex_digits();
    assert forall|i: int| 0 <= i < text.len() implies is_hex_char(#[trigger] text[i]) by {
        assert(bytes[i / 2] / 16 < 16 && bytes[i / 2] % 16 < 16);
    }
    assert forall|i: int| 0 <= i < bytes.len() implies hex_decoding(text)[i] == bytes[i] by {
        let byte = bytes[i];
        assert(text[2 * i] == hex_char(byte / 16));
        assert(text[2 * i + 1] == hex_char(byte % 16));
        assert(byte / 16 < 16 && byte % 16 < 16);
    }
    assert(hex_decoding(text) =~= bytes);
}

/// Encoding the bytes that a hexadecimal text stands for gives the text
/// again: no two texts stand for the same bytes.
pub proof fn lemma_hex_text_round_trip(text: Seq<char>)
    requires
        is_hex(text),
        text.len() % 2 == 0,
    ensures
        hex_encoding(hex_decoding(text)) == text,
{
    let bytes = hex_decoding(text);
    let back = hex_encoding(bytes);
    lemma_hex_digits();
    assert forall|i: int| 0 <= i < text.len() implies back[i] == text[i] by {
        let k = i / 2;
        let high = hex_value(text[2 * k]);
        let low = hex_value(text[2 * k + 1]);
        assert(is_hex_char(text[2 * k]) && is_hex_char(text[2 * k + 1]));
        assert(bytes[k] == 16 * high + low);
        assert(bytes[k] / 16 == high && bytes[k] % 16 == low);
    }
    assert(back =~= text);
}

/// The one character that stands for `value`, as a text.
fn digit_text(value: u8) -> (text: &'static str)
    requires
        value < 16,
    ensures
        text@ == seq![hex_char(value)],
{
    let digits: &'static str = "0123456789abcdef";
    proof {
        reveal_strlit("0123456789abcdef");
    }
    let from: usize = value as usize;
    digits.substring_char(from, from + 1)
}

/// The hexadecimal text of `bytes`.
pub fn encode(bytes: &[u8]) -> (text: String)
    ensures
        text@ == hex_encoding(bytes@),
{
    let mut text = String::new();
    let mut done: usize = 0;
    while done < bytes.len()
        invariant
            done <= bytes.len(),
            text@ == hex_encoding(bytes@.take(done as int)),
        decreases bytes.len() - done,
    {
        let byte = bytes[done];
        text.append(digit_text(byte / 16));
        text.append(digit_text(byte % 16));
        proof {
            let shorter = bytes@.take(done as int);
            let longer = bytes@.take(done + 1);
            assert forall|i: int| 0 <= i < text@.len() implies text@[i] == hex_encoding(
                longer,
            )[i] by {
                if i < 2 * done {
                    assert(text@[i] == hex_encoding(shorter)[i]);
                    assert(shorter[i / 2] == longer[i / 2]);
                }
            }
            assert(text@ =~= hex_encoding(longer));
        }
        done = done + 1;
    }
    assert(bytes@.take(done as int) == bytes@);
    text
}

/// The value that `c` stands for, if it is a hexadecimal digit in lower
/// case.
pub fn digit_value(c: char) -> (value: Option<u8>)
    ensures
        value is Some <==> is_hex_char(c),
        value matches Some(v) ==> v == hex_value(c),
{
    proof {
        lemma_hex_digits();
    }
    if '0' <= c && c <= '9' {
        let value: u8 = (c as u32 - '0' as u32) as u8;
        assert(hex_char(value) == c);
        Some(value)
    } else if 'a' <= c && c <= 'f' {
        let value: u8 = (c as u32 - 'a' as u32 + 10) as u8;
        assert(hex_char(value) == c);
        Some(value)
    } else {
        None
    }
}

/// The bytes that `text` stands for.
///
/// A character that is no hexadecimal digit in lower case is reported with
/// the place of the first such character; a text of digits only, but of odd
/// length, is reported as such.
pub fn decode(text: &str) -> (decoded: Result<Vec<u8>, DecodeError>)
    ensures
        decoded_view(decoded) == hex_decoded(text@),
{
    let total = text.unicode_len();
    let mut chars = text.chars();
    let mut bytes: Vec<u8> = Vec::new();
    let mut high: u8 = 0;
    let mut index: usize = 0;
    while index < total
        invariant
            index <= total == text@.len(),
            chars.obeys_prophetic_iter_laws(),
            chars.remaining() == text@.skip(index as int),
            forall|i: int| 0 <= i < index ==> is_hex_char(#[trigger] text@[i]),
            bytes@.len() == index / 2,
            forall|k: int|
                0 <= k < index / 2 ==> #[trigger] bytes@[k] == 16 * hex_value(text@[2 * k])
                    + hex_value(text@[2 * k + 1]),
            index % 2 == 1 ==> high == hex_value(text@[index - 1]),
        decreases total - index,
    {
        assert(text@.skip(index as int)[0] == text@[index as int]);
        assert(text@.skip(index as int).drop_first() == text@.skip(index + 1));
        proof {
            lemma_hex_digits();
        }
        let c = chars.next().unwrap();
        match digit_value(c) {
            Some(value) => {
                if index % 2 == 0 {
                    high = value;
                } else {
                    assert(high < 16) by {
                        assert(is_hex_char(text@[index - 1]));
                    }
                    bytes.push(high * 16 + value);
                }
            },
            None => {
                proof {
                    let chosen = choose|i: int| is_first_non_hex(text@, i);
                    assert(is_first_non_hex(text@, index as int));
                    if chosen < index {
                        assert(is_hex_char(text@[chosen]));
                    }
                    if index < chosen {
                        assert(is_hex_char(text@[index as int]));
                    }
                }
                return Err(DecodeError::InvalidCharacter { index });
            },
        }
        index = index + 1;
    }
    if total % 2 == 1 {
        Err(DecodeError::OddLength)
    } else {
        assert(bytes@ =~= hex_decoding(text@)) by {
            lemma_hex_digits();
            assert forall|k: int| 0 <= k < bytes@.len() implies bytes@[k] == hex_decoding(
                text@,
            )[k] by {
                assert(is_hex_char(text@[2 * k]) && is_hex_char(text@[2 * k + 1]));
            }
        }
        Ok(bytes)
    }
}

} // verus!
