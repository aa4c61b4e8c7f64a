use filesig::base58;
use filesig::encoding::{decode, decode_line, encode, encode_line, Encoding};
use filesig::error::DecodeError;
use filesig::hex;

#[test]
fn hexadecimal_text_of_known_bytes() {
    assert_eq!(hex::encode(&[]), "");
    assert_eq!(hex::encode(&[0x00]), "00");
    assert_eq!(hex::encode(&[0x0f, 0xf0]), "0ff0");
    assert_eq!(hex::encode(&[0xde, 0xad, 0xbe, 0xef]), "deadbeef");
    assert_eq!(
        hex::encode(&[0x01, 0x23, 0x45, 0x67, 0x89, 0xab, 0xcd, 0xef]),
        "0123456789abcdef"
    );
    assert_eq!(encode(&[0xff, 0x00, 0x7a], Encoding::Hex), "ff007a");
}

#[test]
fn hexadecimal_text_is_read_back() {
    assert_eq!(hex::decode(""), Ok(vec![]));
    assert_eq!(hex::decode("00"), Ok(vec![0]));
    assert_eq!(hex::decode("deadbeef"), Ok(vec![0xde, 0xad, 0xbe, 0xef]));
    assert_eq!(
        hex::decode("0123456789abcdef"),
        Ok(vec![0x01, 0x23, 0x45, 0x67, 0x89, 0xab, 0xcd, 0xef])
    );
    assert_eq!(decode("ff007a", Encoding::Hex), Ok(vec![0xff, 0x00, 0x7a]));
}

#[test]
fn hexadecimal_text_of_odd_length_is_refused() {
    assert_eq!(hex::decode("a"), Err(DecodeError::OddLength));
    assert_eq!(hex::decode("abc"), Err(DecodeError::OddLength));
}

#[test]
fn a_character_that_is_no_hexadecimal_digit_is_refused_with_its_place() {
    assert_eq!(hex::decode("zz"), Err(DecodeError::InvalidCharacter { index: 0 }));
    assert_eq!(hex::decode("abcg"), Err(DecodeError::InvalidCharacter { index: 3 }));
    assert_eq!(hex::decode("ab g"), Err(DecodeError::InvalidCharacter { index: 2 }));
    assert_eq!(hex::decode("abz"), Err(DecodeError::InvalidCharacter { index: 2 }));
    assert_eq!(hex::decode("a\n"), Err(DecodeError::InvalidCharacter { index: 1 }));
    assert_eq!(hex::decode("é0"), Err(DecodeError::InvalidCharacter { index: 0 }));
    assert_eq!(hex::decode("00é0"), Err(DecodeError::InvalidCharacter { index: 2 }));
    assert_eq!(hex::decode("0é0é"), Err(DecodeError::InvalidCharacter { index: 1 }));
}

#[test]
fn capital_hexadecimal_digits_are_refused() {
    assert_eq!(hex::decode("DEAD"), Err(DecodeError::InvalidCharacter { index: 0 }));
    assert_eq!(hex::decode("deAd"), Err(DecodeError::InvalidCharacter { index: 2 }));
}

#[test]
fn hexadecimal_digit_values() {
    assert_eq!(hex::digit_value('0'), Some(0));
    assert_eq!(hex::digit_value('9'), Some(9));
    assert_eq!(hex::digit_value('a'), Some(10));
    assert_eq!(hex::digit_value('f'), Some(15));
    assert_eq!(hex::digit_value('g'), None);
    assert_eq!(hex::digit_value('A'), None);
    assert_eq!(hex::digit_value('/'), None);
    assert_eq!(hex::digit_value(':'), None);
    assert_eq!(hex::digit_value('`'), None);
}

#[test]
fn base58_text_of_known_bytes() {
    assert_eq!(base58::encode(&[]), "");
    assert_eq!(base58::encode(&[0]), "1");
    assert_eq!(base58::encode(&[0, 0, 0]), "111");
    assert_eq!(base58::encode(&[57]), "z");
    assert_eq!(base58::encode(&[58]), "21");
    assert_eq!(base58::encode(&[0, 58]), "121");
    assert_eq!(base58::encode(&[0xff]), "5Q");
    assert_eq!(
        base58::encode(&[0x04, 0x30, 0x5e, 0x2b, 0x24, 0x73, 0xf0, 0x58]),
        "he11owor1d"
    );
    assert_eq!(base58::encode(b"hello world"), "StV1DL6CwTryKyV");
    assert_eq!(encode(b"hello world", Encoding::Base58), "StV1DL6CwTryKyV");
}

#[test]
fn base58_text_is_read_back() {
    assert_eq!(base58::decode(""), Ok(vec![]));
    assert_eq!(base58::decode("1"), Ok(vec![0]));
    assert_eq!(base58::decode("111"), Ok(vec![0, 0, 0]));
    assert_eq!(base58::decode("z"), Ok(vec![57]));
    assert_eq!(base58::decode("21"), Ok(vec![58]));
    assert_eq!(base58::decode("121"), Ok(vec![0, 58]));
    assert_eq!(base58::decode("5Q"), Ok(vec![0xff]));
    assert_eq!(
        base58::decode("he11owor1d"),
        Ok(vec![0x04, 0x30, 0x5e, 0x2b, 0x24, 0x73, 0xf0, 0x58])
    );
    assert_eq!(decode("StV1DL6CwTryKyV", Encoding::Base58), Ok(b"hello world".to_vec()));
}

#[test]
fn every_digit_of_base58_has_its_character() {
    let alphabet = "123456789ABCDEFGHJKLMNPQRSTUVWXYZabcdefghijkmnopqrstuvwxyz";
    assert_eq!(alphabet.len(), 58);
    for (digit, c) in alphabet.chars().enumerate() {
        if digit == 0 {
            continue;
        }
        assert_eq!(base58::encode(&[digit as u8]), c.to_string());
        assert_eq!(base58::decode(&c.to_string()), Ok(vec![digit as u8]));
        assert!(base58::is_alphabet_char(c));
    }
    assert!(base58::is_alphabet_char('1'));
    for c in ['0', 'I', 'O', 'l', ' ', '\n', '/', ':', '@', '[', '`', '{', 'é'] {
        assert!(!base58::is_alphabet_char(c), "{:?}", c);
    }
}

#[test]
fn a_character_outside_the_base58_alphabet_is_refused_with_its_place() {
    assert_eq!(
        base58::decode("hello world"),
        Err(DecodeError::InvalidCharacter { index: 2 })
    );
    assert_eq!(base58::decode("0"), Err(DecodeError::InvalidCharacter { index: 0 }));
    assert_eq!(base58::decode("abcI"), Err(DecodeError::InvalidCharacter { index: 3 }));
    assert_eq!(base58::decode("abO"), Err(DecodeError::InvalidCharacter { index: 2 }));
    assert_eq!(base58::decode("he11o\n"), Err(DecodeError::InvalidCharacter { index: 5 }));
    assert_eq!(base58::decode("he11o🇳🇿"), Err(DecodeError::InvalidCharacter { index: 5 }));
    assert_eq!(base58::decode("é11"), Err(DecodeError::InvalidCharacter { index: 0 }));
    assert_eq!(base58::first_foreign("he11o"), None);
    assert_eq!(base58::first_foreign("he1lo"), Some(3));
    assert_eq!(base58::first_foreign(""), None);
}

#[test]
fn decoding_inverts_encoding() {
    let mut samples: Vec<Vec<u8>> = vec![
        vec![],
        vec![0],
        vec![0, 0],
        vec![0, 1],
        vec![1, 0],
        vec![255; 40],
        vec![0; 40],
        (0..=255u8).collect(),
        (0..=255u8).rev().collect(),
    ];
    let mut state: u32 = 12345;
    for len in 0..70usize {
        let mut bytes = Vec::with_capacity(len);
        for _ in 0..len {
            state = state.wrapping_mul(1664525).wrapping_add(1013904223);
            bytes.push((state >> 24) as u8);
        }
        samples.push(bytes.clone());
        let mut padded = vec![0u8; len % 4];
        padded.extend_from_slice(&bytes);
        samples.push(padded);
    }
    for bytes in &samples {
        for encoding in [Encoding::Hex, Encoding::Base58] {
            let text = encode(bytes, encoding);
            assert_eq!(decode(&text, encoding).as_ref(), Ok(bytes), "{:?}", encoding);
            let line = encode_line(bytes, encoding);
            assert_eq!(line, format!("{}\n", text));
            assert_eq!(decode_line(&line, encoding).as_ref(), Ok(bytes));
            assert_eq!(decode_line(&text, encoding).as_ref(), Ok(bytes));
        }
    }
}

#[test]
fn encoding_inverts_decoding() {
    for text in ["", "1", "11", "1z", "z1", "he11owor1d", "StV1DL6CwTryKyV", "2", "zzzzzzzzzzzz"] {
        let bytes = base58::decode(text).unwrap();
        assert_eq!(base58::encode(&bytes), text);
    }
    for text in ["", "00", "0000", "00ff", "ff00", "0123456789abcdef"] {
        let bytes = hex::decode(text).unwrap();
        assert_eq!(hex::encode(&bytes), text);
    }
}

#[test]
fn a_line_is_the_text_and_a_newline() {
    assert_eq!(encode_line(b"hello world", Encoding::Base58), "StV1DL6CwTryKyV\n");
    assert_eq!(encode_line(&[0xde, 0xad], Encoding::Hex), "dead\n");
    assert_eq!(encode_line(&[], Encoding::Base58), "\n");
}

#[test]
fn a_line_is_read_with_or_without_its_newline() {
    assert_eq!(decode_line("StV1DL6CwTryKyV\n", Encoding::Base58), Ok(b"hello world".to_vec()));
    assert_eq!(decode_line("StV1DL6CwTryKyV", Encoding::Base58), Ok(b"hello world".to_vec()));
    assert_eq!(decode_line("dead\n", Encoding::Hex), Ok(vec![0xde, 0xad]));
    assert_eq!(decode_line("\n", Encoding::Hex), Ok(vec![]));
    assert_eq!(decode_line("", Encoding::Base58), Ok(vec![]));
}

#[test]
fn only_one_newline_at_the_end_is_no_part_of_the_text() {
    assert_eq!(
        decode_line("dead\n\n", Encoding::Hex),
        Err(DecodeError::InvalidCharacter { index: 4 })
    );
    assert_eq!(
        decode_line("de\nad\n", Encoding::Hex),
        Err(DecodeError::InvalidCharacter { index: 2 })
    );
    assert_eq!(
        decode_line("he11o\r\n", Encoding::Base58),
        Err(DecodeError::InvalidCharacter { index: 5 })
    );
    assert_eq!(decode_line("abc\n", Encoding::Hex), Err(DecodeError::OddLength));
}
