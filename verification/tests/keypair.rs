use filesig::encoding::{decode_line, Encoding};
use filesig::error::{DecodeError, FormatError, GenerateError};
use filesig::keypair::{
    check_overwrite, generate, parse_key, KeyPair, PublicKey, SecretKey, PUBLIC_KEY_FILE,
    PUBLIC_KEY_LEN, SECRET_KEY_FILE, SECRET_KEY_LEN, SEED_LEN,
};
use filesig::signature::verify;

#[test]
fn key_sizes_and_file_names() {
    assert_eq!(PUBLIC_KEY_LEN, 32);
    assert_eq!(SECRET_KEY_LEN, 64);
    assert_eq!(PUBLIC_KEY_LEN, sodiumoxide::crypto::sign::PUBLICKEYBYTES);
    assert_eq!(SECRET_KEY_LEN, sodiumoxide::crypto::sign::SECRETKEYBYTES);
    assert_eq!(SEED_LEN, 32);
    assert_eq!(SEED_LEN, sodiumoxide::crypto::sign::SEEDBYTES);
    assert_eq!(SEED_LEN + PUBLIC_KEY_LEN, SECRET_KEY_LEN);
    assert_eq!(PUBLIC_KEY_FILE, "key.pub");
    assert_eq!(SECRET_KEY_FILE, "key.sec");
}

#[test]
fn a_random_secret_key_is_a_seed_and_then_its_public_key() {
    sodiumoxide::init().unwrap();
    for _ in 0..8 {
        let pair = KeyPair::random();
        let secret = pair.secret.as_bytes();
        assert_eq!(&secret[SEED_LEN..], pair.public.as_bytes());
        let seed = sodiumoxide::crypto::sign::Seed::from_slice(&secret[..SEED_LEN]).unwrap();
        let (public_of_seed, secret_of_seed) = sodiumoxide::crypto::sign::keypair_from_seed(&seed);
        assert_eq!(public_of_seed.as_ref(), pair.public.as_bytes());
        assert_eq!(secret_of_seed.as_ref(), secret);
    }
}

#[test]
fn generated_files_hold_the_two_halves_of_one_pair() {
    sodiumoxide::init().unwrap();
    for _ in 0..8 {
        let files = generate(true, true, true).ok().unwrap();
        let public = PublicKey::from_line(&files.public).unwrap();
        let secret = SecretKey::from_line(&files.secret).unwrap();
        assert_eq!(&secret.as_bytes()[SEED_LEN..], public.as_bytes());
        let seed =
            sodiumoxide::crypto::sign::Seed::from_slice(&secret.as_bytes()[..SEED_LEN]).unwrap();
        let (public_of_seed, _) = sodiumoxide::crypto::sign::keypair_from_seed(&seed);
        assert_eq!(public_of_seed.as_ref(), public.as_bytes());
        let signing_key =
            sodiumoxide::crypto::sign::SecretKey::from_slice(secret.as_bytes()).unwrap();
        assert_eq!(signing_key.public_key().as_ref(), public.as_bytes());
    }
}

#[test]
fn the_halves_of_two_pairs_are_no_pair() {
    sodiumoxide::init().unwrap();
    let first = KeyPair::random();
    let second = KeyPair::random();
    assert_ne!(&second.secret.as_bytes()[SEED_LEN..], first.public.as_bytes());
    assert_ne!(&first.secret.as_bytes()[SEED_LEN..], second.public.as_bytes());
}

#[test]
fn an_existing_key_file_is_not_overwritten_unless_forced() {
    assert_eq!(check_overwrite(false, false, false), Ok(()));
    assert_eq!(check_overwrite(false, true, false), Err(GenerateError::PreconditionFailed));
    assert_eq!(check_overwrite(false, false, true), Err(GenerateError::PreconditionFailed));
    assert_eq!(check_overwrite(false, true, true), Err(GenerateError::PreconditionFailed));
    assert_eq!(check_overwrite(true, false, false), Ok(()));
    assert_eq!(check_overwrite(true, true, false), Ok(()));
    assert_eq!(check_overwrite(true, false, true), Ok(()));
    assert_eq!(check_overwrite(true, true, true), Ok(()));
}

#[test]
fn nothing_is_generated_over_existing_files() {
    sodiumoxide::init().unwrap();
    assert_eq!(generate(false, true, true).err(), Some(GenerateError::PreconditionFailed));
    assert_eq!(generate(false, true, false).err(), Some(GenerateError::PreconditionFailed));
    assert_eq!(generate(false, false, true).err(), Some(GenerateError::PreconditionFailed));
}

#[test]
fn generated_files_hold_keys_of_the_right_sizes() {
    sodiumoxide::init().unwrap();
    for (force, public_exists, secret_exists) in [
        (true, true, true),
        (true, false, true),
        (true, true, false),
        (true, false, false),
        (false, false, false),
    ] {
        let files = generate(force, public_exists, secret_exists).ok().unwrap();
        assert!(files.public.ends_with('\n'));
        assert!(files.secret.ends_with('\n'));
        assert_eq!(files.public.matches('\n').count(), 1);
        assert_eq!(files.secret.matches('\n').count(), 1);
        let public = decode_line(&files.public, Encoding::Base58).unwrap();
        let secret = decode_line(&files.secret, Encoding::Base58).unwrap();
        assert_eq!(public.len(), PUBLIC_KEY_LEN);
        assert_eq!(secret.len(), SECRET_KEY_LEN);
        assert_eq!(PublicKey::from_line(&files.public).unwrap().as_bytes(), &public[..]);
        assert_eq!(SecretKey::from_line(&files.secret).unwrap().as_bytes(), &secret[..]);
        assert_eq!(bs58::decode(files.public.trim_end()).into_vec().unwrap(), public);
        assert_eq!(bs58::decode(files.secret.trim_end()).into_vec().unwrap(), secret);
    }
}

#[test]
fn generated_keys_sign_and_verify() {
    sodiumoxide::init().unwrap();
    let files = generate(true, true, true).ok().unwrap();
    let secret = SecretKey::from_line(&files.secret).unwrap();
    let public = PublicKey::from_line(&files.public).unwrap();
    let signing_key = sodiumoxide::crypto::sign::SecretKey::from_slice(secret.as_bytes()).unwrap();
    assert_eq!(signing_key.public_key().as_ref(), public.as_bytes());
    let message = b"a sample message";
    let signature = sodiumoxide::crypto::sign::sign_detached(message, &signing_key);
    let signature_line = format!("{}\n", bs58::encode(signature.as_ref()).into_string());
    assert_eq!(verify(message, &signature_line, &files.public), Ok(true));
    assert_eq!(verify(b"another message", &signature_line, &files.public), Ok(false));
}

#[test]
fn each_generation_gives_another_pair() {
    sodiumoxide::init().unwrap();
    let first = generate(true, false, false).ok().unwrap();
    let second = generate(true, false, false).ok().unwrap();
    assert_ne!(first.public, second.public);
    assert_ne!(first.secret, second.secret);
    assert!(first != second);
}

#[test]
fn a_random_pair_has_keys_of_the_right_sizes() {
    sodiumoxide::init().unwrap();
    let pair = KeyPair::random();
    assert_eq!(pair.public.as_bytes().len(), PUBLIC_KEY_LEN);
    assert_eq!(pair.secret.as_bytes().len(), SECRET_KEY_LEN);
    assert_ne!(pair.public.as_bytes(), &[0u8; 32][..]);
    assert_ne!(pair.secret.as_bytes(), &[0u8; 64][..]);
    let files = pair.to_files();
    assert_eq!(files.public, pair.public.to_line());
    assert_eq!(files.secret, pair.secret.to_line());
    assert!(files == pair.to_files());
    assert_eq!(PublicKey::from_line(&files.public).unwrap(), pair.public);
    assert_eq!(SecretKey::from_line(&files.secret).unwrap().as_bytes(), pair.secret.as_bytes());
}

#[test]
fn a_key_is_made_of_the_right_number_of_bytes_only() {
    let bytes: Vec<u8> = (0..64u8).collect();
    assert_eq!(PublicKey::from_bytes(&bytes[..32]).unwrap().as_bytes(), &bytes[..32]);
    assert!(PublicKey::from_bytes(&bytes[..31]).is_none());
    assert!(PublicKey::from_bytes(&bytes[..33]).is_none());
    assert!(PublicKey::from_bytes(&bytes).is_none());
    assert_eq!(SecretKey::from_bytes(&bytes).unwrap().as_bytes(), &bytes[..]);
    assert!(SecretKey::from_bytes(&bytes[..63]).is_none());
    assert!(SecretKey::from_bytes(&bytes[..32]).is_none());
    assert!(SecretKey::from_bytes(&[]).is_none());
}

#[test]
fn the_line_of_a_key_is_its_base58_text_and_a_newline() {
    let zeros = PublicKey::from_bytes(&[0u8; 32]).unwrap();
    assert_eq!(zeros.to_line(), format!("{}\n", "1".repeat(32)));
    let bytes: Vec<u8> = (1..=32u8).collect();
    let key = PublicKey::from_bytes(&bytes).unwrap();
    let line = key.to_line();
    assert_eq!(line, format!("{}\n", bs58::encode(&bytes).into_string()));
    assert_eq!(PublicKey::from_line(&line), Ok(key));
    let bytes: Vec<u8> = (1..=64u8).collect();
    let key = SecretKey::from_bytes(&bytes).unwrap();
    let line = key.to_line();
    assert_eq!(line, format!("{}\n", bs58::encode(&bytes).into_string()));
    assert_eq!(SecretKey::from_line(&line).unwrap().as_bytes(), &bytes[..]);
}

#[test]
fn a_malformed_key_line_is_refused_with_the_reason() {
    assert_eq!(
        PublicKey::from_line("not base58!\n"),
        Err(FormatError::Encoding(DecodeError::InvalidCharacter { index: 3 }))
    );
    assert_eq!(PublicKey::from_line("\n"), Err(FormatError::Length { found: 0 }));
    assert_eq!(PublicKey::from_line("he11owor1d\n"), Err(FormatError::Length { found: 8 }));
    let long = bs58::encode([7u8; 64]).into_string();
    assert_eq!(PublicKey::from_line(&long), Err(FormatError::Length { found: 64 }));
    let short = bs58::encode([7u8; 32]).into_string();
    assert_eq!(
        SecretKey::from_line(&short).map(|_| ()),
        Err(FormatError::Length { found: 32 })
    );
    assert_eq!(
        SecretKey::from_line("0").map(|_| ()),
        Err(FormatError::Encoding(DecodeError::InvalidCharacter { index: 0 }))
    );
    assert_eq!(
        parse_key("he11owor1d", 8),
        Ok(vec![0x04, 0x30, 0x5e, 0x2b, 0x24, 0x73, 0xf0, 0x58])
    );
    assert_eq!(parse_key("he11owor1d\n", 7), Err(FormatError::Length { found: 8 }));
}
