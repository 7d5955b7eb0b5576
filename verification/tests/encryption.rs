use sharesphere::codec::hex::HexError;
use sharesphere::peer::encryption::{decrypt, decrypt_bytes, encrypt, encrypt_with_nonce, EncryptionError};

const KEY: &str = "000102030405060708090a0b0c0d0e0f101112131415161718191a1b1c1d1e1f";
const OTHER_KEY: &str = "ff0102030405060708090a0b0c0d0e0f101112131415161718191a1b1c1d1e1f";
const ZERO_KEY: &str = "0000000000000000000000000000000000000000000000000000000000000000";

#[test]
fn what_is_encrypted_decrypts_to_the_same() {
    for message in [&b""[..], &b"a"[..], &b"Welcome to ShareSphere, peer 127.0.0.1:8080"[..], &[0u8, 255, 10, 58][..]] {
        let (nonce, ciphertext) = encrypt(message, KEY).unwrap();
        assert_eq!(decrypt(&nonce, &ciphertext, KEY).unwrap(), message);
    }
}

#[test]
fn nonce_and_ciphertext_are_lower_case_hex() {
    let (nonce, ciphertext) = encrypt(b"hello", KEY).unwrap();
    assert_eq!(nonce.len(), 24);
    assert_eq!(ciphertext.len(), 2 * (5 + 16));
    assert!(nonce.bytes().all(|b| b.is_ascii_digit() || (b'a'..=b'f').contains(&b)));
    assert!(ciphertext.bytes().all(|b| b.is_ascii_digit() || (b'a'..=b'f').contains(&b)));
}

#[test]
fn every_call_draws_a_fresh_nonce() {
    let (first, _) = encrypt(b"hello", KEY).unwrap();
    let (second, _) = encrypt(b"hello", KEY).unwrap();
    assert_ne!(first, second);
}

#[test]
fn sealing_under_a_given_nonce_is_aes_256_gcm() {
    let nonce = [0u8; 12];
    let (nonce_hex, ciphertext_hex) = encrypt_with_nonce(b"", ZERO_KEY, &nonce).unwrap();
    assert_eq!(nonce_hex, "000000000000000000000000");
    assert_eq!(ciphertext_hex, "530f8afbc74536b9a963b4f1c4cb738b");

    let (_, ciphertext_hex) = encrypt_with_nonce(&[0u8; 16], ZERO_KEY, &nonce).unwrap();
    assert_eq!(
        ciphertext_hex,
        "cea7403d4d606b6e074ec5d3baf39d18d0d1c8a799996bf0265b98b5d48ab919"
    );
    assert_eq!(
        decrypt("000000000000000000000000", &ciphertext_hex, ZERO_KEY).unwrap(),
        vec![0u8; 16]
    );
}

#[test]
fn upper_case_hex_is_read_too() {
    let (nonce, ciphertext) = encrypt(b"hello", KEY).unwrap();
    assert_eq!(
        decrypt(&nonce.to_uppercase(), &ciphertext.to_uppercase(), &KEY.to_uppercase()).unwrap(),
        b"hello"
    );
}

#[test]
fn a_tampered_ciphertext_does_not_authenticate() {
    let (nonce, ciphertext) = encrypt(b"hello", KEY).unwrap();
    let mut bytes = ciphertext.into_bytes();
    bytes[0] = if bytes[0] == b'0' { b'1' } else { b'0' };
    let tampered = String::from_utf8(bytes).unwrap();
    assert!(matches!(decrypt(&nonce, &tampered, KEY), Err(EncryptionError::AesGcmError)));
}

#[test]
fn another_key_does_not_open_the_message() {
    let (nonce, ciphertext) = encrypt(b"hello", KEY).unwrap();
    assert!(matches!(decrypt(&nonce, &ciphertext, OTHER_KEY), Err(EncryptionError::AesGcmError)));
}

#[test]
fn another_nonce_does_not_open_the_message() {
    let (_, ciphertext) = encrypt(b"hello", KEY).unwrap();
    assert!(matches!(
        decrypt("000000000000000000000000", &ciphertext, KEY),
        Err(EncryptionError::AesGcmError)
    ));
}

#[test]
fn a_ciphertext_shorter_than_its_tag_does_not_authenticate() {
    assert!(matches!(
        decrypt("000000000000000000000000", "00ff", KEY),
        Err(EncryptionError::AesGcmError)
    ));
    assert!(matches!(
        decrypt("000000000000000000000000", "", KEY),
        Err(EncryptionError::AesGcmError)
    ));
}

#[test]
fn a_key_of_the_wrong_length_is_refused_with_its_length() {
    match encrypt(b"hello", "0011") {
        Err(EncryptionError::InvalidKeyLength(message)) => {
            assert_eq!(message, "Expected 32 bytes, got 2 bytes")
        }
        other => panic!("{:?}", other),
    }
    match encrypt(b"hello", "") {
        Err(EncryptionError::InvalidKeyLength(message)) => {
            assert_eq!(message, "Expected 32 bytes, got 0 bytes")
        }
        other => panic!("{:?}", other),
    }
    match decrypt("000000000000000000000000", "00", "0011") {
        Err(EncryptionError::InvalidKeyLength(message)) => {
            assert_eq!(message, "Invalid key or nonce length: key 2 bytes, nonce 12 bytes")
        }
        other => panic!("{:?}", other),
    }
}

#[test]
fn a_nonce_of_the_wrong_length_is_refused_with_its_length() {
    match decrypt("0000", "00", KEY) {
        Err(EncryptionError::InvalidKeyLength(message)) => {
            assert_eq!(message, "Invalid key or nonce length: key 32 bytes, nonce 2 bytes")
        }
        other => panic!("{:?}", other),
    }
}

#[test]
fn text_that_is_not_hex_is_refused() {
    assert!(matches!(
        encrypt(b"hello", "xyz0"),
        Err(EncryptionError::HexDecodeError(HexError::InvalidHexCharacter { c: 'x', index: 0 }))
    ));
    assert!(matches!(
        encrypt(b"hello", "abc"),
        Err(EncryptionError::HexDecodeError(HexError::OddLength))
    ));
    assert!(matches!(
        decrypt("00zz", "00", KEY),
        Err(EncryptionError::HexDecodeError(HexError::InvalidHexCharacter { c: 'z', index: 2 }))
    ));
    assert!(matches!(
        decrypt("000000000000000000000000", "0g", KEY),
        Err(EncryptionError::HexDecodeError(HexError::InvalidHexCharacter { c: 'g', index: 1 }))
    ));
    assert!(matches!(
        decrypt("000000000000000000000000", "000", KEY),
        Err(EncryptionError::HexDecodeError(HexError::OddLength))
    ));
}

#[test]
fn the_key_is_read_before_the_nonce_and_the_nonce_before_the_ciphertext() {
    assert!(matches!(
        decrypt("0", "zz", "k0"),
        Err(EncryptionError::HexDecodeError(HexError::InvalidHexCharacter { c: 'k', index: 0 }))
    ));
    assert!(matches!(
        decrypt("0", "zz", KEY),
        Err(EncryptionError::HexDecodeError(HexError::OddLength))
    ));
    // An odd length is reported before a bad character.
    assert!(matches!(
        decrypt("00", "zzz", KEY),
        Err(EncryptionError::HexDecodeError(HexError::OddLength))
    ));
    // Hex errors come before length errors.
    assert!(matches!(
        decrypt("00", "zz", "0011"),
        Err(EncryptionError::HexDecodeError(HexError::InvalidHexCharacter { c: 'z', index: 0 }))
    ));
}

#[test]
fn bytes_and_strings_decrypt_alike() {
    let (nonce, ciphertext) = encrypt(b"hello", KEY).unwrap();
    assert_eq!(
        decrypt_bytes(nonce.as_bytes(), ciphertext.as_bytes(), KEY.as_bytes()).unwrap(),
        b"hello"
    );
}

#[test]
fn sealing_under_a_nonce_of_the_wrong_length_is_refused() {
    match encrypt_with_nonce(b"hello", KEY, &[0u8; 8]) {
        Err(EncryptionError::InvalidKeyLength(message)) => {
            assert_eq!(message, "Invalid key or nonce length: key 32 bytes, nonce 8 bytes")
        }
        other => panic!("{:?}", other),
    }
    // The key is looked at first.
    match encrypt_with_nonce(b"hello", "00", &[0u8; 8]) {
        Err(EncryptionError::InvalidKeyLength(message)) => {
            assert_eq!(message, "Expected 32 bytes, got 1 bytes")
        }
        other => panic!("{:?}", other),
    }
}
