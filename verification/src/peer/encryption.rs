//! Authenticated encryption of messages under a pre-shared key.
//!
//! The key travels as 64 hexadecimal digits; a message is sealed with
//! AES-256-GCM under a fresh 12-byte nonce, and nonce and ciphertext are
//! handed out as hexadecimal text.

use crate::codec::decimal::{decimal_digits, lemma_decimal_digits_shape, render_decimal};
use crate::codec::hex::{
    hex_decode, hex_decoded, hex_encode, hex_text, lemma_hex_round_trip, HexError,
};
use crate::codec::text::{ascii_text, is_ascii_bytes};
use aes_gcm::aead::{Aead, KeyInit};
use rand::RngCore;
use vstd::prelude::*;
use vstd::string::*;
use vstd::utf8::{decode_utf8, encode_utf8, encode_utf8_decode_utf8};

verus! {

/// Number of bytes in a key.
pub const KEY_LENGTH: usize = 32;

/// Number of bytes in a nonce.
pub const NONCE_LENGTH: usize = 12;

/// The longest message, in bytes, that can be sealed.
pub const MAX_MESSAGE_LENGTH: u64 = 0x10_0000_0000;

/// Why a message could not be sealed or opened.
#[derive(Debug)]
pub enum EncryptionError {
    /// The key, the nonce or the ciphertext is not hexadecimal text.
    HexDecodeError(HexError),
    /// The key is not 32 bytes long or the nonce is not 12, with a message
    /// that gives the lengths found.
    InvalidKeyLength(String),
    /// The cipher refused: the ciphertext does not authenticate under the
    /// key and nonce, or the message is too long to seal.
    AesGcmError,
}

/// An `EncryptionError` as a mathematical value.
pub enum Failure {
    /// Not hexadecimal text.
    HexDecode(HexError),
    /// A wrong length, with the message.
    InvalidKeyLength(Seq<char>),
    /// The cipher refused.
    AesGcm,
}

impl View for EncryptionError {
    type V = Failure;

    open spec fn view(&self) -> Failure {
        match self {
            EncryptionError::HexDecodeError(e) => Failure::HexDecode(*e),
            EncryptionError::InvalidKeyLength(message) => Failure::InvalidKeyLength(message@),
            EncryptionError::AesGcmError => Failure::AesGcm,
        }
    }
}

/// The ciphertext, tag included, that `Aes256Gcm::encrypt` gives for a key, a
/// nonce and a message without associated data; `None` where it refuses.
pub uninterp spec fn aes_gcm_sealed(key: Seq<u8>, nonce: Seq<u8>, message: Seq<u8>) -> Option<
    Seq<u8>,
>;

/// The message that `Aes256Gcm::decrypt` gives for a key, a nonce and a
/// ciphertext without associated data; `None` where authentication fails.
pub uninterp spec fn aes_gcm_opened(key: Seq<u8>, nonce: Seq<u8>, ciphertext: Seq<u8>) -> Option<
    Seq<u8>,
>;

/// The bytes of an optional byte string.
pub open spec fn bytes_in(r: Option<Vec<u8>>) -> Option<Seq<u8>> {
    match r {
        Some(v) => Some(v@),
        None => None,
    }
}

/// `Aes256Gcm::new_from_slice` and `Aead::encrypt`: seals a message.
/// Trusted to be a function of key, nonce and message, to accept every
/// message of at most `MAX_MESSAGE_LENGTH` bytes, and to give a ciphertext
/// that `Aead::decrypt` opens to the message under the same key and nonce.
#[verifier::external_body]
pub(crate) fn aes_gcm_encrypt(key: &[u8], nonce: &[u8], message: &[u8]) -> (r: Option<Vec<u8>>)
    requires
        key@.len() == KEY_LENGTH,
        nonce@.len() == NONCE_LENGTH,
    ensures
        bytes_in(r) == aes_gcm_sealed(key@, nonce@, message@),
        message@.len() <= MAX_MESSAGE_LENGTH ==> r is Some,
        r matches Some(ciphertext) ==> aes_gcm_opened(key@, nonce@, ciphertext@) == Some(message@),
{
    let cipher = match aes_gcm::Aes256Gcm::new_from_slice(key) {
        Ok(cipher) => cipher,
        Err(_) => return None,
    };
    match cipher.encrypt(aes_gcm::Nonce::from_slice(nonce), message) {
        Ok(ciphertext) => Some(ciphertext),
        Err(_) => None,
    }
}

/// `Aes256Gcm::new_from_slice` and `Aead::decrypt`: opens a ciphertext.
/// Trusted to be a function of key, nonce and ciphertext.
#[verifier::external_body]
pub(crate) fn aes_gcm_decrypt(key: &[u8], nonce: &[u8], ciphertext: &[u8]) -> (r: Option<Vec<u8>>)
    requires
        key@.len() == KEY_LENGTH,
        nonce@.len() == NONCE_LENGTH,
    ensures
        bytes_in(r) == aes_gcm_opened(key@, nonce@, ciphertext@),
{
    let cipher = match aes_gcm::Aes256Gcm::new_from_slice(key) {
        Ok(cipher) => cipher,
        Err(_) => return None,
    };
    match cipher.decrypt(aes_gcm::Nonce::from_slice(nonce), ciphertext) {
        Ok(message) => Some(message),
        Err(_) => None,
    }
}

/// `OsRng::fill_bytes`: draws bytes from the operating system's random
/// source. Trusted only to give as many bytes as were asked for.
#[verifier::external_body]
pub(crate) fn random_bytes(length: usize) -> (r: Vec<u8>)
    ensures
        r@.len() == length,
{
    let mut bytes = vec![0u8; length];
    aes_gcm::aead::OsRng.fill_bytes(&mut bytes);
    bytes
}

/// A number in decimal, as text.
pub open spec fn number_text(n: nat) -> Seq<char> {
    decode_utf8(decimal_digits(n))
}

/// What `encrypt` says of a key of `found` bytes.
pub open spec fn key_length_message(found: nat) -> Seq<char> {
    "Expected 32 bytes, got "@ + number_text(found) + " bytes"@
}

/// What `decrypt` says of a key of `key` bytes and a nonce of `nonce` bytes.
pub open spec fn lengths_message(key: nat, nonce: nat) -> Seq<char> {
    "Invalid key or nonce length: key "@ + number_text(key) + " bytes, nonce "@ + number_text(
        nonce,
    ) + " bytes"@
}

/// What sealing `message` under the key written as `key_hex` and under
/// `nonce` gives: the nonce and the ciphertext as hexadecimal text. The key
/// is looked at before the nonce.
pub open spec fn sealed(message: Seq<u8>, key_hex: Seq<u8>, nonce: Seq<u8>) -> Result<
    (Seq<u8>, Seq<u8>),
    Failure,
> {
    match hex_decoded(key_hex) {
        Err(e) => Err(Failure::HexDecode(e)),
        Ok(key) => if key.len() != KEY_LENGTH {
            Err(Failure::InvalidKeyLength(key_length_message(key.len())))
        } else if nonce.len() != NONCE_LENGTH {
            Err(Failure::InvalidKeyLength(lengths_message(key.len(), nonce.len())))
        } else {
            match aes_gcm_sealed(key, nonce, message) {
                Some(ciphertext) => Ok((hex_text(nonce), hex_text(ciphertext))),
                None => Err(Failure::AesGcm),
            }
        },
    }
}

/// What opening gives. The three texts are read in the order key, nonce,
/// ciphertext, and the first that is not hexadecimal is reported; then the
/// lengths are checked; then the cipher decides.
pub open spec fn opened(nonce_hex: Seq<u8>, ciphertext_hex: Seq<u8>, key_hex: Seq<u8>) -> Result<
    Seq<u8>,
    Failure,
> {
    match hex_decoded(key_hex) {
        Err(e) => Err(Failure::HexDecode(e)),
        Ok(key) => match hex_decoded(nonce_hex) {
            Err(e) => Err(Failure::HexDecode(e)),
            Ok(nonce) => match hex_decoded(ciphertext_hex) {
                Err(e) => Err(Failure::HexDecode(e)),
                Ok(ciphertext) => if key.len() != KEY_LENGTH || nonce.len() != NONCE_LENGTH {
                    Err(Failure::InvalidKeyLength(lengths_message(key.len(), nonce.len())))
                } else {
                    match aes_gcm_opened(key, nonce, ciphertext) {
                        Some(message) => Ok(message),
                        None => Err(Failure::AesGcm),
                    }
                },
            },
        },
    }
}

/// Whether `r` is the sealing outcome that `expected` describes.
pub open spec fn sealed_as(
    r: Result<(String, String), EncryptionError>,
    expected: Result<(Seq<u8>, Seq<u8>), Failure>,
) -> bool {
    match (r, expected) {
        (Ok(pair), Ok(wanted)) => encode_utf8(pair.0@) == wanted.0 && encode_utf8(pair.1@)
            == wanted.1,
        (Err(e), Err(f)) => e@ == f,
        _ => false,
    }
}

/// Whether `r` is the opening outcome that `expected` describes.
pub open spec fn opened_as(
    r: Result<Vec<u8>, EncryptionError>,
    expected: Result<Seq<u8>, Failure>,
) -> bool {
    match (r, expected) {
        (Ok(message), Ok(wanted)) => message@ == wanted,
        (Err(e), Err(f)) => e@ == f,
        _ => false,
    }
}

/// The text of a number.
fn number_string(n: usize) -> (r: String)
    ensures
        r@ == number_text(n as nat),
{
    let digits = render_decimal(n);
    proof {
        lemma_decimal_digits_shape(n as nat);
        assert(is_ascii_bytes(digits@)) by {
            assert forall|i: int| 0 <= i < digits@.len() implies #[trigger] digits@[i] < 128 by {
                assert(crate::codec::decimal::is_digit(digits@[i]));
            }
        }
    }
    let text = ascii_text(digits);
    proof {
        encode_utf8_decode_utf8(text@);
    }
    text
}

/// Builds the message that names the lengths of a key and a nonce.
fn lengths_text(key_length: usize, nonce_length: usize) -> (r: String)
    ensures
        r@ == lengths_message(key_length as nat, nonce_length as nat),
{
    let mut text = String::from_str("Invalid key or nonce length: key ");
    let key_found = number_string(key_length);
    text.append(key_found.as_str());
    text.append(" bytes, nonce ");
    let nonce_found = number_string(nonce_length);
    text.append(nonce_found.as_str());
    text.append(" bytes");
    text
}

/// Seals `message` under the key written as `key` and under the given nonce.
///
/// Fails with `HexDecodeError` if the key is not hexadecimal text, with
/// `InvalidKeyLength` if it does not decode to 32 bytes or the nonce is not
/// 12 bytes long, and with `AesGcmError` if the cipher refuses, which it
/// does not for messages of at most `MAX_MESSAGE_LENGTH` bytes. What is
/// sealed opens again to `message` under the same key.
pub fn encrypt_with_nonce(message: &[u8], key: &str, nonce: &[u8]) -> (r: Result<
    (String, String),
    EncryptionError,
>)
    ensures
        sealed_as(r, sealed(message@, encode_utf8(key@), nonce@)),
        r matches Ok(pair) ==> opened(encode_utf8(pair.0@), encode_utf8(pair.1@), encode_utf8(key@))
            == Ok::<Seq<u8>, Failure>(message@),
        r is Ok <== (hex_decoded(encode_utf8(key@)) matches Ok(k) && k.len() == KEY_LENGTH
            && nonce@.len() == NONCE_LENGTH && message@.len() <= MAX_MESSAGE_LENGTH),
{
    let key_bytes = match hex_decode(key.as_bytes()) {
        Ok(bytes) => bytes,
        Err(e) => {
            return Err(EncryptionError::HexDecodeError(e));
        },
    };
    if key_bytes.len() != KEY_LENGTH {
        let mut text = String::from_str("Expected 32 bytes, got ");
        let found = number_string(key_bytes.len());
        text.append(found.as_str());
        text.append(" bytes");
        return Err(EncryptionError::InvalidKeyLength(text));
    }
    if nonce.len() != NONCE_LENGTH {
        return Err(EncryptionError::InvalidKeyLength(lengths_text(key_bytes.len(), nonce.len())));
    }
    match aes_gcm_encrypt(key_bytes.as_slice(), nonce, message) {
        Some(ciphertext) => {
            let nonce_hex = hex_encode(nonce);
            let ciphertext_hex = hex_encode(ciphertext.as_slice());
            proof {
                lemma_hex_round_trip(nonce@);
                lemma_hex_round_trip(ciphertext@);
            }
            Ok((nonce_hex, ciphertext_hex))
        },
        None => Err(EncryptionError::AesGcmError),
    }
}

/// Seals `message` under the key written as `key`, with a fresh random
/// nonce. Returns the nonce and the ciphertext as hexadecimal text.
///
/// The nonce being random, the result is not determined; but whether and
/// how the call fails on a bad key is, and whatever is sealed opens again
/// to `message` under the same key.
pub fn encrypt(message: &[u8], key: &str) -> (r: Result<(String, String), EncryptionError>)
    ensures
        r matches Ok(pair) ==> opened(encode_utf8(pair.0@), encode_utf8(pair.1@), encode_utf8(key@))
            == Ok::<Seq<u8>, Failure>(message@),
        r matches Ok(pair) ==> exists|nonce: Seq<u8>|
            nonce.len() == NONCE_LENGTH && #[trigger] sealed(message@, encode_utf8(key@), nonce)
                == Ok::<(Seq<u8>, Seq<u8>), Failure>((encode_utf8(pair.0@), encode_utf8(pair.1@))),
        r matches Err(e) ==> exists|nonce: Seq<u8>|
            nonce.len() == NONCE_LENGTH && #[trigger] sealed(message@, encode_utf8(key@), nonce)
                == Err::<(Seq<u8>, Seq<u8>), Failure>(e@),
        r is Ok <== (hex_decoded(encode_utf8(key@)) matches Ok(k) && k.len() == KEY_LENGTH
            && message@.len() <= MAX_MESSAGE_LENGTH),
{
    let nonce = random_bytes(NONCE_LENGTH);
    let r = encrypt_with_nonce(message, key, nonce.as_slice());
    proof {
        let outcome = sealed(message@, encode_utf8(key@), nonce@);
        if r is Ok {
            let pair = r->Ok_0;
            assert(outcome == Ok::<(Seq<u8>, Seq<u8>), Failure>(
                (encode_utf8(pair.0@), encode_utf8(pair.1@)),
            ));
        } else {
            let e = r->Err_0;
            assert(outcome == Err::<(Seq<u8>, Seq<u8>), Failure>(e@));
        }
    }
    r
}

/// Opens a ciphertext, all three arguments given as bytes of hexadecimal
/// text.
pub fn decrypt_bytes(nonce_hex: &[u8], ciphertext_hex: &[u8], key: &[u8]) -> (r: Result<
    Vec<u8>,
    EncryptionError,
>)
    ensures
        opened_as(r, opened(nonce_hex@, ciphertext_hex@, key@)),
{
    let key_bytes = match hex_decode(key) {
        Ok(bytes) => bytes,
        Err(e) => {
            return Err(EncryptionError::HexDecodeError(e));
        },
    };
    let nonce = match hex_decode(nonce_hex) {
        Ok(bytes) => bytes,
        Err(e) => {
            return Err(EncryptionError::HexDecodeError(e));
        },
    };
    let ciphertext = match hex_decode(ciphertext_hex) {
        Ok(bytes) => bytes,
        Err(e) => {
            return Err(EncryptionError::HexDecodeError(e));
        },
    };
    if key_bytes.len() != KEY_LENGTH || nonce.len() != NONCE_LENGTH {
        return Err(EncryptionError::InvalidKeyLength(lengths_text(key_bytes.len(), nonce.len())));
    }
    match aes_gcm_decrypt(key_bytes.as_slice(), nonce.as_slice(), ciphertext.as_slice()) {
        Some(message) => Ok(message),
        None => Err(EncryptionError::AesGcmError),
    }
}

/// Opens a ciphertext sealed by `encrypt`.
///
/// Fails with `HexDecodeError` if the key, the nonce or the ciphertext is
/// not hexadecimal text, with `InvalidKeyLength` if the key does not decode
/// to 32 bytes or the nonce to 12, and with `AesGcmError` if the ciphertext
/// does not authenticate.
pub fn decrypt(nonce_hex: &str, ciphertext_hex: &str, key: &str) -> (r: Result<
    Vec<u8>,
    EncryptionError,
>)
    ensures
        opened_as(
            r,
            opened(encode_utf8(nonce_hex@), encode_utf8(ciphertext_hex@), encode_utf8(key@)),
        ),
{
    decrypt_bytes(nonce_hex.as_bytes(), ciphertext_hex.as_bytes(), key.as_bytes())
}

} // verus!
