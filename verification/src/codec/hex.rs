//! Hexadecimal text: what it denotes, and the calls into the `hex` crate
//! that produce and read it.

use vstd::prelude::*;

verus! {

/// Why a byte string is not hexadecimal text.
#[derive(Debug, Clone, Copy, PartialEq, Eq, Structural)]
pub enum HexError {
    /// A byte that is no hexadecimal digit, with its position.
    InvalidHexCharacter { c: char, index: usize },
    /// An odd number of digits.
    OddLength,
    /// The text does not fill a container of fixed size.
    InvalidStringLength,
}

/// The lower-case hexadecimal digit for a value below sixteen.
pub open spec fn hex_digit(n: u8) -> u8 {
    if n < 10 {
        (48 + n) as u8
    } else {
        (87 + n) as u8
    }
}

/// The lower-case hexadecimal text of `data`: two digits per byte, the high
/// half first.
pub open spec fn hex_text(data: Seq<u8>) -> Seq<u8> {
    Seq::new(
        2 * data.len(),
        |i: int|
            if i % 2 == 0 {
                hex_digit(data[i / 2] / 16)
            } else {
                hex_digit(data[i / 2] % 16)
            },
    )
}

/// The value of a hexadecimal digit of either case.
pub open spec fn nibble(c: u8) -> Option<u8> {
    if 48 <= c <= 57 {
        Some((c - 48) as u8)
    } else if 97 <= c <= 102 {
        Some((c - 87) as u8)
    } else if 65 <= c <= 70 {
        Some((c - 55) as u8)
    } else {
        None
    }
}

/// Position of the first byte of `text` at or after `from` that is no
/// hexadecimal digit, or `text.len()` when there is none.
pub open spec fn first_non_hex(text: Seq<u8>, from: int) -> int
    decreases text.len() - from,
{
    if from < 0 || from >= text.len() {
        text.len() as int
    } else if nibble(text[from]) is None {
        from
    } else {
        first_non_hex(text, from + 1)
    }
}

/// The bytes written by an even number of hexadecimal digits.
pub open spec fn hex_bytes(text: Seq<u8>) -> Seq<u8> {
    Seq::new(
        text.len() / 2,
        |i: int| (nibble(text[2 * i]).unwrap() * 16 + nibble(text[2 * i + 1]).unwrap()) as u8,
    )
}

/// What hexadecimal text denotes. An odd length is reported before anything
/// else; otherwise the first byte that is no digit is reported.
pub open spec fn hex_decoded(text: Seq<u8>) -> Result<Seq<u8>, HexError> {
    if text.len() % 2 != 0 {
        Err(HexError::OddLength)
    } else {
        let k = first_non_hex(text, 0);
        if k < text.len() {
            Err(HexError::InvalidHexCharacter { c: text[k] as char, index: k as usize })
        } else {
            Ok(hex_bytes(text))
        }
    }
}

/// Text made of digits only has no first non-digit.
pub proof fn lemma_all_hex(text: Seq<u8>, from: int)
    requires
        0 <= from <= text.len(),
        forall|i: int| from <= i < text.len() ==> nibble(text[i]) is Some,
    ensures
        first_non_hex(text, from) == text.len(),
    decreases text.len() - from,
{
    if from < text.len() {
        lemma_all_hex(text, from + 1);
    }
}

/// A digit written for a value reads back as that value.
pub proof fn lemma_hex_digit_value(n: u8)
    requires
        n < 16,
    ensures
        nibble(hex_digit(n)) == Some(n),
        hex_digit(n) != 58,
        hex_digit(n) != 10,
        hex_digit(n) != 45,
        48 <= hex_digit(n) <= 102,
{
}

/// Reading the hexadecimal text of some bytes gives those bytes back.
pub proof fn lemma_hex_round_trip(data: Seq<u8>)
    ensures
        hex_decoded(hex_text(data)) == Ok::<Seq<u8>, HexError>(data),
{
    let text = hex_text(data);
    assert forall|i: int| 0 <= i < text.len() implies nibble(text[i]) is Some by {
        lemma_hex_digit_value(data[i / 2] / 16);
        lemma_hex_digit_value(data[i / 2] % 16);
    }
    lemma_all_hex(text, 0);
    assert forall|i: int| 0 <= i < data.len() implies hex_bytes(text)[i] == data[i] by {
        let d = data[i];
        lemma_hex_digit_value(d / 16);
        lemma_hex_digit_value(d % 16);
        assert(text[2 * i] == hex_digit(d / 16));
        assert(text[2 * i + 1] == hex_digit(d % 16));
    }
    assert(hex_bytes(text) =~= data);
}

/// Whether `r` is the outcome that `expected` describes.
pub open spec fn decoded_as(r: Result<Vec<u8>, HexError>, expected: Result<Seq<u8>, HexError>) -> bool {
    match (r, expected) {
        (Ok(v), Ok(s)) => v@ == s,
        (Err(e), Err(f)) => e == f,
        _ => false,
    }
}

/// `hex::decode`: reads hexadecimal text of either case. Trusted to return
/// exactly what `hex_decoded` says, including which error is reported.
#[verifier::external_body]
pub(crate) fn hex_decode(text: &[u8]) -> (r: Result<Vec<u8>, HexError>)
    ensures
        decoded_as(r, hex_decoded(text@)),
{
    match hex::decode(text) {
        Ok(v) => Ok(v),
        Err(hex::FromHexError::InvalidHexCharacter { c, index }) => Err(
            HexError::InvalidHexCharacter { c, index },
        ),
        Err(hex::FromHexError::OddLength) => Err(HexError::OddLength),
        Err(hex::FromHexError::InvalidStringLength) => Err(HexError::InvalidStringLength),
    }
}

/// `hex::encode`: writes bytes as lower-case hexadecimal text. Trusted to
/// return a string whose bytes are `hex_text` of the input.
#[verifier::external_body]
pub(crate) fn hex_encode(data: &[u8]) -> (r: String)
    ensures
        vstd::utf8::encode_utf8(r@) == hex_text(data@),
{
    hex::encode(data)
}

} // verus!
