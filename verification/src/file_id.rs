//! File identifiers: 128-bit values, written on the wire and on disk in the
//! hyphenated form of the `uuid` crate.

use vstd::prelude::*;
use vstd::utf8::encode_utf8;

verus! {

/// Identifies one logical file across the whole network.
#[derive(Debug, Clone, Copy, PartialEq, Eq, Hash, Structural)]
pub struct FileId {
    /// The identifier as a number, its first byte the most significant.
    pub bits: u128,
}

/// ASCII code of `'-'`.
pub const HYPHEN: u8 = 45;

/// `16` to the power `e`.
pub open spec fn sixteen_to(e: nat) -> nat
    decreases e,
{
    if e == 0 {
        1
    } else {
        16 * sixteen_to((e - 1) as nat)
    }
}

/// The `k`-th of the 32 hexadecimal digits of `v`, counted from the most
/// significant.
pub open spec fn digit_at(v: u128, k: int) -> u8 {
    ((v as nat / sixteen_to((31 - k) as nat)) % 16) as u8
}

/// Whether position `i` of the hyphenated form holds a hyphen.
pub open spec fn is_hyphen_position(i: int) -> bool {
    i == 8 || i == 13 || i == 18 || i == 23
}

/// How many hyphens stand before position `i` of the hyphenated form.
pub open spec fn hyphens_before(i: int) -> int {
    if i < 8 {
        0
    } else if i < 13 {
        1
    } else if i < 18 {
        2
    } else if i < 23 {
        3
    } else {
        4
    }
}

/// The hyphenated form of `v`: 32 lower-case hexadecimal digits in groups of
/// 8, 4, 4, 4 and 12, as in `936da01f-9abd-4d9d-80c7-02af85c822a8`.
pub open spec fn hyphenated(v: u128) -> Seq<u8> {
    Seq::new(
        36,
        |i: int|
            if is_hyphen_position(i) {
                45u8
            } else {
                crate::codec::hex::hex_digit(digit_at(v, i - hyphens_before(i)))
            },
    )
}

/// The identifier that `Uuid::try_parse_ascii` reads from `text`, if it reads
/// one. The crate accepts the hyphenated form and several others.
pub uninterp spec fn uuid_parsed(text: Seq<u8>) -> Option<u128>;

/// `Uuid::try_parse_ascii`: reads an identifier in any of the textual forms
/// of the `uuid` crate. Trusted only to be a function of the text.
#[verifier::external_body]
pub(crate) fn uuid_parse(text: &[u8]) -> (r: Option<u128>)
    ensures
        r == uuid_parsed(text@),
{
    match uuid::Uuid::try_parse_ascii(text) {
        Ok(u) => Some(u.as_u128()),
        Err(_) => None,
    }
}

/// `Uuid::to_string`: writes an identifier in hyphenated lower-case form.
/// Trusted to produce exactly `hyphenated`, and text that `try_parse_ascii`
/// reads back as the same identifier.
#[verifier::external_body]
pub(crate) fn uuid_to_string(bits: u128) -> (r: String)
    ensures
        encode_utf8(r@) == hyphenated(bits),
        uuid_parsed(encode_utf8(r@)) == Some(bits),
{
    uuid::Uuid::from_u128(bits).to_string()
}

/// The bits that say that an identifier is random: version 4 of the RFC 4122
/// variant.
pub open spec fn is_version_four(bits: u128) -> bool {
    (bits >> 76) & 0xf == 4 && (bits >> 62) & 0x3 == 2
}

/// `Uuid::new_v4`: draws a random identifier. Trusted only to set the version
/// and variant bits as the `uuid` crate does for every random identifier.
#[verifier::external_body]
pub(crate) fn uuid_new_v4() -> (r: u128)
    ensures
        is_version_four(r),
{
    uuid::Uuid::new_v4().as_u128()
}

/// What a textual identifier denotes.
pub open spec fn parsed_file_id(text: Seq<u8>) -> Option<FileId> {
    match uuid_parsed(text) {
        Some(bits) => Some(FileId { bits }),
        None => None,
    }
}

/// Whether the hyphenated form of `id` reads back as `id`. It does for every
/// identifier that `FileId::to_text` has written.
pub open spec fn reads_back(id: FileId) -> bool {
    parsed_file_id(hyphenated(id.bits)) == Some(id)
}

/// The hyphenated form has 36 bytes, none of them a colon, a line feed or
/// white space.
pub proof fn lemma_hyphenated_shape(v: u128)
    ensures
        hyphenated(v).len() == 36,
        forall|i: int|
            0 <= i < 36 ==> {
                let b = #[trigger] hyphenated(v)[i];
                b != 58 && b != 10 && !crate::codec::bytes::is_space(b) && b < 128 && b != 43
            },
{
    assert forall|i: int| 0 <= i < 36 implies {
        let b = #[trigger] hyphenated(v)[i];
        b != 58 && b != 10 && !crate::codec::bytes::is_space(b) && b < 128 && b != 43
    } by {
        if !is_hyphen_position(i) {
            crate::codec::hex::lemma_hex_digit_value(digit_at(v, i - hyphens_before(i)));
        }
    }
}

impl FileId {
    /// The identifier with the given numeric value.
    pub fn from_u128(bits: u128) -> (r: FileId)
        ensures
            r.bits == bits,
    {
        FileId { bits }
    }

    /// The numeric value of the identifier.
    pub fn as_u128(&self) -> (r: u128)
        ensures
            r == self.bits,
    {
        self.bits
    }

    /// Draws a fresh random identifier. Nothing is known of it but that it
    /// is marked as random.
    pub fn generate() -> (r: FileId)
        ensures
            is_version_four(r.bits),
    {
        FileId { bits: uuid_new_v4() }
    }

    /// Reads an identifier from bytes.
    pub fn parse_ascii(text: &[u8]) -> (r: Option<FileId>)
        ensures
            r == parsed_file_id(text@),
    {
        match uuid_parse(text) {
            Some(bits) => Some(FileId { bits }),
            None => None,
        }
    }

    /// Reads an identifier from a string.
    pub fn parse_str(text: &str) -> (r: Option<FileId>)
        ensures
            r == parsed_file_id(encode_utf8(text@)),
    {
        FileId::parse_ascii(text.as_bytes())
    }

    /// Writes the identifier in hyphenated form. The text reads back as the
    /// same identifier.
    pub fn to_text(&self) -> (r: String)
        ensures
            encode_utf8(r@) == hyphenated(self.bits),
            parsed_file_id(encode_utf8(r@)) == Some(*self),
            reads_back(*self),
    {
        uuid_to_string(self.bits)
    }

    /// Writes the identifier in hyphenated form, as bytes.
    pub fn to_bytes(&self) -> (r: Vec<u8>)
        ensures
            r@ == hyphenated(self.bits),
            parsed_file_id(r@) == Some(*self),
            reads_back(*self),
    {
        let text = uuid_to_string(self.bits);
        vstd::slice::slice_to_vec(text.as_str().as_bytes())
    }
}

} // verus!
