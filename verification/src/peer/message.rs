//! Writing the messages of the peer protocol, and reading the lines of an
//! index listing.

use crate::codec::bytes::{find_byte, first_index, push_all, same_bytes};
use crate::codec::decimal::{decimal_digits, render_decimal};
use crate::codec::text::string_from_utf8;
use crate::file_id::{hyphenated, parsed_file_id, reads_back, FileId};
use crate::indexing::dht::{entry_models, lists, EntryModel, DHT};
use crate::peer::frame::{
    chunk_request_bytes, chunk_request_word, chunk_response_bytes, chunk_response_word,
    dht_request_bytes, dht_request_word, dht_response_bytes, dht_response_word, COLON, LINE_FEED,
};
use vstd::prelude::*;
use vstd::slice::slice_subrange;
use vstd::utf8::{decode_utf8, encode_utf8, encode_utf8_decode_utf8, valid_utf8};

verus! {

/// The bytes of `OK`, which acknowledge a pushed chunk.
pub open spec fn acknowledgement_word() -> Seq<u8> {
    seq![79u8, 75u8]
}

/// The line that asks for the index.
pub open spec fn dht_request_line() -> Seq<u8> {
    dht_request_word().push(LINE_FEED)
}

/// The header of a chunk transfer: identifier, index and size, each ended
/// by a colon.
pub open spec fn transfer_header(file_id: FileId, chunk_index: usize, size: nat) -> Seq<u8> {
    hyphenated(file_id.bits).push(COLON) + decimal_digits(chunk_index as nat).push(COLON)
        + decimal_digits(size).push(COLON)
}

/// A chunk pushed for replication: the header, then the raw bytes.
pub open spec fn chunk_push_frame(file_id: FileId, chunk_index: usize, data: Seq<u8>) -> Seq<u8> {
    transfer_header(file_id, chunk_index, data.len()) + data
}

/// A chunk sent in answer to a request: `CHUNK_RESPONSE:`, the header, then
/// the raw bytes.
pub open spec fn chunk_response_frame(file_id: FileId, chunk_index: usize, data: Seq<u8>) -> Seq<
    u8,
> {
    chunk_response_word() + transfer_header(file_id, chunk_index, data.len()) + data
}

/// The line that asks for a chunk.
pub open spec fn chunk_request_line(file_id: FileId, chunk_index: usize) -> Seq<u8> {
    chunk_request_word() + hyphenated(file_id.bits).push(COLON) + decimal_digits(
        chunk_index as nat,
    ).push(LINE_FEED)
}

/// The line that carries an encrypted message.
pub open spec fn encrypted_line(nonce_hex: Seq<u8>, ciphertext_hex: Seq<u8>) -> Seq<u8> {
    nonce_hex.push(COLON) + ciphertext_hex.push(LINE_FEED)
}

/// The line that carries one index entry.
pub open spec fn entry_line(entry: EntryModel) -> Seq<u8> {
    hyphenated(entry.0.bits).push(COLON) + encode_utf8(entry.1).push(LINE_FEED)
}

/// The lines of the given entries, in order.
pub open spec fn entry_lines(entries: Seq<EntryModel>) -> Seq<u8>
    decreases entries.len(),
{
    if entries.len() == 0 {
        Seq::empty()
    } else {
        entry_lines(entries.drop_last()) + entry_line(entries.last())
    }
}

/// An index listing: the line `DHT_RESPONSE:<count>`, then one line per
/// entry.
pub open spec fn index_response_frame(entries: Seq<EntryModel>) -> Seq<u8> {
    dht_response_word() + decimal_digits(entries.len()).push(LINE_FEED) + entry_lines(entries)
}

/// The entry that a trimmed line carries: a file identifier, a colon, and
/// the address, which is the whole rest of the line and may itself hold
/// colons. A line without a colon, with an unreadable identifier or with an
/// address that is not valid UTF-8 carries no entry.
pub open spec fn entry_of(line: Seq<u8>) -> Option<EntryModel> {
    let colon = first_index(line, COLON);
    if colon < line.len() {
        match parsed_file_id(line.subrange(0, colon)) {
            Some(file_id) => if valid_utf8(line.skip(colon + 1)) {
                Some((file_id, decode_utf8(line.skip(colon + 1))))
            } else {
                None
            },
            None => None,
        }
    } else {
        None
    }
}

/// Whether `r` is the entry that `expected` describes.
pub open spec fn entry_as(r: Option<(FileId, String)>, expected: Option<EntryModel>) -> bool {
    match (r, expected) {
        (Some(got), Some(wanted)) => got.0 == wanted.0 && got.1@ == wanted.1,
        (None, None) => true,
        _ => false,
    }
}

/// The line that asks for the index.
pub fn dht_request() -> (r: Vec<u8>)
    ensures
        r@ == dht_request_line(),
{
    let mut out = dht_request_bytes();
    out.push(LINE_FEED);
    out
}

/// The two bytes that acknowledge a pushed chunk.
pub fn acknowledgement() -> (r: Vec<u8>)
    ensures
        r@ == acknowledgement_word(),
{
    let r: Vec<u8> = vec![79u8, 75u8];
    assert(r@ =~= acknowledgement_word());
    r
}

/// Tells whether `reply` acknowledges a pushed chunk, that is, whether it
/// is exactly `OK`.
pub fn is_acknowledgement(reply: &[u8]) -> (r: bool)
    ensures
        r == (reply@ == acknowledgement_word()),
{
    let word = acknowledgement();
    same_bytes(reply, word.as_slice())
}

/// Appends a transfer header to `out`.
fn push_header(out: &mut Vec<u8>, file_id: FileId, chunk_index: usize, size: usize)
    ensures
        final(out)@ == old(out)@ + transfer_header(file_id, chunk_index, size as nat),
        reads_back(file_id),
{
    let id = file_id.to_bytes();
    push_all(out, id.as_slice());
    out.push(COLON);
    let index = render_decimal(chunk_index);
    push_all(out, index.as_slice());
    out.push(COLON);
    let length = render_decimal(size);
    push_all(out, length.as_slice());
    out.push(COLON);
    assert(out@ =~= old(out)@ + transfer_header(file_id, chunk_index, size as nat));
}

/// Frames a chunk for pushing to a peer.
pub fn chunk_push(file_id: FileId, chunk_index: usize, data: &[u8]) -> (r: Vec<u8>)
    ensures
        r@ == chunk_push_frame(file_id, chunk_index, data@),
        reads_back(file_id),
{
    let mut out: Vec<u8> = Vec::new();
    push_header(&mut out, file_id, chunk_index, data.len());
    push_all(&mut out, data);
    assert(out@ =~= chunk_push_frame(file_id, chunk_index, data@));
    out
}

/// Frames a chunk as the answer to a request.
pub fn chunk_response(file_id: FileId, chunk_index: usize, data: &[u8]) -> (r: Vec<u8>)
    ensures
        r@ == chunk_response_frame(file_id, chunk_index, data@),
        reads_back(file_id),
{
    let mut out = chunk_response_bytes();
    push_header(&mut out, file_id, chunk_index, data.len());
    push_all(&mut out, data);
    out
}

/// Writes the line that asks for a chunk.
pub fn chunk_request(file_id: FileId, chunk_index: usize) -> (r: Vec<u8>)
    ensures
        r@ == chunk_request_line(file_id, chunk_index),
        reads_back(file_id),
{
    let mut out = chunk_request_bytes();
    let id = file_id.to_bytes();
    push_all(&mut out, id.as_slice());
    out.push(COLON);
    let index = render_decimal(chunk_index);
    push_all(&mut out, index.as_slice());
    out.push(LINE_FEED);
    assert(out@ =~= chunk_request_line(file_id, chunk_index));
    out
}

/// Writes the line that carries an encrypted message.
pub fn encrypted_message(nonce_hex: &str, ciphertext_hex: &str) -> (r: Vec<u8>)
    ensures
        r@ == encrypted_line(encode_utf8(nonce_hex@), encode_utf8(ciphertext_hex@)),
{
    let mut out: Vec<u8> = Vec::new();
    push_all(&mut out, nonce_hex.as_bytes());
    out.push(COLON);
    push_all(&mut out, ciphertext_hex.as_bytes());
    out.push(LINE_FEED);
    assert(out@ =~= encrypted_line(encode_utf8(nonce_hex@), encode_utf8(ciphertext_hex@)));
    out
}

/// Writes an index listing.
pub fn index_response(entries: &Vec<(FileId, String)>) -> (r: Vec<u8>)
    ensures
        r@ == index_response_frame(entry_models(entries@)),
        forall|i: int| 0 <= i < entries@.len() ==> reads_back((#[trigger] entries@[i]).0),
{
    let mut out = dht_response_bytes();
    let count = render_decimal(entries.len());
    push_all(&mut out, count.as_slice());
    out.push(LINE_FEED);
    let ghost head = out@;
    let ghost all = entry_models(entries@);
    assert(head =~= dht_response_word() + decimal_digits(all.len()).push(LINE_FEED));
    assert(all.subrange(0, 0) =~= Seq::<EntryModel>::empty());
    let mut i: usize = 0;
    while i < entries.len()
        invariant
            i <= entries@.len(),
            all == entry_models(entries@),
            out@ == head + entry_lines(all.subrange(0, i as int)),
            forall|j: int| 0 <= j < i ==> reads_back((#[trigger] entries@[j]).0),
        decreases entries@.len() - i,
    {
        let ghost before = out@;
        let id = entries[i].0.to_bytes();
        push_all(&mut out, id.as_slice());
        out.push(COLON);
        push_all(&mut out, entries[i].1.as_str().as_bytes());
        out.push(LINE_FEED);
        proof {
            let grown = all.subrange(0, i + 1);
            assert(grown.drop_last() =~= all.subrange(0, i as int));
            assert(grown.last() == all[i as int]);
            assert(out@ =~= before + entry_line(all[i as int]));
            assert(out@ =~= head + entry_lines(grown));
        }
        i += 1;
    }
    assert(all.subrange(0, entries@.len() as int) =~= all);
    out
}

/// Reads the index entry that a trimmed line carries.
pub fn parse_entry(line: &[u8]) -> (r: Option<(FileId, String)>)
    ensures
        entry_as(r, entry_of(line@)),
{
    let n: usize = line.len();
    let colon: usize = find_byte(line, COLON, 0);
    if colon >= n {
        return None;
    }
    let file_id = match FileId::parse_ascii(slice_subrange(line, 0, colon)) {
        Some(file_id) => file_id,
        None => {
            return None;
        },
    };
    let rest = crate::codec::bytes::copy_range(line, colon + 1, n);
    assert(rest@ =~= line@.skip(colon + 1));
    match string_from_utf8(rest) {
        Some(address) => {
            proof {
                encode_utf8_decode_utf8(address@);
            }
            Some((file_id, address))
        },
        None => None,
    }
}

/// Lists the whole index as an index listing, ready to send.
///
/// The order of the entries is that in which the index hands them out and
/// is not determined; every recorded pair is listed once.
pub fn index_listing(dht: &DHT) -> (r: Vec<u8>)
    requires
        dht.wf(),
    ensures
        exists|listing: Seq<EntryModel>|
            lists(listing, dht@) && r@ == #[trigger] index_response_frame(listing),
{
    let entries = dht.all_entries();
    let out = index_response(&entries);
    assert(out@ == index_response_frame(entry_models(entries@)));
    out
}

} // verus!
