//! The frames of the peer protocol and how they are cut out of a stream.
//!
//! Two framings share one stream. Control messages are lines ended by a
//! line feed. Chunk transfers are a header of colon-terminated fields
//! followed by exactly as many raw bytes as the header announces, with no
//! delimiter. A receiver therefore looks for a chunk header first and reads
//! a line only when the buffer does not start with one.

use crate::codec::bytes::{
    fields, find_byte, first_from, first_index, has_prefix, same_bytes, split_fields, starts_with,
    trim, trimmed,
};
use crate::codec::decimal::{decimal_value, parse_decimal};
use crate::file_id::{parsed_file_id, FileId};
use vstd::prelude::*;
use vstd::slice::slice_subrange;

verus! {

/// ASCII code of `':'`, which ends a header field and separates the fields
/// of a line.
pub const COLON: u8 = 58;

/// ASCII code of the line feed, which ends a line.
pub const LINE_FEED: u8 = 10;

/// The bytes of `DHT_REQUEST`.
pub open spec fn dht_request_word() -> Seq<u8> {
    seq![68u8, 72u8, 84u8, 95u8, 82u8, 69u8, 81u8, 85u8, 69u8, 83u8, 84u8]
}

/// The bytes of `DHT_RESPONSE:`.
pub open spec fn dht_response_word() -> Seq<u8> {
    seq![68u8, 72u8, 84u8, 95u8, 82u8, 69u8, 83u8, 80u8, 79u8, 78u8, 83u8, 69u8, 58u8]
}

/// The bytes of `CHUNK_REQUEST:`.
pub open spec fn chunk_request_word() -> Seq<u8> {
    seq![67u8, 72u8, 85u8, 78u8, 75u8, 95u8, 82u8, 69u8, 81u8, 85u8, 69u8, 83u8, 84u8, 58u8]
}

/// The bytes of `CHUNK_RESPONSE:`.
pub open spec fn chunk_response_word() -> Seq<u8> {
    seq![
        67u8,
        72u8,
        85u8,
        78u8,
        75u8,
        95u8,
        82u8,
        69u8,
        83u8,
        80u8,
        79u8,
        78u8,
        83u8,
        69u8,
        58u8,
    ]
}

/// `DHT_REQUEST` as bytes.
pub fn dht_request_bytes() -> (r: Vec<u8>)
    ensures
        r@ == dht_request_word(),
{
    let r: Vec<u8> = vec![68u8, 72u8, 84u8, 95u8, 82u8, 69u8, 81u8, 85u8, 69u8, 83u8, 84u8];
    assert(r@ =~= dht_request_word());
    r
}

/// `DHT_RESPONSE:` as bytes.
pub fn dht_response_bytes() -> (r: Vec<u8>)
    ensures
        r@ == dht_response_word(),
{
    let r: Vec<u8> = vec![
        68u8,
        72u8,
        84u8,
        95u8,
        82u8,
        69u8,
        83u8,
        80u8,
        79u8,
        78u8,
        83u8,
        69u8,
        58u8,
    ];
    assert(r@ =~= dht_response_word());
    r
}

/// `CHUNK_REQUEST:` as bytes.
pub fn chunk_request_bytes() -> (r: Vec<u8>)
    ensures
        r@ == chunk_request_word(),
{
    let r: Vec<u8> = vec![
        67u8,
        72u8,
        85u8,
        78u8,
        75u8,
        95u8,
        82u8,
        69u8,
        81u8,
        85u8,
        69u8,
        83u8,
        84u8,
        58u8,
    ];
    assert(r@ =~= chunk_request_word());
    r
}

/// `CHUNK_RESPONSE:` as bytes.
pub fn chunk_response_bytes() -> (r: Vec<u8>)
    ensures
        r@ == chunk_response_word(),
{
    let r: Vec<u8> = vec![
        67u8,
        72u8,
        85u8,
        78u8,
        75u8,
        95u8,
        82u8,
        69u8,
        83u8,
        80u8,
        79u8,
        78u8,
        83u8,
        69u8,
        58u8,
    ];
    assert(r@ =~= chunk_response_word());
    r
}

/// One complete unit of the protocol.
#[derive(Debug)]
pub enum Frame {
    /// A request for the whole location index.
    DhtRequest,
    /// The announcement of `count` index entries, one per following line.
    DhtResponse { count: usize },
    /// A request for one chunk.
    ChunkRequest { file_id: FileId, chunk_index: usize },
    /// A chunk sent in answer to a request.
    ChunkResponse { file_id: FileId, chunk_index: usize, data: Vec<u8> },
    /// A chunk pushed for replication.
    ChunkPush { file_id: FileId, chunk_index: usize, data: Vec<u8> },
    /// An encrypted message: nonce and ciphertext as hexadecimal text.
    EncryptedText { nonce: Vec<u8>, ciphertext: Vec<u8> },
    /// A line that is none of the above.
    Malformed,
}

/// A frame as a mathematical value.
pub enum FrameModel {
    DhtRequest,
    DhtResponse { count: usize },
    ChunkRequest { file_id: FileId, chunk_index: usize },
    ChunkResponse { file_id: FileId, chunk_index: usize, data: Seq<u8> },
    ChunkPush { file_id: FileId, chunk_index: usize, data: Seq<u8> },
    EncryptedText { nonce: Seq<u8>, ciphertext: Seq<u8> },
    Malformed,
}

impl View for Frame {
    type V = FrameModel;

    open spec fn view(&self) -> FrameModel {
        match self {
            Frame::DhtRequest => FrameModel::DhtRequest,
            Frame::DhtResponse { count } => FrameModel::DhtResponse { count: *count },
            Frame::ChunkRequest { file_id, chunk_index } => FrameModel::ChunkRequest {
                file_id: *file_id,
                chunk_index: *chunk_index,
            },
            Frame::ChunkResponse { file_id, chunk_index, data } => FrameModel::ChunkResponse {
                file_id: *file_id,
                chunk_index: *chunk_index,
                data: data@,
            },
            Frame::ChunkPush { file_id, chunk_index, data } => FrameModel::ChunkPush {
                file_id: *file_id,
                chunk_index: *chunk_index,
                data: data@,
            },
            Frame::EncryptedText { nonce, ciphertext } => FrameModel::EncryptedText {
                nonce: nonce@,
                ciphertext: ciphertext@,
            },
            Frame::Malformed => FrameModel::Malformed,
        }
    }
}

/// The header of a chunk transfer.
#[derive(Debug, Clone, Copy, PartialEq, Eq, Structural)]
pub struct Header {
    /// The file the chunk belongs to.
    pub file_id: FileId,
    /// The index of the chunk.
    pub chunk_index: usize,
    /// How many raw bytes follow the header.
    pub size: usize,
    /// Where the raw bytes begin.
    pub end: usize,
}

/// The chunk header that starts at `start` in `buf`, if there is one: three
/// fields, each ended by a colon, that read as a file identifier, a chunk
/// index and a size. A header never runs over a line feed, so a line with
/// fewer than three colons is never taken for one.
pub open spec fn header_at(buf: Seq<u8>, start: int) -> Option<Header> {
    let c1 = first_from(buf, COLON, start);
    let c2 = first_from(buf, COLON, c1 + 1);
    let c3 = first_from(buf, COLON, c2 + 1);
    if 0 <= start <= c1 && c1 < c2 && c2 < c3 && c3 < first_from(buf, LINE_FEED, start) {
        match (
            parsed_file_id(buf.subrange(start, c1)),
            decimal_value(buf.subrange(c1 + 1, c2)),
            decimal_value(buf.subrange(c2 + 1, c3)),
        ) {
            (Some(file_id), Some(chunk_index), Some(size)) => Some(
                Header { file_id, chunk_index, size, end: (c3 + 1) as usize },
            ),
            _ => None,
        }
    } else {
        None
    }
}

/// What a line says, once trimmed.
pub open spec fn line_frame(line: Seq<u8>) -> FrameModel {
    let parts = fields(line, COLON);
    if line == dht_request_word() {
        FrameModel::DhtRequest
    } else if has_prefix(line, dht_response_word()) {
        if parts.len() == 2 {
            FrameModel::DhtResponse {
                count: match decimal_value(parts[1]) {
                    Some(count) => count,
                    None => 0,
                },
            }
        } else {
            FrameModel::Malformed
        }
    } else if has_prefix(line, chunk_request_word()) {
        if parts.len() == 3 {
            match (parsed_file_id(parts[1]), decimal_value(parts[2])) {
                (Some(file_id), Some(chunk_index)) => FrameModel::ChunkRequest {
                    file_id,
                    chunk_index,
                },
                _ => FrameModel::Malformed,
            }
        } else {
            FrameModel::Malformed
        }
    } else if has_prefix(line, chunk_response_word()) {
        FrameModel::Malformed
    } else if parts.len() == 2 {
        FrameModel::EncryptedText { nonce: parts[0], ciphertext: parts[1] }
    } else {
        FrameModel::Malformed
    }
}

/// The first line of `buf` and the number of bytes it takes up with its
/// line feed, if `buf` holds a whole line. The line comes trimmed.
pub open spec fn first_line(buf: Seq<u8>) -> Option<(Seq<u8>, int)> {
    let end = first_index(buf, LINE_FEED);
    if end < buf.len() {
        Some((trimmed(buf.subrange(0, end)), end + 1))
    } else {
        None
    }
}

/// The chunk transfer that `buf` starts with, if its header is there: the
/// frame and its length when the announced bytes have all arrived, `None`
/// inside `Some` while they have not.
pub open spec fn transfer(buf: Seq<u8>) -> Option<Option<(FrameModel, int)>> {
    if has_prefix(buf, chunk_response_word()) {
        match header_at(buf, chunk_response_word().len() as int) {
            Some(h) => Some(
                if buf.len() - h.end >= h.size {
                    Some(
                        (
                            FrameModel::ChunkResponse {
                                file_id: h.file_id,
                                chunk_index: h.chunk_index,
                                data: buf.subrange(h.end as int, h.end + h.size),
                            },
                            h.end + h.size,
                        ),
                    )
                } else {
                    None
                },
            ),
            None => None,
        }
    } else {
        match header_at(buf, 0) {
            Some(h) => Some(
                if buf.len() - h.end >= h.size {
                    Some(
                        (
                            FrameModel::ChunkPush {
                                file_id: h.file_id,
                                chunk_index: h.chunk_index,
                                data: buf.subrange(h.end as int, h.end + h.size),
                            },
                            h.end + h.size,
                        ),
                    )
                } else {
                    None
                },
            ),
            None => None,
        }
    }
}

/// The first frame of `buf` and the number of bytes it takes up, or `None`
/// while `buf` does not hold a whole frame.
pub open spec fn first_frame(buf: Seq<u8>) -> Option<(FrameModel, int)> {
    match transfer(buf) {
        Some(found) => found,
        None => match first_line(buf) {
            Some((line, length)) => Some((line_frame(line), length)),
            None => None,
        },
    }
}

/// Whether `r` is the extraction that `expected` describes.
pub open spec fn extracted_as(r: Option<(Frame, usize)>, expected: Option<(FrameModel, int)>)
    -> bool {
    match (r, expected) {
        (Some(got), Some(wanted)) => got.0@ == wanted.0 && got.1 == wanted.1,
        (None, None) => true,
        _ => false,
    }
}

/// A frame takes up at least one byte and no more than the buffer holds.
pub proof fn lemma_first_frame_length(buf: Seq<u8>)
    requires
        buf.len() <= usize::MAX,
    ensures
        first_frame(buf) matches Some(found) ==> 1 <= found.1 <= buf.len(),
{
    crate::codec::bytes::lemma_first_from(buf, LINE_FEED, 0);
    if has_prefix(buf, chunk_response_word()) {
        lemma_header_bounds(buf, chunk_response_word().len() as int);
    } else {
        lemma_header_bounds(buf, 0);
    }
}

/// A header ends after its start and within the buffer.
pub proof fn lemma_header_bounds(buf: Seq<u8>, start: int)
    requires
        0 <= start <= buf.len() <= usize::MAX,
    ensures
        header_at(buf, start) matches Some(h) ==> start + 3 <= h.end <= buf.len(),
{
    crate::codec::bytes::lemma_first_from(buf, LINE_FEED, start);
}

/// Reads the chunk header that starts at `start`.
pub fn read_header(buf: &[u8], start: usize) -> (r: Option<Header>)
    requires
        start <= buf@.len(),
    ensures
        r == header_at(buf@, start as int),
{
    let n: usize = buf.len();
    let c1: usize = find_byte(buf, COLON, start);
    if c1 >= n {
        return None;
    }
    let c2: usize = find_byte(buf, COLON, c1 + 1);
    if c2 >= n {
        return None;
    }
    let c3: usize = find_byte(buf, COLON, c2 + 1);
    if c3 >= find_byte(buf, LINE_FEED, start) {
        return None;
    }
    let file_id = match FileId::parse_ascii(slice_subrange(buf, start, c1)) {
        Some(file_id) => file_id,
        None => {
            return None;
        },
    };
    let chunk_index: usize = match parse_decimal(slice_subrange(buf, c1 + 1, c2)) {
        Some(index) => index,
        None => {
            return None;
        },
    };
    let size: usize = match parse_decimal(slice_subrange(buf, c2 + 1, c3)) {
        Some(size) => size,
        None => {
            return None;
        },
    };
    Some(Header { file_id, chunk_index, size, end: c3 + 1 })
}

/// Says what a trimmed line is.
pub fn classify_line(line: &[u8]) -> (r: Frame)
    ensures
        r@ == line_frame(line@),
{
    let request = dht_request_bytes();
    if same_bytes(line, request.as_slice()) {
        return Frame::DhtRequest;
    }
    let parts = split_fields(line, COLON);
    let response = dht_response_bytes();
    if starts_with(line, response.as_slice()) {
        if parts.len() == 2 {
            let count: usize = match parse_decimal(parts[1].as_slice()) {
                Some(count) => count,
                None => 0,
            };
            return Frame::DhtResponse { count };
        }
        return Frame::Malformed;
    }
    let chunk_request = chunk_request_bytes();
    if starts_with(line, chunk_request.as_slice()) {
        if parts.len() == 3 {
            let file_id = FileId::parse_ascii(parts[1].as_slice());
            let chunk_index = parse_decimal(parts[2].as_slice());
            return match (file_id, chunk_index) {
                (Some(file_id), Some(chunk_index)) => Frame::ChunkRequest { file_id, chunk_index },
                _ => Frame::Malformed,
            };
        }
        return Frame::Malformed;
    }
    let chunk_response = chunk_response_bytes();
    if starts_with(line, chunk_response.as_slice()) {
        return Frame::Malformed;
    }
    if parts.len() == 2 {
        let mut parts = parts;
        let ciphertext = parts.pop().unwrap();
        let nonce = parts.pop().unwrap();
        return Frame::EncryptedText { nonce, ciphertext };
    }
    Frame::Malformed
}

/// Takes the first line off `buf`: the trimmed line and the number of bytes
/// it took up, or `None` while no line feed has arrived.
pub fn take_line(buf: &[u8]) -> (r: Option<(Vec<u8>, usize)>)
    ensures
        match (r, first_line(buf@)) {
            (Some(got), Some(wanted)) => got.0@ == wanted.0 && got.1 == wanted.1,
            (None, None) => true,
            _ => false,
        },
{
    let end: usize = find_byte(buf, LINE_FEED, 0);
    if end >= buf.len() {
        return None;
    }
    let line = trim(slice_subrange(buf, 0, end));
    Some((vstd::slice::slice_to_vec(line), end + 1))
}

/// Takes the first frame off `buf`: the frame and the number of bytes it
/// took up, or `None` while `buf` does not hold a whole frame.
pub fn next_frame(buf: &[u8]) -> (r: Option<(Frame, usize)>)
    ensures
        extracted_as(r, first_frame(buf@)),
{
    let n: usize = buf.len();
    let word = chunk_response_bytes();
    let is_response: bool = starts_with(buf, word.as_slice());
    let start: usize = if is_response { word.len() } else { 0 };
    match read_header(buf, start) {
        Some(h) => {
            proof {
                lemma_header_bounds(buf@, start as int);
            }
            if n - h.end >= h.size {
                let data = crate::codec::bytes::copy_range(buf, h.end, h.end + h.size);
                let frame = if is_response {
                    Frame::ChunkResponse { file_id: h.file_id, chunk_index: h.chunk_index, data }
                } else {
                    Frame::ChunkPush { file_id: h.file_id, chunk_index: h.chunk_index, data }
                };
                Some((frame, h.end + h.size))
            } else {
                None
            }
        },
        None => {
            match take_line(buf) {
                Some((line, length)) => Some((classify_line(line.as_slice()), length)),
                None => None,
            }
        },
    }
}

} // verus!
