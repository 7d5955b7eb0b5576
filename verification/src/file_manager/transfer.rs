//! The decisions of uploading and downloading a file.
//!
//! Reading files, dialling peers and writing chunks is the caller's part;
//! what to do next is decided here.

use crate::file_id::{parsed_file_id, FileId};
use crate::file_manager::chunker::ChunkMetadata;
use crate::file_manager::replication::{planned_as, replicate_chunks, ChunkPlacement, ReplicationError};
use crate::indexing::dht::{registered, DHT};
use crate::peer::connection::received_metadata;
use crate::peer::discovery::{addresses, Peer};
use crate::peer::frame::{first_frame, next_frame, Frame, FrameModel};
use vstd::prelude::*;
use vstd::utf8::encode_utf8;

verus! {

/// The chunk size used for uploads.
pub const DEFAULT_CHUNK_SIZE: usize = 1024;

/// How many chunks a download asks peers for at most.
pub const MAX_FETCHED_CHUNKS: usize = 10;

/// Why a download cannot go ahead.
#[derive(Debug, Clone, Copy, PartialEq, Eq, Structural)]
pub enum TransferError {
    /// The text does not name a file.
    InvalidFileId,
    /// The index knows no peer for the file.
    NotFoundInIndex,
    /// No chunk of the file is here, and none could be fetched.
    NoChunks,
}

/// What a download does next while it fetches chunks.
#[derive(Debug, Clone, Copy, PartialEq, Eq, Structural)]
pub enum FetchStep {
    /// Ask the peer at position `peer` of the source list for chunk
    /// `chunk_index`.
    Ask { chunk_index: usize, peer: usize },
    /// Stop asking.
    Finished,
}

/// What the answer to a chunk request amounts to so far.
#[derive(Debug)]
pub enum FetchReply {
    /// Not a whole frame yet: read more.
    Incomplete,
    /// The chunk, to be stored, and the number of bytes its frame took up.
    Chunk { metadata: ChunkMetadata, data: Vec<u8>, consumed: usize },
    /// A frame that is no chunk, to be dropped, and the number of bytes it
    /// took up.
    Other { consumed: usize },
}

/// A `FetchReply` as a mathematical value.
pub enum FetchReplyModel {
    Incomplete,
    Chunk { metadata: ChunkMetadata, data: Seq<u8>, consumed: usize },
    Other { consumed: usize },
}

impl View for FetchReply {
    type V = FetchReplyModel;

    open spec fn view(&self) -> FetchReplyModel {
        match self {
            FetchReply::Incomplete => FetchReplyModel::Incomplete,
            FetchReply::Chunk { metadata, data, consumed } => FetchReplyModel::Chunk {
                metadata: *metadata,
                data: data@,
                consumed: *consumed,
            },
            FetchReply::Other { consumed } => FetchReplyModel::Other { consumed: *consumed },
        }
    }
}

/// Where a download looks for a file: the file that `text` names and the
/// peers recorded for it.
pub open spec fn sources(m: crate::indexing::dht::IndexModel, text: Seq<u8>) -> Result<
    (FileId, Seq<Seq<char>>),
    TransferError,
> {
    match parsed_file_id(text) {
        None => Err(TransferError::InvalidFileId),
        Some(file_id) => if m.contains_key(file_id) {
            Ok((file_id, m[file_id]))
        } else {
            Err(TransferError::NotFoundInIndex)
        },
    }
}

/// The first step of fetching: with chunks already here, or with no peer to
/// ask, there is nothing to fetch; otherwise the first peer is asked for
/// the first chunk.
pub open spec fn first_step(local_chunks: usize, peer_count: usize) -> FetchStep {
    if local_chunks > 0 || peer_count == 0 {
        FetchStep::Finished
    } else {
        FetchStep::Ask { chunk_index: 0, peer: 0 }
    }
}

/// The step after peer `peer` was asked for chunk `chunk_index`. A chunk
/// that arrived moves on to the next chunk, from the first peer again, up
/// to `MAX_FETCHED_CHUNKS` chunks; one that did not is asked of the next
/// peer; a chunk that no peer gave ends the fetching.
pub open spec fn following_step(chunk_index: usize, peer: usize, fetched: bool, peer_count: usize)
    -> FetchStep {
    if fetched {
        if chunk_index + 1 < MAX_FETCHED_CHUNKS {
            FetchStep::Ask { chunk_index: (chunk_index + 1) as usize, peer: 0 }
        } else {
            FetchStep::Finished
        }
    } else if peer + 1 < peer_count {
        FetchStep::Ask { chunk_index, peer: (peer + 1) as usize }
    } else {
        FetchStep::Finished
    }
}

/// What the bytes received in answer to a request for chunk `chunk_index`
/// of `file_id` amount to. A chunk response is taken as the chunk that was
/// asked for.
pub open spec fn reply(buf: Seq<u8>, file_id: FileId, chunk_index: usize) -> FetchReplyModel {
    match first_frame(buf) {
        None => FetchReplyModel::Incomplete,
        Some((frame, consumed)) => match frame {
            FrameModel::ChunkResponse { file_id: sent_id, chunk_index: sent_index, data } => {
                FetchReplyModel::Chunk {
                    metadata: received_metadata(file_id, chunk_index, data),
                    data,
                    consumed: consumed as usize,
                }
            },
            _ => FetchReplyModel::Other { consumed: consumed as usize },
        },
    }
}

/// Whether `r` names the sources that `expected` describes.
pub open spec fn sources_as(
    r: Result<(FileId, Vec<Peer>), TransferError>,
    expected: Result<(FileId, Seq<Seq<char>>), TransferError>,
) -> bool {
    match (r, expected) {
        (Ok(got), Ok(wanted)) => got.0 == wanted.0 && addresses(got.1@) == wanted.1,
        (Err(e), Err(f)) => e == f,
        _ => false,
    }
}

/// Finds the file that `file_id_text` names and the peers to fetch it from.
pub fn download_sources(dht: &DHT, file_id_text: &str) -> (r: Result<
    (FileId, Vec<Peer>),
    TransferError,
>)
    ensures
        sources_as(r, sources(dht@, encode_utf8(file_id_text@))),
{
    let file_id = match FileId::parse_str(file_id_text) {
        Some(file_id) => file_id,
        None => {
            return Err(TransferError::InvalidFileId);
        },
    };
    match dht.get_file_locations(&file_id) {
        Some(peers) => Ok((file_id, peers)),
        None => Err(TransferError::NotFoundInIndex),
    }
}

/// Decides how fetching starts.
pub fn first_fetch(local_chunks: usize, peer_count: usize) -> (r: FetchStep)
    ensures
        r == first_step(local_chunks, peer_count),
{
    if local_chunks > 0 || peer_count == 0 {
        FetchStep::Finished
    } else {
        FetchStep::Ask { chunk_index: 0, peer: 0 }
    }
}

/// Decides how fetching goes on after an attempt.
pub fn next_fetch(chunk_index: usize, peer: usize, fetched: bool, peer_count: usize) -> (r:
    FetchStep)
    ensures
        r == following_step(chunk_index, peer, fetched, peer_count),
{
    if fetched {
        if chunk_index < MAX_FETCHED_CHUNKS - 1 {
            FetchStep::Ask { chunk_index: chunk_index + 1, peer: 0 }
        } else {
            FetchStep::Finished
        }
    } else if peer < peer_count && peer + 1 < peer_count {
        FetchStep::Ask { chunk_index, peer: peer + 1 }
    } else {
        FetchStep::Finished
    }
}

/// Reads the answer to a request for chunk `chunk_index` of `file_id`.
pub fn fetch_reply(buf: &[u8], file_id: FileId, chunk_index: usize) -> (r: FetchReply)
    ensures
        r@ == reply(buf@, file_id, chunk_index),
{
    let total: usize = buf.len();
    proof {
        crate::peer::frame::lemma_first_frame_length(buf@);
    }
    match next_frame(buf) {
        None => FetchReply::Incomplete,
        Some((frame, consumed)) => match frame {
            Frame::ChunkResponse { file_id: _, chunk_index: _, data } => {
                let metadata = ChunkMetadata::new(file_id, chunk_index, data.len(), 0);
                FetchReply::Chunk { metadata, data, consumed }
            },
            _ => FetchReply::Other { consumed },
        },
    }
}

/// How many chunks a download reads from the store, given the indices that
/// are there: all of them, counted from zero; or `NoChunks` when there are
/// none.
pub fn chunks_to_read(local: &Vec<usize>) -> (r: Result<usize, TransferError>)
    ensures
        r == (if local@.len() == 0 {
            Err::<usize, TransferError>(TransferError::NoChunks)
        } else {
            Ok::<usize, TransferError>(local@.len() as usize)
        }),
{
    if local.len() == 0 {
        Err(TransferError::NoChunks)
    } else {
        Ok(local.len())
    }
}

/// Whether the chunks with the given ascending indices make a whole file:
/// they are `0, 1, 2, ...` with no gap.
pub open spec fn gapless(indices: Seq<usize>) -> bool {
    forall|i: int| 0 <= i < indices.len() ==> indices[i] == i
}

/// Tells whether the chunks with the given ascending indices make a whole
/// file.
pub fn is_complete(indices: &Vec<usize>) -> (r: bool)
    ensures
        r == gapless(indices@),
{
    let mut i: usize = 0;
    while i < indices.len()
        invariant
            i <= indices@.len(),
            forall|j: int| 0 <= j < i ==> indices@[j] == j,
        decreases indices@.len() - i,
    {
        if indices[i] != i {
            return false;
        }
        i += 1;
    }
    true
}

/// Finishes an upload once its chunks are stored: records that the node
/// itself holds the file, then plans the replication of its
/// `stored_chunks` chunks among `peers`.
///
/// The file is recorded even when replication is refused.
pub fn finish_upload(
    dht: &mut DHT,
    file_id: FileId,
    local: &Peer,
    peers: &Vec<Peer>,
    stored_chunks: usize,
) -> (r: Result<Vec<ChunkPlacement>, ReplicationError>)
    requires
        old(dht).wf(),
    ensures
        final(dht).wf(),
        final(dht)@ == registered(old(dht)@, file_id, local@),
        planned_as(r, addresses(peers@), local@, stored_chunks),
{
    dht.register_file_location(file_id, local.clone());
    replicate_chunks(peers, local, stored_chunks)
}

} // verus!
