//! Splitting a file into fixed-size chunks and joining chunks back.

use crate::file_id::FileId;
use vstd::prelude::*;

verus! {

/// What is recorded about a chunk beside its bytes.
#[derive(Debug, Clone, Copy, PartialEq, Eq, Structural)]
pub struct ChunkMetadata {
    /// The file the chunk belongs to.
    pub file_id: FileId,
    /// Position of the chunk within the file, from zero.
    pub chunk_index: usize,
    /// Number of bytes in the chunk.
    pub chunk_size: usize,
    /// A hint at how many chunks there are. Nothing relies on it.
    pub total_chunks: usize,
}

impl ChunkMetadata {
    /// Metadata with the given fields.
    pub fn new(file_id: FileId, chunk_index: usize, chunk_size: usize, total_chunks: usize) -> (r:
        Self)
        ensures
            r == (ChunkMetadata { file_id, chunk_index, chunk_size, total_chunks }),
    {
        ChunkMetadata { file_id, chunk_index, chunk_size, total_chunks }
    }
}

/// `a / b`, rounded up.
pub open spec fn ceil_div(a: nat, b: nat) -> nat {
    if b == 0 {
        0
    } else if a % b == 0 {
        a / b
    } else {
        a / b + 1
    }
}

/// The bytes of chunk `i` when `data` is cut every `size` bytes.
pub open spec fn chunk_bytes(data: Seq<u8>, size: nat, i: int) -> Seq<u8> {
    let start = i * size;
    let end = if start + size <= data.len() {
        start + size
    } else {
        data.len() as int
    };
    data.subrange(start, end)
}

/// The metadata of chunk `i` of file `id`. The hint is the number of chunks
/// that the chunk's own bytes would make.
pub open spec fn chunk_metadata(id: FileId, data: Seq<u8>, size: nat, i: int) -> ChunkMetadata {
    let len = chunk_bytes(data, size, i).len();
    ChunkMetadata {
        file_id: id,
        chunk_index: i as usize,
        chunk_size: len as usize,
        total_chunks: ceil_div(len, size) as usize,
    }
}

/// Whether `chunks` is `data` cut every `size` bytes under identifier `id`:
/// as many chunks as `ceil_div` says, in index order, each with its bytes
/// and its metadata.
pub open spec fn is_split_of(
    chunks: Seq<(ChunkMetadata, Vec<u8>)>,
    id: FileId,
    data: Seq<u8>,
    size: nat,
) -> bool {
    &&& chunks.len() == ceil_div(data.len(), size)
    &&& forall|i: int|
        0 <= i < chunks.len() ==> {
            &&& (#[trigger] chunks[i]).1@ == chunk_bytes(data, size, i)
            &&& chunks[i].0 == chunk_metadata(id, data, size, i)
        }
}

/// The byte strings of `parts`, one after the other.
pub open spec fn joined(parts: Seq<Seq<u8>>) -> Seq<u8>
    decreases parts.len(),
{
    if parts.len() == 0 {
        Seq::empty()
    } else {
        joined(parts.drop_last()) + parts.last()
    }
}

/// The bytes of each chunk, without the metadata.
pub open spec fn payloads(chunks: Seq<(ChunkMetadata, Vec<u8>)>) -> Seq<Seq<u8>> {
    Seq::new(chunks.len(), |i: int| chunks[i].1@)
}

/// The bytes of each element.
pub open spec fn views(parts: Seq<Vec<u8>>) -> Seq<Seq<u8>> {
    Seq::new(parts.len(), |i: int| parts[i]@)
}

/// The chunks of `data` cut every `size` bytes, as plain byte strings.
pub open spec fn pieces(data: Seq<u8>, size: nat) -> Seq<Seq<u8>> {
    Seq::new(ceil_div(data.len(), size), |i: int| chunk_bytes(data, size, i))
}

/// Every chunk is full, except that the last is what remains.
pub proof fn lemma_chunk_lengths(data: Seq<u8>, size: nat, i: int)
    requires
        size > 0,
        0 <= i < ceil_div(data.len(), size),
    ensures
        i * size < data.len(),
        i + 1 < ceil_div(data.len(), size) ==> chunk_bytes(data, size, i).len() == size,
        i + 1 == ceil_div(data.len(), size) ==> chunk_bytes(data, size, i).len() == data.len() - i
            * size,
        1 <= chunk_bytes(data, size, i).len() <= size,
{
    let len = data.len() as int;
    let s = size as int;
    let q = len / s;
    let r = len % s;
    assert(len == q * s + r && 0 <= r < s) by (nonlinear_arith)
        requires
            s > 0,
            q == len / s,
            r == len % s,
    ;
    assert(i * s < len && (i + 1 < ceil_div(data.len(), size) ==> i * s + s <= len) && (i + 1
        == ceil_div(data.len(), size) ==> i * s + s >= len)) by (nonlinear_arith)
        requires
            s > 0,
            len == q * s + r,
            0 <= r < s,
            0 <= i,
            (r == 0 ==> i < q) && (r != 0 ==> i <= q),
            ceil_div(data.len(), size) == (if r == 0 {
                q
            } else {
                q + 1
            }),
    ;
}

/// Joining the first `k` chunks gives the first bytes of the data.
pub proof fn lemma_joined_prefix(data: Seq<u8>, size: nat, k: int)
    requires
        size > 0,
        0 <= k <= ceil_div(data.len(), size),
    ensures
        k < ceil_div(data.len(), size) ==> joined(pieces(data, size).subrange(0, k))
            == data.subrange(0, k * size),
        k == ceil_div(data.len(), size) ==> joined(pieces(data, size).subrange(0, k)) == data,
    decreases k,
{
    let all = pieces(data, size);
    let head = all.subrange(0, k);
    if k == 0 {
        assert(joined(head) =~= Seq::<u8>::empty());
        assert(data.subrange(0, 0) =~= Seq::<u8>::empty());
        if ceil_div(data.len(), size) == 0 {
            assert(data.len() == 0) by (nonlinear_arith)
                requires
                    size > 0,
                    data.len() % size == 0,
                    data.len() / size == 0,
            ;
            assert(data =~= Seq::<u8>::empty());
        }
    } else {
        lemma_joined_prefix(data, size, k - 1);
        lemma_chunk_lengths(data, size, k - 1);
        assert(head.drop_last() =~= all.subrange(0, k - 1));
        assert(head.last() == chunk_bytes(data, size, k - 1));
        assert((k - 1) * size + size == k * size) by (nonlinear_arith);
        if k < ceil_div(data.len(), size) {
            lemma_chunk_lengths(data, size, k);
            assert(joined(head) =~= data.subrange(0, k * size));
        } else {
            assert(joined(head) =~= data);
        }
    }
}

/// Joining all the chunks of a file, in index order, gives the file back.
pub proof fn lemma_split_then_join(data: Seq<u8>, size: nat)
    requires
        size > 0,
    ensures
        joined(pieces(data, size)) == data,
{
    let all = pieces(data, size);
    lemma_joined_prefix(data, size, all.len() as int);
    assert(all.subrange(0, all.len() as int) =~= all);
}

/// Chunks that are a split of `data` join back to `data`.
pub proof fn lemma_split_joins(
    chunks: Seq<(ChunkMetadata, Vec<u8>)>,
    id: FileId,
    data: Seq<u8>,
    size: nat,
)
    requires
        size > 0,
        is_split_of(chunks, id, data, size),
    ensures
        joined(payloads(chunks)) == data,
{
    assert(payloads(chunks) =~= pieces(data, size));
    lemma_split_then_join(data, size);
}

/// Cuts `data` every `chunk_size` bytes under the identifier `file_id`.
pub fn split_into_chunks(file_id: FileId, data: &[u8], chunk_size: usize) -> (r: Vec<
    (ChunkMetadata, Vec<u8>),
>)
    requires
        chunk_size > 0,
    ensures
        is_split_of(r@, file_id, data@, chunk_size as nat),
        joined(payloads(r@)) == data@,
{
    let len: usize = data.len();
    let full: usize = len / chunk_size;
    assert(len % chunk_size != 0 ==> full < len) by (nonlinear_arith)
        requires
            chunk_size > 0,
            full == len / chunk_size,
    ;
    let count: usize = if len % chunk_size == 0 { full } else { full + 1 };
    let mut chunks: Vec<(ChunkMetadata, Vec<u8>)> = Vec::new();
    let mut i: usize = 0;
    let mut start: usize = 0;
    while i < count
        invariant
            chunk_size > 0,
            len == data@.len(),
            count == ceil_div(len as nat, chunk_size as nat),
            i <= count,
            i < count ==> start == i * chunk_size,
            chunks@.len() == i,
            forall|j: int|
                0 <= j < i ==> {
                    &&& (#[trigger] chunks@[j]).1@ == chunk_bytes(data@, chunk_size as nat, j)
                    &&& chunks@[j].0 == chunk_metadata(file_id, data@, chunk_size as nat, j)
                },
        decreases count - i,
    {
        proof {
            lemma_chunk_lengths(data@, chunk_size as nat, i as int);
        }
        let end: usize = if len - start >= chunk_size { start + chunk_size } else { len };
        let bytes: Vec<u8> = crate::codec::bytes::copy_range(data, start, end);
        let n: usize = end - start;
        let hint: usize = if n % chunk_size == 0 { n / chunk_size } else { n / chunk_size + 1 };
        let metadata = ChunkMetadata::new(file_id, i, n, hint);
        chunks.push((metadata, bytes));
        proof {
            assert((i + 1) * chunk_size == i * chunk_size + chunk_size) by (nonlinear_arith);
            if i + 1 < count {
                lemma_chunk_lengths(data@, chunk_size as nat, i + 1);
            }
        }
        start = end;
        i += 1;
    }
    proof {
        lemma_split_joins(chunks@, file_id, data@, chunk_size as nat);
    }
    chunks
}

/// Splits the contents of a file into chunks under a fresh identifier.
///
/// The identifier is drawn at random, so nothing is said of it; the chunks
/// are those of `split_into_chunks` for that identifier.
pub fn split_file_into_chunks(data: &[u8], chunk_size: usize) -> (r: (
    FileId,
    Vec<(ChunkMetadata, Vec<u8>)>,
))
    requires
        chunk_size > 0,
    ensures
        crate::file_id::is_version_four(r.0.bits),
        is_split_of(r.1@, r.0, data@, chunk_size as nat),
        joined(payloads(r.1@)) == data@,
{
    let file_id = FileId::generate();
    let chunks = split_into_chunks(file_id, data, chunk_size);
    (file_id, chunks)
}

/// Joins chunk payloads in the order given.
pub fn join_chunks(parts: &Vec<Vec<u8>>) -> (r: Vec<u8>)
    ensures
        r@ == joined(views(parts@)),
{
    let mut out: Vec<u8> = Vec::new();
    let mut i: usize = 0;
    let ghost all = views(parts@);
    assert(all.subrange(0, 0) =~= Seq::<Seq<u8>>::empty());
    while i < parts.len()
        invariant
            i <= parts@.len(),
            all == views(parts@),
            out@ == joined(all.subrange(0, i as int)),
        decreases parts@.len() - i,
    {
        crate::codec::bytes::push_all(&mut out, parts[i].as_slice());
        proof {
            let next = all.subrange(0, i + 1);
            assert(next.drop_last() =~= all.subrange(0, i as int));
            assert(next.last() == parts@[i as int]@);
        }
        i += 1;
    }
    assert(all.subrange(0, parts@.len() as int) =~= all);
    out
}

} // verus!
