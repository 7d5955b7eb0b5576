//! What a session makes of what another node wrote: each message of the
//! protocol, written by one side, leads the other side to the action the
//! protocol asks for.

use crate::codec::bytes::is_space;
use crate::file_id::{hyphenated, lemma_hyphenated_shape, reads_back, FileId};
use crate::indexing::dht::EntryModel;
use crate::peer::agreement::{
    lemma_chunk_request_reads_back, lemma_fields_first, lemma_index_request_reads_back,
    lemma_line_reads_back, lemma_listing_head_reads_back, lemma_push_reads_back,
    lemma_response_reads_back, listing_head,
};
use crate::peer::connection::{
    advanced, after_entry, after_frame, drained, lemma_drained_unfolds, received,
    received_metadata, step, synced, ActionModel, ConnectionState, SessionModel,
};
use crate::peer::frame::{first_frame, first_line, FrameModel, COLON, LINE_FEED};
use crate::peer::message::{
    chunk_push_frame, chunk_request_line, chunk_response_frame, dht_request_line, entry_line,
    entry_lines, entry_of, index_response_frame,
};
use vstd::prelude::*;
use vstd::utf8::{encode_utf8, encode_utf8_decode_utf8, encode_utf8_valid_utf8};

verus! {

/// Whether a session serves requests and is between frames: nothing is
/// buffered and no line of a listing is pending.
pub open spec fn idle(s: SessionModel) -> bool {
    s.state == ConnectionState::ServingRequests && s.buffer.len() == 0 && s.pending == 0
}

/// Whether an address survives a line of the protocol: its bytes hold no
/// line feed and do not end in white space.
pub open spec fn sendable(address: Seq<char>) -> bool {
    let bytes = encode_utf8(address);
    &&& forall|i: int| 0 <= i < bytes.len() ==> bytes[i] != LINE_FEED
    &&& bytes.len() > 0 ==> !is_space(bytes.last())
}

/// Whether every entry can be sent: its identifier reads back and its
/// address is sendable.
pub open spec fn all_sendable(entries: Seq<EntryModel>) -> bool {
    forall|i: int|
        0 <= i < entries.len() ==> reads_back((#[trigger] entries[i]).0) && sendable(entries[i].1)
}

/// An empty buffer holds no frame and no line.
pub proof fn lemma_empty_buffer()
    ensures
        first_frame(Seq::<u8>::empty()) is None,
        first_line(Seq::<u8>::empty()) is None,
{
}

/// A session that is between frames and receives exactly one frame acts on
/// that frame and is between frames again, unless the frame announces a
/// listing.
pub proof fn lemma_single_frame(s: SessionModel, bytes: Seq<u8>, frame: FrameModel, key: Seq<u8>)
    requires
        idle(s),
        bytes.len() <= usize::MAX,
        first_frame(bytes) == Some((frame, bytes.len() as int)),
        !(frame matches FrameModel::DhtResponse { count } && count > 0),
    ensures
        received(s, bytes, key) == after_frame(s, frame, key),
        idle(after_frame(s, frame, key).0),
{
    let begun = SessionModel { buffer: s.buffer + bytes, ..s };
    assert(begun.buffer =~= bytes);
    crate::peer::frame::lemma_first_frame_length(bytes);
    lemma_drained_unfolds(begun, key);
    let moved = advanced(begun, bytes.len() as int);
    assert(moved.buffer =~= s.buffer);
    assert(moved == s);
    let next = after_frame(s, frame, key);
    lemma_empty_buffer();
    assert(next.0.buffer =~= Seq::<u8>::empty());
    lemma_drained_unfolds(next.0, key);
    assert(next.1 + Seq::<ActionModel>::empty() =~= next.1);
}

/// A pushed chunk, as `chunk_push` writes it, makes the receiver store the
/// chunk and ask for the acknowledgement.
pub proof fn lemma_pushed_chunk_is_stored(
    s: SessionModel,
    id: FileId,
    chunk_index: usize,
    data: Seq<u8>,
    key: Seq<u8>,
)
    requires
        idle(s),
        reads_back(id),
        chunk_push_frame(id, chunk_index, data).len() <= usize::MAX,
    ensures
        received(s, chunk_push_frame(id, chunk_index, data), key) == (
            s,
            seq![
                ActionModel::StoreChunk {
                    metadata: received_metadata(id, chunk_index, data),
                    data,
                    acknowledge: true,
                },
            ],
        ),
{
    let bytes = chunk_push_frame(id, chunk_index, data);
    lemma_push_reads_back(id, chunk_index, data, Seq::empty());
    assert(bytes + Seq::<u8>::empty() =~= bytes);
    lemma_single_frame(s, bytes, FrameModel::ChunkPush { file_id: id, chunk_index, data }, key);
}

/// A chunk response, as `chunk_response` writes it, makes the receiver
/// store the chunk without acknowledgement.
pub proof fn lemma_chunk_response_is_stored(
    s: SessionModel,
    id: FileId,
    chunk_index: usize,
    data: Seq<u8>,
    key: Seq<u8>,
)
    requires
        idle(s),
        reads_back(id),
        chunk_response_frame(id, chunk_index, data).len() <= usize::MAX,
    ensures
        received(s, chunk_response_frame(id, chunk_index, data), key) == (
            s,
            seq![
                ActionModel::StoreChunk {
                    metadata: received_metadata(id, chunk_index, data),
                    data,
                    acknowledge: false,
                },
            ],
        ),
{
    let bytes = chunk_response_frame(id, chunk_index, data);
    lemma_response_reads_back(id, chunk_index, data, Seq::empty());
    assert(bytes + Seq::<u8>::empty() =~= bytes);
    lemma_single_frame(
        s,
        bytes,
        FrameModel::ChunkResponse { file_id: id, chunk_index, data },
        key,
    );
}

/// A chunk request, as `chunk_request` writes it, makes the receiver load
/// that chunk.
pub proof fn lemma_chunk_request_is_served(
    s: SessionModel,
    id: FileId,
    chunk_index: usize,
    key: Seq<u8>,
)
    requires
        idle(s),
        reads_back(id),
    ensures
        received(s, chunk_request_line(id, chunk_index), key) == (
            s,
            seq![ActionModel::LoadChunk { file_id: id, chunk_index }],
        ),
{
    let bytes = chunk_request_line(id, chunk_index);
    lemma_chunk_request_reads_back(id, chunk_index, Seq::empty());
    assert(bytes + Seq::<u8>::empty() =~= bytes);
    crate::codec::decimal::lemma_decimal_digits_shape(chunk_index as nat);
    lemma_chunk_request_length(id, chunk_index);
    lemma_single_frame(s, bytes, FrameModel::ChunkRequest { file_id: id, chunk_index }, key);
}

/// A chunk request is a short line.
proof fn lemma_chunk_request_length(id: FileId, chunk_index: usize)
    ensures
        chunk_request_line(id, chunk_index).len() <= 100,
{
    lemma_hyphenated_shape(id.bits);
    lemma_digits_are_few(chunk_index as nat);
}

/// Ten to the power `k`.
spec fn ten_to(k: nat) -> nat
    decreases k,
{
    if k == 0 {
        1
    } else {
        10 * ten_to((k - 1) as nat)
    }
}

/// A number that fits a machine word has at most forty decimal digits.
proof fn lemma_digits_are_few(n: nat)
    ensures
        n <= u128::MAX ==> crate::codec::decimal::decimal_digits(n).len() <= 40,
{
    lemma_digits_bound(n, 40);
    assert(ten_to(40) > u128::MAX) by {
        reveal_with_fuel(ten_to, 41);
    }
}

/// A number below ten to the power `k` has at most `k` decimal digits.
proof fn lemma_digits_bound(n: nat, k: nat)
    requires
        k >= 1,
    ensures
        n < ten_to(k) ==> crate::codec::decimal::decimal_digits(n).len() <= k,
    decreases k,
{
    reveal_with_fuel(ten_to, 2);
    if k > 1 {
        lemma_digits_bound(n / 10, (k - 1) as nat);
    }
}

/// A request for the index makes the receiver send its index.
pub proof fn lemma_index_request_is_answered(s: SessionModel, key: Seq<u8>)
    requires
        idle(s),
    ensures
        received(s, dht_request_line(), key) == (
            SessionModel { index_sent: true, ..s },
            seq![ActionModel::SendIndex],
        ),
{
    let bytes = dht_request_line();
    lemma_index_request_reads_back(Seq::empty());
    assert(bytes + Seq::<u8>::empty() =~= bytes);
    lemma_single_frame(s, bytes, FrameModel::DhtRequest, key);
}

/// The lines of some entries are the line of the first and then the lines
/// of the others.
pub proof fn lemma_entry_lines_front(entries: Seq<EntryModel>)
    requires
        entries.len() > 0,
    ensures
        entry_lines(entries) == entry_line(entries.first()) + entry_lines(entries.drop_first()),
    decreases entries.len(),
{
    if entries.len() == 1 {
        assert(entries.drop_last() =~= Seq::<EntryModel>::empty());
        assert(entries.drop_first() =~= Seq::<EntryModel>::empty());
        assert(entry_lines(entries) =~= entry_line(entries.first()) + entry_lines(
            entries.drop_first(),
        ));
    } else {
        let init = entries.drop_last();
        let tail = entries.drop_first();
        lemma_entry_lines_front(init);
        assert(init.first() == entries.first());
        assert(init.drop_first() =~= tail.drop_last());
        assert(tail.last() == entries.last());
        assert(entry_lines(entries) =~= entry_line(entries.first()) + entry_lines(tail));
    }
}

/// There are at least as many bytes in the lines of some entries as there
/// are entries.
pub proof fn lemma_entry_lines_length(entries: Seq<EntryModel>)
    ensures
        entry_lines(entries).len() >= entries.len(),
    decreases entries.len(),
{
    if entries.len() > 0 {
        lemma_entry_lines_length(entries.drop_last());
    }
}

/// The line of an entry reads back as that entry, whatever follows it.
pub proof fn lemma_entry_line_reads_back(entry: EntryModel, rest: Seq<u8>)
    requires
        reads_back(entry.0),
        sendable(entry.1),
    ensures
        first_line(entry_line(entry) + rest) matches Some(found) && found.1 == entry_line(
            entry,
        ).len() && entry_of(found.0) == Some(entry),
{
    let h = hyphenated(entry.0.bits);
    let b = encode_utf8(entry.1);
    let line = h.push(COLON) + b;
    lemma_hyphenated_shape(entry.0.bits);
    assert(entry_line(entry) + rest =~= line.push(LINE_FEED) + rest);
    assert(entry_line(entry).len() == line.len() + 1);
    assert forall|i: int| 0 <= i < line.len() implies line[i] != LINE_FEED by {
        if i < 36 {
            assert(line[i] == h[i]);
        } else if i > 36 {
            assert(line[i] == b[i - 37]);
        }
    }
    assert(line[0] == h[0]);
    assert(!is_space(line.last())) by {
        if b.len() > 0 {
            assert(line.last() == b.last());
        } else {
            assert(line.last() == COLON);
        }
    }
    lemma_line_reads_back(line, rest);
    assert forall|i: int| 0 <= i < h.len() implies h[i] != COLON by {}
    lemma_fields_first(h, b);
    assert(line.subrange(0, 36) =~= h);
    assert(line.skip(37) =~= b);
    encode_utf8_valid_utf8(entry.1);
    encode_utf8_decode_utf8(entry.1);
}

/// A session that expects the lines of some entries and receives exactly
/// those lines gathers the entries and ends the listing.
pub proof fn lemma_entries_are_gathered(s: SessionModel, awaited: Seq<EntryModel>, key: Seq<u8>)
    requires
        s.buffer == entry_lines(awaited),
        s.pending == awaited.len(),
        awaited.len() > 0,
        all_sendable(awaited),
        s.buffer.len() <= usize::MAX,
    ensures
        drained(s, key) == synced(
            SessionModel { buffer: Seq::empty(), pending: 0, gathered: s.gathered + awaited, ..s },
        ),
    decreases awaited.len(),
{
    let first = awaited.first();
    let others = awaited.drop_first();
    assert(awaited[0] == first);
    lemma_entry_lines_front(awaited);
    lemma_entry_line_reads_back(first, entry_lines(others));
    lemma_drained_unfolds(s, key);
    let consumed = entry_line(first).len() as int;
    let moved = advanced(s, consumed);
    assert(moved.buffer =~= entry_lines(others));
    let found = first_line(s.buffer)->0;
    let line = found.0;
    let next = after_entry(moved, line);
    assert(step(s, key) == Some(next));
    let target = SessionModel {
        buffer: Seq::empty(),
        pending: 0,
        gathered: s.gathered + awaited,
        ..s
    };
    assert(s.gathered.push(first) + others =~= s.gathered + awaited);
    if others.len() == 0 {
        assert(moved.buffer =~= Seq::<u8>::empty());
        assert(s.gathered.push(first) =~= s.gathered + awaited);
        lemma_empty_buffer();
        lemma_drained_unfolds(next.0, key);
        assert(next.1 + Seq::<ActionModel>::empty() =~= next.1);
        assert(next.0.buffer =~= Seq::<u8>::empty());
    } else {
        assert forall|i: int| 0 <= i < others.len() implies reads_back(
            (#[trigger] others[i]).0,
        ) && sendable(others[i].1) by {
            assert(others[i] == awaited[i + 1]);
        }
        lemma_entries_are_gathered(next.0, others, key);
        assert(Seq::<ActionModel>::empty() + drained(next.0, key).1 =~= drained(next.0, key).1);
    }
}

/// An index listing, as `index_response` writes it, makes a receiver that
/// is between frames merge exactly the listed entries, and answer with its
/// own index if it has not sent it before.
pub proof fn lemma_listing_is_merged(s: SessionModel, entries: Seq<EntryModel>, key: Seq<u8>)
    requires
        idle(s),
        all_sendable(entries),
        index_response_frame(entries).len() <= usize::MAX,
    ensures
        received(s, index_response_frame(entries), key) == synced(
            SessionModel { gathered: entries, ..s },
        ),
{
    let bytes = index_response_frame(entries);
    lemma_entry_lines_length(entries);
    let count = entries.len() as usize;
    let lines = entry_lines(entries);
    assert(bytes =~= listing_head(count) + lines);
    lemma_listing_head_reads_back(count, lines);
    let begun = SessionModel { buffer: s.buffer + bytes, ..s };
    assert(begun.buffer =~= bytes);
    lemma_drained_unfolds(begun, key);
    let moved = advanced(begun, listing_head(count).len() as int);
    assert(moved.buffer =~= lines);
    let next = after_frame(moved, FrameModel::DhtResponse { count }, key);
    assert(step(begun, key) == Some(next));
    if count == 0 {
        assert(entries =~= Seq::<EntryModel>::empty());
        assert(lines =~= Seq::<u8>::empty());
        lemma_empty_buffer();
        lemma_drained_unfolds(next.0, key);
        assert(next.1 + Seq::<ActionModel>::empty() =~= next.1);
        assert(next.0.buffer =~= s.buffer);
    } else {
        lemma_entries_are_gathered(next.0, entries, key);
        assert(Seq::<EntryModel>::empty() + entries =~= entries);
        assert(Seq::<ActionModel>::empty() + drained(next.0, key).1 =~= drained(next.0, key).1);
        assert(s.buffer =~= Seq::<u8>::empty());
    }
}

} // verus!
