//! The state machine of one connection.
//!
//! A session is fed what arrives on its stream and answers with the actions
//! to carry out: bytes to send, chunks to load or store, index entries to
//! merge. It touches neither the network nor the disk nor the index; the
//! caller does, and reports back where there is something to decide.

use crate::codec::bytes::push_all;
use crate::file_id::FileId;
use crate::file_manager::chunker::ChunkMetadata;
use crate::file_manager::storage::StorageError;
use crate::indexing::dht::{entry_models, EntryModel};
use crate::peer::encryption::{
    decrypt_bytes, encrypt, opened, sealed, EncryptionError, Failure, KEY_LENGTH,
    MAX_MESSAGE_LENGTH, NONCE_LENGTH,
};
use crate::peer::frame::{
    first_frame, first_line, lemma_first_frame_length, next_frame, take_line, Frame, FrameModel,
    LINE_FEED,
};
use crate::peer::message::{
    acknowledgement, acknowledgement_word, chunk_response, chunk_response_frame, dht_request_line,
    encrypted_line, entry_of, parse_entry,
};
use vstd::prelude::*;
use vstd::slice::slice_subrange;
use vstd::utf8::encode_utf8;

verus! {

/// Where a connection stands.
#[derive(Debug, Clone, Copy, PartialEq, Eq, Structural)]
pub enum ConnectionState {
    /// Established, greeting not yet sent.
    Handshaking,
    /// Greeting sent; frames are served as they arrive.
    ServingRequests,
    /// The stream is gone.
    Closed,
}

/// Why something received was dropped. None of these ends the connection.
#[derive(Debug)]
pub enum Reason {
    /// A line that is no known message.
    MalformedLine,
    /// A line of an index listing that carries no entry.
    MalformedEntry,
    /// An encrypted message that could not be opened.
    Undecryptable(EncryptionError),
    /// A requested chunk could not be read; nothing is sent back.
    ChunkUnavailable,
    /// A received chunk could not be written; nothing is sent back.
    ChunkNotStored,
}

/// A `Reason` as a mathematical value.
pub enum ReasonModel {
    MalformedLine,
    MalformedEntry,
    Undecryptable(Failure),
    ChunkUnavailable,
    ChunkNotStored,
}

impl View for Reason {
    type V = ReasonModel;

    open spec fn view(&self) -> ReasonModel {
        match self {
            Reason::MalformedLine => ReasonModel::MalformedLine,
            Reason::MalformedEntry => ReasonModel::MalformedEntry,
            Reason::Undecryptable(e) => ReasonModel::Undecryptable(e@),
            Reason::ChunkUnavailable => ReasonModel::ChunkUnavailable,
            Reason::ChunkNotStored => ReasonModel::ChunkNotStored,
        }
    }
}

/// What the caller is to do for a session, in the order given.
#[derive(Debug)]
pub enum Action {
    /// Write these bytes to the stream.
    Send(Vec<u8>),
    /// List the location index and write it to the stream as an index
    /// listing.
    SendIndex,
    /// Merge these entries into the location index.
    MergeIndex(Vec<(FileId, String)>),
    /// Read this chunk from the store and report with `chunk_loaded`.
    LoadChunk { file_id: FileId, chunk_index: usize },
    /// Write this chunk to the store and report with `chunk_stored`.
    StoreChunk { metadata: ChunkMetadata, data: Vec<u8>, acknowledge: bool },
    /// Replicate this file to other peers.
    Replicate { file_id: FileId },
    /// Hand this decrypted message to whoever reads messages.
    Deliver(Vec<u8>),
    /// Note that something was dropped.
    Discard(Reason),
}

/// An `Action` as a mathematical value.
pub enum ActionModel {
    Send(Seq<u8>),
    SendIndex,
    MergeIndex(Seq<EntryModel>),
    LoadChunk { file_id: FileId, chunk_index: usize },
    StoreChunk { metadata: ChunkMetadata, data: Seq<u8>, acknowledge: bool },
    Replicate { file_id: FileId },
    Deliver(Seq<u8>),
    Discard(ReasonModel),
}

impl View for Action {
    type V = ActionModel;

    open spec fn view(&self) -> ActionModel {
        match self {
            Action::Send(bytes) => ActionModel::Send(bytes@),
            Action::SendIndex => ActionModel::SendIndex,
            Action::MergeIndex(entries) => ActionModel::MergeIndex(entry_models(entries@)),
            Action::LoadChunk { file_id, chunk_index } => ActionModel::LoadChunk {
                file_id: *file_id,
                chunk_index: *chunk_index,
            },
            Action::StoreChunk { metadata, data, acknowledge } => ActionModel::StoreChunk {
                metadata: *metadata,
                data: data@,
                acknowledge: *acknowledge,
            },
            Action::Replicate { file_id } => ActionModel::Replicate { file_id: *file_id },
            Action::Deliver(message) => ActionModel::Deliver(message@),
            Action::Discard(reason) => ActionModel::Discard(reason@),
        }
    }
}

/// The actions of a list as mathematical values.
pub open spec fn action_models(actions: Seq<Action>) -> Seq<ActionModel> {
    Seq::new(actions.len(), |i: int| actions[i]@)
}

/// A session as a mathematical value.
pub struct SessionModel {
    /// Where the connection stands.
    pub state: ConnectionState,
    /// Bytes received and not yet framed.
    pub buffer: Seq<u8>,
    /// Lines of an index listing still to come.
    pub pending: usize,
    /// Entries of the listing read so far.
    pub gathered: Seq<EntryModel>,
    /// Whether an index listing has been sent on this connection.
    pub index_sent: bool,
}

/// The state of one connection.
#[derive(Debug)]
pub struct Session {
    state: ConnectionState,
    buffer: Vec<u8>,
    pending: usize,
    gathered: Vec<(FileId, String)>,
    index_sent: bool,
}

impl View for Session {
    type V = SessionModel;

    closed spec fn view(&self) -> SessionModel {
        SessionModel {
            state: self.state,
            buffer: self.buffer@,
            pending: self.pending,
            gathered: entry_models(self.gathered@),
            index_sent: self.index_sent,
        }
    }
}

/// The bytes of `Welcome to ShareSphere, peer `.
pub open spec fn welcome_word() -> Seq<u8> {
    seq![
        87u8,
        101u8,
        108u8,
        99u8,
        111u8,
        109u8,
        101u8,
        32u8,
        116u8,
        111u8,
        32u8,
        83u8,
        104u8,
        97u8,
        114u8,
        101u8,
        83u8,
        112u8,
        104u8,
        101u8,
        114u8,
        101u8,
        44u8,
        32u8,
        112u8,
        101u8,
        101u8,
        114u8,
        32u8,
    ]
}

/// The welcome sent to the peer at `address`.
pub open spec fn welcome(address: Seq<char>) -> Seq<u8> {
    welcome_word() + encode_utf8(address)
}

/// What is sent when a connection is established: the encrypted welcome as
/// a line, then a request for the index.
pub open spec fn greeting(nonce_hex: Seq<u8>, ciphertext_hex: Seq<u8>) -> Seq<u8> {
    encrypted_line(nonce_hex, ciphertext_hex) + dht_request_line()
}

/// A session before anything has happened on it.
pub open spec fn fresh() -> SessionModel {
    SessionModel {
        state: ConnectionState::Handshaking,
        buffer: Seq::empty(),
        pending: 0,
        gathered: Seq::empty(),
        index_sent: false,
    }
}

/// A session once its stream is gone: nothing buffered, nothing pending.
pub open spec fn closed(s: SessionModel) -> SessionModel {
    SessionModel {
        state: ConnectionState::Closed,
        buffer: Seq::empty(),
        pending: 0,
        gathered: Seq::empty(),
        index_sent: s.index_sent,
    }
}

/// The end of an index listing: what was gathered is merged, and the own
/// index is sent in return unless a listing went out on this connection
/// before. So two nodes exchange their indexes once and then fall silent.
pub open spec fn synced(s: SessionModel) -> (SessionModel, Seq<ActionModel>) {
    (
        SessionModel { gathered: Seq::empty(), index_sent: true, ..s },
        if s.index_sent {
            seq![ActionModel::MergeIndex(s.gathered)]
        } else {
            seq![ActionModel::MergeIndex(s.gathered), ActionModel::SendIndex]
        },
    )
}

/// What one line of an index listing does: its entry, if it carries one, is
/// gathered, and the listing ends when no line is pending any more.
pub open spec fn after_entry(s: SessionModel, line: Seq<u8>) -> (SessionModel, Seq<ActionModel>) {
    let counted = SessionModel { pending: (s.pending - 1) as usize, ..s };
    match entry_of(line) {
        Some(entry) => {
            let kept = SessionModel { gathered: s.gathered.push(entry), ..counted };
            if kept.pending == 0 {
                synced(kept)
            } else {
                (kept, Seq::empty())
            }
        },
        None => {
            let note = seq![ActionModel::Discard(ReasonModel::MalformedEntry)];
            if counted.pending == 0 {
                (synced(counted).0, note + synced(counted).1)
            } else {
                (counted, note)
            }
        },
    }
}

/// The metadata of a chunk that arrived on the wire. The wire carries no
/// hint at the number of chunks, so the hint is zero.
pub open spec fn received_metadata(file_id: FileId, chunk_index: usize, data: Seq<u8>)
    -> ChunkMetadata {
    ChunkMetadata { file_id, chunk_index, chunk_size: data.len() as usize, total_chunks: 0 }
}

/// What one frame does under the key written as `key`.
pub open spec fn after_frame(s: SessionModel, frame: FrameModel, key: Seq<u8>) -> (
    SessionModel,
    Seq<ActionModel>,
) {
    match frame {
        FrameModel::DhtRequest => (
            SessionModel { index_sent: true, ..s },
            seq![ActionModel::SendIndex],
        ),
        FrameModel::DhtResponse { count } => {
            let begun = SessionModel { pending: count, gathered: Seq::empty(), ..s };
            if count == 0 {
                synced(begun)
            } else {
                (begun, Seq::empty())
            }
        },
        FrameModel::ChunkRequest { file_id, chunk_index } => (
            s,
            seq![ActionModel::LoadChunk { file_id, chunk_index }],
        ),
        FrameModel::ChunkResponse { file_id, chunk_index, data } => (
            s,
            seq![
                ActionModel::StoreChunk {
                    metadata: received_metadata(file_id, chunk_index, data),
                    data,
                    acknowledge: false,
                },
            ],
        ),
        FrameModel::ChunkPush { file_id, chunk_index, data } => (
            s,
            seq![
                ActionModel::StoreChunk {
                    metadata: received_metadata(file_id, chunk_index, data),
                    data,
                    acknowledge: true,
                },
            ],
        ),
        FrameModel::EncryptedText { nonce, ciphertext } => (
            s,
            seq![
                match opened(nonce, ciphertext, key) {
                    Ok(message) => ActionModel::Deliver(message),
                    Err(failure) => ActionModel::Discard(ReasonModel::Undecryptable(failure)),
                },
            ],
        ),
        FrameModel::Malformed => (s, seq![ActionModel::Discard(ReasonModel::MalformedLine)]),
    }
}

/// The session with `consumed` bytes taken off its buffer.
pub open spec fn advanced(s: SessionModel, consumed: int) -> SessionModel {
    SessionModel { buffer: s.buffer.skip(consumed), ..s }
}

/// What the first unit in the buffer does, or `None` while the buffer holds
/// no whole unit. While lines of an index listing are pending the unit is a
/// line; otherwise it is a frame.
pub open spec fn step(s: SessionModel, key: Seq<u8>) -> Option<(SessionModel, Seq<ActionModel>)> {
    if s.pending > 0 {
        match first_line(s.buffer) {
            Some((line, consumed)) => Some(after_entry(advanced(s, consumed), line)),
            None => None,
        }
    } else {
        match first_frame(s.buffer) {
            Some((frame, consumed)) => Some(after_frame(advanced(s, consumed), frame, key)),
            None => None,
        }
    }
}

/// What everything whole in the buffer does, unit after unit.
pub open spec fn drained(s: SessionModel, key: Seq<u8>) -> (SessionModel, Seq<ActionModel>)
    decreases s.buffer.len(),
{
    match step(s, key) {
        Some((next, actions)) => if next.buffer.len() < s.buffer.len() {
            (drained(next, key).0, actions + drained(next, key).1)
        } else {
            (next, actions)
        },
        None => (s, Seq::empty()),
    }
}

/// What the arrival of `bytes` does: on a serving session they join the
/// buffer and everything whole is acted on; otherwise they are ignored.
pub open spec fn received(s: SessionModel, bytes: Seq<u8>, key: Seq<u8>) -> (
    SessionModel,
    Seq<ActionModel>,
) {
    if s.state == ConnectionState::ServingRequests {
        drained(SessionModel { buffer: s.buffer + bytes, ..s }, key)
    } else {
        (s, Seq::empty())
    }
}

/// What follows when the store has answered a `LoadChunk`: the chunk goes
/// out as a response, or nothing is sent.
pub open spec fn after_load(
    s: SessionModel,
    file_id: FileId,
    chunk_index: usize,
    loaded: Option<Seq<u8>>,
) -> Seq<ActionModel> {
    if s.state != ConnectionState::ServingRequests {
        Seq::empty()
    } else {
        match loaded {
            Some(data) => seq![ActionModel::Send(chunk_response_frame(file_id, chunk_index, data))],
            None => seq![ActionModel::Discard(ReasonModel::ChunkUnavailable)],
        }
    }
}

/// What follows when the store has answered a `StoreChunk`: a pushed chunk
/// is acknowledged with `OK` and its file replicated; a chunk that was
/// asked for needs nothing more; a failure sends nothing.
pub open spec fn after_store(s: SessionModel, file_id: FileId, acknowledge: bool, stored: bool)
    -> Seq<ActionModel> {
    if s.state != ConnectionState::ServingRequests {
        Seq::empty()
    } else if !stored {
        seq![ActionModel::Discard(ReasonModel::ChunkNotStored)]
    } else if acknowledge {
        seq![ActionModel::Send(acknowledgement_word()), ActionModel::Replicate { file_id }]
    } else {
        Seq::empty()
    }
}

/// Every unit takes bytes off the buffer and changes nothing else about
/// where the connection stands.
pub proof fn lemma_step_consumes(s: SessionModel, key: Seq<u8>)
    requires
        s.buffer.len() <= usize::MAX,
    ensures
        step(s, key) matches Some(found) ==> found.0.buffer.len() < s.buffer.len()
            && found.0.state == s.state,
{
    lemma_first_frame_length(s.buffer);
    crate::codec::bytes::lemma_first_from(s.buffer, LINE_FEED, 0);
}

/// `drained` acts on the first unit and then on the rest.
pub proof fn lemma_drained_unfolds(s: SessionModel, key: Seq<u8>)
    requires
        s.buffer.len() <= usize::MAX,
    ensures
        step(s, key) is None ==> drained(s, key) == (s, Seq::<ActionModel>::empty()),
        step(s, key) matches Some(found) ==> {
            &&& found.0.buffer.len() < s.buffer.len()
            &&& found.0.state == s.state
            &&& drained(s, key).0 == drained(found.0, key).0
            &&& drained(s, key).1 == found.1 + drained(found.0, key).1
        },
{
    lemma_step_consumes(s, key);
}

/// The welcome text for the peer at `address`, as bytes.
pub fn welcome_bytes(address: &str) -> (r: Vec<u8>)
    ensures
        r@ == welcome(address@),
{
    let mut out: Vec<u8> = vec![
        87u8,
        101u8,
        108u8,
        99u8,
        111u8,
        109u8,
        101u8,
        32u8,
        116u8,
        111u8,
        32u8,
        83u8,
        104u8,
        97u8,
        114u8,
        101u8,
        83u8,
        112u8,
        104u8,
        101u8,
        114u8,
        101u8,
        44u8,
        32u8,
        112u8,
        101u8,
        101u8,
        114u8,
        32u8,
    ];
    assert(out@ =~= welcome_word());
    push_all(&mut out, address.as_bytes());
    out
}

/// What is sent when a connection is established, given the sealed welcome.
pub fn greeting_bytes(nonce_hex: &str, ciphertext_hex: &str) -> (r: Vec<u8>)
    ensures
        r@ == greeting(encode_utf8(nonce_hex@), encode_utf8(ciphertext_hex@)),
{
    let mut out = crate::peer::message::encrypted_message(nonce_hex, ciphertext_hex);
    let request = crate::peer::message::dht_request();
    push_all(&mut out, request.as_slice());
    out
}

/// Appends `action` to `actions`.
fn note(actions: &mut Vec<Action>, action: Action)
    ensures
        action_models(final(actions)@) == action_models(old(actions)@).push(action@),
{
    actions.push(action);
    assert(action_models(actions@) =~= action_models(old(actions)@).push(action@));
}

impl Session {
    /// A session for a connection that has just been established.
    pub fn new() -> (r: Session)
        ensures
            r@ == fresh(),
    {
        let r = Session {
            state: ConnectionState::Handshaking,
            buffer: Vec::new(),
            pending: 0,
            gathered: Vec::new(),
            index_sent: false,
        };
        assert(r@.gathered =~= Seq::<EntryModel>::empty());
        r
    }

    /// Where the connection stands.
    pub fn state(&self) -> (r: ConnectionState)
        ensures
            r == self@.state,
    {
        self.state
    }

    /// How many received bytes wait for the rest of their frame.
    pub fn buffered(&self) -> (r: usize)
        ensures
            r == self@.buffer.len(),
    {
        self.buffer.len()
    }

    /// How many lines of an index listing are still to come.
    pub fn pending_entries(&self) -> (r: usize)
        ensures
            r == self@.pending,
    {
        self.pending
    }

    /// Marks the stream as gone. What was buffered or gathered is dropped.
    pub fn close(&mut self)
        ensures
            final(self)@ == closed(old(self)@),
    {
        self.state = ConnectionState::Closed;
        self.buffer = Vec::new();
        self.pending = 0;
        self.gathered = Vec::new();
        assert(self@.gathered =~= Seq::<EntryModel>::empty());
    }

    /// Greets the peer at `peer_address`: seals the welcome under the key
    /// written as `key` and says what to send. The session then serves
    /// requests; if the welcome cannot be sealed the connection is closed.
    /// A session that is past its handshake sends nothing and stays as it
    /// is.
    ///
    /// The welcome is sealed under a random nonce, so the bytes are not
    /// determined; they are a greeting whose first line opens to the welcome
    /// under the same key.
    pub fn greet(&mut self, peer_address: &str, key: &str) -> (r: Result<Vec<u8>, EncryptionError>)
        ensures
            old(self)@.state != ConnectionState::Handshaking ==> final(self)@ == old(self)@ && (
            r matches Ok(out) && out@.len() == 0),
            old(self)@.state == ConnectionState::Handshaking ==> match r {
                Ok(out) => {
                    &&& final(self)@ == SessionModel {
                        state: ConnectionState::ServingRequests,
                        ..old(self)@
                    }
                    &&& exists|nonce_hex: Seq<u8>, ciphertext_hex: Seq<u8>|
                        out@ == #[trigger] greeting(nonce_hex, ciphertext_hex) && opened(
                            nonce_hex,
                            ciphertext_hex,
                            encode_utf8(key@),
                        ) == Ok::<Seq<u8>, Failure>(welcome(peer_address@))
                },
                Err(e) => {
                    &&& final(self)@ == closed(old(self)@)
                    &&& exists|nonce: Seq<u8>|
                        nonce.len() == NONCE_LENGTH && #[trigger] sealed(
                            welcome(peer_address@),
                            encode_utf8(key@),
                            nonce,
                        ) == Err::<(Seq<u8>, Seq<u8>), Failure>(e@)
                },
            },
            old(self)@.state == ConnectionState::Handshaking && (crate::codec::hex::hex_decoded(
                encode_utf8(key@),
            ) matches Ok(k) && k.len() == KEY_LENGTH) && welcome(peer_address@).len()
                <= MAX_MESSAGE_LENGTH ==> r is Ok,
    {
        if self.state != ConnectionState::Handshaking {
            return Ok(Vec::new());
        }
        let text = welcome_bytes(peer_address);
        match encrypt(text.as_slice(), key) {
            Ok(pair) => {
                let out = greeting_bytes(pair.0.as_str(), pair.1.as_str());
                self.state = ConnectionState::ServingRequests;
                assert(out@ == greeting(encode_utf8(pair.0@), encode_utf8(pair.1@)));
                Ok(out)
            },
            Err(e) => {
                self.close();
                Err(e)
            },
        }
    }

    /// Ends an index listing.
    fn finish_listing(&mut self, actions: &mut Vec<Action>)
        ensures
            final(self)@ == synced(old(self)@).0,
            action_models(final(actions)@) == action_models(old(actions)@) + synced(old(self)@).1,
    {
        let mut done: Vec<(FileId, String)> = Vec::new();
        core::mem::swap(&mut self.gathered, &mut done);
        let reply: bool = !self.index_sent;
        self.index_sent = true;
        note(actions, Action::MergeIndex(done));
        if reply {
            note(actions, Action::SendIndex);
        }
        assert(self@.gathered =~= Seq::<EntryModel>::empty());
        assert(action_models(actions@) =~= action_models(old(actions)@) + synced(old(self)@).1);
    }

    /// Takes in one line of an index listing.
    fn apply_entry(&mut self, line: &[u8], actions: &mut Vec<Action>)
        requires
            old(self)@.pending > 0,
        ensures
            final(self)@ == after_entry(old(self)@, line@).0,
            action_models(final(actions)@) == action_models(old(actions)@) + after_entry(
                old(self)@,
                line@,
            ).1,
    {
        self.pending = self.pending - 1;
        match parse_entry(line) {
            Some(entry) => {
                let ghost before = entry_models(self.gathered@);
                let ghost added = (entry.0, entry.1@);
                self.gathered.push(entry);
                assert(entry_models(self.gathered@) =~= before.push(added));
            },
            None => {
                note(actions, Action::Discard(Reason::MalformedEntry));
            },
        }
        let ghost middle = action_models(actions@);
        if self.pending == 0 {
            self.finish_listing(actions);
        }
        assert(action_models(actions@) =~= action_models(old(actions)@) + after_entry(
            old(self)@,
            line@,
        ).1);
    }

    /// Acts on one frame.
    fn apply_frame(&mut self, frame: Frame, key: &[u8], actions: &mut Vec<Action>)
        ensures
            final(self)@ == after_frame(old(self)@, frame@, key@).0,
            action_models(final(actions)@) == action_models(old(actions)@) + after_frame(
                old(self)@,
                frame@,
                key@,
            ).1,
    {
        let ghost wanted = after_frame(old(self)@, frame@, key@).1;
        match frame {
            Frame::DhtRequest => {
                self.index_sent = true;
                note(actions, Action::SendIndex);
            },
            Frame::DhtResponse { count } => {
                self.pending = count;
                self.gathered = Vec::new();
                assert(self@.gathered =~= Seq::<EntryModel>::empty());
                if count == 0 {
                    self.finish_listing(actions);
                }
            },
            Frame::ChunkRequest { file_id, chunk_index } => {
                note(actions, Action::LoadChunk { file_id, chunk_index });
            },
            Frame::ChunkResponse { file_id, chunk_index, data } => {
                let metadata = ChunkMetadata::new(file_id, chunk_index, data.len(), 0);
                note(actions, Action::StoreChunk { metadata, data, acknowledge: false });
            },
            Frame::ChunkPush { file_id, chunk_index, data } => {
                let metadata = ChunkMetadata::new(file_id, chunk_index, data.len(), 0);
                note(actions, Action::StoreChunk { metadata, data, acknowledge: true });
            },
            Frame::EncryptedText { nonce, ciphertext } => {
                match decrypt_bytes(nonce.as_slice(), ciphertext.as_slice(), key) {
                    Ok(message) => {
                        note(actions, Action::Deliver(message));
                    },
                    Err(e) => {
                        note(actions, Action::Discard(Reason::Undecryptable(e)));
                    },
                }
            },
            Frame::Malformed => {
                note(actions, Action::Discard(Reason::MalformedLine));
            },
        }
        assert(action_models(actions@) =~= action_models(old(actions)@) + wanted);
    }

    /// Acts on the first unit of the buffer past `position`, if a whole one
    /// is there, and says how many bytes it took up.
    fn advance(&mut self, position: usize, key: &[u8], actions: &mut Vec<Action>) -> (r: Option<
        usize,
    >)
        requires
            position <= old(self).buffer@.len(),
        ensures
            final(self).buffer@ == old(self).buffer@,
            match step(advanced(old(self)@, position as int), key@) {
                Some(found) => {
                    &&& r matches Some(consumed)
                    &&& consumed > 0
                    &&& position + consumed <= final(self).buffer@.len()
                    &&& advanced(final(self)@, position + consumed) == found.0
                    &&& action_models(final(actions)@) == action_models(old(actions)@) + found.1
                },
                None => {
                    &&& r is None
                    &&& final(self)@ == old(self)@
                    &&& action_models(final(actions)@) == action_models(old(actions)@)
                },
            },
    {
        let ghost current = advanced(self@, position as int);
        let ghost whole = self@;
        let total: usize = self.buffer.len();
        proof {
            lemma_step_consumes(current, key@);
        }
        let rest = slice_subrange(self.buffer.as_slice(), position, total);
        assert(rest@ =~= current.buffer);
        if self.pending > 0 {
            match take_line(rest) {
                Some((line, consumed)) => {
                    self.apply_entry(line.as_slice(), actions);
                    assert(current.buffer.skip(consumed as int) =~= whole.buffer.skip(
                        position + consumed,
                    ));
                    Some(consumed)
                },
                None => None,
            }
        } else {
            match next_frame(rest) {
                Some((frame, consumed)) => {
                    self.apply_frame(frame, key, actions);
                    assert(current.buffer.skip(consumed as int) =~= whole.buffer.skip(
                        position + consumed,
                    ));
                    Some(consumed)
                },
                None => None,
            }
        }
    }

    /// Takes in bytes that arrived on the stream and says what to do about
    /// them. Frames are acted on strictly in the order they arrived; an
    /// unfinished frame stays buffered until the rest of it arrives.
    pub fn receive(&mut self, bytes: &[u8], key: &str) -> (r: Vec<Action>)
        ensures
            final(self)@ == received(old(self)@, bytes@, encode_utf8(key@)).0,
            action_models(r@) == received(old(self)@, bytes@, encode_utf8(key@)).1,
    {
        let mut actions: Vec<Action> = Vec::new();
        if self.state != ConnectionState::ServingRequests {
            assert(action_models(actions@) =~= Seq::<ActionModel>::empty());
            return actions;
        }
        push_all(&mut self.buffer, bytes);
        let key_bytes = key.as_bytes();
        let ghost start = self@;
        let ghost goal = drained(start, key_bytes@);
        let mut position: usize = 0;
        let total: usize = self.buffer.len();
        assert(action_models(actions@) =~= Seq::<ActionModel>::empty());
        assert(advanced(self@, 0) =~= self@) by {
            assert(self@.buffer.skip(0) =~= self@.buffer);
        }
        assert(goal.1 =~= action_models(actions@) + goal.1);
        loop
            invariant
                position <= self.buffer@.len(),
                self.buffer@.len() == total,
                self@.state == ConnectionState::ServingRequests,
                key_bytes@ == encode_utf8(key@),
                goal.0 == drained(advanced(self@, position as int), key_bytes@).0,
                goal.1 == action_models(actions@) + drained(
                    advanced(self@, position as int),
                    key_bytes@,
                ).1,
            ensures
                position <= self.buffer@.len(),
                goal.0 == advanced(self@, position as int),
                goal.1 == action_models(actions@),
            decreases self.buffer@.len() - position,
        {
            let ghost current = advanced(self@, position as int);
            let ghost done = action_models(actions@);
            proof {
                lemma_drained_unfolds(current, key_bytes@);
            }
            match self.advance(position, key_bytes, &mut actions) {
                Some(consumed) => {
                    position = position + consumed;
                    proof {
                        let next = step(current, key_bytes@)->0;
                        assert((done + next.1) + drained(next.0, key_bytes@).1 =~= done + (next.1
                            + drained(next.0, key_bytes@).1));
                    }
                },
                None => {
                    assert(done + Seq::<ActionModel>::empty() =~= done);
                    break ;
                },
            }
        }
        let kept = crate::codec::bytes::copy_range(
            self.buffer.as_slice(),
            position,
            self.buffer.len(),
        );
        assert(kept@ =~= self.buffer@.skip(position as int));
        self.buffer = kept;
        actions
    }

    /// Says what to do once the store has answered a `LoadChunk`.
    pub fn chunk_loaded(
        &self,
        file_id: FileId,
        chunk_index: usize,
        outcome: Result<Vec<u8>, StorageError>,
    ) -> (r: Vec<Action>)
        ensures
            action_models(r@) == after_load(
                self@,
                file_id,
                chunk_index,
                match outcome {
                    Ok(data) => Some(data@),
                    Err(_) => None,
                },
            ),
    {
        let mut actions: Vec<Action> = Vec::new();
        assert(action_models(actions@) =~= Seq::<ActionModel>::empty());
        if self.state != ConnectionState::ServingRequests {
            return actions;
        }
        match outcome {
            Ok(data) => {
                let frame = chunk_response(file_id, chunk_index, data.as_slice());
                note(&mut actions, Action::Send(frame));
            },
            Err(_) => {
                note(&mut actions, Action::Discard(Reason::ChunkUnavailable));
            },
        }
        assert(action_models(actions@) =~= after_load(
            self@,
            file_id,
            chunk_index,
            match outcome {
                Ok(data) => Some(data@),
                Err(_) => None,
            },
        ));
        actions
    }

    /// Says what to do once the store has answered a `StoreChunk`.
    pub fn chunk_stored(
        &self,
        file_id: FileId,
        acknowledge: bool,
        outcome: Result<(), StorageError>,
    ) -> (r: Vec<Action>)
        ensures
            action_models(r@) == after_store(self@, file_id, acknowledge, outcome is Ok),
    {
        let mut actions: Vec<Action> = Vec::new();
        assert(action_models(actions@) =~= Seq::<ActionModel>::empty());
        if self.state != ConnectionState::ServingRequests {
            return actions;
        }
        match outcome {
            Ok(_) => {
                if acknowledge {
                    note(&mut actions, Action::Send(acknowledgement()));
                    note(&mut actions, Action::Replicate { file_id });
                }
            },
            Err(_) => {
                note(&mut actions, Action::Discard(Reason::ChunkNotStored));
            },
        }
        assert(action_models(actions@) =~= after_store(
            self@,
            file_id,
            acknowledge,
            outcome is Ok,
        ));
        actions
    }
}

} // verus!
