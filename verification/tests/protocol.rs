use sharesphere::file_id::FileId;
use sharesphere::file_manager::chunker::ChunkMetadata;
use sharesphere::file_manager::storage::StorageError;
use sharesphere::indexing::dht::DHT;
use sharesphere::peer::connection::{
    greeting_bytes, welcome_bytes, Action, ConnectionState, Reason, Session,
};
use sharesphere::peer::discovery::Peer;
use sharesphere::peer::encryption::{decrypt, encrypt, EncryptionError};
use sharesphere::peer::frame::{classify_line, next_frame, read_header, take_line, Frame, Header};
use sharesphere::peer::message::{
    acknowledgement, chunk_push, chunk_request, chunk_response, dht_request, encrypted_message,
    index_listing, index_response, is_acknowledgement, parse_entry,
};

const KEY: &str = "000102030405060708090a0b0c0d0e0f101112131415161718191a1b1c1d1e1f";
const ID_TEXT: &str = "936da01f-9abd-4d9d-80c7-02af85c822a8";

fn id() -> FileId {
    FileId::from_u128(0x936da01f_9abd_4d9d_80c7_02af85c822a8)
}

fn serving() -> Session {
    let mut session = Session::new();
    session.greet("127.0.0.1:9000", KEY).unwrap();
    session
}

fn show(actions: &[Action]) -> Vec<String> {
    actions.iter().map(|a| format!("{:?}", a)).collect()
}

fn sorted(mut entries: Vec<(FileId, String)>) -> Vec<(u128, String)> {
    entries.sort_by(|a, b| (a.0.bits, &a.1).cmp(&(b.0.bits, &b.1)));
    entries.into_iter().map(|(id, a)| (id.bits, a)).collect()
}

#[test]
fn messages_are_written_byte_for_byte() {
    assert_eq!(dht_request(), b"DHT_REQUEST\n".to_vec());
    assert_eq!(acknowledgement(), b"OK".to_vec());
    assert_eq!(
        chunk_request(id(), 12),
        format!("CHUNK_REQUEST:{}:12\n", ID_TEXT).into_bytes()
    );
    assert_eq!(
        chunk_push(id(), 3, b"hel\nlo"),
        format!("{}:3:6:hel\nlo", ID_TEXT).into_bytes()
    );
    assert_eq!(
        chunk_response(id(), 0, b""),
        format!("CHUNK_RESPONSE:{}:0:0:", ID_TEXT).into_bytes()
    );
    assert_eq!(encrypted_message("00ff", "abcd"), b"00ff:abcd\n".to_vec());
    assert_eq!(
        index_response(&vec![(id(), "127.0.0.1:8080".to_string()), (FileId::from_u128(1), "b:2".to_string())]),
        format!(
            "DHT_RESPONSE:2\n{}:127.0.0.1:8080\n00000000-0000-0000-0000-000000000001:b:2\n",
            ID_TEXT
        )
        .into_bytes()
    );
    assert_eq!(index_response(&Vec::new()), b"DHT_RESPONSE:0\n".to_vec());
    assert_eq!(greeting_bytes("00", "ff"), b"00:ff\nDHT_REQUEST\n".to_vec());
    assert_eq!(welcome_bytes("1.2.3.4:5"), b"Welcome to ShareSphere, peer 1.2.3.4:5".to_vec());
}

#[test]
fn only_ok_acknowledges() {
    assert!(is_acknowledgement(b"OK"));
    assert!(!is_acknowledgement(b"ok"));
    assert!(!is_acknowledgement(b"NO"));
    assert!(!is_acknowledgement(b"OK\n"));
    assert!(!is_acknowledgement(b"O"));
    assert!(!is_acknowledgement(b""));
}

#[test]
fn lines_are_classified() {
    assert!(matches!(classify_line(b"DHT_REQUEST"), Frame::DhtRequest));
    assert!(matches!(classify_line(b"DHT_RESPONSE:5"), Frame::DhtResponse { count: 5 }));
    assert!(matches!(classify_line(b"DHT_RESPONSE:"), Frame::DhtResponse { count: 0 }));
    assert!(matches!(classify_line(b"DHT_RESPONSE:many"), Frame::DhtResponse { count: 0 }));
    assert!(matches!(classify_line(b"DHT_RESPONSE:1:2"), Frame::Malformed));
    match classify_line(format!("CHUNK_REQUEST:{}:7", ID_TEXT).as_bytes()) {
        Frame::ChunkRequest { file_id, chunk_index } => {
            assert_eq!(file_id, id());
            assert_eq!(chunk_index, 7);
        }
        other => panic!("{:?}", other),
    }
    assert!(matches!(classify_line(b"CHUNK_REQUEST:nonsense:7"), Frame::Malformed));
    assert!(matches!(
        classify_line(format!("CHUNK_REQUEST:{}:x", ID_TEXT).as_bytes()),
        Frame::Malformed
    ));
    assert!(matches!(
        classify_line(format!("CHUNK_REQUEST:{}", ID_TEXT).as_bytes()),
        Frame::Malformed
    ));
    assert!(matches!(
        classify_line(format!("CHUNK_REQUEST:{}:1:2", ID_TEXT).as_bytes()),
        Frame::Malformed
    ));
    assert!(matches!(classify_line(b"CHUNK_RESPONSE:whatever"), Frame::Malformed));
    match classify_line(b"00ff:abcd") {
        Frame::EncryptedText { nonce, ciphertext } => {
            assert_eq!(nonce, b"00ff".to_vec());
            assert_eq!(ciphertext, b"abcd".to_vec());
        }
        other => panic!("{:?}", other),
    }
    assert!(matches!(classify_line(b""), Frame::Malformed));
    assert!(matches!(classify_line(b"hello"), Frame::Malformed));
    assert!(matches!(classify_line(b"a:b:c"), Frame::Malformed));
    assert!(matches!(classify_line(b"DHT_REQUEST "), Frame::Malformed));
    assert!(matches!(classify_line(b"dht_request"), Frame::Malformed));
}

#[test]
fn headers_are_read() {
    let buf = format!("{}:3:6:hello!", ID_TEXT).into_bytes();
    assert_eq!(
        read_header(&buf, 0),
        Some(Header { file_id: id(), chunk_index: 3, size: 6, end: 41 })
    );
    let buf = format!("CHUNK_RESPONSE:{}:10:0:", ID_TEXT).into_bytes();
    assert_eq!(
        read_header(&buf, 15),
        Some(Header { file_id: id(), chunk_index: 10, size: 0, end: 57 })
    );
    assert_eq!(read_header(&buf, 0), None);
    assert_eq!(read_header(format!("{}:3:6", ID_TEXT).as_bytes(), 0), None);
    assert_eq!(read_header(format!("{}:3:", ID_TEXT).as_bytes(), 0), None);
    assert_eq!(read_header(format!("{}:x:6:", ID_TEXT).as_bytes(), 0), None);
    assert_eq!(read_header(format!("{}:3:y:", ID_TEXT).as_bytes(), 0), None);
    assert_eq!(read_header(b"nonsense:3:6:", 0), None);
    // A header does not run over a line feed.
    assert_eq!(read_header(format!("{}:3\n:6:", ID_TEXT).as_bytes(), 0), None);
    assert_eq!(read_header(format!("\n{}:3:6:", ID_TEXT).as_bytes(), 0), None);
    assert_eq!(read_header(b"", 0), None);
}

#[test]
fn lines_are_taken_trimmed() {
    assert_eq!(take_line(b"hello\r\nrest"), Some((b"hello".to_vec(), 7)));
    assert_eq!(take_line(b"\n"), Some((Vec::new(), 1)));
    assert_eq!(take_line(b"  a  \nb\n"), Some((b"a".to_vec(), 6)));
    assert_eq!(take_line(b"hello"), None);
    assert_eq!(take_line(b""), None);
}

#[test]
fn a_pushed_chunk_is_framed_by_its_size_not_by_lines() {
    let mut buf = chunk_push(id(), 2, b"a\nb:c");
    let whole = buf.len();
    buf.extend_from_slice(b"DHT_REQUEST\n");
    match next_frame(&buf) {
        Some((Frame::ChunkPush { file_id, chunk_index, data }, consumed)) => {
            assert_eq!(file_id, id());
            assert_eq!(chunk_index, 2);
            assert_eq!(data, b"a\nb:c".to_vec());
            assert_eq!(consumed, whole);
        }
        other => panic!("{:?}", other),
    }
    assert!(matches!(next_frame(&buf[whole..]), Some((Frame::DhtRequest, 12))));
}

#[test]
fn a_chunk_response_is_framed_by_its_size() {
    let buf = chunk_response(id(), 9, b"\n\n\n");
    match next_frame(&buf) {
        Some((Frame::ChunkResponse { file_id, chunk_index, data }, consumed)) => {
            assert_eq!(file_id, id());
            assert_eq!(chunk_index, 9);
            assert_eq!(data, b"\n\n\n".to_vec());
            assert_eq!(consumed, buf.len());
        }
        other => panic!("{:?}", other),
    }
}

#[test]
fn an_unfinished_frame_is_no_frame() {
    let buf = chunk_push(id(), 2, b"hello");
    for cut in 0..buf.len() {
        assert!(next_frame(&buf[..cut]).is_none(), "{}", cut);
    }
    assert!(next_frame(&buf).is_some());
    assert!(next_frame(b"DHT_REQUES").is_none());
    assert!(next_frame(b"").is_none());
    // The header is whole but a line feed inside the data has arrived early.
    let buf = chunk_push(id(), 2, b"a\nbcd");
    assert!(next_frame(&buf[..buf.len() - 1]).is_none());
}

#[test]
fn index_entries_are_read() {
    assert_eq!(
        parse_entry(format!("{}:127.0.0.1:8080", ID_TEXT).as_bytes()),
        Some((id(), "127.0.0.1:8080".to_string()))
    );
    assert_eq!(
        parse_entry(format!("{}:", ID_TEXT).as_bytes()),
        Some((id(), String::new()))
    );
    assert_eq!(parse_entry(ID_TEXT.as_bytes()), None);
    assert_eq!(parse_entry(b"nonsense:127.0.0.1:8080"), None);
    assert_eq!(parse_entry(b""), None);
    let mut bad = format!("{}:", ID_TEXT).into_bytes();
    bad.push(0xff);
    assert_eq!(parse_entry(&bad), None);
}

#[test]
fn a_session_starts_by_greeting() {
    let mut session = Session::new();
    assert_eq!(session.state(), ConnectionState::Handshaking);
    let out = session.greet("127.0.0.1:9000", KEY).unwrap();
    assert_eq!(session.state(), ConnectionState::ServingRequests);
    let text = String::from_utf8(out).unwrap();
    let lines: Vec<&str> = text.split('\n').collect();
    assert_eq!(lines.len(), 3);
    assert_eq!(lines[1], "DHT_REQUEST");
    assert_eq!(lines[2], "");
    let parts: Vec<&str> = lines[0].split(':').collect();
    assert_eq!(parts.len(), 2);
    assert_eq!(
        decrypt(parts[0], parts[1], KEY).unwrap(),
        b"Welcome to ShareSphere, peer 127.0.0.1:9000".to_vec()
    );
    // A second greeting sends nothing.
    assert!(session.greet("127.0.0.1:9000", KEY).unwrap().is_empty());
    assert_eq!(session.state(), ConnectionState::ServingRequests);
}

#[test]
fn a_greeting_that_cannot_be_sealed_closes_the_session() {
    let mut session = Session::new();
    assert!(matches!(
        session.greet("127.0.0.1:9000", "0011"),
        Err(EncryptionError::InvalidKeyLength(_))
    ));
    assert_eq!(session.state(), ConnectionState::Closed);
}

#[test]
fn nothing_is_served_before_the_greeting_or_after_the_close() {
    let mut session = Session::new();
    assert!(session.receive(b"DHT_REQUEST\n", KEY).is_empty());
    assert_eq!(session.buffered(), 0);
    let mut session = serving();
    session.receive(b"DHT_REQ", KEY);
    assert_eq!(session.buffered(), 7);
    session.close();
    assert_eq!(session.state(), ConnectionState::Closed);
    assert_eq!(session.buffered(), 0);
    assert!(session.receive(b"UEST\n", KEY).is_empty());
    assert!(session.chunk_loaded(id(), 0, Ok(b"x".to_vec())).is_empty());
    assert!(session.chunk_stored(id(), true, Ok(())).is_empty());
}

#[test]
fn an_index_request_is_answered_with_the_index() {
    let mut session = serving();
    assert_eq!(show(&session.receive(b"DHT_REQUEST\n", KEY)), vec!["SendIndex"]);
    assert_eq!(show(&session.receive(b"DHT_REQUEST\r\n", KEY)), vec!["SendIndex"]);
}

#[test]
fn frames_are_served_in_order_as_they_complete() {
    let mut session = serving();
    assert!(session.receive(b"DHT_REQ", KEY).is_empty());
    assert_eq!(session.buffered(), 7);
    let mut rest = b"UEST\n".to_vec();
    rest.extend_from_slice(&chunk_request(id(), 4));
    rest.extend_from_slice(b"garbage\nDHT_");
    let actions = session.receive(&rest, KEY);
    assert_eq!(actions.len(), 3);
    assert!(matches!(actions[0], Action::SendIndex));
    match &actions[1] {
        Action::LoadChunk { file_id, chunk_index } => {
            assert_eq!(*file_id, id());
            assert_eq!(*chunk_index, 4);
        }
        other => panic!("{:?}", other),
    }
    assert!(matches!(actions[2], Action::Discard(Reason::MalformedLine)));
    assert_eq!(session.buffered(), 4);
}

#[test]
fn a_pushed_chunk_is_stored_then_acknowledged_and_replicated() {
    let mut session = serving();
    let frame = chunk_push(id(), 1, b"hello");
    assert!(session.receive(&frame[..frame.len() - 2], KEY).is_empty());
    let actions = session.receive(&frame[frame.len() - 2..], KEY);
    assert_eq!(actions.len(), 1);
    match &actions[0] {
        Action::StoreChunk { metadata, data, acknowledge } => {
            assert_eq!(*metadata, ChunkMetadata::new(id(), 1, 5, 0));
            assert_eq!(data, &b"hello".to_vec());
            assert!(*acknowledge);
        }
        other => panic!("{:?}", other),
    }
    let after = session.chunk_stored(id(), true, Ok(()));
    assert_eq!(after.len(), 2);
    match &after[0] {
        Action::Send(bytes) => assert_eq!(bytes, &b"OK".to_vec()),
        other => panic!("{:?}", other),
    }
    match &after[1] {
        Action::Replicate { file_id } => assert_eq!(*file_id, id()),
        other => panic!("{:?}", other),
    }
    let failed = session.chunk_stored(id(), true, Err(StorageError::IoError("disk full".to_string())));
    assert_eq!(failed.len(), 1);
    assert!(matches!(failed[0], Action::Discard(Reason::ChunkNotStored)));
}

#[test]
fn a_chunk_response_is_stored_without_acknowledgement() {
    let mut session = serving();
    let actions = session.receive(&chunk_response(id(), 6, b"data"), KEY);
    assert_eq!(actions.len(), 1);
    match &actions[0] {
        Action::StoreChunk { metadata, data, acknowledge } => {
            assert_eq!(*metadata, ChunkMetadata::new(id(), 6, 4, 0));
            assert_eq!(data, &b"data".to_vec());
            assert!(!*acknowledge);
        }
        other => panic!("{:?}", other),
    }
    assert!(session.chunk_stored(id(), false, Ok(())).is_empty());
}

#[test]
fn a_requested_chunk_is_sent_if_it_can_be_read() {
    let mut session = serving();
    let actions = session.receive(&chunk_request(id(), 3), KEY);
    assert_eq!(actions.len(), 1);
    assert!(matches!(actions[0], Action::LoadChunk { chunk_index: 3, .. }));
    let sent = session.chunk_loaded(id(), 3, Ok(b"hello".to_vec()));
    assert_eq!(sent.len(), 1);
    match &sent[0] {
        Action::Send(bytes) => assert_eq!(bytes, &chunk_response(id(), 3, b"hello")),
        other => panic!("{:?}", other),
    }
    let missing = session.chunk_loaded(id(), 3, Err(StorageError::IoError("not found".to_string())));
    assert_eq!(missing.len(), 1);
    assert!(matches!(missing[0], Action::Discard(Reason::ChunkUnavailable)));
}

#[test]
fn an_encrypted_message_is_delivered_if_it_opens() {
    let mut session = serving();
    let (nonce, ciphertext) = encrypt(b"hello there", KEY).unwrap();
    let actions = session.receive(&encrypted_message(&nonce, &ciphertext), KEY);
    assert_eq!(actions.len(), 1);
    match &actions[0] {
        Action::Deliver(message) => assert_eq!(message, &b"hello there".to_vec()),
        other => panic!("{:?}", other),
    }
    let actions = session.receive(b"00ff:abcd\nnope:nope\n", KEY);
    assert_eq!(actions.len(), 2);
    assert!(matches!(
        actions[0],
        Action::Discard(Reason::Undecryptable(EncryptionError::InvalidKeyLength(_)))
    ));
    assert!(matches!(
        actions[1],
        Action::Discard(Reason::Undecryptable(EncryptionError::HexDecodeError(_)))
    ));
    assert_eq!(session.state(), ConnectionState::ServingRequests);
}

#[test]
fn an_index_listing_is_gathered_line_by_line_and_merged() {
    let mut session = serving();
    let listing = index_response(&vec![
        (id(), "127.0.0.1:8080".to_string()),
        (FileId::from_u128(1), "b:2".to_string()),
    ]);
    let cut = listing.len() - 5;
    assert!(session.receive(&listing[..cut], KEY).is_empty());
    assert_eq!(session.pending_entries(), 1);
    let actions = session.receive(&listing[cut..], KEY);
    assert_eq!(session.pending_entries(), 0);
    assert_eq!(actions.len(), 2);
    match &actions[0] {
        Action::MergeIndex(entries) => assert_eq!(
            entries,
            &vec![(id(), "127.0.0.1:8080".to_string()), (FileId::from_u128(1), "b:2".to_string())]
        ),
        other => panic!("{:?}", other),
    }
    assert!(matches!(actions[1], Action::SendIndex));
    // The index has gone out once: a second listing is merged and not answered.
    let actions = session.receive(&index_response(&vec![(id(), "c:3".to_string())]), KEY);
    assert_eq!(actions.len(), 1);
    assert!(matches!(actions[0], Action::MergeIndex(_)));
}

#[test]
fn a_bad_line_in_a_listing_is_skipped_but_counted() {
    let mut session = serving();
    let text = format!("DHT_RESPONSE:3\nDHT_REQUEST\n{}:a:1\n\nDHT_REQUEST\n", ID_TEXT);
    let actions = session.receive(text.as_bytes(), KEY);
    assert_eq!(actions.len(), 5);
    assert!(matches!(actions[0], Action::Discard(Reason::MalformedEntry)));
    assert!(matches!(actions[1], Action::Discard(Reason::MalformedEntry)));
    match &actions[2] {
        Action::MergeIndex(entries) => assert_eq!(entries, &vec![(id(), "a:1".to_string())]),
        other => panic!("{:?}", other),
    }
    assert!(matches!(actions[3], Action::SendIndex));
    assert!(matches!(actions[4], Action::SendIndex));
}

#[test]
fn an_empty_listing_is_merged_at_once() {
    let mut session = serving();
    let actions = session.receive(b"DHT_RESPONSE:0\n", KEY);
    assert_eq!(actions.len(), 2);
    match &actions[0] {
        Action::MergeIndex(entries) => assert!(entries.is_empty()),
        other => panic!("{:?}", other),
    }
    assert!(matches!(actions[1], Action::SendIndex));
}

fn carry_out(actions: Vec<Action>, dht: &mut DHT, wire: &mut Vec<u8>) {
    for action in actions {
        match action {
            Action::Send(bytes) => wire.extend_from_slice(&bytes),
            Action::SendIndex => wire.extend_from_slice(&index_listing(dht)),
            Action::MergeIndex(entries) => dht.merge_entries(&entries),
            _ => {}
        }
    }
}

#[test]
fn two_nodes_exchange_their_indexes_once_and_agree() {
    let mut index_a = DHT::new();
    let mut index_b = DHT::new();
    index_a.register_file_location(id(), Peer { address: "127.0.0.1:8080".to_string() });
    index_a.register_file_location(FileId::from_u128(1), Peer { address: "127.0.0.1:8080".to_string() });
    index_b.register_file_location(FileId::from_u128(1), Peer { address: "127.0.0.1:8081".to_string() });
    index_b.register_file_location(FileId::from_u128(2), Peer { address: "127.0.0.1:8081".to_string() });

    let mut a = Session::new();
    let mut b = Session::new();
    let mut to_b = a.greet("127.0.0.1:8081", KEY).unwrap();
    let mut to_a = b.greet("127.0.0.1:8080", KEY).unwrap();

    let mut rounds = 0;
    while !to_a.is_empty() || !to_b.is_empty() {
        rounds += 1;
        assert!(rounds < 10);
        let incoming = std::mem::take(&mut to_a);
        carry_out(a.receive(&incoming, KEY), &mut index_a, &mut to_b);
        let incoming = std::mem::take(&mut to_b);
        carry_out(b.receive(&incoming, KEY), &mut index_b, &mut to_a);
    }

    let entries_a = sorted(index_a.all_entries());
    let entries_b = sorted(index_b.all_entries());
    assert_eq!(entries_a, entries_b);
    assert_eq!(entries_a.len(), 4);
    assert_eq!(a.buffered(), 0);
    assert_eq!(b.buffered(), 0);
}

#[test]
fn one_request_and_one_answer_each_way_make_two_nodes_agree() {
    let mut index_a = DHT::new();
    let mut index_b = DHT::new();
    index_a.register_file_location(id(), Peer { address: "a:1".to_string() });
    index_b.register_file_location(FileId::from_u128(2), Peer { address: "b:2".to_string() });
    let mut a = serving();
    let mut b = serving();
    let mut to_a = Vec::new();
    let mut to_b = dht_request();
    // B answers the request with its index.
    carry_out(b.receive(&std::mem::take(&mut to_b), KEY), &mut index_b, &mut to_a);
    // A merges it and answers with its own, once.
    carry_out(a.receive(&std::mem::take(&mut to_a), KEY), &mut index_a, &mut to_b);
    // B merges that and falls silent.
    carry_out(b.receive(&std::mem::take(&mut to_b), KEY), &mut index_b, &mut to_a);
    assert!(to_a.is_empty());
    assert_eq!(sorted(index_a.all_entries()), sorted(index_b.all_entries()));
    assert_eq!(index_a.all_entries().len(), 2);
}
