use sharesphere::file_id::FileId;
use sharesphere::file_manager::chunker::{join_chunks, split_into_chunks, ChunkMetadata};
use sharesphere::file_manager::replication::ReplicationError;
use sharesphere::file_manager::storage::{chunk_file_name, list_chunks};
use sharesphere::file_manager::transfer::{
    chunks_to_read, download_sources, fetch_reply, finish_upload, first_fetch, is_complete,
    next_fetch, FetchReply, FetchStep, TransferError, DEFAULT_CHUNK_SIZE, MAX_FETCHED_CHUNKS,
};
use sharesphere::indexing::dht::DHT;
use sharesphere::peer::discovery::Peer;
use sharesphere::peer::message::{chunk_push, chunk_response, dht_request};
use std::collections::HashMap;

const ID_TEXT: &str = "936da01f-9abd-4d9d-80c7-02af85c822a8";

fn id() -> FileId {
    FileId::from_u128(0x936da01f_9abd_4d9d_80c7_02af85c822a8)
}

fn peer(address: &str) -> Peer {
    Peer { address: address.to_string() }
}

#[test]
fn a_download_needs_a_known_file() {
    let mut dht = DHT::new();
    dht.register_file_location(id(), peer("a:1"));
    let (file_id, peers) = download_sources(&dht, ID_TEXT).unwrap();
    assert_eq!(file_id, id());
    assert_eq!(peers.len(), 1);
    assert_eq!(peers[0].address, "a:1");
    assert_eq!(
        download_sources(&dht, "00000000-0000-0000-0000-000000000001").unwrap_err(),
        TransferError::NotFoundInIndex
    );
    assert_eq!(download_sources(&dht, "what").unwrap_err(), TransferError::InvalidFileId);
}

#[test]
fn fetching_starts_only_when_nothing_is_here() {
    assert_eq!(first_fetch(0, 2), FetchStep::Ask { chunk_index: 0, peer: 0 });
    assert_eq!(first_fetch(3, 2), FetchStep::Finished);
    assert_eq!(first_fetch(0, 0), FetchStep::Finished);
}

#[test]
fn fetching_moves_through_chunks_and_peers() {
    assert_eq!(next_fetch(0, 0, true, 2), FetchStep::Ask { chunk_index: 1, peer: 0 });
    assert_eq!(next_fetch(4, 1, true, 2), FetchStep::Ask { chunk_index: 5, peer: 0 });
    assert_eq!(next_fetch(0, 0, false, 2), FetchStep::Ask { chunk_index: 0, peer: 1 });
    assert_eq!(next_fetch(0, 1, false, 2), FetchStep::Finished);
    assert_eq!(next_fetch(8, 0, true, 2), FetchStep::Ask { chunk_index: 9, peer: 0 });
    assert_eq!(next_fetch(9, 0, true, 2), FetchStep::Finished);
    assert_eq!(next_fetch(usize::MAX, usize::MAX, true, 1), FetchStep::Finished);
    assert_eq!(next_fetch(0, usize::MAX, false, usize::MAX), FetchStep::Finished);
    assert_eq!(MAX_FETCHED_CHUNKS, 10);
    assert_eq!(DEFAULT_CHUNK_SIZE, 1024);
}

#[test]
fn a_fetch_asks_at_most_ten_chunks() {
    let mut asked = Vec::new();
    let mut step = first_fetch(0, 1);
    while let FetchStep::Ask { chunk_index, peer } = step {
        asked.push(chunk_index);
        step = next_fetch(chunk_index, peer, true, 1);
    }
    assert_eq!(asked, (0..10).collect::<Vec<usize>>());
}

#[test]
fn the_answer_to_a_request_is_the_chunk_once_it_is_whole() {
    let frame = chunk_response(id(), 3, b"hello");
    assert!(matches!(fetch_reply(&frame[..frame.len() - 1], id(), 3), FetchReply::Incomplete));
    assert!(matches!(fetch_reply(b"", id(), 3), FetchReply::Incomplete));
    match fetch_reply(&frame, id(), 3) {
        FetchReply::Chunk { metadata, data, consumed } => {
            assert_eq!(metadata, ChunkMetadata::new(id(), 3, 5, 0));
            assert_eq!(data, b"hello".to_vec());
            assert_eq!(consumed, frame.len());
        }
        other => panic!("{:?}", other),
    }
    assert!(matches!(fetch_reply(&dht_request(), id(), 3), FetchReply::Other { consumed: 12 }));
    let pushed = chunk_push(id(), 3, b"hello");
    match fetch_reply(&pushed, id(), 3) {
        FetchReply::Other { consumed } => assert_eq!(consumed, pushed.len()),
        other => panic!("{:?}", other),
    }
}

#[test]
fn a_download_reads_as_many_chunks_as_are_here() {
    assert_eq!(chunks_to_read(&vec![0, 1, 2]), Ok(3));
    assert_eq!(chunks_to_read(&vec![5]), Ok(1));
    assert_eq!(chunks_to_read(&Vec::new()), Err(TransferError::NoChunks));
}

#[test]
fn a_file_is_whole_when_its_indices_have_no_gap() {
    assert!(is_complete(&vec![0, 1, 2]));
    assert!(is_complete(&Vec::new()));
    assert!(!is_complete(&vec![0, 2]));
    assert!(!is_complete(&vec![1, 2]));
}

#[test]
fn an_upload_is_recorded_even_when_it_cannot_be_replicated() {
    let mut dht = DHT::new();
    let local = peer("127.0.0.1:8080");
    let refused = finish_upload(&mut dht, id(), &local, &vec![peer("a:1")], 3);
    assert_eq!(
        refused.unwrap_err(),
        ReplicationError::InsufficientPeers { required: 2, available: 1, chunk_index: 0 }
    );
    assert_eq!(dht.get_file_locations(&id()).unwrap()[0].address, "127.0.0.1:8080");

    let plan = finish_upload(&mut dht, id(), &local, &vec![peer("a:1"), peer("b:2")], 3).unwrap();
    assert_eq!(plan.len(), 3);
    assert_eq!(dht.get_file_locations(&id()).unwrap().len(), 1);
}

#[test]
fn a_stored_file_is_rebuilt_from_its_chunks_with_no_peer_at_hand() {
    let content = b"The quick brown fox jumps over dog".to_vec();
    assert_eq!(content.len(), 34);
    let chunks = split_into_chunks(id(), &content, 5);
    let mut store: HashMap<String, Vec<u8>> = HashMap::new();
    for (metadata, data) in &chunks {
        store.insert(chunk_file_name(metadata.chunk_index), data.clone());
    }
    let mut dht = DHT::new();
    let local = peer("127.0.0.1:8080");
    assert!(finish_upload(&mut dht, id(), &local, &Vec::new(), chunks.len()).is_err());

    let (file_id, _) = download_sources(&dht, ID_TEXT).unwrap();
    assert_eq!(file_id, id());
    let names: Vec<String> = store.keys().cloned().collect();
    let local_chunks = list_chunks(&names);
    assert_eq!(local_chunks, vec![0, 1, 2, 3, 4, 5, 6]);
    assert_eq!(first_fetch(local_chunks.len(), 0), FetchStep::Finished);
    assert!(is_complete(&local_chunks));
    let count = chunks_to_read(&local_chunks).unwrap();
    let parts: Vec<Vec<u8>> = (0..count).map(|i| store[&chunk_file_name(i)].clone()).collect();
    assert_eq!(join_chunks(&parts), content);
}
