use sharesphere::file_manager::replication::{
    eligible_peers, replicate_chunks, select_peers_for_replication, ReplicationError,
    REPLICATION_FACTOR,
};
use sharesphere::peer::discovery::Peer;

fn peers(addresses: &[&str]) -> Vec<Peer> {
    addresses.iter().map(|a| Peer { address: a.to_string() }).collect()
}

fn addresses(peers: &[Peer]) -> Vec<String> {
    peers.iter().map(|p| p.address.clone()).collect()
}

#[test]
fn test_replicate_chunks_success() {
    let peers = vec![
        Peer { address: "127.0.0.1:8081".to_string() },
        Peer { address: "127.0.0.1:8082".to_string() },
        Peer { address: "127.0.0.1:8083".to_string() },
    ];
    let local = Peer { address: "127.0.0.1:8080".to_string() };

    let result = replicate_chunks(&peers, &local, 3);
    assert!(result.is_ok());
}

#[test]
fn test_replicate_chunks_insufficient_peers() {
    let peers = vec![Peer { address: "127.0.0.1:8081".to_string() }];
    let local = Peer { address: "127.0.0.1:8080".to_string() };

    let result = replicate_chunks(&peers, &local, 2);
    assert!(result.is_err());
}

#[test]
fn every_chunk_goes_to_the_first_two_eligible_peers() {
    let candidates = peers(&["a:1", "b:2", "c:3"]);
    let local = Peer { address: "me:0".to_string() };
    let plan = replicate_chunks(&candidates, &local, 3).unwrap();
    assert_eq!(plan.len(), 3);
    for (i, placement) in plan.iter().enumerate() {
        assert_eq!(placement.chunk_index, i);
        assert_eq!(placement.targets.len(), REPLICATION_FACTOR);
        assert_eq!(addresses(&placement.targets), vec!["a:1", "b:2"]);
    }
}

#[test]
fn the_node_itself_is_never_chosen() {
    let candidates = peers(&["me:0", "a:1", "me:0", "b:2"]);
    let local = Peer { address: "me:0".to_string() };
    let chosen = select_peers_for_replication(&candidates, &local, 0).unwrap();
    assert_eq!(addresses(&chosen), vec!["a:1", "b:2"]);
}

#[test]
fn a_peer_listed_twice_counts_once() {
    let candidates = peers(&["a:1", "a:1", "b:2"]);
    let local = Peer { address: "me:0".to_string() };
    let chosen = select_peers_for_replication(&candidates, &local, 4).unwrap();
    assert_eq!(addresses(&chosen), vec!["a:1", "b:2"]);

    let only_one = peers(&["a:1", "a:1", "a:1"]);
    assert_eq!(
        select_peers_for_replication(&only_one, &local, 4).unwrap_err(),
        ReplicationError::InsufficientPeers { required: 2, available: 1, chunk_index: 4 }
    );
}

#[test]
fn too_few_peers_is_an_error_that_names_the_chunk() {
    let local = Peer { address: "me:0".to_string() };
    assert_eq!(
        select_peers_for_replication(&peers(&[]), &local, 7).unwrap_err(),
        ReplicationError::InsufficientPeers { required: 2, available: 0, chunk_index: 7 }
    );
    assert_eq!(
        select_peers_for_replication(&peers(&["a:1", "me:0"]), &local, 3).unwrap_err(),
        ReplicationError::InsufficientPeers { required: 2, available: 1, chunk_index: 3 }
    );
}

#[test]
fn a_refused_plan_places_nothing_and_blames_the_first_chunk() {
    let local = Peer { address: "me:0".to_string() };
    assert_eq!(
        replicate_chunks(&peers(&["a:1"]), &local, 5).unwrap_err(),
        ReplicationError::InsufficientPeers { required: 2, available: 1, chunk_index: 0 }
    );
}

#[test]
fn a_file_without_chunks_needs_no_peers() {
    let local = Peer { address: "me:0".to_string() };
    let plan = replicate_chunks(&peers(&[]), &local, 0).unwrap();
    assert!(plan.is_empty());
}

#[test]
fn eligible_peers_keep_their_order() {
    let candidates = peers(&["c:3", "me:0", "a:1", "c:3", "b:2", "a:1"]);
    let local = Peer { address: "me:0".to_string() };
    assert_eq!(addresses(&eligible_peers(&candidates, &local)), vec!["c:3", "a:1", "b:2"]);
}
