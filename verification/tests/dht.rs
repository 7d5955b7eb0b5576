use sharesphere::file_id::FileId;
use sharesphere::indexing::dht::DHT;
use sharesphere::indexing::search::search_file;
use sharesphere::peer::discovery::{bootstrap_peers, knows, Peer};

fn peer(address: &str) -> Peer {
    Peer { address: address.to_string() }
}

fn locations(dht: &DHT, id: FileId) -> Option<Vec<String>> {
    dht.get_file_locations(&id).map(|ps| ps.into_iter().map(|p| p.address).collect())
}

fn sorted(mut entries: Vec<(FileId, String)>) -> Vec<(u128, String)> {
    entries.sort_by(|a, b| (a.0.bits, &a.1).cmp(&(b.0.bits, &b.1)));
    entries.into_iter().map(|(id, a)| (id.bits, a)).collect()
}

#[test]
fn a_new_index_knows_nothing() {
    let dht = DHT::new();
    assert!(dht.get_file_locations(&FileId::from_u128(1)).is_none());
    assert!(dht.all_entries().is_empty());
}

#[test]
fn registering_records_the_peer() {
    let mut dht = DHT::new();
    let id = FileId::from_u128(1);
    dht.register_file_location(id, peer("a:1"));
    dht.register_file_location(id, peer("b:2"));
    assert_eq!(locations(&dht, id), Some(vec!["a:1".to_string(), "b:2".to_string()]));
    assert_eq!(locations(&dht, FileId::from_u128(2)), None);
}

#[test]
fn registering_twice_is_registering_once() {
    let mut dht = DHT::new();
    let id = FileId::from_u128(1);
    dht.register_file_location(id, peer("a:1"));
    let once = locations(&dht, id);
    dht.register_file_location(id, peer("a:1"));
    assert_eq!(locations(&dht, id), once);
    assert_eq!(dht.all_entries().len(), 1);
}

#[test]
fn all_entries_lists_every_pair_once() {
    let mut dht = DHT::new();
    dht.register_file_location(FileId::from_u128(1), peer("a:1"));
    dht.register_file_location(FileId::from_u128(2), peer("a:1"));
    dht.register_file_location(FileId::from_u128(1), peer("b:2"));
    dht.register_file_location(FileId::from_u128(2), peer("a:1"));
    assert_eq!(
        sorted(dht.all_entries()),
        vec![(1, "a:1".to_string()), (1, "b:2".to_string()), (2, "a:1".to_string())]
    );
}

#[test]
fn merging_twice_is_merging_once() {
    let entries = vec![
        (FileId::from_u128(1), "a:1".to_string()),
        (FileId::from_u128(2), "b:2".to_string()),
        (FileId::from_u128(1), "a:1".to_string()),
        (FileId::from_u128(1), "c:3".to_string()),
    ];
    let mut dht = DHT::new();
    dht.register_file_location(FileId::from_u128(1), peer("z:9"));
    dht.merge_entries(&entries);
    let once = sorted(dht.all_entries());
    assert_eq!(
        locations(&dht, FileId::from_u128(1)),
        Some(vec!["z:9".to_string(), "a:1".to_string(), "c:3".to_string()])
    );
    dht.merge_entries(&entries);
    assert_eq!(sorted(dht.all_entries()), once);
    assert_eq!(once.len(), 4);
}

#[test]
fn two_nodes_that_exchange_their_indexes_agree() {
    let mut a = DHT::new();
    let mut b = DHT::new();
    a.register_file_location(FileId::from_u128(1), peer("a:1"));
    a.register_file_location(FileId::from_u128(2), peer("a:1"));
    b.register_file_location(FileId::from_u128(2), peer("b:2"));
    b.register_file_location(FileId::from_u128(3), peer("b:2"));
    let from_a = a.all_entries();
    let from_b = b.all_entries();
    a.merge_entries(&from_b);
    b.merge_entries(&from_a);
    assert_eq!(sorted(a.all_entries()), sorted(b.all_entries()));
    assert_eq!(sorted(a.all_entries()).len(), 4);
}

#[test]
fn search_finds_the_addresses_of_a_known_file() {
    let mut dht = DHT::new();
    let id = FileId::from_u128(0x936da01f_9abd_4d9d_80c7_02af85c822a8);
    dht.register_file_location(id, peer("127.0.0.1:8081"));
    dht.register_file_location(id, peer("127.0.0.1:8082"));
    assert_eq!(
        search_file(&dht, "936da01f-9abd-4d9d-80c7-02af85c822a8"),
        vec!["127.0.0.1:8081".to_string(), "127.0.0.1:8082".to_string()]
    );
    assert_eq!(
        search_file(&dht, "936DA01F9ABD4D9D80C702AF85C822A8"),
        vec!["127.0.0.1:8081".to_string(), "127.0.0.1:8082".to_string()]
    );
}

#[test]
fn search_finds_nothing_for_an_unknown_file_or_a_bad_query() {
    let mut dht = DHT::new();
    dht.register_file_location(FileId::from_u128(1), peer("a:1"));
    assert!(search_file(&dht, "936da01f-9abd-4d9d-80c7-02af85c822a8").is_empty());
    assert!(search_file(&dht, "not an identifier").is_empty());
    assert!(search_file(&dht, "").is_empty());
}

#[test]
fn peers_are_compared_by_address() {
    assert!(peer("a:1").same_as(&peer("a:1")));
    assert!(!peer("a:1").same_as(&peer("a:2")));
    let known = vec![peer("a:1"), peer("b:2")];
    assert!(knows(&known, &peer("b:2")));
    assert!(!knows(&known, &peer("c:3")));
    assert_eq!(peer("a:1").clone().address, "a:1");
    assert_eq!(Peer::new("x:1".to_string()).address, "x:1");
}

#[test]
fn bootstrap_peers_follow_the_configured_addresses() {
    let configured = vec!["a:1".to_string(), "b:2".to_string()];
    let peers = bootstrap_peers(&configured);
    assert_eq!(peers.len(), 2);
    assert_eq!(peers[0].address, "a:1");
    assert_eq!(peers[1].address, "b:2");
}
