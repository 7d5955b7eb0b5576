//! Peers as the node knows them: an address and nothing more.

use vstd::prelude::*;

verus! {

/// A remote node, known by its `host:port` address alone.
#[derive(Debug)]
pub struct Peer {
    /// The `host:port` address.
    pub address: String,
}

impl View for Peer {
    type V = Seq<char>;

    /// A peer is its address.
    open spec fn view(&self) -> Seq<char> {
        self.address@
    }
}

impl Clone for Peer {
    fn clone(&self) -> (r: Self)
        ensures
            r == *self,
    {
        Peer { address: self.address.clone() }
    }
}

impl Peer {
    /// The peer at `address`.
    pub fn new(address: String) -> (r: Peer)
        ensures
            r.address == address,
    {
        Peer { address }
    }

    /// Whether two peers are the same, that is, have the same address.
    pub fn same_as(&self, other: &Peer) -> (r: bool)
        ensures
            r == (self@ == other@),
    {
        self.address == other.address
    }
}

/// The addresses of `peers`, in order.
pub open spec fn addresses(peers: Seq<Peer>) -> Seq<Seq<char>> {
    Seq::new(peers.len(), |i: int| peers[i]@)
}

/// Tells whether some peer in `peers` has the address of `peer`.
pub fn knows(peers: &Vec<Peer>, peer: &Peer) -> (r: bool)
    ensures
        r == addresses(peers@).contains(peer@),
{
    let mut i: usize = 0;
    while i < peers.len()
        invariant
            i <= peers@.len(),
            forall|j: int| 0 <= j < i ==> peers@[j]@ != peer@,
        decreases peers@.len() - i,
    {
        if peers[i].same_as(peer) {
            assert(addresses(peers@)[i as int] == peer@);
            return true;
        }
        i += 1;
    }
    assert forall|j: int| 0 <= j < addresses(peers@).len() implies addresses(peers@)[j]
        != peer@ by {
        assert(addresses(peers@)[j] == peers@[j]@);
    }
    false
}

/// The peers to dial at start-up: one per configured address, in order.
pub fn bootstrap_peers(configured: &Vec<String>) -> (r: Vec<Peer>)
    ensures
        r@.len() == configured@.len(),
        forall|i: int| 0 <= i < r@.len() ==> (#[trigger] r@[i]).address == configured@[i],
{
    let mut out: Vec<Peer> = Vec::new();
    let mut i: usize = 0;
    while i < configured.len()
        invariant
            i <= configured@.len(),
            out@.len() == i,
            forall|j: int| 0 <= j < i ==> (#[trigger] out@[j]).address == configured@[j],
        decreases configured@.len() - i,
    {
        out.push(Peer::new(configured[i].clone()));
        i += 1;
    }
    out
}

} // verus!
