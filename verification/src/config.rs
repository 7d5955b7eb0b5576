//! The settings a node starts with.

use crate::codec::bytes::push_all;
use crate::codec::decimal::{decimal_digits, lemma_decimal_digits_shape, render_decimal};
use crate::codec::text::ascii_text;
use crate::peer::discovery::Peer;
use vstd::prelude::*;
use vstd::utf8::encode_utf8;

verus! {

/// The settings of a node.
#[derive(Debug, Clone)]
pub struct Config {
    /// The port the node listens on.
    pub peer_port: u16,
    /// The `host:port` addresses of the peers to dial at start-up.
    pub bootstrap_peers: Vec<String>,
    /// The directory under which chunks are stored.
    pub storage_path: String,
    /// The shared key, as 64 hexadecimal digits.
    pub encryption_key: String,
}

/// The bytes of `127.0.0.1:`.
pub open spec fn loopback_word() -> Seq<u8> {
    seq![49u8, 50u8, 55u8, 46u8, 48u8, 46u8, 48u8, 46u8, 49u8, 58u8]
}

/// The address under which a node listening on `port` knows itself.
pub open spec fn local_address(port: u16) -> Seq<u8> {
    loopback_word() + decimal_digits(port as nat)
}

impl Config {
    /// The node itself as a peer: the loopback address with the node's port.
    pub fn local_peer(&self) -> (r: Peer)
        ensures
            encode_utf8(r@) == local_address(self.peer_port),
    {
        let mut bytes: Vec<u8> = vec![49u8, 50u8, 55u8, 46u8, 48u8, 46u8, 48u8, 46u8, 49u8, 58u8];
        assert(bytes@ =~= loopback_word());
        let port = render_decimal(self.peer_port as usize);
        push_all(&mut bytes, port.as_slice());
        proof {
            lemma_decimal_digits_shape(self.peer_port as nat);
            assert forall|i: int| 0 <= i < bytes@.len() implies #[trigger] bytes@[i] < 128 by {
                if i >= 10 {
                    assert(crate::codec::decimal::is_digit(port@[i - 10]));
                }
            }
        }
        Peer::new(ascii_text(bytes))
    }
}

} // verus!
