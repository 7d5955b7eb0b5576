//! Looking a file up by the text of its identifier.

use crate::file_id::{parsed_file_id, FileId};
use crate::indexing::dht::{IndexModel, DHT};
use vstd::prelude::*;
use vstd::utf8::encode_utf8;

verus! {

/// The text of each string.
pub open spec fn texts(strings: Seq<String>) -> Seq<Seq<char>> {
    Seq::new(strings.len(), |i: int| strings[i]@)
}

/// The addresses that a query finds: those recorded for the file the query
/// names, and none when the query names no file or an unknown one.
pub open spec fn found(m: IndexModel, query: Seq<u8>) -> Seq<Seq<char>> {
    match parsed_file_id(query) {
        Some(id) => if m.contains_key(id) {
            m[id]
        } else {
            Seq::empty()
        },
        None => Seq::empty(),
    }
}

/// The addresses of the peers known to hold the file that `query` names, in
/// the order they were registered.
pub fn search_file(dht: &DHT, query: &str) -> (r: Vec<String>)
    ensures
        texts(r@) == found(dht@, encode_utf8(query@)),
{
    let mut out: Vec<String> = Vec::new();
    match FileId::parse_str(query) {
        Some(file_id) => {
            match dht.get_file_locations(&file_id) {
                Some(peers) => {
                    let mut i: usize = 0;
                    let ghost list = dht@[file_id];
                    assert(texts(out@) =~= dht@[file_id].subrange(0, 0));
                    while i < peers.len()
                        invariant
                            i <= peers@.len(),
                            dht@.contains_key(file_id),
                            list == dht@[file_id],
                            crate::peer::discovery::addresses(peers@) == list,
                            out@.len() == i,
                            texts(out@) == list.subrange(0, i as int),
                        decreases peers@.len() - i,
                    {
                        let ghost before = texts(out@);
                        out.push(peers[i].address.clone());
                        proof {
                            let now = texts(out@);
                            let wanted = list.subrange(0, i + 1);
                            assert(list[i as int] == peers@[i as int]@);
                            assert forall|k: int| 0 <= k < now.len() implies now[k]
                                == wanted[k] by {
                                if k < i {
                                    assert(now[k] == before[k]);
                                }
                            }
                            assert(now =~= wanted);
                        }
                        i += 1;
                    }
                    assert(dht@[file_id].subrange(0, peers@.len() as int) =~= dht@[file_id]);
                },
                None => {
                    assert(texts(out@) =~= Seq::<Seq<char>>::empty());
                },
            }
        },
        None => {
            assert(texts(out@) =~= Seq::<Seq<char>>::empty());
        },
    }
    out
}

} // verus!
