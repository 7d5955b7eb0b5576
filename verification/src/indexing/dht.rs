//! The location index: which peers are known to hold which file.
//!
//! The index only grows. Registering a peer that is already recorded for a
//! file changes nothing, so entries learnt from other nodes can be merged
//! any number of times and in any order.

use crate::file_id::FileId;
use crate::peer::discovery::{addresses, knows, Peer};
use std::collections::HashMap;
use vstd::prelude::*;
use vstd::std_specs::hash::*;
use vstd::std_specs::iter::IteratorSpec;

verus! {

broadcast use vstd::std_specs::hash::group_hash_axioms;

/// The index as a mathematical object: for each known file, the addresses
/// recorded for it, in the order they were first registered.
pub type IndexModel = Map<FileId, Seq<Seq<char>>>;

/// One line of the index: a file and the address of a peer that holds it.
pub type EntryModel = (FileId, Seq<char>);

/// Whether `m` records `address` for `id`.
pub open spec fn holds(m: IndexModel, id: FileId, address: Seq<char>) -> bool {
    m.contains_key(id) && m[id].contains(address)
}

/// Whether every known file has at least one address and no address twice.
pub open spec fn well_formed(m: IndexModel) -> bool {
    forall|id: FileId| #[trigger]
        m.contains_key(id) ==> m[id].len() > 0 && m[id].no_duplicates()
}

/// The index after `address` is registered for `id`: unchanged when the
/// address is already recorded, otherwise with the address added last.
pub open spec fn registered(m: IndexModel, id: FileId, address: Seq<char>) -> IndexModel {
    if !m.contains_key(id) {
        m.insert(id, seq![address])
    } else if m[id].contains(address) {
        m
    } else {
        m.insert(id, m[id].push(address))
    }
}

/// The index after each of `entries` is registered, first to last.
pub open spec fn merged(m: IndexModel, entries: Seq<EntryModel>) -> IndexModel
    decreases entries.len(),
{
    if entries.len() == 0 {
        m
    } else {
        registered(merged(m, entries.drop_last()), entries.last().0, entries.last().1)
    }
}

/// The entries of a list of pairs as the index sees them.
pub open spec fn entry_models(entries: Seq<(FileId, String)>) -> Seq<EntryModel> {
    Seq::new(entries.len(), |i: int| (entries[i].0, entries[i].1@))
}

/// Whether `entries` lists the index: every recorded pair, each once.
pub open spec fn lists(entries: Seq<EntryModel>, m: IndexModel) -> bool {
    &&& entries.no_duplicates()
    &&& forall|id: FileId, address: Seq<char>|
        #![trigger holds(m, id, address)]
        entries.contains((id, address)) <==> holds(m, id, address)
}

/// Registering records the pair and keeps everything else as it was.
pub proof fn lemma_registered(m: IndexModel, id: FileId, address: Seq<char>)
    ensures
        holds(registered(m, id, address), id, address),
        forall|other: FileId, a: Seq<char>|
            #![trigger holds(registered(m, id, address), other, a)]
            holds(registered(m, id, address), other, a) <==> (holds(m, other, a) || (other == id
                && a == address)),
        well_formed(m) ==> well_formed(registered(m, id, address)),
{
    let after = registered(m, id, address);
    if !m.contains_key(id) {
        assert(seq![address][0] == address);
    } else if !m[id].contains(address) {
        let grown = m[id].push(address);
        assert(grown[grown.len() - 1] == address);
        assert forall|a: Seq<char>| grown.contains(a) <==> (m[id].contains(a) || a
            == address) by {
            if m[id].contains(a) {
                let k = choose|k: int| 0 <= k < m[id].len() && m[id][k] == a;
                assert(grown[k] == a);
            }
            if grown.contains(a) {
                let k = choose|k: int| 0 <= k < grown.len() && grown[k] == a;
                if k < m[id].len() {
                    assert(m[id][k] == a);
                }
            }
        }
    }
    assert forall|other: FileId, a: Seq<char>| holds(after, other, a) <==> (holds(m, other, a)
        || (other == id && a == address)) by {
        if other == id && !m.contains_key(id) {
            if seq![address].contains(a) {
                let k = choose|k: int| 0 <= k < seq![address].len() && seq![address][k] == a;
                assert(a == address);
            }
        }
    }
    if well_formed(m) {
        assert forall|other: FileId| #[trigger] after.contains_key(other) implies after[other].len()
            > 0 && after[other].no_duplicates() by {
            if other == id {
                if m.contains_key(id) && !m[id].contains(address) {
                    let grown = m[id].push(address);
                    assert forall|i: int, j: int|
                        0 <= i < grown.len() && 0 <= j < grown.len() && i != j implies grown[i]
                        != grown[j] by {
                        if i < m[id].len() && j < m[id].len() {
                            assert(m[id][i] != m[id][j]);
                        } else if i < m[id].len() {
                            assert(m[id].contains(grown[i]));
                        } else {
                            assert(m[id].contains(grown[j]));
                        }
                    }
                }
            } else {
                assert(m.contains_key(other));
            }
        }
    }
}

/// Registering the same peer for the same file twice is the same as
/// registering it once.
pub proof fn lemma_register_idempotent(m: IndexModel, id: FileId, address: Seq<char>)
    ensures
        registered(registered(m, id, address), id, address) == registered(m, id, address),
{
    lemma_registered(m, id, address);
}

/// After a merge the index records what it recorded before and what was
/// merged, and nothing else.
pub proof fn lemma_merged(m: IndexModel, entries: Seq<EntryModel>)
    ensures
        forall|id: FileId, a: Seq<char>|
            #![trigger holds(merged(m, entries), id, a)]
            holds(merged(m, entries), id, a) <==> (holds(m, id, a) || entries.contains((id, a))),
        well_formed(m) ==> well_formed(merged(m, entries)),
    decreases entries.len(),
{
    if entries.len() > 0 {
        let earlier = entries.drop_last();
        let last = entries.last();
        lemma_merged(m, earlier);
        lemma_registered(merged(m, earlier), last.0, last.1);
        assert forall|id: FileId, a: Seq<char>| holds(merged(m, entries), id, a) <==> (holds(
            m,
            id,
            a,
        ) || entries.contains((id, a))) by {
            let step = merged(m, earlier);
            assert(holds(registered(step, last.0, last.1), id, a) <==> (holds(step, id, a) || (id
                == last.0 && a == last.1)));
            assert(holds(step, id, a) <==> (holds(m, id, a) || earlier.contains((id, a))));
            if earlier.contains((id, a)) {
                let k = choose|k: int| 0 <= k < earlier.len() && earlier[k] == (id, a);
                assert(entries[k] == (id, a));
            }
            if entries.contains((id, a)) {
                let k = choose|k: int| 0 <= k < entries.len() && entries[k] == (id, a);
                if k < earlier.len() {
                    assert(earlier[k] == (id, a));
                }
            }
            if (id, a) == last {
                assert(entries[entries.len() - 1] == (id, a));
            }
        }
    } else {
        assert forall|id: FileId, a: Seq<char>| !entries.contains((id, a)) by {}
    }
}

/// Merging entries that the index already records changes nothing.
pub proof fn lemma_merge_known(m: IndexModel, entries: Seq<EntryModel>)
    requires
        forall|i: int| 0 <= i < entries.len() ==> holds(m, (#[trigger] entries[i]).0, entries[i].1),
    ensures
        merged(m, entries) == m,
    decreases entries.len(),
{
    if entries.len() > 0 {
        let earlier = entries.drop_last();
        assert forall|i: int| 0 <= i < earlier.len() implies holds(
            m,
            (#[trigger] earlier[i]).0,
            earlier[i].1,
        ) by {
            assert(earlier[i] == entries[i]);
        }
        lemma_merge_known(m, earlier);
        assert(entries[entries.len() - 1] == entries.last());
    }
}

/// Merging the same entries twice is the same as merging them once.
pub proof fn lemma_merge_idempotent(m: IndexModel, entries: Seq<EntryModel>)
    ensures
        merged(merged(m, entries), entries) == merged(m, entries),
{
    lemma_merged(m, entries);
    let once = merged(m, entries);
    assert forall|i: int| 0 <= i < entries.len() implies holds(
        once,
        (#[trigger] entries[i]).0,
        entries[i].1,
    ) by {
        let e = entries[i];
        assert(entries[i] == (e.0, e.1));
        assert(entries.contains((e.0, e.1)));
        assert(holds(once, e.0, e.1) <==> (holds(m, e.0, e.1) || entries.contains((e.0, e.1))));
    }
    lemma_merge_known(once, entries);
}

/// When two nodes each merge a listing of the other's index, both end up
/// recording the same pairs.
pub proof fn lemma_exchange_converges(
    a: IndexModel,
    b: IndexModel,
    listing_of_a: Seq<EntryModel>,
    listing_of_b: Seq<EntryModel>,
)
    requires
        lists(listing_of_a, a),
        lists(listing_of_b, b),
    ensures
        forall|id: FileId, address: Seq<char>|
            #![trigger holds(merged(a, listing_of_b), id, address)]
            #![trigger holds(merged(b, listing_of_a), id, address)]
            holds(merged(a, listing_of_b), id, address) <==> holds(
                merged(b, listing_of_a),
                id,
                address,
            ),
{
    lemma_merged(a, listing_of_b);
    lemma_merged(b, listing_of_a);
    let left = merged(a, listing_of_b);
    let right = merged(b, listing_of_a);
    assert forall|id: FileId, address: Seq<char>| holds(left, id, address) <==> holds(
        right,
        id,
        address,
    ) by {
        assert(holds(left, id, address) <==> (holds(a, id, address) || listing_of_b.contains(
            (id, address),
        )));
        assert(holds(right, id, address) <==> (holds(b, id, address) || listing_of_a.contains(
            (id, address),
        )));
        assert(listing_of_a.contains((id, address)) <==> holds(a, id, address));
        assert(listing_of_b.contains((id, address)) <==> holds(b, id, address));
    }
}

/// The location index of one node.
#[derive(Debug)]
pub struct DHT {
    inner: HashMap<u128, Vec<Peer>>,
}

/// The pairs recorded under the keys `keys`, key by key.
pub open spec fn flattened(keys: Seq<u128>, m: Map<u128, Vec<Peer>>) -> Seq<EntryModel>
    decreases keys.len(),
{
    if keys.len() == 0 {
        Seq::empty()
    } else {
        flattened(keys.drop_last(), m) + under(keys.last(), addresses(m[keys.last()]@))
    }
}

/// The pairs that record `list` for the file with number `bits`.
pub open spec fn under(bits: u128, list: Seq<Seq<char>>) -> Seq<EntryModel> {
    Seq::new(list.len(), |j: int| (FileId { bits }, list[j]))
}

/// What `flattened` holds, and that it holds nothing twice.
proof fn lemma_flattened(keys: Seq<u128>, m: Map<u128, Vec<Peer>>)
    requires
        keys.no_duplicates(),
        forall|i: int| 0 <= i < keys.len() ==> addresses(m[#[trigger] keys[i]]@).no_duplicates(),
    ensures
        flattened(keys, m).no_duplicates(),
        forall|id: FileId, a: Seq<char>|
            flattened(keys, m).contains((id, a)) <==> (keys.contains(id.bits) && addresses(
                m[id.bits]@,
            ).contains(a)),
    decreases keys.len(),
{
    let all = flattened(keys, m);
    if keys.len() == 0 {
        assert forall|id: FileId, a: Seq<char>| !all.contains((id, a)) by {}
        assert forall|id: FileId| !keys.contains(id.bits) by {}
    } else {
        let earlier = keys.drop_last();
        let last = keys.last();
        let head = flattened(earlier, m);
        let list = addresses(m[last]@);
        let tail = under(last, list);
        assert forall|i: int| 0 <= i < earlier.len() implies addresses(
            m[#[trigger] earlier[i]]@,
        ).no_duplicates() by {
            assert(earlier[i] == keys[i]);
        }
        assert(list.no_duplicates()) by {
            assert(keys[keys.len() - 1] == last);
        }
        lemma_flattened(earlier, m);
        assert(!earlier.contains(last)) by {
            if earlier.contains(last) {
                let k = choose|k: int| 0 <= k < earlier.len() && earlier[k] == last;
                assert(keys[k] == keys[keys.len() - 1]);
            }
        }
        assert forall|id: FileId, a: Seq<char>| all.contains((id, a)) <==> (keys.contains(id.bits)
            && addresses(m[id.bits]@).contains(a)) by {
            if all.contains((id, a)) {
                let k = choose|k: int| 0 <= k < all.len() && all[k] == (id, a);
                if k < head.len() {
                    assert(head[k] == (id, a));
                    assert(head.contains((id, a)));
                    let e = choose|e: int| 0 <= e < earlier.len() && earlier[e] == id.bits;
                    assert(keys[e] == id.bits);
                } else {
                    assert(tail[k - head.len()] == (id, a));
                    assert(list[k - head.len()] == a);
                    assert(keys[keys.len() - 1] == id.bits);
                }
            }
            if keys.contains(id.bits) && addresses(m[id.bits]@).contains(a) {
                let e = choose|e: int| 0 <= e < keys.len() && keys[e] == id.bits;
                if e < earlier.len() {
                    assert(earlier[e] == id.bits);
                    assert(head.contains((id, a)));
                    let k = choose|k: int| 0 <= k < head.len() && head[k] == (id, a);
                    assert(all[k] == (id, a));
                } else {
                    let j = choose|j: int| 0 <= j < list.len() && list[j] == a;
                    assert(tail[j] == (id, a));
                    assert(all[head.len() + j] == (id, a));
                }
            }
        }
        assert forall|i: int, j: int| 0 <= i < all.len() && 0 <= j < all.len() && i
            != j implies all[i] != all[j] by {
            if i < head.len() && j < head.len() {
                assert(head[i] != head[j]);
            } else if i >= head.len() && j >= head.len() {
                assert(tail[i - head.len()].1 == list[i - head.len()]);
                assert(tail[j - head.len()].1 == list[j - head.len()]);
            } else if i < head.len() {
                assert(head.contains(head[i]));
                assert(all[j] == tail[j - head.len()]);
                assert(all[j].0.bits == last);
            } else {
                assert(head.contains(head[j]));
                assert(all[i] == tail[i - head.len()]);
                assert(all[i].0.bits == last);
            }
        }
    }
}

/// The keys of `m`, each once, in no particular order.
fn keys_of(m: &HashMap<u128, Vec<Peer>>) -> (r: Vec<u128>)
    ensures
        r@.no_duplicates(),
        r@.to_set() == m@.dom(),
{
    let mut out: Vec<u128> = Vec::new();
    for k in it: m.keys()
        invariant
            it.seq() == spec_keys_iter(m).remaining(),
            out@ == it.seq().unref().subrange(0, it.index()),
    {
        out.push(*k);
        assert(out@ =~= it.seq().unref().subrange(0, it.index() + 1));
    }
    assert(out@ =~= spec_keys_iter(m).remaining().unref());
    proof {
        let rem = spec_keys_iter(m).remaining();
        assert forall|i: int, j: int|
            0 <= i < out@.len() && 0 <= j < out@.len() && i != j implies out@[i] != out@[j] by {
            assert(rem[i] != rem[j]);
        }
    }
    out
}

/// A table whose lists are non-empty and free of duplicates is well formed
/// as an index.
proof fn lemma_table_well_formed(table: Map<u128, Vec<Peer>>, m: IndexModel)
    requires
        forall|k: u128| #[trigger]
            table.contains_key(k) ==> table[k]@.len() > 0 && addresses(table[k]@).no_duplicates(),
        m == Map::new(
            |id: FileId| table.contains_key(id.bits),
            |id: FileId| addresses(table[id.bits]@),
        ),
    ensures
        well_formed(m),
{
    assert forall|id: FileId| #[trigger] m.contains_key(id) implies m[id].len() > 0
        && m[id].no_duplicates() by {
        assert(table.contains_key(id.bits));
    }
}

impl View for DHT {
    type V = IndexModel;

    closed spec fn view(&self) -> IndexModel {
        Map::new(
            |id: FileId| self.inner@.contains_key(id.bits),
            |id: FileId| addresses(self.inner@[id.bits]@),
        )
    }
}

impl DHT {
    /// Whether the index is in order inside: no file without a peer, no
    /// peer twice under one file. Every index made by this module is.
    pub closed spec fn wf(&self) -> bool {
        forall|k: u128| #[trigger]
            self.inner@.contains_key(k) ==> self.inner@[k]@.len() > 0 && addresses(
                self.inner@[k]@,
            ).no_duplicates()
    }

    /// An index that is in order inside is well formed as a model.
    pub proof fn lemma_well_formed(self)
        requires
            self.wf(),
        ensures
            well_formed(self@),
    {
        lemma_table_well_formed(self.inner@, self@);
    }

    /// An index that knows no file.
    pub fn new() -> (r: DHT)
        ensures
            r@ == Map::<FileId, Seq<Seq<char>>>::empty(),
            r.wf(),
    {
        let r = DHT { inner: HashMap::new() };
        assert(r@ =~= Map::<FileId, Seq<Seq<char>>>::empty());
        r
    }

    /// Records that `peer` holds `file_id`. Does nothing if that is already
    /// recorded.
    pub fn register_file_location(&mut self, file_id: FileId, peer: Peer)
        requires
            old(self).wf(),
        ensures
            final(self).wf(),
            final(self)@ == registered(old(self)@, file_id, peer@),
    {
        let ghost before = self.inner@;
        let known = self.inner.get(&file_id.bits);
        let mut list: Vec<Peer> = match known {
            Some(peers) => copy_peers(peers),
            None => Vec::new(),
        };
        if !knows(&list, &peer) {
            let ghost shorter = addresses(list@);
            list.push(peer);
            proof {
                let grown = addresses(list@);
                assert(grown =~= shorter.push(peer@));
                assert forall|i: int, j: int|
                    0 <= i < grown.len() && 0 <= j < grown.len() && i != j implies grown[i]
                    != grown[j] by {
                    if i < shorter.len() && j < shorter.len() {
                        assert(shorter[i] != shorter[j]);
                    } else if i < shorter.len() {
                        assert(shorter.contains(grown[i]));
                    } else {
                        assert(shorter.contains(grown[j]));
                    }
                }
            }
        }
        let ghost wanted = addresses(list@);
        self.inner.insert(file_id.bits, list);
        proof {
            assert forall|k: u128| #[trigger]
                self.inner@.contains_key(k) implies self.inner@[k]@.len() > 0 && addresses(
                self.inner@[k]@,
            ).no_duplicates() by {
                if k != file_id.bits {
                    assert(before.contains_key(k));
                }
            }
            let target = registered(old(self)@, file_id, peer@);
            assert forall|id: FileId| self@.contains_key(id) <==> target.contains_key(id) by {}
            assert forall|id: FileId| self@.contains_key(id) implies self@[id] == target[id] by {
                if id == file_id {
                    if !old(self)@.contains_key(id) {
                        assert(wanted =~= seq![peer@]);
                    }
                } else {
                    assert(id.bits != file_id.bits);
                }
            }
            assert(self@ =~= target);
        }
    }

    /// The peers recorded for `file_id`, or `None` if the file is unknown.
    pub fn get_file_locations(&self, file_id: &FileId) -> (r: Option<Vec<Peer>>)
        ensures
            r is Some <==> self@.contains_key(*file_id),
            r matches Some(peers) ==> addresses(peers@) == self@[*file_id],
    {
        match self.inner.get(&file_id.bits) {
            Some(peers) => Some(copy_peers(peers)),
            None => None,
        }
    }

    /// Every recorded pair of file and address, each once, in no particular
    /// order.
    pub fn all_entries(&self) -> (r: Vec<(FileId, String)>)
        requires
            self.wf(),
        ensures
            lists(entry_models(r@), self@),
    {
        let keys = keys_of(&self.inner);
        let mut out: Vec<(FileId, String)> = Vec::new();
        let mut i: usize = 0;
        assert(keys@.subrange(0, 0) =~= Seq::<u128>::empty());
        assert(entry_models(out@) =~= Seq::<EntryModel>::empty());
        while i < keys.len()
            invariant
                i <= keys@.len(),
                keys@.to_set() == self.inner@.dom(),
                self.wf(),
                entry_models(out@) == flattened(keys@.subrange(0, i as int), self.inner@),
            decreases keys@.len() - i,
        {
            let bits: u128 = keys[i];
            assert(keys@.to_set().contains(bits));
            assert(self.inner@.contains_key(bits));
            let ghost head = entry_models(out@);
            let ghost list = addresses(self.inner@[bits]@);
            match self.inner.get(&bits) {
                Some(peers) => {
                    let mut j: usize = 0;
                    while j < peers.len()
                        invariant
                            j <= peers@.len(),
                            list == addresses(peers@),
                            entry_models(out@) == head + under(bits, list).subrange(0, j as int),
                        decreases peers@.len() - j,
                    {
                        let ghost before = entry_models(out@);
                        let address = peers[j].address.clone();
                        out.push((FileId { bits }, address));
                        proof {
                            let now = entry_models(out@);
                            let expected = head + under(bits, list).subrange(0, j + 1);
                            assert(before.len() == head.len() + j);
                            assert(now.len() == before.len() + 1);
                            assert(under(bits, list).len() == peers@.len());
                            assert(now.len() == expected.len());
                            assert forall|k: int| 0 <= k < now.len() implies now[k]
                                == expected[k] by {
                                if k < before.len() {
                                    assert(now[k] == before[k]);
                                } else {
                                    assert(list[j as int] == peers@[j as int]@);
                                }
                            }
                        }
                        assert(entry_models(out@) =~= head + under(bits, list).subrange(
                            0,
                            j + 1,
                        ));
                        j += 1;
                    }
                    assert(under(bits, list).subrange(0, peers@.len() as int) =~= under(
                        bits,
                        list,
                    ));
                },
                None => {
                    assert(false);
                },
            }
            proof {
                let grown = keys@.subrange(0, i + 1);
                assert(grown.drop_last() =~= keys@.subrange(0, i as int));
                assert(grown.last() == bits);
            }
            i += 1;
        }
        proof {
            assert(keys@.subrange(0, keys@.len() as int) =~= keys@);
            assert forall|k: int| 0 <= k < keys@.len() implies addresses(
                self.inner@[#[trigger] keys@[k]]@,
            ).no_duplicates() by {
                assert(keys@.to_set().contains(keys@[k]));
                assert(self.inner@.contains_key(keys@[k]));
            }
            lemma_flattened(keys@, self.inner@);
            assert forall|id: FileId, a: Seq<char>|
                entry_models(out@).contains((id, a)) <==> holds(self@, id, a) by {
                assert(keys@.contains(id.bits) <==> keys@.to_set().contains(id.bits));
            }
        }
        out
    }

    /// Registers every entry, first to last.
    pub fn merge_entries(&mut self, entries: &Vec<(FileId, String)>)
        requires
            old(self).wf(),
        ensures
            final(self).wf(),
            final(self)@ == merged(old(self)@, entry_models(entries@)),
    {
        let mut i: usize = 0;
        let ghost all = entry_models(entries@);
        assert(all.subrange(0, 0) =~= Seq::<EntryModel>::empty());
        while i < entries.len()
            invariant
                i <= entries@.len(),
                all == entry_models(entries@),
                self@ == merged(old(self)@, all.subrange(0, i as int)),
                self.wf(),
            decreases entries@.len() - i,
        {
            let peer = Peer::new(entries[i].1.clone());
            self.register_file_location(entries[i].0, peer);
            proof {
                let grown = all.subrange(0, i + 1);
                assert(grown.drop_last() =~= all.subrange(0, i as int));
                assert(grown.last() == all[i as int]);
            }
            i += 1;
        }
        assert(all.subrange(0, entries@.len() as int) =~= all);
    }
}

/// A copy of `peers`.
pub fn copy_peers(peers: &Vec<Peer>) -> (r: Vec<Peer>)
    ensures
        r@ == peers@,
{
    let mut out: Vec<Peer> = Vec::new();
    let mut i: usize = 0;
    while i < peers.len()
        invariant
            i <= peers@.len(),
            out@ == peers@.subrange(0, i as int),
        decreases peers@.len() - i,
    {
        out.push(peers[i].clone());
        assert(out@ =~= peers@.subrange(0, i + 1));
        i += 1;
    }
    assert(peers@.subrange(0, peers@.len() as int) =~= peers@);
    out
}

} // verus!
