//! The replication policy: which peers receive which chunk.
//!
//! Every chunk of a file goes to the same peers: the first
//! `REPLICATION_FACTOR` distinct candidates that are not the node itself.
//! Either every chunk can be placed or the whole request is refused.

use crate::peer::discovery::{addresses, knows, Peer};
use vstd::prelude::*;

verus! {

/// How many distinct peers each chunk is pushed to.
pub const REPLICATION_FACTOR: usize = 2;

/// Why a file cannot be replicated.
#[derive(Debug, Clone, Copy, PartialEq, Eq, Structural)]
pub enum ReplicationError {
    /// Fewer eligible peers than the replication factor, found while
    /// choosing the peers for chunk `chunk_index`.
    InsufficientPeers { required: usize, available: usize, chunk_index: usize },
}

/// One chunk and the peers it is to be pushed to, in order.
#[derive(Debug)]
pub struct ChunkPlacement {
    /// The chunk.
    pub chunk_index: usize,
    /// The peers that receive it.
    pub targets: Vec<Peer>,
}

/// The candidates a chunk may go to: the addresses in `candidates` other
/// than `local`, each once, in order of first appearance.
pub open spec fn eligible(candidates: Seq<Seq<char>>, local: Seq<char>) -> Seq<Seq<char>>
    decreases candidates.len(),
{
    if candidates.len() == 0 {
        Seq::empty()
    } else {
        let earlier = eligible(candidates.drop_last(), local);
        let last = candidates.last();
        if last == local || earlier.contains(last) {
            earlier
        } else {
            earlier.push(last)
        }
    }
}

/// The peers chosen for chunk `chunk_index`, or the reason there are none.
pub open spec fn selection(candidates: Seq<Seq<char>>, local: Seq<char>, chunk_index: usize)
    -> Result<Seq<Seq<char>>, ReplicationError> {
    let pool = eligible(candidates, local);
    if pool.len() < REPLICATION_FACTOR {
        Err(
            ReplicationError::InsufficientPeers {
                required: REPLICATION_FACTOR,
                available: pool.len() as usize,
                chunk_index,
            },
        )
    } else {
        Ok(pool.subrange(0, REPLICATION_FACTOR as int))
    }
}

/// Whether `r` is the outcome that `expected` describes.
pub open spec fn selected_as(
    r: Result<Vec<Peer>, ReplicationError>,
    expected: Result<Seq<Seq<char>>, ReplicationError>,
) -> bool {
    match (r, expected) {
        (Ok(chosen), Ok(wanted)) => addresses(chosen@) == wanted,
        (Err(e), Err(f)) => e == f,
        _ => false,
    }
}

/// Whether `plan` places each of `total` chunks, in index order, on
/// `targets`.
pub open spec fn places_all(plan: Seq<ChunkPlacement>, total: usize, targets: Seq<Seq<char>>)
    -> bool {
    &&& plan.len() == total
    &&& forall|i: int|
        0 <= i < plan.len() ==> {
            &&& (#[trigger] plan[i]).chunk_index == i
            &&& addresses(plan[i].targets@) == targets
        }
}

/// Whether `r` is the plan for `total` chunks: nothing to do for no chunks,
/// a refusal at the first chunk when peers are lacking, and otherwise every
/// chunk on the selected peers.
pub open spec fn planned_as(
    r: Result<Vec<ChunkPlacement>, ReplicationError>,
    candidates: Seq<Seq<char>>,
    local: Seq<char>,
    total: usize,
) -> bool {
    if total == 0 {
        r matches Ok(plan) && plan@.len() == 0
    } else {
        match (r, selection(candidates, local, 0)) {
            (Ok(plan), Ok(targets)) => places_all(plan@, total, targets),
            (Err(e), Err(f)) => e == f,
            _ => false,
        }
    }
}

/// Eligible peers are candidates, are not the node itself, and are pairwise
/// distinct; and every candidate other than the node is among them.
pub proof fn lemma_eligible(candidates: Seq<Seq<char>>, local: Seq<char>)
    ensures
        eligible(candidates, local).len() <= candidates.len(),
        forall|i: int|
            0 <= i < eligible(candidates, local).len() ==> {
                &&& candidates.contains(#[trigger] eligible(candidates, local)[i])
                &&& eligible(candidates, local)[i] != local
            },
        forall|i: int, j: int|
            0 <= i < j < eligible(candidates, local).len() ==> eligible(candidates, local)[i]
                != eligible(candidates, local)[j],
        forall|i: int|
            0 <= i < candidates.len() && candidates[i] != local ==> eligible(
                candidates,
                local,
            ).contains(#[trigger] candidates[i]),
    decreases candidates.len(),
{
    if candidates.len() > 0 {
        let shorter = candidates.drop_last();
        let earlier = eligible(shorter, local);
        let pool = eligible(candidates, local);
        let last = candidates.last();
        lemma_eligible(shorter, local);
        assert forall|i: int| 0 <= i < pool.len() implies candidates.contains(#[trigger] pool[i])
            && pool[i] != local by {
            if i < earlier.len() {
                assert(pool[i] == earlier[i]);
                let k = choose|k: int| 0 <= k < shorter.len() && shorter[k] == earlier[i];
                assert(candidates[k] == earlier[i]);
            } else {
                assert(candidates[candidates.len() - 1] == last);
            }
        }
        assert forall|i: int, j: int| 0 <= i < j < pool.len() implies pool[i] != pool[j] by {
            if j >= earlier.len() {
                assert(pool[i] == earlier[i]);
            }
        }
        assert forall|i: int| 0 <= i < candidates.len() && candidates[i] != local implies pool.contains(
            #[trigger] candidates[i],
        ) by {
            if i < shorter.len() {
                assert(shorter[i] == candidates[i]);
                let k = choose|k: int| 0 <= k < earlier.len() && earlier[k] == shorter[i];
                assert(pool[k] == candidates[i]);
            } else {
                if earlier.contains(last) {
                    let k = choose|k: int| 0 <= k < earlier.len() && earlier[k] == last;
                    assert(pool[k] == last);
                } else {
                    assert(pool[pool.len() - 1] == last);
                }
            }
        }
    }
}

/// With fewer eligible peers than the replication factor no chunk is
/// placed; otherwise each chunk is placed on exactly `REPLICATION_FACTOR`
/// peers, all different, all candidates, none of them the node itself.
pub proof fn lemma_selection(candidates: Seq<Seq<char>>, local: Seq<char>, chunk_index: usize)
    ensures
        eligible(candidates, local).len() < REPLICATION_FACTOR ==> selection(
            candidates,
            local,
            chunk_index,
        ) is Err,
        eligible(candidates, local).len() >= REPLICATION_FACTOR ==> {
            &&& selection(candidates, local, chunk_index) matches Ok(chosen)
            &&& chosen.len() == REPLICATION_FACTOR
            &&& chosen[0] != chosen[1]
            &&& forall|i: int|
                0 <= i < chosen.len() ==> candidates.contains(#[trigger] chosen[i]) && chosen[i]
                    != local
        },
{
    lemma_eligible(candidates, local);
    let pool = eligible(candidates, local);
    if pool.len() >= REPLICATION_FACTOR {
        let chosen = pool.subrange(0, REPLICATION_FACTOR as int);
        assert forall|i: int| 0 <= i < chosen.len() implies candidates.contains(
            #[trigger] chosen[i],
        ) && chosen[i] != local by {
            assert(chosen[i] == pool[i]);
        }
        assert(chosen[0] == pool[0] && chosen[1] == pool[1]);
    }
}

/// The peers a chunk may go to, in order.
pub fn eligible_peers(candidates: &Vec<Peer>, local: &Peer) -> (r: Vec<Peer>)
    ensures
        addresses(r@) == eligible(addresses(candidates@), local@),
{
    let mut pool: Vec<Peer> = Vec::new();
    let mut i: usize = 0;
    let ghost all = addresses(candidates@);
    assert(all.subrange(0, 0) =~= Seq::<Seq<char>>::empty());
    assert(addresses(pool@) =~= Seq::<Seq<char>>::empty());
    while i < candidates.len()
        invariant
            i <= candidates@.len(),
            all == addresses(candidates@),
            addresses(pool@) == eligible(all.subrange(0, i as int), local@),
        decreases candidates@.len() - i,
    {
        let ghost before = addresses(pool@);
        let ghost grown = all.subrange(0, i + 1);
        assert(grown.drop_last() =~= all.subrange(0, i as int));
        assert(grown.last() == candidates@[i as int]@);
        let candidate = &candidates[i];
        if !candidate.same_as(local) && !knows(&pool, candidate) {
            pool.push(candidate.clone());
            assert(addresses(pool@) =~= before.push(candidate@));
        }
        i += 1;
    }
    assert(all.subrange(0, candidates@.len() as int) =~= all);
    pool
}

/// Chooses the peers that receive chunk `chunk_index`.
///
/// The choice is the first `REPLICATION_FACTOR` eligible peers; with fewer
/// than that the chunk cannot be placed.
pub fn select_peers_for_replication(candidates: &Vec<Peer>, local: &Peer, chunk_index: usize) -> (r:
    Result<Vec<Peer>, ReplicationError>)
    ensures
        selected_as(r, selection(addresses(candidates@), local@, chunk_index)),
{
    let pool = eligible_peers(candidates, local);
    if pool.len() < REPLICATION_FACTOR {
        return Err(
            ReplicationError::InsufficientPeers {
                required: REPLICATION_FACTOR,
                available: pool.len(),
                chunk_index,
            },
        );
    }
    let mut chosen: Vec<Peer> = Vec::new();
    chosen.push(pool[0].clone());
    chosen.push(pool[1].clone());
    assert(addresses(chosen@) =~= addresses(pool@).subrange(0, REPLICATION_FACTOR as int));
    Ok(chosen)
}

/// Plans the replication of a file of `total_chunks` chunks.
///
/// Chunks are taken in index order and each is placed by
/// `select_peers_for_replication`; the first chunk that cannot be placed
/// refuses the whole file.
pub fn replicate_chunks(candidates: &Vec<Peer>, local: &Peer, total_chunks: usize) -> (r: Result<
    Vec<ChunkPlacement>,
    ReplicationError,
>)
    ensures
        planned_as(r, addresses(candidates@), local@, total_chunks),
{
    let mut plan: Vec<ChunkPlacement> = Vec::new();
    let mut chunk_index: usize = 0;
    while chunk_index < total_chunks
        invariant
            chunk_index <= total_chunks,
            plan@.len() == chunk_index,
            chunk_index > 0 ==> selection(addresses(candidates@), local@, 0) is Ok,
            forall|i: int|
                0 <= i < plan@.len() ==> {
                    &&& (#[trigger] plan@[i]).chunk_index == i
                    &&& Ok::<Seq<Seq<char>>, ReplicationError>(addresses(plan@[i].targets@))
                        == selection(addresses(candidates@), local@, 0)
                },
        decreases total_chunks - chunk_index,
    {
        match select_peers_for_replication(candidates, local, chunk_index) {
            Ok(targets) => {
                plan.push(ChunkPlacement { chunk_index, targets });
            },
            Err(e) => {
                return Err(e);
            },
        }
        chunk_index += 1;
    }
    Ok(plan)
}

} // verus!
