//! The v1 placement policy: for each chunk, a primary and its replicas are
//! drawn at random from the live chunkservers, without replacement.

use vstd::prelude::*;
use crate::config::N_CHUNK_REPLICAS;
use crate::entropy::random_below;
use crate::payloads::ServerId;

verus! {

/// One placement: exactly N_CHUNK_REPLICAS replicas beside the primary, all
/// drawn from the candidates, pairwise distinct.
pub open spec fn placement_entry_ok(
    primary: ServerId,
    replicas: Seq<ServerId>,
    candidates: Seq<ServerId>,
) -> bool {
    &&& replicas.len() == N_CHUNK_REPLICAS
    &&& candidates.contains(primary)
    &&& forall|j: int| 0 <= j < replicas.len() ==> candidates.contains(#[trigger] replicas[j])
    &&& !replicas.contains(primary)
    &&& replicas.no_duplicates()
}

/// Picks servers for new chunks uniformly at random.
pub struct RandomPlacementStrategy {}

impl RandomPlacementStrategy {
    /// For each of `n_chunks` chunks independently: one primary and
    /// N_CHUNK_REPLICAS replicas, distinct servers drawn from `candidates`;
    /// the empty list when fewer than N_CHUNK_REPLICAS + 1 candidates live.
    pub fn select_servers(&self, n_chunks: usize, candidates: &Vec<ServerId>)
        -> (r: Vec<(ServerId, Vec<ServerId>)>)
        requires
            candidates@.no_duplicates(),
        ensures
            candidates@.len() < N_CHUNK_REPLICAS + 1 ==> r@.len() == 0,
            candidates@.len() >= N_CHUNK_REPLICAS + 1 ==> r@.len() == n_chunks,
            forall|i: int| 0 <= i < r@.len()
                ==> placement_entry_ok((#[trigger] r@[i]).0, r@[i].1@, candidates@),
    {
        let m = candidates.len();
        if m < N_CHUNK_REPLICAS + 1 {
            return Vec::new();
        }
        let mut r: Vec<(ServerId, Vec<ServerId>)> = Vec::new();
        let mut k: usize = 0;
        while k < n_chunks
            invariant
                candidates@.no_duplicates(),
                m == candidates@.len(),
                m >= N_CHUNK_REPLICAS + 1,
                r@.len() == k,
                k <= n_chunks,
                forall|i: int| 0 <= i < r@.len()
                    ==> placement_entry_ok((#[trigger] r@[i]).0, r@[i].1@, candidates@),
            decreases n_chunks - k,
        {
            let i0: usize = random_below(m as u64) as usize;
            let s1: usize = random_below((m - 1) as u64) as usize;
            let i1: usize = if s1 >= i0 {
                s1 + 1
            } else {
                s1
            };
            let s2: usize = random_below((m - 2) as u64) as usize;
            let lo: usize = if i0 < i1 {
                i0
            } else {
                i1
            };
            let hi: usize = if i0 < i1 {
                i1
            } else {
                i0
            };
            let t1: usize = if s2 >= lo {
                s2 + 1
            } else {
                s2
            };
            let i2: usize = if t1 >= hi {
                t1 + 1
            } else {
                t1
            };
            proof {
                assert(i0 < m && i1 < m && i2 < m);
                assert(i0 != i1 && i0 != i2 && i1 != i2);
            }
            let primary = candidates[i0];
            let mut reps: Vec<ServerId> = Vec::new();
            reps.push(candidates[i1]);
            reps.push(candidates[i2]);
            proof {
                assert(candidates@[i0 as int] != candidates@[i1 as int]);
                assert(candidates@[i0 as int] != candidates@[i2 as int]);
                assert(candidates@[i1 as int] != candidates@[i2 as int]);
                assert(placement_entry_ok(primary, reps@, candidates@));
            }
            r.push((primary, reps));
            k = k + 1;
        }
        r
    }
}

} // verus!
