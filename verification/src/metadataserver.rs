//! The metadata server's placement and lookup engine and its
//! chunkserver-liveness tracker: the authoritative maps from file name to
//! chunk list, from chunk to its primary and replicas, and from server id to
//! live membership entry.

use vstd::prelude::*;
use crate::config::{HEARTBEAT_EXPIRY_MILLIS, N_CHUNK_REPLICAS};
use crate::client::{chunk_count, spec_chunk_count};
use crate::entropy::fresh_id;
use crate::kvmap::{clone_bytes, clone_ids, IdMap, NameMap};
use crate::payloads::{
    ChunkId, ChunkLocations, ChunkPlacementResponsePayload, ChunkServerDiscoverPayload,
    ChunkserverLocation, ChunkserverLocationView, GetClientFolderStructureResponsePayload,
    GetFilePlacementResponsePayload, HeartbeatPayload, RequestStatusPayload, ServerId,
};
use crate::placement::{placement_entry_ok, RandomPlacementStrategy};

verus! {

/// The ordered chunk list of one file; chunk order defines byte order.
pub struct FileMetadata {
    pub chunks: Vec<ChunkId>,
}

impl View for FileMetadata {
    type V = Seq<ChunkId>;

    open spec fn view(&self) -> Seq<ChunkId> {
        self.chunks@
    }
}

/// Where one chunk lives: its primary, if any, and its replicas.
pub struct ChunkMetadata {
    pub chunk_id: ChunkId,
    pub primary: Option<ServerId>,
    pub replicas: Vec<ServerId>,
}

/// View of a chunk's metadata.
pub struct ChunkMetadataView {
    pub chunk_id: ChunkId,
    pub primary: Option<ServerId>,
    pub replicas: Seq<ServerId>,
}

impl View for ChunkMetadata {
    type V = ChunkMetadataView;

    open spec fn view(&self) -> ChunkMetadataView {
        ChunkMetadataView {
            chunk_id: self.chunk_id,
            primary: self.primary,
            replicas: self.replicas@,
        }
    }
}

/// One live chunkserver as the metadata server sees it.
pub struct ActiveChunkserver {
    pub server_id: ServerId,
    pub rack_id: Vec<u8>,
    pub hostname: Vec<u8>,
    /// Advertised address for internal traffic.
    pub internal_address: Vec<u8>,
    /// Advertised address for client traffic.
    pub external_address: Vec<u8>,
    /// Cluster-clock milliseconds of the latest heartbeat or discover.
    pub last_heartbeat: u64,
    /// Client requests the server reported for its last heartbeat period.
    pub client_request_count: u64,
    /// Available space the server reported, in bytes.
    pub available_space: u64,
    /// Chunks the server said it stores.
    pub chunks: Vec<ChunkId>,
}

/// View of a live chunkserver entry.
pub struct ActiveChunkserverView {
    pub server_id: ServerId,
    pub rack_id: Seq<u8>,
    pub hostname: Seq<u8>,
    pub internal_address: Seq<u8>,
    pub external_address: Seq<u8>,
    pub last_heartbeat: u64,
    pub client_request_count: u64,
    pub available_space: u64,
    pub chunks: Seq<ChunkId>,
}

impl View for ActiveChunkserver {
    type V = ActiveChunkserverView;

    open spec fn view(&self) -> ActiveChunkserverView {
        ActiveChunkserverView {
            server_id: self.server_id,
            rack_id: self.rack_id@,
            hostname: self.hostname@,
            internal_address: self.internal_address@,
            external_address: self.external_address@,
            last_heartbeat: self.last_heartbeat,
            client_request_count: self.client_request_count,
            available_space: self.available_space,
            chunks: self.chunks@,
        }
    }
}

/// The entry a discover creates: fields from the payload, the clock now,
/// counters zeroed.
pub open spec fn spec_discovered(
    p: crate::payloads::ChunkServerDiscoverView,
    now: u64,
) -> ActiveChunkserverView {
    ActiveChunkserverView {
        server_id: p.server_id,
        rack_id: p.rack_id,
        hostname: p.hostname,
        internal_address: p.internal_address,
        external_address: p.external_address,
        last_heartbeat: now,
        client_request_count: 0,
        available_space: 0,
        chunks: p.stored_chunks,
    }
}

impl ActiveChunkserver {
    /// Builds the fresh membership entry a discover stands for.
    pub fn from_chunkserver_discover(payload: ChunkServerDiscoverPayload, now: u64)
        -> (r: ActiveChunkserver)
        ensures
            r@ == spec_discovered(payload@, now),
    {
        ActiveChunkserver {
            server_id: payload.server_id,
            rack_id: payload.rack_id,
            hostname: payload.hostname,
            internal_address: payload.internal_address,
            external_address: payload.external_address,
            last_heartbeat: now,
            client_request_count: 0,
            available_space: 0,
            chunks: payload.stored_chunks,
        }
    }
}

/// Whether an entry still counts as alive at cluster-clock `now`.
pub open spec fn spec_alive(e: ActiveChunkserverView, now: u64) -> bool {
    now <= e.last_heartbeat + HEARTBEAT_EXPIRY_MILLIS
}

/// The external address and hostname a membership entry resolves to.
pub open spec fn spec_loc(e: ActiveChunkserverView) -> ChunkserverLocationView {
    ChunkserverLocationView { server_location: e.external_address, server_hostname: e.hostname }
}

/// View of the whole metadata-server state.
pub struct MetadataServerView {
    pub files: Map<Seq<u8>, Seq<ChunkId>>,
    pub chunks: Map<ChunkId, ChunkMetadataView>,
    pub active: Map<ServerId, ActiveChunkserverView>,
}

/// One chunk's record is internally consistent and points at live servers.
pub open spec fn chunk_entry_ok(
    c: ChunkId,
    cm: ChunkMetadataView,
    active: Map<ServerId, ActiveChunkserverView>,
) -> bool {
    &&& cm.chunk_id == c
    &&& match cm.primary {
        Some(p) => active.contains_key(p) && !cm.replicas.contains(p),
        None => true,
    }
    &&& cm.replicas.len() <= N_CHUNK_REPLICAS
    &&& cm.replicas.no_duplicates()
    &&& forall|j: int| 0 <= j < cm.replicas.len()
        ==> active.contains_key(#[trigger] cm.replicas[j])
}

/// A file's chunk list is non-empty and every chunk is on record.
pub open spec fn file_entry_ok(ids: Seq<ChunkId>, chunks: Map<ChunkId, ChunkMetadataView>)
    -> bool
{
    &&& ids.len() > 0
    &&& forall|i: int| 0 <= i < ids.len() ==> chunks.contains_key(#[trigger] ids[i])
}

/// The cross-map invariant of the metadata server.
pub open spec fn spec_inv(v: MetadataServerView) -> bool {
    &&& forall|c: ChunkId| v.chunks.contains_key(c)
        ==> chunk_entry_ok(c, #[trigger] v.chunks[c], v.active)
    &&& forall|name: Seq<u8>| v.files.contains_key(name)
        ==> file_entry_ok(#[trigger] v.files[name], v.chunks)
    &&& forall|id: ServerId| v.active.contains_key(id)
        ==> (#[trigger] v.active[id]).server_id == id
}


/// Growing or refreshing the membership map cannot break the invariant, as
/// long as the new entry carries its own id.
proof fn lemma_inv_insert_active(v: MetadataServerView, id: ServerId, e: ActiveChunkserverView)
    requires
        spec_inv(v),
        e.server_id == id,
    ensures
        spec_inv(MetadataServerView { active: v.active.insert(id, e), ..v }),
{
    let w = MetadataServerView { active: v.active.insert(id, e), ..v };
    assert forall|c: ChunkId| w.chunks.contains_key(c)
        implies chunk_entry_ok(c, #[trigger] w.chunks[c], w.active) by {
        let cm = v.chunks[c];
        assert(chunk_entry_ok(c, cm, v.active));
        assert forall|j: int| 0 <= j < cm.replicas.len()
            implies w.active.contains_key(#[trigger] cm.replicas[j]) by {
            assert(v.active.contains_key(cm.replicas[j]));
        }
        match cm.primary {
            Some(p) => {
                assert(v.active.contains_key(p));
            },
            None => {},
        }
    }
    assert forall|name: Seq<u8>| w.files.contains_key(name)
        implies file_entry_ok(#[trigger] w.files[name], w.chunks) by {
        assert(file_entry_ok(v.files[name], v.chunks));
    }
    assert forall|id2: ServerId| w.active.contains_key(id2)
        implies (#[trigger] w.active[id2]).server_id == id2 by {
        if id2 != id {
            assert(v.active.contains_key(id2));
        }
    }
}

/// The metadata server: the authoritative file, chunk and membership maps
/// and the pluggable placement policy.
pub struct MetadataServer {
    pub files: NameMap<FileMetadata>,
    pub chunks: IdMap<ChunkMetadata>,
    pub active_chunkservers: IdMap<ActiveChunkserver>,
    pub placement_strategy: RandomPlacementStrategy,
}

impl View for MetadataServer {
    type V = MetadataServerView;

    open spec fn view(&self) -> MetadataServerView {
        MetadataServerView {
            files: self.files@,
            chunks: self.chunks@,
            active: self.active_chunkservers@,
        }
    }
}

impl MetadataServer {
    /// Backing maps well-formed and the cross-map invariant holds.
    pub open spec fn wf(&self) -> bool {
        &&& self.files.wf()
        &&& self.chunks.wf()
        &&& self.active_chunkservers.wf()
        &&& spec_inv(self@)
    }

    /// An empty cluster: no files, no chunks, no members.
    pub fn new() -> (r: MetadataServer)
        ensures
            r.wf(),
            r@.files == Map::<Seq<u8>, Seq<ChunkId>>::empty(),
            r@.chunks == Map::<ChunkId, ChunkMetadataView>::empty(),
            r@.active == Map::<ServerId, ActiveChunkserverView>::empty(),
    {
        MetadataServer {
            files: NameMap::new(),
            chunks: IdMap::new(),
            active_chunkservers: IdMap::new(),
            placement_strategy: RandomPlacementStrategy {},
        }
    }

    /// Admits or re-admits a chunkserver.  A repeated discover under the same
    /// id replaces the entry outright; any prior liveness state is stale.
    pub fn discover_new_chunkserver(&mut self, payload: ChunkServerDiscoverPayload, now: u64)
        requires
            old(self).wf(),
        ensures
            final(self).wf(),
            final(self)@.active
                == old(self)@.active.insert(payload.server_id, spec_discovered(payload@, now)),
            final(self)@.files == old(self)@.files,
            final(self)@.chunks == old(self)@.chunks,
    {
        let id = payload.server_id;
        let entry = ActiveChunkserver::from_chunkserver_discover(payload, now);
        let ghost ev = entry@;
        self.active_chunkservers.upsert(id, entry);
        proof {
            assert(self@ == MetadataServerView { active: old(self)@.active.insert(id, ev), ..old(self)@ });
            lemma_inv_insert_active(old(self)@, id, ev);
        }
    }

    /// The entry after a heartbeat: clock refreshed, statistics replaced.
    pub open spec fn spec_heartbeat_entry(
        e: ActiveChunkserverView,
        p: HeartbeatPayload,
        now: u64,
    ) -> ActiveChunkserverView {
        ActiveChunkserverView {
            last_heartbeat: now,
            client_request_count: p.client_requests_count,
            available_space: p.available_space,
            ..e
        }
    }

    /// Refreshes a member's liveness clock and statistics; a heartbeat from
    /// an unknown id is ignored as stale.
    pub fn accept_heartbeat(&mut self, payload: &HeartbeatPayload, now: u64)
        requires
            old(self).wf(),
        ensures
            final(self).wf(),
            old(self)@.active.contains_key(payload.server_id)
                ==> final(self)@.active == old(self)@.active.insert(
                    payload.server_id,
                    Self::spec_heartbeat_entry(
                        old(self)@.active[payload.server_id],
                        *payload,
                        now,
                    ),
                ),
            !old(self)@.active.contains_key(payload.server_id)
                ==> final(self)@.active == old(self)@.active,
            final(self)@.files == old(self)@.files,
            final(self)@.chunks == old(self)@.chunks,
    {
        let id = payload.server_id;
        match self.active_chunkservers.remove(id) {
            None => {
                proof {
                    assert(old(self)@.active.remove(id) =~= old(self)@.active);
                    assert(self@ == old(self)@);
                }
            },
            Some(mut e) => {
                e.last_heartbeat = now;
                e.client_request_count = payload.client_requests_count;
                e.available_space = payload.available_space;
                let ghost ev = e@;
                self.active_chunkservers.upsert(id, e);
                proof {
                    assert(old(self)@.active.remove(id).insert(id, ev)
                        =~= old(self)@.active.insert(id, ev));
                    assert(self@ == MetadataServerView {
                        active: old(self)@.active.insert(id, ev),
                        ..old(self)@
                    });
                    assert(old(self)@.active[id].server_id == id);
                    lemma_inv_insert_active(old(self)@, id, ev);
                }
            },
        }
    }

    /// Hands the stored folder structure back; an opaque pass-through whose
    /// carrier has no fields yet.
    pub fn fetch_folder_structure(&self) -> (r: GetClientFolderStructureResponsePayload)
        ensures
            r == (GetClientFolderStructureResponsePayload {}),
    {
        GetClientFolderStructureResponsePayload {}
    }
}

/// How one chunk record looks after the dead ids are scrubbed out of it:
/// a dead primary is cleared, dead replicas disappear, live ones stay.
pub open spec fn spec_scrubbed(
    pre: ChunkMetadataView,
    post: ChunkMetadataView,
    active: Map<ServerId, ActiveChunkserverView>,
) -> bool {
    &&& post.chunk_id == pre.chunk_id
    &&& post.primary == (match pre.primary {
        Some(p) => if active.contains_key(p) {
            Some(p)
        } else {
            None
        },
        None => None::<ServerId>,
    })
    &&& forall|rid: ServerId| #![auto] post.replicas.contains(rid)
        <==> pre.replicas.contains(rid) && active.contains_key(rid)
    &&& post.replicas.no_duplicates()
}

impl MetadataServer {
    /// Removes every member whose last heartbeat is older than the expiry
    /// window at cluster-clock `now`, then scrubs the dead ids out of every
    /// chunk record: a dead primary is cleared to nothing, a dead replica is
    /// dropped.  The removed ids come back as the hook for re-replication.
    pub fn prune_inactive_chunkservers(&mut self, now: u64) -> (removed: Vec<ServerId>)
        requires
            old(self).wf(),
        ensures
            final(self).wf(),
            final(self)@.files == old(self)@.files,
            forall|id: ServerId| #![auto] final(self)@.active.contains_key(id)
                <==> old(self)@.active.contains_key(id)
                    && spec_alive(old(self)@.active[id], now),
            forall|id: ServerId| #![auto] final(self)@.active.contains_key(id)
                ==> final(self)@.active[id] == old(self)@.active[id],
            removed@.no_duplicates(),
            forall|id: ServerId| #![auto] removed@.contains(id)
                <==> old(self)@.active.contains_key(id)
                    && !spec_alive(old(self)@.active[id], now),
            forall|c: ChunkId| #![auto] final(self)@.chunks.contains_key(c)
                <==> old(self)@.chunks.contains_key(c),
            forall|c: ChunkId| #![auto] old(self)@.chunks.contains_key(c)
                ==> spec_scrubbed(
                    old(self)@.chunks[c],
                    final(self)@.chunks[c],
                    final(self)@.active,
                ),
    {
        let ids = self.active_chunkservers.keys();
        let mut removed: Vec<ServerId> = Vec::new();
        let mut i: usize = 0;
        while i < ids.len()
            invariant
                old(self).wf(),
                self.files == old(self).files,
                self.chunks == old(self).chunks,
                self.active_chunkservers.wf(),
                ids@.no_duplicates(),
                forall|id: ServerId| #![auto] ids@.contains(id)
                    <==> old(self)@.active.contains_key(id),
                i <= ids@.len(),
                forall|id: ServerId| #![auto] self@.active.contains_key(id)
                    <==> old(self)@.active.contains_key(id)
                        && !(ids@.subrange(0, i as int).contains(id)
                            && !spec_alive(old(self)@.active[id], now)),
                forall|id: ServerId| #![auto] self@.active.contains_key(id)
                    ==> self@.active[id] == old(self)@.active[id],
                removed@.no_duplicates(),
                forall|id: ServerId| #![auto] removed@.contains(id)
                    <==> ids@.subrange(0, i as int).contains(id)
                        && old(self)@.active.contains_key(id)
                        && !spec_alive(old(self)@.active[id], now),
            decreases ids@.len() - i,
        {
            let ghost pre_sub = ids@.subrange(0, i as int);
            let ghost post_sub = ids@.subrange(0, i as int + 1);
            let id = ids[i];
            proof {
                assert(ids@.contains(id)) by {
                    assert(ids@[i as int] == id);
                }
                if pre_sub.contains(id) {
                    let j = choose|j: int| 0 <= j < i && pre_sub[j] == id;
                    assert(ids@[j] == ids@[i as int]);
                    assert(false);
                }
                assert(old(self)@.active.contains_key(id));
                assert(self@.active.contains_key(id));
                assert(post_sub =~= pre_sub.push(id));
                assert forall|id2: ServerId| #![auto] post_sub.contains(id2)
                    == (pre_sub.contains(id2) || id2 == id) by {
                    vstd::seq_lib::lemma_seq_contains_after_push(pre_sub, id, id2);
                }
            }
            let last: u64;
            match self.active_chunkservers.get(id) {
                Some(e) => {
                    last = e.last_heartbeat;
                },
                None => {
                    proof {
                        assert(false);
                    }
                    last = 0;
                },
            }
            let stale: bool = if now >= last {
                now - last > HEARTBEAT_EXPIRY_MILLIS
            } else {
                false
            };
            proof {
                assert(stale == !spec_alive(old(self)@.active[id], now));
            }
            let ghost pre_removed = removed@;
            if stale {
                self.active_chunkservers.remove(id);
                removed.push(id);
                proof {
                    assert forall|id2: ServerId| #![auto] removed@.contains(id2)
                        == (pre_removed.contains(id2) || id2 == id) by {
                        vstd::seq_lib::lemma_seq_contains_after_push(pre_removed, id, id2);
                    }
                    assert(!pre_removed.contains(id));
                    assert forall|a: int, b: int| 0 <= a < b < removed@.len()
                        implies removed@[a] != removed@[b] by {
                        if b == removed@.len() - 1 {
                            if removed@[a] == id {
                                assert(pre_removed[a] == id);
                                assert(pre_removed.contains(id));
                            }
                        } else {
                            assert(pre_removed[a] == removed@[a]);
                            assert(pre_removed[b] == removed@[b]);
                        }
                    }
                }
            }
            proof {
                assert forall|id2: ServerId| #![auto] removed@.contains(id2)
                    <==> (post_sub.contains(id2)
                        && old(self)@.active.contains_key(id2)
                        && !spec_alive(old(self)@.active[id2], now)) by {
                    assert(post_sub.contains(id2) == (pre_sub.contains(id2) || id2 == id));
                    if id2 == id {
                        assert(post_sub.contains(id));
                        if stale {
                            assert(removed@.contains(id));
                        } else {
                            assert(removed@ == pre_removed);
                            assert(!pre_removed.contains(id));
                        }
                    } else {
                        if stale {
                            assert(removed@.contains(id2) == pre_removed.contains(id2));
                        } else {
                            assert(removed@ == pre_removed);
                        }
                        assert(pre_removed.contains(id2)
                            <==> (pre_sub.contains(id2)
                                && old(self)@.active.contains_key(id2)
                                && !spec_alive(old(self)@.active[id2], now)));
                    }
                }
                assert forall|id2: ServerId| #![auto] self@.active.contains_key(id2)
                    <==> (old(self)@.active.contains_key(id2)
                        && !(post_sub.contains(id2)
                            && !spec_alive(old(self)@.active[id2], now))) by {
                    assert(post_sub.contains(id2) == (pre_sub.contains(id2) || id2 == id));
                    if id2 == id {
                        if stale {
                            assert(!self@.active.contains_key(id));
                        } else {
                            assert(spec_alive(old(self)@.active[id], now));
                        }
                    }
                }
            }
            i = i + 1;
        }
        proof {
            assert(ids@.subrange(0, ids@.len() as int) =~= ids@);
        }
        let ghost mid_active = self@.active;
        let ghost pre_chunks = self@.chunks;
        proof {
            assert forall|c: ChunkId| pre_chunks.contains_key(c)
                implies (#[trigger] pre_chunks[c]).replicas.len() <= N_CHUNK_REPLICAS by {
                assert(chunk_entry_ok(c, old(self)@.chunks[c], old(self)@.active));
            }
        }
        let cids = self.chunks.keys();
        let mut j: usize = 0;
        while j < cids.len()
            invariant
                old(self).wf(),
                self.files == old(self).files,
                self@.active == mid_active,
                self.active_chunkservers.wf(),
                self.chunks.wf(),
                pre_chunks == old(self)@.chunks,
                cids@.no_duplicates(),
                forall|c: ChunkId| #![auto] cids@.contains(c) <==> pre_chunks.contains_key(c),
                j <= cids@.len(),
                forall|c: ChunkId| #![auto] self@.chunks.contains_key(c)
                    <==> pre_chunks.contains_key(c),
                forall|c: ChunkId| #![auto] pre_chunks.contains_key(c)
                        && cids@.subrange(0, j as int).contains(c)
                    ==> spec_scrubbed(pre_chunks[c], self@.chunks[c], mid_active),
                forall|c: ChunkId| #![auto] pre_chunks.contains_key(c)
                        && !cids@.subrange(0, j as int).contains(c)
                    ==> self@.chunks[c] == pre_chunks[c],
                forall|c: ChunkId| #![auto] pre_chunks.contains_key(c)
                    ==> self@.chunks[c].replicas.len() <= N_CHUNK_REPLICAS,
            decreases cids@.len() - j,
        {
            let ghost pre_csub = cids@.subrange(0, j as int);
            let ghost post_csub = cids@.subrange(0, j as int + 1);
            let c = cids[j];
            proof {
                assert(cids@.contains(c)) by {
                    assert(cids@[j as int] == c);
                }
                if pre_csub.contains(c) {
                    let t = choose|t: int| 0 <= t < j && pre_csub[t] == c;
                    assert(cids@[t] == cids@[j as int]);
                    assert(false);
                }
                assert(pre_chunks.contains_key(c));
                assert(self@.chunks[c] == pre_chunks[c]);
                assert(chunk_entry_ok(c, pre_chunks[c], old(self)@.active));
                assert(post_csub =~= pre_csub.push(c));
                assert forall|c2: ChunkId| #![auto] post_csub.contains(c2)
                    == (pre_csub.contains(c2) || c2 == c) by {
                    vstd::seq_lib::lemma_seq_contains_after_push(pre_csub, c, c2);
                }
            }
            let ghost cur_chunks = self@.chunks;
            let mut cm = match self.chunks.remove(c) {
                Some(x) => x,
                None => {
                    proof {
                        assert(false);
                    }
                    return removed;
                },
            };
            let ghost pre_cm = cm@;
            let new_primary: Option<ServerId> = match cm.primary {
                Some(p) => {
                    if self.active_chunkservers.contains(p) {
                        Some(p)
                    } else {
                        None
                    }
                },
                None => None,
            };
            let mut new_reps: Vec<ServerId> = Vec::new();
            let mut t: usize = 0;
            while t < cm.replicas.len()
                invariant
                    self.active_chunkservers.wf(),
                    self@.active == mid_active,
                    cm@ == pre_cm,
                    pre_cm.replicas.no_duplicates(),
                    t <= cm.replicas@.len(),
                    new_reps@.len() <= t,
                    new_reps@.no_duplicates(),
                    forall|rid: ServerId| #![auto] new_reps@.contains(rid)
                        <==> pre_cm.replicas.subrange(0, t as int).contains(rid)
                            && mid_active.contains_key(rid),
                decreases cm.replicas@.len() - t,
            {
                let ghost pre_rsub = pre_cm.replicas.subrange(0, t as int);
                let ghost post_rsub = pre_cm.replicas.subrange(0, t as int + 1);
                let ghost pre_reps = new_reps@;
                let rid = cm.replicas[t];
                proof {
                    if pre_rsub.contains(rid) {
                        let u = choose|u: int| 0 <= u < t && pre_rsub[u] == rid;
                        assert(pre_cm.replicas[u] == pre_cm.replicas[t as int]);
                        assert(false);
                    }
                    assert(post_rsub =~= pre_rsub.push(rid));
                    assert forall|r2: ServerId| #![auto] post_rsub.contains(r2)
                        == (pre_rsub.contains(r2) || r2 == rid) by {
                        vstd::seq_lib::lemma_seq_contains_after_push(pre_rsub, rid, r2);
                    }
                }
                if self.active_chunkservers.contains(rid) {
                    new_reps.push(rid);
                    proof {
                        assert forall|r2: ServerId| #![auto] new_reps@.contains(r2)
                            == (pre_reps.contains(r2) || r2 == rid) by {
                            vstd::seq_lib::lemma_seq_contains_after_push(pre_reps, rid, r2);
                        }
                        assert(!pre_reps.contains(rid));
                        assert forall|a: int, b: int| 0 <= a < b < new_reps@.len()
                            implies new_reps@[a] != new_reps@[b] by {
                            if b == new_reps@.len() - 1 {
                                if new_reps@[a] == rid {
                                    assert(pre_reps[a] == rid);
                                    assert(pre_reps.contains(rid));
                                }
                            } else {
                                assert(pre_reps[a] == new_reps@[a]);
                                assert(pre_reps[b] == new_reps@[b]);
                            }
                        }
                    }
                }
                proof {
                    assert forall|r2: ServerId| #![auto] new_reps@.contains(r2)
                        <==> (post_rsub.contains(r2) && mid_active.contains_key(r2)) by {
                        assert(post_rsub.contains(r2) == (pre_rsub.contains(r2) || r2 == rid));
                        if r2 == rid {
                            if !mid_active.contains_key(rid) {
                                assert(new_reps@ == pre_reps);
                                assert(!pre_reps.contains(rid));
                            } else {
                                assert(new_reps@.contains(rid));
                            }
                        } else {
                            if mid_active.contains_key(rid) {
                                assert(new_reps@.contains(r2) == pre_reps.contains(r2));
                            } else {
                                assert(new_reps@ == pre_reps);
                            }
                            assert(pre_reps.contains(r2)
                                <==> (pre_rsub.contains(r2) && mid_active.contains_key(r2)));
                        }
                    }
                }
                t = t + 1;
            }
            proof {
                assert(pre_cm.replicas.subrange(0, pre_cm.replicas.len() as int)
                    =~= pre_cm.replicas);
            }
            cm.primary = new_primary;
            cm.replicas = new_reps;
            self.chunks.upsert(c, cm);
            proof {
                assert(cur_chunks.remove(c).insert(c, cm@) =~= cur_chunks.insert(c, cm@));
                assert(self@.chunks =~= cur_chunks.insert(c, cm@));
                assert(spec_scrubbed(pre_cm, cm@, mid_active));
            }
            j = j + 1;
        }
        proof {
            assert(cids@.subrange(0, cids@.len() as int) =~= cids@);
            assert forall|c: ChunkId| self@.chunks.contains_key(c)
                implies chunk_entry_ok(c, #[trigger] self@.chunks[c], self@.active) by {
                assert(pre_chunks.contains_key(c));
                assert(cids@.contains(c));
                assert(spec_scrubbed(pre_chunks[c], self@.chunks[c], mid_active));
                let post = self@.chunks[c];
                match post.primary {
                    Some(p) => {
                        assert(mid_active.contains_key(p));
                        assert(!pre_chunks[c].replicas.contains(p));
                        assert(!post.replicas.contains(p));
                    },
                    None => {},
                }
                assert forall|u: int| 0 <= u < post.replicas.len()
                    implies self@.active.contains_key(#[trigger] post.replicas[u]) by {
                    assert(post.replicas.contains(post.replicas[u]));
                }
            }
            assert forall|name: Seq<u8>| self@.files.contains_key(name)
                implies file_entry_ok(#[trigger] self@.files[name], self@.chunks) by {
                assert(file_entry_ok(old(self)@.files[name], old(self)@.chunks));
                let ids2 = self@.files[name];
                assert forall|u: int| 0 <= u < ids2.len()
                    implies self@.chunks.contains_key(#[trigger] ids2[u]) by {
                    assert(old(self)@.chunks.contains_key(ids2[u]));
                }
            }
            assert forall|id: ServerId| self@.active.contains_key(id)
                implies (#[trigger] self@.active[id]).server_id == id by {
                assert(old(self)@.active.contains_key(id));
            }
            assert forall|id: ServerId| #![auto] removed@.contains(id)
                implies old(self)@.active.contains_key(id)
                    && !spec_alive(old(self)@.active[id], now) by {}
            assert forall|id: ServerId| old(self)@.active.contains_key(id)
                    && !spec_alive(old(self)@.active[id], now)
                implies #[trigger] removed@.contains(id) by {
                assert(ids@.contains(id));
            }
        }
        removed
    }
}
/// One chunk of a reply resolves the record in `v`: the id, the primary's
/// address and hostname, and each replica's, in the record's order.
pub open spec fn spec_resolved(
    v: MetadataServerView,
    c: ChunkId,
    cl: crate::payloads::ChunkLocationsView,
) -> bool {
    let cm = v.chunks[c];
    &&& cl.chunk_id == c
    &&& cm.primary matches Some(p) && v.active.contains_key(p)
        && cl.primary == spec_loc(v.active[p])
    &&& cl.secondaries.len() == cm.replicas.len()
    &&& forall|j: int| 0 <= j < cm.replicas.len()
        ==> v.active.contains_key(#[trigger] cm.replicas[j])
            && cl.secondaries[j] == spec_loc(v.active[cm.replicas[j]])
}

impl MetadataServer {
    /// The dialable address and hostname of one live member.
    fn resolve_location(&self, id: ServerId) -> (r: ChunkserverLocation)
        requires
            self.active_chunkservers.wf(),
            self@.active.contains_key(id),
        ensures
            r@ == spec_loc(self@.active[id]),
    {
        match self.active_chunkservers.get(id) {
            Some(e) => ChunkserverLocation {
                server_location: clone_bytes(&e.external_address),
                server_hostname: clone_bytes(&e.hostname),
            },
            None => {
                proof {
                    assert(false);
                }
                ChunkserverLocation { server_location: Vec::new(), server_hostname: Vec::new() }
            },
        }
    }

    /// Resolves every chunk of one record to its primary and replica
    /// locations.  The record's primary must be present and everything it
    /// references live, which the invariant guarantees while `cm` is on
    /// record.
    fn resolve_chunk(&self, cm: &ChunkMetadata) -> (r: Result<ChunkLocations, ()>)
        requires
            self.active_chunkservers.wf(),
            chunk_entry_ok(cm@.chunk_id, cm@, self@.active),
        ensures
            match r {
                Ok(cl) => cm@.primary is Some && {
                    &&& cl@.chunk_id == cm@.chunk_id
                    &&& cm@.primary matches Some(p) && cl@.primary == spec_loc(self@.active[p])
                    &&& cl@.secondaries.len() == cm@.replicas.len()
                    &&& forall|j: int| 0 <= j < cm@.replicas.len()
                        ==> cl@.secondaries[j]
                            == spec_loc(self@.active[#[trigger] cm@.replicas[j]])
                },
                Err(_) => cm@.primary is None,
            },
    {
        let p = match cm.primary {
            None => {
                return Err(());
            },
            Some(p) => p,
        };
        let ploc = self.resolve_location(p);
        let mut secs: Vec<ChunkserverLocation> = Vec::new();
        let mut j: usize = 0;
        while j < cm.replicas.len()
            invariant
                self.active_chunkservers.wf(),
                chunk_entry_ok(cm@.chunk_id, cm@, self@.active),
                j <= cm@.replicas.len(),
                secs@.len() == j,
                forall|t: int| 0 <= t < j
                    ==> (#[trigger] secs@[t])@
                        == spec_loc(self@.active[cm@.replicas[t]]),
            decreases cm@.replicas.len() - j,
        {
            let rid = cm.replicas[j];
            let loc = self.resolve_location(rid);
            secs.push(loc);
            j = j + 1;
        }
        let cl = ChunkLocations { chunk_id: cm.chunk_id, primary: ploc, secondaries: secs };
        proof {
            assert forall|t: int| 0 <= t < cm@.replicas.len()
                implies cl@.secondaries[t]
                    == spec_loc(self@.active[#[trigger] cm@.replicas[t]]) by {
                assert(cl@.secondaries[t] == secs@[t]@);
            }
        }
        Ok(cl)
    }

    /// Looks a file's chunks up and resolves each to addresses.  A missing
    /// file is the client's mistake; a chunk whose primary is gone makes the
    /// file unservable until re-election, which is the server's problem.
    pub fn fetch_file_placement(&self, filename: &Vec<u8>)
        -> (r: Result<GetFilePlacementResponsePayload, RequestStatusPayload>)
        requires
            self.wf(),
        ensures
            match r {
                Ok(resp) => {
                    &&& self@.files.contains_key(filename@)
                    &&& resp@.chunks_locations.len() == self@.files[filename@].len()
                    &&& forall|i: int| 0 <= i < self@.files[filename@].len()
                        ==> (#[trigger] self@.chunks[self@.files[filename@][i]]).primary
                            is Some
                    &&& forall|i: int| 0 <= i < self@.files[filename@].len()
                        ==> spec_resolved(
                            self@,
                            self@.files[filename@][i],
                            #[trigger] resp@.chunks_locations[i],
                        )
                },
                Err(e) => {
                    &&& !self@.files.contains_key(filename@)
                        ==> e == RequestStatusPayload::InvalidRequest
                    &&& self@.files.contains_key(filename@) ==> {
                        &&& e == RequestStatusPayload::InternalServerError
                        &&& exists|i: int| 0 <= i < self@.files[filename@].len()
                            && (#[trigger] self@.chunks[self@.files[filename@][i]]).primary
                                is None
                    }
                },
            },
    {
        let fm = match self.files.get(filename) {
            None => {
                return Err(RequestStatusPayload::InvalidRequest);
            },
            Some(f) => f,
        };
        let ghost idsv = self@.files[filename@];
        proof {
            assert(file_entry_ok(idsv, self@.chunks));
        }
        let mut out: Vec<ChunkLocations> = Vec::new();
        let mut i: usize = 0;
        while i < fm.chunks.len()
            invariant
                self.wf(),
                self@.files.contains_key(filename@),
                fm@ == idsv,
                idsv == self@.files[filename@],
                file_entry_ok(idsv, self@.chunks),
                i <= idsv.len(),
                out@.len() == i,
                forall|k: int| 0 <= k < i
                    ==> (#[trigger] self@.chunks[idsv[k]]).primary is Some,
                forall|k: int| 0 <= k < i
                    ==> spec_resolved(self@, idsv[k], (#[trigger] out@[k])@),
            decreases idsv.len() - i,
        {
            let c = fm.chunks[i];
            let cm = match self.chunks.get(c) {
                Some(x) => x,
                None => {
                    proof {
                        assert(self@.chunks.contains_key(idsv[i as int]));
                        assert(false);
                    }
                    return Err(RequestStatusPayload::InternalServerError);
                },
            };
            proof {
                assert(chunk_entry_ok(c, self@.chunks[c], self@.active));
            }
            match self.resolve_chunk(cm) {
                Ok(cl) => {
                    out.push(cl);
                },
                Err(_) => {
                    proof {
                        assert(self@.chunks[idsv[i as int]].primary is None);
                    }
                    return Err(RequestStatusPayload::InternalServerError);
                },
            }
            i = i + 1;
        }
        let resp = GetFilePlacementResponsePayload { chunks_locations: out };
        proof {
            assert forall|k: int| 0 <= k < idsv.len()
                implies spec_resolved(self@, idsv[k], #[trigger] resp@.chunks_locations[k]) by {
                assert(resp@.chunks_locations[k] == out@[k]@);
            }
        }
        Ok(resp)
    }
}

/// Fresh identifiers: pairwise distinct and none already on record.
pub open spec fn spec_ids_fresh(ids: Seq<ChunkId>, chunks: Map<ChunkId, ChunkMetadataView>)
    -> bool
{
    &&& ids.no_duplicates()
    &&& forall|i: int| 0 <= i < ids.len() ==> !chunks.contains_key(#[trigger] ids[i])
}

/// When a placement request must succeed: the file is new, the name is
/// free, enough servers live, and the drawn identifiers are fresh.
pub open spec fn spec_place_ok(
    v: MetadataServerView,
    name: Seq<u8>,
    file_size: u64,
    ids: Seq<ChunkId>,
) -> bool {
    &&& file_size > 0
    &&& !v.files.contains_key(name)
    &&& v.active.dom().len() >= N_CHUNK_REPLICAS + 1
    &&& spec_ids_fresh(ids, v.chunks)
}

/// A freshly placed chunk record: one primary, exactly N_CHUNK_REPLICAS
/// replicas, pairwise distinct, all live.
pub open spec fn spec_chunk_placed(
    cm: ChunkMetadataView,
    active: Map<ServerId, ActiveChunkserverView>,
) -> bool {
    &&& cm.primary matches Some(p) && active.contains_key(p) && !cm.replicas.contains(p)
    &&& cm.replicas.len() == N_CHUNK_REPLICAS
    &&& cm.replicas.no_duplicates()
    &&& forall|j: int| 0 <= j < cm.replicas.len()
        ==> active.contains_key(#[trigger] cm.replicas[j])
}

/// What a successful placement did: the file recorded under its fresh ids,
/// one placed record per id, nothing else touched, and the reply resolving
/// each record.
pub open spec fn spec_placed(
    pre: MetadataServerView,
    post: MetadataServerView,
    resp: crate::payloads::ChunkPlacementResponseView,
    name: Seq<u8>,
    ids: Seq<ChunkId>,
) -> bool {
    &&& post.files == pre.files.insert(name, ids)
    &&& post.active == pre.active
    &&& forall|c: ChunkId| #![auto] post.chunks.contains_key(c)
        <==> pre.chunks.contains_key(c) || ids.contains(c)
    &&& forall|c: ChunkId| #![auto] pre.chunks.contains_key(c)
        ==> post.chunks[c] == pre.chunks[c]
    &&& resp.selected_chunkservers.len() == ids.len()
    &&& forall|i: int| 0 <= i < ids.len()
        ==> (#[trigger] post.chunks[ids[i]]).chunk_id == ids[i]
            && spec_chunk_placed(post.chunks[ids[i]], pre.active)
    &&& forall|i: int| 0 <= i < ids.len()
        ==> spec_resolved(post, ids[i], #[trigger] resp.selected_chunkservers[i])
}

impl MetadataServer {
    /// Places a new file under the given fresh chunk identifiers: records
    /// the file atomically under its name, asks the placement policy for one
    /// primary and N_CHUNK_REPLICAS replicas per chunk, records each chunk,
    /// and resolves everything to addresses.  A taken name, an empty file or
    /// too small a cluster is the client's mistake; stale identifiers are
    /// the server's.
    pub fn place_file_with_ids(
        &mut self,
        filename: Vec<u8>,
        file_size: u64,
        chunk_ids: Vec<ChunkId>,
    ) -> (r: Result<ChunkPlacementResponsePayload, RequestStatusPayload>)
        requires
            old(self).wf(),
            chunk_ids@.len() == spec_chunk_count(file_size),
        ensures
            final(self).wf(),
            final(self)@.active == old(self)@.active,
            r is Ok <==> spec_place_ok(old(self)@, filename@, file_size, chunk_ids@),
            (r matches Err(e) && e == RequestStatusPayload::InvalidRequest)
                <==> (file_size == 0
                    || old(self)@.files.contains_key(filename@)
                    || old(self)@.active.dom().len() < N_CHUNK_REPLICAS + 1),
            r is Err ==> final(self)@ == old(self)@,
            r matches Ok(resp)
                ==> spec_placed(old(self)@, final(self)@, resp@, filename@, chunk_ids@),
    {
        if file_size == 0 {
            return Err(RequestStatusPayload::InvalidRequest);
        }
        if self.files.contains(&filename) {
            return Err(RequestStatusPayload::InvalidRequest);
        }
        proof {
            self.active_chunkservers.lemma_dom_len();
        }
        let live = self.active_chunkservers.keys();
        if live.len() < N_CHUNK_REPLICAS + 1 {
            return Err(RequestStatusPayload::InvalidRequest);
        }
        let ghost feasible = file_size > 0
            && !old(self)@.files.contains_key(filename@)
            && old(self)@.active.dom().len() >= N_CHUNK_REPLICAS + 1;
        proof {
            assert(feasible);
        }
        let mut i: usize = 0;
        while i < chunk_ids.len()
            invariant
                old(self).wf(),
                self == old(self),
                feasible,
                feasible == (file_size > 0
                    && !old(self)@.files.contains_key(filename@)
                    && old(self)@.active.dom().len() >= N_CHUNK_REPLICAS + 1),
                i <= chunk_ids@.len(),
                forall|k: int| 0 <= k < i
                    ==> !old(self)@.chunks.contains_key(#[trigger] chunk_ids@[k]),
                forall|k: int, l: int| 0 <= k < l < i ==> chunk_ids@[k] != chunk_ids@[l],
            decreases chunk_ids@.len() - i,
        {
            if self.chunks.contains(chunk_ids[i]) {
                proof {
                    assert(!spec_ids_fresh(chunk_ids@, old(self)@.chunks));
                }
                return Err(RequestStatusPayload::InternalServerError);
            }
            let mut j: usize = 0;
            while j < i
                invariant
                    old(self).wf(),
                    self == old(self),
                    feasible,
                    feasible == (file_size > 0
                        && !old(self)@.files.contains_key(filename@)
                        && old(self)@.active.dom().len() >= N_CHUNK_REPLICAS + 1),
                    i < chunk_ids@.len(),
                    j <= i,
                    forall|l: int| 0 <= l < j ==> chunk_ids@[l] != chunk_ids@[i as int],
                decreases i - j,
            {
                if chunk_ids[j] == chunk_ids[i] {
                    proof {
                        assert(!chunk_ids@.no_duplicates());
                        assert(!spec_ids_fresh(chunk_ids@, old(self)@.chunks));
                    }
                    return Err(RequestStatusPayload::InternalServerError);
                }
                j = j + 1;
            }
            i = i + 1;
        }
        proof {
            assert(spec_ids_fresh(chunk_ids@, old(self)@.chunks));
        }
        let selections = self.placement_strategy.select_servers(chunk_ids.len(), &live);
        let ghost pre = self@;
        let ghost idsv = chunk_ids@;
        let mut out: Vec<ChunkLocations> = Vec::new();
        let mut i: usize = 0;
        while i < chunk_ids.len()
            invariant
                self.files.wf(),
                self.chunks.wf(),
                self.active_chunkservers.wf(),
                self@.files == pre.files,
                self@.active == pre.active,
                spec_inv(pre),
                idsv == chunk_ids@,
                spec_ids_fresh(idsv, pre.chunks),
                forall|id: ServerId| #![auto] live@.contains(id)
                    <==> pre.active.contains_key(id),
                selections@.len() == idsv.len(),
                forall|k: int| 0 <= k < selections@.len()
                    ==> placement_entry_ok(
                        (#[trigger] selections@[k]).0,
                        selections@[k].1@,
                        live@,
                    ),
                i <= idsv.len(),
                out@.len() == i,
                forall|c: ChunkId| #![auto] self@.chunks.contains_key(c)
                    <==> pre.chunks.contains_key(c) || idsv.subrange(0, i as int).contains(c),
                forall|c: ChunkId| #![auto] pre.chunks.contains_key(c)
                    ==> self@.chunks[c] == pre.chunks[c],
                forall|k: int| 0 <= k < i
                    ==> (#[trigger] self@.chunks[idsv[k]]).chunk_id == idsv[k]
                        && spec_chunk_placed(self@.chunks[idsv[k]], pre.active),
                forall|k: int| 0 <= k < i
                    ==> spec_resolved(self@, idsv[k], (#[trigger] out@[k])@),
            decreases idsv.len() - i,
        {
            let ghost pre_sub = idsv.subrange(0, i as int);
            let ghost post_sub = idsv.subrange(0, i as int + 1);
            let ghost cur_chunks = self@.chunks;
            let c = chunk_ids[i];
            proof {
                assert(post_sub =~= pre_sub.push(c));
                assert forall|c2: ChunkId| #![auto] post_sub.contains(c2)
                    == (pre_sub.contains(c2) || c2 == c) by {
                    vstd::seq_lib::lemma_seq_contains_after_push(pre_sub, c, c2);
                }
                if pre_sub.contains(c) {
                    let k = choose|k: int| 0 <= k < i && pre_sub[k] == c;
                    assert(idsv[k] == idsv[i as int]);
                    assert(false);
                }
                assert(!self@.chunks.contains_key(c));
            }
            let p = selections[i].0;
            let reps = clone_ids(&selections[i].1);
            proof {
                assert(placement_entry_ok(p, reps@, live@));
                assert(pre.active.contains_key(p));
                assert forall|t: int| 0 <= t < reps@.len()
                    implies pre.active.contains_key(#[trigger] reps@[t]) by {
                    assert(live@.contains(reps@[t]));
                }
            }
            let cm = ChunkMetadata { chunk_id: c, primary: Some(p), replicas: reps };
            proof {
                assert(chunk_entry_ok(c, cm@, self@.active));
            }
            let cl = match self.resolve_chunk(&cm) {
                Ok(cl) => cl,
                Err(_) => {
                    proof {
                        assert(false);
                    }
                    return Err(RequestStatusPayload::InternalServerError);
                },
            };
            let ghost cmv = cm@;
            let fresh = self.chunks.insert_if_absent(c, cm);
            proof {
                assert(fresh);
                assert(spec_chunk_placed(cmv, pre.active));
                assert(self@.chunks == cur_chunks.insert(c, cmv));
                assert forall|c2: ChunkId| #![auto] self@.chunks.contains_key(c2)
                    <==> (pre.chunks.contains_key(c2) || post_sub.contains(c2)) by {
                }
                assert forall|k: int| 0 <= k < i + 1
                    implies (#[trigger] self@.chunks[idsv[k]]).chunk_id == idsv[k]
                        && spec_chunk_placed(self@.chunks[idsv[k]], pre.active) by {
                    if k < i {
                        if idsv[k] == c {
                            assert(idsv[k] == idsv[i as int]);
                            assert(false);
                        }
                        assert(self@.chunks[idsv[k]] == cur_chunks[idsv[k]]);
                    } else {
                        assert(self@.chunks[c] == cmv);
                    }
                }
                assert forall|k: int| 0 <= k < i + 1
                    implies spec_resolved(self@, idsv[k], (#[trigger] out@.push(cl)[k])@) by {
                    if k < i {
                        assert(out@.push(cl)[k] == out@[k]);
                        assert(self@.chunks[idsv[k]] == cur_chunks[idsv[k]]);
                        assert(spec_resolved(
                            MetadataServerView { chunks: cur_chunks, ..self@ },
                            idsv[k],
                            out@[k]@,
                        ));
                    } else {
                        assert(out@.push(cl)[k] == cl);
                        assert(self@.chunks[c] == cmv);
                    }
                }
            }
            out.push(cl);
            i = i + 1;
        }
        proof {
            assert(idsv.subrange(0, idsv.len() as int) =~= idsv);
        }
        let ghost name = filename@;
        let ghost mid = self@;
        let fresh_file = self.files.insert_if_absent(
            filename,
            FileMetadata { chunks: chunk_ids },
        );
        let resp = ChunkPlacementResponsePayload { selected_chunkservers: out };
        proof {
            assert(fresh_file);
            assert(self@.files == pre.files.insert(name, idsv));
            assert(idsv.len() > 0);
            assert forall|c: ChunkId| self@.chunks.contains_key(c)
                implies chunk_entry_ok(c, #[trigger] self@.chunks[c], self@.active) by {
                if pre.chunks.contains_key(c) {
                    assert(chunk_entry_ok(c, pre.chunks[c], pre.active));
                } else {
                    assert(idsv.contains(c));
                    let k = choose|k: int| 0 <= k < idsv.len() && idsv[k] == c;
                    assert(spec_chunk_placed(self@.chunks[idsv[k]], pre.active));
                }
            }
            assert forall|nm: Seq<u8>| self@.files.contains_key(nm)
                implies file_entry_ok(#[trigger] self@.files[nm], self@.chunks) by {
                if nm == name {
                    assert(self@.files[nm] == idsv);
                    assert forall|u: int| 0 <= u < idsv.len()
                        implies self@.chunks.contains_key(#[trigger] idsv[u]) by {
                        assert(idsv.contains(idsv[u]));
                    }
                } else {
                    assert(pre.files.contains_key(nm));
                    assert(file_entry_ok(pre.files[nm], pre.chunks));
                    let ids2 = self@.files[nm];
                    assert(ids2 == pre.files[nm]);
                    assert forall|u: int| 0 <= u < ids2.len()
                        implies self@.chunks.contains_key(#[trigger] ids2[u]) by {
                        assert(pre.chunks.contains_key(ids2[u]));
                    }
                }
            }
            assert forall|id: ServerId| self@.active.contains_key(id)
                implies (#[trigger] self@.active[id]).server_id == id by {
                assert(pre.active.contains_key(id));
            }
            assert forall|k: int| 0 <= k < idsv.len()
                implies spec_resolved(self@, idsv[k], #[trigger] resp@.selected_chunkservers[k])
                by {
                assert(resp@.selected_chunkservers[k] == out@[k]@);
                assert(spec_resolved(mid, idsv[k], out@[k]@));
            }
            assert(self@.active.dom().len() >= N_CHUNK_REPLICAS + 1);
        }
        Ok(resp)
    }

    /// Places a new file: draws one fresh random identifier per chunk of the
    /// file and records the placement under them.  Whatever identifiers
    /// chance hands out, a rejection can only mean the client's request was
    /// at fault or the drawn identifiers collided.
    pub fn place_file(&mut self, filename: Vec<u8>, file_size: u64)
        -> (r: Result<ChunkPlacementResponsePayload, RequestStatusPayload>)
        requires
            old(self).wf(),
        ensures
            final(self).wf(),
            final(self)@.active == old(self)@.active,
            (r matches Err(e) && e == RequestStatusPayload::InvalidRequest)
                <==> (file_size == 0
                    || old(self)@.files.contains_key(filename@)
                    || old(self)@.active.dom().len() < N_CHUNK_REPLICAS + 1),
            r is Err ==> final(self)@ == old(self)@,
            r matches Ok(resp) ==> exists|ids: Seq<ChunkId>|
                spec_place_ok(old(self)@, filename@, file_size, ids)
                    && spec_placed(old(self)@, final(self)@, resp@, filename@, ids),
    {
        let n = chunk_count(file_size);
        let mut chunk_ids: Vec<ChunkId> = Vec::new();
        let mut i: u64 = 0;
        while i < n
            invariant
                i <= n,
                chunk_ids@.len() == i,
            decreases n - i,
        {
            chunk_ids.push(fresh_id());
            i = i + 1;
        }
        let ghost idsv = chunk_ids@;
        let r = self.place_file_with_ids(filename, file_size, chunk_ids);
        proof {
            if r is Ok {
                assert(spec_place_ok(old(self)@, filename@, file_size, idsv)
                    && spec_placed(old(self)@, self@, r->Ok_0@, filename@, idsv));
            }
        }
        r
    }
}

/// Dedup on file creation: once one placement request has recorded a
/// filename, no later request for the same filename can succeed, whatever
/// its size or identifiers; the name occupies the namespace atomically.
pub proof fn lemma_dedup_on_file_creation(
    pre: MetadataServerView,
    post: MetadataServerView,
    resp: crate::payloads::ChunkPlacementResponseView,
    name: Seq<u8>,
    size1: u64,
    ids1: Seq<ChunkId>,
    size2: u64,
    ids2: Seq<ChunkId>,
)
    requires
        spec_place_ok(pre, name, size1, ids1),
        spec_placed(pre, post, resp, name, ids1),
    ensures
        !spec_place_ok(post, name, size2, ids2),
{
    assert(post.files.contains_key(name));
}

/// Rediscover idempotence: a discover under an id already on record
/// replaces that entry outright, as if the earlier discover had never
/// happened; a discover under a new id adds a new entry and leaves every
/// other entry alone.
pub proof fn lemma_rediscover_idempotence(
    active: Map<ServerId, ActiveChunkserverView>,
    p1: crate::payloads::ChunkServerDiscoverView,
    p2: crate::payloads::ChunkServerDiscoverView,
    now1: u64,
    now2: u64,
)
    ensures
        p1.server_id == p2.server_id
            ==> active
                .insert(p1.server_id, spec_discovered(p1, now1))
                .insert(p2.server_id, spec_discovered(p2, now2))
                == active.insert(p2.server_id, spec_discovered(p2, now2)),
        active
            .insert(p1.server_id, spec_discovered(p1, now1))
            .insert(p2.server_id, spec_discovered(p2, now2))[p2.server_id]
            == spec_discovered(p2, now2),
        p1.server_id != p2.server_id
            ==> active
                .insert(p1.server_id, spec_discovered(p1, now1))
                .insert(p2.server_id, spec_discovered(p2, now2))[p1.server_id]
                == spec_discovered(p1, now1),
{
    if p1.server_id == p2.server_id {
        assert(active
            .insert(p1.server_id, spec_discovered(p1, now1))
            .insert(p2.server_id, spec_discovered(p2, now2))
            =~= active.insert(p2.server_id, spec_discovered(p2, now2)));
    }
}

} // verus!
