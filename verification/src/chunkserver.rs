//! The chunkserver's two-plane logic: the client-facing upload and download
//! handlers with their atomic chunk commit, and the metadata-server-facing
//! discover and heartbeat payloads.
//!
//! The on-disk state is modelled explicitly: a temporary store for bodies
//! still streaming in and a final store for committed chunks, keyed by chunk
//! id like the TMP and FINAL directories.  The commit point is the move from
//! one to the other, taken only after the in-memory table accepted the id.

use vstd::prelude::*;
use crate::codec::enc_u128;
use crate::config::MAX_CHUNK_SIZE;
use crate::entropy::fresh_id;
use crate::kvmap::{clone_bytes, IdMap};
use crate::payloads::{
    ChunkId, ChunkServerDiscoverPayload, DownloadChunkResponsePayload, HeartbeatPayload,
    RequestStatusPayload, ServerId,
};

verus! {

/// One committed chunk as the in-memory table records it.
#[derive(Debug, Clone, Copy, PartialEq, Eq, Structural)]
pub struct Chunk {
    pub id: ChunkId,
    pub size: u64,
}

impl View for Chunk {
    type V = Chunk;

    open spec fn view(&self) -> Chunk {
        *self
    }
}

/// A scoped handle over a file being written: until `commit` is called the
/// holder intends the file to be deleted on any failure path.
pub struct ChunkTransfer {
    offset: Option<u64>,
    data_path: Vec<u8>,
    delete_on_error: bool,
}

/// View of a transfer handle.
pub struct ChunkTransferView {
    pub offset: Option<u64>,
    pub data_path: Seq<u8>,
    pub delete_on_error: bool,
}

impl View for ChunkTransfer {
    type V = ChunkTransferView;

    closed spec fn view(&self) -> ChunkTransferView {
        ChunkTransferView {
            offset: self.offset,
            data_path: self.data_path@,
            delete_on_error: self.delete_on_error,
        }
    }
}

impl ChunkTransfer {
    /// A handle over the file at `data_path`, armed for cleanup when asked.
    pub fn new(offset: Option<u64>, data_path: Vec<u8>, delete_on_error: bool)
        -> (r: ChunkTransfer)
        ensures
            r@ == (ChunkTransferView { offset, data_path: data_path@, delete_on_error }),
    {
        ChunkTransfer { offset, data_path, delete_on_error }
    }

    /// Disarms the handle and hands its path out; the commit point, taken
    /// immediately before the rename to the final location.
    pub fn commit(self) -> (r: Vec<u8>)
        ensures
            r@ == self@.data_path,
    {
        self.data_path
    }
}

/// The request counter steps by one and wraps.
pub open spec fn spec_bump(c: u64) -> u64 {
    if c == 0xFFFF_FFFF_FFFF_FFFF {
        0
    } else {
        (c + 1) as u64
    }
}

/// The counter after `n` served requests.
pub open spec fn spec_bumps(c: u64, n: nat) -> u64
    decreases n,
{
    if n == 0 {
        c
    } else {
        spec_bump(spec_bumps(c, (n - 1) as nat))
    }
}

/// View of the chunkserver's whole state.
pub struct ChunkserverView {
    pub server_id: ServerId,
    pub hostname: Seq<u8>,
    pub rack_id: Seq<u8>,
    pub internal_address: Seq<u8>,
    pub external_address: Seq<u8>,
    pub chunks: Map<ChunkId, Chunk>,
    pub tmp: Map<ChunkId, Seq<u8>>,
    pub fin: Map<ChunkId, Seq<u8>>,
    pub requests_since_heartbeat: u64,
}

/// What one accepted upload does: the body lands in the temporary store,
/// the table is asked to adopt the id, and only a fresh id is committed to
/// the final store; a duplicate is answered with a client error and its
/// temporary file is gone either way.
pub open spec fn spec_upload(v: ChunkserverView, id: ChunkId, data: Seq<u8>)
    -> (ChunkserverView, RequestStatusPayload)
{
    if v.chunks.contains_key(id) {
        (
            ChunkserverView {
                tmp: v.tmp.remove(id),
                requests_since_heartbeat: spec_bump(v.requests_since_heartbeat),
                ..v
            },
            RequestStatusPayload::InvalidRequest,
        )
    } else {
        (
            ChunkserverView {
                chunks: v.chunks.insert(id, Chunk { id, size: data.len() as u64 }),
                fin: v.fin.insert(id, data),
                tmp: v.tmp.remove(id),
                requests_since_heartbeat: spec_bump(v.requests_since_heartbeat),
                ..v
            },
            RequestStatusPayload::Success,
        )
    }
}

/// What an upload that dies after the metadata frame does: whatever had
/// reached the temporary store is deleted, and nothing else moves.
pub open spec fn spec_upload_interrupted(v: ChunkserverView, id: ChunkId) -> ChunkserverView {
    ChunkserverView {
        tmp: v.tmp.remove(id),
        requests_since_heartbeat: spec_bump(v.requests_since_heartbeat),
        ..v
    }
}

/// What a download answers: the committed bytes of a known chunk, or
/// nothing for an unknown id; either way the request counts.
pub open spec fn spec_download(v: ChunkserverView, id: ChunkId)
    -> (ChunkserverView, Option<(u64, Seq<u8>)>)
{
    let v2 = ChunkserverView {
        requests_since_heartbeat: spec_bump(v.requests_since_heartbeat),
        ..v
    };
    if v.chunks.contains_key(id) {
        (v2, Some((v.chunks[id].size, v.fin[id])))
    } else {
        (v2, None)
    }
}

/// The space a heartbeat advertises: nine tenths of the raw disk space,
/// but never more than the advertised cap.
pub open spec fn spec_usable_space(raw: u64, advertised_cap: u64) -> u64 {
    if raw / 10 * 9 < advertised_cap {
        (raw / 10 * 9) as u64
    } else {
        advertised_cap
    }
}

/// A chunkserver process: its identity, its advertised addresses, its chunk
/// table, its two stores and its request counter.
pub struct Chunkserver {
    pub server_id: ServerId,
    pub hostname: Vec<u8>,
    pub rack_id: Vec<u8>,
    pub internal_address: Vec<u8>,
    pub external_address: Vec<u8>,
    pub chunks: IdMap<Chunk>,
    pub tmp_store: IdMap<Vec<u8>>,
    pub final_store: IdMap<Vec<u8>>,
    pub requests_since_heartbeat: u64,
}

impl View for Chunkserver {
    type V = ChunkserverView;

    open spec fn view(&self) -> ChunkserverView {
        ChunkserverView {
            server_id: self.server_id,
            hostname: self.hostname@,
            rack_id: self.rack_id@,
            internal_address: self.internal_address@,
            external_address: self.external_address@,
            chunks: self.chunks@,
            tmp: self.tmp_store@,
            fin: self.final_store@,
            requests_since_heartbeat: self.requests_since_heartbeat,
        }
    }
}

impl Chunkserver {
    /// Exactly the committed chunks are in the final store, each under its
    /// own id and with its recorded size.
    pub open spec fn wf(&self) -> bool {
        &&& self.chunks.wf()
        &&& self.tmp_store.wf()
        &&& self.final_store.wf()
        &&& forall|id: ChunkId| #![auto] self@.fin.contains_key(id)
            <==> self@.chunks.contains_key(id)
        &&& forall|id: ChunkId| #![auto] self@.chunks.contains_key(id)
            ==> self@.chunks[id].id == id
                && self@.fin[id].len() == self@.chunks[id].size
    }

    /// A fresh chunkserver under a newly drawn random identity, with empty
    /// stores and a zeroed counter.
    pub fn new(
        hostname: Vec<u8>,
        rack_id: Vec<u8>,
        internal_address: Vec<u8>,
        external_address: Vec<u8>,
    ) -> (r: Chunkserver)
        ensures
            r.wf(),
            r@.hostname == hostname@,
            r@.rack_id == rack_id@,
            r@.internal_address == internal_address@,
            r@.external_address == external_address@,
            r@.chunks == Map::<ChunkId, Chunk>::empty(),
            r@.tmp == Map::<ChunkId, Seq<u8>>::empty(),
            r@.fin == Map::<ChunkId, Seq<u8>>::empty(),
            r@.requests_since_heartbeat == 0,
    {
        Chunkserver {
            server_id: fresh_id(),
            hostname,
            rack_id,
            internal_address,
            external_address,
            chunks: IdMap::new(),
            tmp_store: IdMap::new(),
            final_store: IdMap::new(),
            requests_since_heartbeat: 0,
        }
    }

    fn bump_counter(&mut self)
        ensures
            *final(self) == (Chunkserver {
                requests_since_heartbeat: spec_bump(old(self).requests_since_heartbeat),
                ..*old(self)
            }),
    {
        if self.requests_since_heartbeat == 0xFFFF_FFFF_FFFF_FFFFu64 {
            self.requests_since_heartbeat = 0;
        } else {
            self.requests_since_heartbeat = self.requests_since_heartbeat + 1;
        }
    }

    /// Serves one upload whose body arrived whole: stages it under the
    /// temporary path, adopts the id if it is new, and commits by moving the
    /// body to the final store; a duplicate id loses its staged file and is
    /// told so.
    pub fn handle_upload(&mut self, chunk_id: ChunkId, data: Vec<u8>)
        -> (st: RequestStatusPayload)
        requires
            old(self).wf(),
        ensures
            final(self).wf(),
            final(self)@ == spec_upload(old(self)@, chunk_id, data@).0,
            st == spec_upload(old(self)@, chunk_id, data@).1,
    {
        self.bump_counter();
        let mut tmp_path: Vec<u8> = Vec::new();
        enc_u128(&mut tmp_path, chunk_id);
        let transfer = ChunkTransfer::new(None, tmp_path, true);
        let size = data.len() as u64;
        let ghost datav = data@;
        self.tmp_store.upsert(chunk_id, data);
        let fresh = self.chunks.insert_if_absent(chunk_id, Chunk { id: chunk_id, size });
        if !fresh {
            self.tmp_store.remove(chunk_id);
            proof {
                assert(old(self)@.tmp.insert(chunk_id, datav).remove(chunk_id)
                    =~= old(self)@.tmp.remove(chunk_id));
            }
            return RequestStatusPayload::InvalidRequest;
        }
        let body = match self.tmp_store.remove(chunk_id) {
            Some(b) => b,
            None => {
                proof {
                    assert(false);
                }
                return RequestStatusPayload::InternalServerError;
            },
        };
        let _ = transfer.commit();
        self.final_store.upsert(chunk_id, body);
        proof {
            assert(old(self)@.tmp.insert(chunk_id, datav).remove(chunk_id)
                =~= old(self)@.tmp.remove(chunk_id));
            assert forall|id: ChunkId| #![auto] self@.fin.contains_key(id)
                <==> self@.chunks.contains_key(id) by {
            }
        }
        RequestStatusPayload::Success
    }

    /// Serves one upload whose body stream died after the metadata frame:
    /// the handle's cleanup removes the staged file and nothing is
    /// committed.
    pub fn handle_upload_interrupted(&mut self, chunk_id: ChunkId)
        requires
            old(self).wf(),
        ensures
            final(self).wf(),
            final(self)@ == spec_upload_interrupted(old(self)@, chunk_id),
    {
        self.bump_counter();
        self.tmp_store.remove(chunk_id);
        proof {
            assert(self@.tmp == old(self)@.tmp.remove(chunk_id));
            assert(self@ == spec_upload_interrupted(old(self)@, chunk_id));
            assert forall|id: ChunkId| #![auto] self@.fin.contains_key(id)
                implies self@.chunks.contains_key(id) by {}
            assert forall|id: ChunkId| #![auto] self@.chunks.contains_key(id)
                implies self@.fin.contains_key(id)
                    && self@.chunks[id].id == id
                    && self@.fin[id].len() == self@.chunks[id].size by {
                assert(old(self)@.chunks.contains_key(id));
            }
        }
    }

    /// Serves one download: the metadata and a copy of the committed bytes,
    /// or a client error for an id this server does not hold.
    pub fn handle_download(&mut self, chunk_id: ChunkId)
        -> (r: Result<(DownloadChunkResponsePayload, Vec<u8>), RequestStatusPayload>)
        requires
            old(self).wf(),
        ensures
            final(self).wf(),
            final(self)@ == spec_download(old(self)@, chunk_id).0,
            match r {
                Ok(ok) => {
                    &&& spec_download(old(self)@, chunk_id).1 == Some((ok.0.chunk_size, ok.1@))
                    &&& ok.0.chunk_id == chunk_id
                },
                Err(e) => {
                    &&& spec_download(old(self)@, chunk_id).1 is None
                    &&& e == RequestStatusPayload::InvalidRequest
                },
            },
    {
        self.bump_counter();
        let size: u64 = match self.chunks.get(chunk_id) {
            Some(c) => c.size,
            None => {
                return Err(RequestStatusPayload::InvalidRequest);
            },
        };
        let bytes = match self.final_store.get(chunk_id) {
            Some(b) => clone_bytes(b),
            None => {
                proof {
                    assert(false);
                }
                return Err(RequestStatusPayload::InternalServerError);
            },
        };
        Ok((DownloadChunkResponsePayload { chunk_id, chunk_size: size }, bytes))
    }

    /// Nine tenths of the reported raw space, held under the advertised
    /// cap: the headroom policy of the heartbeat.
    pub fn usable_space(raw: u64, advertised_cap: u64) -> (r: u64)
        ensures
            r == spec_usable_space(raw, advertised_cap),
            r <= raw,
            r <= advertised_cap,
    {
        let nine_tenths = raw / 10 * 9;
        if nine_tenths < advertised_cap {
            nine_tenths
        } else {
            advertised_cap
        }
    }

    /// The next heartbeat: it carries the requests served since the
    /// previous one and zeroes the counter, the swap the sender performs;
    /// the space it advertises is capped nine tenths of the raw space.
    pub fn make_heartbeat(&mut self, raw_available_space: u64, advertised_cap: u64)
        -> (p: HeartbeatPayload)
        ensures
            *final(self) == (Chunkserver { requests_since_heartbeat: 0, ..*old(self) }),
            p.server_id == old(self)@.server_id,
            p.client_requests_count == old(self)@.requests_since_heartbeat,
            p.available_space == spec_usable_space(raw_available_space, advertised_cap),
    {
        let count = self.requests_since_heartbeat;
        self.requests_since_heartbeat = 0;
        HeartbeatPayload {
            server_id: self.server_id,
            client_requests_count: count,
            available_space: Self::usable_space(raw_available_space, advertised_cap),
        }
    }

    /// The compensating delete for a commit whose rename to the final path
    /// failed outside this model: the freshly adopted table entry and the
    /// committed bytes under the id are withdrawn, so no entry without a
    /// file on disk survives.
    pub fn revoke_chunk(&mut self, chunk_id: ChunkId)
        requires
            old(self).wf(),
        ensures
            final(self).wf(),
            final(self)@ == (ChunkserverView {
                chunks: old(self)@.chunks.remove(chunk_id),
                fin: old(self)@.fin.remove(chunk_id),
                ..old(self)@
            }),
    {
        self.chunks.remove(chunk_id);
        self.final_store.remove(chunk_id);
        proof {
            assert forall|id: ChunkId| #![auto] self@.fin.contains_key(id)
                implies self@.chunks.contains_key(id) by {
                assert(old(self)@.fin.contains_key(id));
            }
            assert forall|id: ChunkId| #![auto] self@.chunks.contains_key(id)
                implies self@.fin.contains_key(id)
                    && self@.chunks[id].id == id
                    && self@.fin[id].len() == self@.chunks[id].size by {
                assert(old(self)@.chunks.contains_key(id));
            }
        }
    }

    /// The introduction sent on connect and after every reconnect: identity,
    /// addresses, and each stored chunk id once.
    pub fn make_discover(&self) -> (p: ChunkServerDiscoverPayload)
        requires
            self.wf(),
        ensures
            p.server_id == self@.server_id,
            p@.hostname == self@.hostname,
            p@.rack_id == self@.rack_id,
            p@.internal_address == self@.internal_address,
            p@.external_address == self@.external_address,
            p@.stored_chunks.no_duplicates(),
            forall|id: ChunkId| p@.stored_chunks.contains(id)
                <==> self@.chunks.contains_key(id),
    {
        ChunkServerDiscoverPayload {
            server_id: self.server_id,
            hostname: clone_bytes(&self.hostname),
            rack_id: clone_bytes(&self.rack_id),
            internal_address: clone_bytes(&self.internal_address),
            external_address: clone_bytes(&self.external_address),
            stored_chunks: self.chunks.keys(),
        }
    }
}

/// Uploading a body of at most MAX_CHUNK_SIZE bytes under a fresh id
/// succeeds, and downloading that id afterwards yields exactly the body.
pub proof fn lemma_chunk_round_trip(v: ChunkserverView, id: ChunkId, data: Seq<u8>)
    requires
        !v.chunks.contains_key(id),
        data.len() <= MAX_CHUNK_SIZE,
    ensures
        spec_upload(v, id, data).1 == RequestStatusPayload::Success,
        spec_download(spec_upload(v, id, data).0, id).1 == Some((data.len() as u64, data)),
{
}

/// After an upload that failed past the metadata frame, the final store is
/// exactly what it was and no temporary file remains under the id; after a
/// successful upload the final store holds exactly the streamed bytes.
pub proof fn lemma_atomic_commit(v: ChunkserverView, id: ChunkId, data: Seq<u8>)
    ensures
        spec_upload_interrupted(v, id).fin == v.fin,
        !spec_upload_interrupted(v, id).tmp.contains_key(id),
        v.chunks.contains_key(id) ==> spec_upload(v, id, data).0.fin == v.fin,
        !v.chunks.contains_key(id) ==> spec_upload(v, id, data).0.fin == v.fin.insert(id, data),
        !spec_upload(v, id, data).0.tmp.contains_key(id),
{
}

/// Two uploads of the same id: exactly the first succeeds, the second is
/// refused, the final store holds the first body once and the temporary
/// store holds nothing under the id.
pub proof fn lemma_dedup_on_upload(v: ChunkserverView, id: ChunkId, d1: Seq<u8>, d2: Seq<u8>)
    requires
        !v.chunks.contains_key(id),
    ensures
        spec_upload(v, id, d1).1 == RequestStatusPayload::Success,
        spec_upload(spec_upload(v, id, d1).0, id, d2).1 == RequestStatusPayload::InvalidRequest,
        spec_upload(spec_upload(v, id, d1).0, id, d2).0.fin == spec_upload(v, id, d1).0.fin,
        spec_upload(spec_upload(v, id, d1).0, id, d2).0.fin[id] == d1,
        !spec_upload(spec_upload(v, id, d1).0, id, d2).0.tmp.contains_key(id),
{
}

/// From a zeroed counter, `n` served requests leave the counter at `n`, so
/// the next heartbeat reports exactly the number served since the last one.
pub proof fn lemma_heartbeat_counter(n: nat)
    requires
        n <= 0xFFFF_FFFF_FFFF_FFFF,
    ensures
        spec_bumps(0, n) == n,
    decreases n,
{
    if n > 0 {
        lemma_heartbeat_counter((n - 1) as nat);
    }
}

} // verus!
