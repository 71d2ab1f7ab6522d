//! The payload structs that travel inside messages, with their canonical
//! serializations.
//!
//! Identifiers are 128-bit values; names and addresses travel as raw byte
//! strings.  Every payload has a specification-level encoder and decoder over
//! its view, an executable pair proved against them, and a lemma that a
//! buffer carrying an encoded payload decodes to that payload.

use vstd::prelude::*;
use crate::codec::{
    dec_bytes, dec_u128, dec_u64, dec_uint, enc_bytes, enc_u128, enc_u64, enc_uint,
    lemma_enc_uint_len, lemma_pow256_values, lemma_sdec_enc_bytes, lemma_sdec_enc_uint,
    lemma_subrange_concat, lemma_uint_val_bound, sdec_bytes, sdec_uint, spec_enc_bytes,
    spec_enc_uint,
};

verus! {

/// 128-bit identifier of a chunk.
pub type ChunkId = u128;

/// 128-bit identifier of a chunkserver.
pub type ServerId = u128;

/// Sent regularly by a chunkserver to the metadata server: liveness plus the
/// statistics the placement policy wants.
#[derive(Debug, Clone, Copy, PartialEq, Eq, Structural)]
pub struct HeartbeatPayload {
    pub server_id: ServerId,
    /// Number of client requests since the previous heartbeat was sent.
    pub client_requests_count: u64,
    /// Available space on the chunkserver's disk in bytes.
    pub available_space: u64,
}

impl View for HeartbeatPayload {
    type V = HeartbeatPayload;

    open spec fn view(&self) -> HeartbeatPayload {
        *self
    }
}

/// Sent from the metadata server to a chunkserver in answer to a discover;
/// reserved by the protocol and currently unused, but kept decodable.
#[derive(Debug, Clone, Copy, PartialEq, Eq, Structural)]
pub struct AcceptNewChunkServerPayload {
    pub chunkserver_new_id: ServerId,
}

impl View for AcceptNewChunkServerPayload {
    type V = AcceptNewChunkServerPayload;

    open spec fn view(&self) -> AcceptNewChunkServerPayload {
        *self
    }
}

/// Sent from a client to a chunkserver ahead of the raw chunk body.
#[derive(Debug, Clone, Copy, PartialEq, Eq, Structural)]
pub struct UploadChunkPayload {
    pub chunk_id: ChunkId,
    pub chunk_size: u64,
}

impl View for UploadChunkPayload {
    type V = UploadChunkPayload;

    open spec fn view(&self) -> UploadChunkPayload {
        *self
    }
}

/// Sent from a client to a chunkserver to ask for a chunk's bytes.
#[derive(Debug, Clone, Copy, PartialEq, Eq, Structural)]
pub struct DownloadChunkRequestPayload {
    pub chunk_id: ChunkId,
}

impl View for DownloadChunkRequestPayload {
    type V = DownloadChunkRequestPayload;

    open spec fn view(&self) -> DownloadChunkRequestPayload {
        *self
    }
}

/// Sent from a chunkserver to a client ahead of the raw chunk body.
#[derive(Debug, Clone, Copy, PartialEq, Eq, Structural)]
pub struct DownloadChunkResponsePayload {
    pub chunk_id: ChunkId,
    pub chunk_size: u64,
}

impl View for DownloadChunkResponsePayload {
    type V = DownloadChunkResponsePayload;

    open spec fn view(&self) -> DownloadChunkResponsePayload {
        *self
    }
}

/// Sent from any server to a client when no other response is due.
#[derive(Debug, Clone, Copy, PartialEq, Eq, Structural)]
pub enum RequestStatusPayload {
    Success,
    InvalidRequest,
    InternalServerError,
}

impl View for RequestStatusPayload {
    type V = RequestStatusPayload;

    open spec fn view(&self) -> RequestStatusPayload {
        *self
    }
}

/// Sent from a client to the metadata server to fetch its folder structure;
/// the structure itself is an opaque blob and the carrier has no fields yet.
#[derive(Debug, Clone, Copy, PartialEq, Eq, Structural)]
pub struct GetClientFolderStructureRequestPayload {}

impl View for GetClientFolderStructureRequestPayload {
    type V = GetClientFolderStructureRequestPayload;

    open spec fn view(&self) -> GetClientFolderStructureRequestPayload {
        *self
    }
}

/// Answer to a folder-structure fetch; an empty carrier for now.
#[derive(Debug, Clone, Copy, PartialEq, Eq, Structural)]
pub struct GetClientFolderStructureResponsePayload {}

impl View for GetClientFolderStructureResponsePayload {
    type V = GetClientFolderStructureResponsePayload;

    open spec fn view(&self) -> GetClientFolderStructureResponsePayload {
        *self
    }
}

/// Pushes a client's folder-structure updates; an empty carrier for now.
#[derive(Debug, Clone, Copy, PartialEq, Eq, Structural)]
pub struct UpdateClientFolderStructurePayload {}

impl View for UpdateClientFolderStructurePayload {
    type V = UpdateClientFolderStructurePayload;

    open spec fn view(&self) -> UpdateClientFolderStructurePayload {
        *self
    }
}

/// Sent by a client to the metadata server to place a new file.
#[derive(Debug, Clone, PartialEq, Eq)]
pub struct ChunkPlacementRequestPayload {
    pub filename: Vec<u8>,
    pub file_size: u64,
}

/// View of a placement request.
pub struct ChunkPlacementRequestView {
    pub filename: Seq<u8>,
    pub file_size: u64,
}

impl View for ChunkPlacementRequestPayload {
    type V = ChunkPlacementRequestView;

    open spec fn view(&self) -> ChunkPlacementRequestView {
        ChunkPlacementRequestView { filename: self.filename@, file_size: self.file_size }
    }
}

/// Sent by a client to the metadata server to look a file's chunks up.
#[derive(Debug, Clone, PartialEq, Eq)]
pub struct GetFilePlacementRequestPayload {
    pub filename: Vec<u8>,
}

/// View of a lookup request.
pub struct GetFilePlacementRequestView {
    pub filename: Seq<u8>,
}

impl View for GetFilePlacementRequestPayload {
    type V = GetFilePlacementRequestView;

    open spec fn view(&self) -> GetFilePlacementRequestView {
        GetFilePlacementRequestView { filename: self.filename@ }
    }
}

/// Where one chunkserver can be reached: its dialable address and the
/// hostname its certificate answers to.
#[derive(Debug, Clone, PartialEq, Eq)]
pub struct ChunkserverLocation {
    pub server_location: Vec<u8>,
    pub server_hostname: Vec<u8>,
}

/// View of a chunkserver location.
pub struct ChunkserverLocationView {
    pub server_location: Seq<u8>,
    pub server_hostname: Seq<u8>,
}

impl View for ChunkserverLocation {
    type V = ChunkserverLocationView;

    open spec fn view(&self) -> ChunkserverLocationView {
        ChunkserverLocationView {
            server_location: self.server_location@,
            server_hostname: self.server_hostname@,
        }
    }
}

/// Every location a single chunk lives at: its primary and its replicas.
#[derive(Debug, Clone, PartialEq, Eq)]
pub struct ChunkLocations {
    pub chunk_id: ChunkId,
    pub primary: ChunkserverLocation,
    pub secondaries: Vec<ChunkserverLocation>,
}

/// View of a chunk's locations.
pub struct ChunkLocationsView {
    pub chunk_id: ChunkId,
    pub primary: ChunkserverLocationView,
    pub secondaries: Seq<ChunkserverLocationView>,
}

impl View for ChunkLocations {
    type V = ChunkLocationsView;

    open spec fn view(&self) -> ChunkLocationsView {
        ChunkLocationsView {
            chunk_id: self.chunk_id,
            primary: self.primary@,
            secondaries: self.secondaries@.map_values(|c: ChunkserverLocation| c@),
        }
    }
}

/// Answer to a placement request: where to put each fresh chunk.
#[derive(Debug, Clone, PartialEq, Eq)]
pub struct ChunkPlacementResponsePayload {
    pub selected_chunkservers: Vec<ChunkLocations>,
}

/// View of a placement response.
pub struct ChunkPlacementResponseView {
    pub selected_chunkservers: Seq<ChunkLocationsView>,
}

impl View for ChunkPlacementResponsePayload {
    type V = ChunkPlacementResponseView;

    open spec fn view(&self) -> ChunkPlacementResponseView {
        ChunkPlacementResponseView {
            selected_chunkservers: self.selected_chunkservers@.map_values(
                |c: ChunkLocations| c@,
            ),
        }
    }
}

/// Answer to a lookup request: where each existing chunk lives.
#[derive(Debug, Clone, PartialEq, Eq)]
pub struct GetFilePlacementResponsePayload {
    pub chunks_locations: Vec<ChunkLocations>,
}

/// View of a lookup response.
pub struct GetFilePlacementResponseView {
    pub chunks_locations: Seq<ChunkLocationsView>,
}

impl View for GetFilePlacementResponsePayload {
    type V = GetFilePlacementResponseView;

    open spec fn view(&self) -> GetFilePlacementResponseView {
        GetFilePlacementResponseView {
            chunks_locations: self.chunks_locations@.map_values(|c: ChunkLocations| c@),
        }
    }
}

/// First message of a chunkserver to the metadata server, on connect and
/// after every reconnect: who it is and what it already stores.
#[derive(Debug, Clone, PartialEq, Eq)]
pub struct ChunkServerDiscoverPayload {
    pub server_id: ServerId,
    pub hostname: Vec<u8>,
    pub rack_id: Vec<u8>,
    pub internal_address: Vec<u8>,
    pub external_address: Vec<u8>,
    pub stored_chunks: Vec<ChunkId>,
}

/// View of a discover.
pub struct ChunkServerDiscoverView {
    pub server_id: ServerId,
    pub hostname: Seq<u8>,
    pub rack_id: Seq<u8>,
    pub internal_address: Seq<u8>,
    pub external_address: Seq<u8>,
    pub stored_chunks: Seq<ChunkId>,
}

impl View for ChunkServerDiscoverPayload {
    type V = ChunkServerDiscoverView;

    open spec fn view(&self) -> ChunkServerDiscoverView {
        ChunkServerDiscoverView {
            server_id: self.server_id,
            hostname: self.hostname@,
            rack_id: self.rack_id@,
            internal_address: self.internal_address@,
            external_address: self.external_address@,
            stored_chunks: self.stored_chunks@,
        }
    }
}

/// Lengths small enough for their four-byte prefixes.
pub open spec fn wf_location(v: ChunkserverLocationView) -> bool {
    v.server_location.len() < 0x1_0000_0000 && v.server_hostname.len() < 0x1_0000_0000
}

/// Lengths small enough throughout a chunk's location record.
pub open spec fn wf_chunk_locations(v: ChunkLocationsView) -> bool {
    &&& wf_location(v.primary)
    &&& v.secondaries.len() < 0x1_0000_0000
    &&& forall|i: int| 0 <= i < v.secondaries.len() ==> wf_location(#[trigger] v.secondaries[i])
}

/// Lengths small enough throughout a list of location records.
pub open spec fn wf_cl_list(l: Seq<ChunkLocationsView>) -> bool {
    &&& l.len() < 0x1_0000_0000
    &&& forall|i: int| 0 <= i < l.len() ==> wf_chunk_locations(#[trigger] l[i])
}

pub open spec fn spec_enc_location(v: ChunkserverLocationView) -> Seq<u8> {
    spec_enc_bytes(v.server_location) + spec_enc_bytes(v.server_hostname)
}

pub open spec fn sdec_location(s: Seq<u8>, pos: int) -> Option<(ChunkserverLocationView, int)> {
    match sdec_bytes(s, pos) {
        None => None,
        Some((loc, p1)) => match sdec_bytes(s, p1) {
            None => None,
            Some((host, p2)) => Some((
                ChunkserverLocationView { server_location: loc, server_hostname: host },
                p2,
            )),
        },
    }
}

pub open spec fn spec_enc_loc_seq(l: Seq<ChunkserverLocationView>) -> Seq<u8>
    decreases l.len(),
{
    if l.len() == 0 {
        Seq::empty()
    } else {
        spec_enc_location(l[0]) + spec_enc_loc_seq(l.drop_first())
    }
}

/// A location list: a four-byte count, then the locations one after another.
pub open spec fn spec_enc_loc_list(l: Seq<ChunkserverLocationView>) -> Seq<u8> {
    spec_enc_uint(l.len(), 4) + spec_enc_loc_seq(l)
}

pub open spec fn sdec_loc_seq(s: Seq<u8>, pos: int, count: nat)
    -> Option<(Seq<ChunkserverLocationView>, int)>
    decreases count,
{
    if count == 0 {
        Some((Seq::empty(), pos))
    } else {
        match sdec_location(s, pos) {
            None => None,
            Some((v, p1)) => match sdec_loc_seq(s, p1, (count - 1) as nat) {
                None => None,
                Some((l, p2)) => Some((seq![v] + l, p2)),
            },
        }
    }
}

pub open spec fn sdec_loc_list(s: Seq<u8>, pos: int)
    -> Option<(Seq<ChunkserverLocationView>, int)>
{
    match sdec_uint(s, pos, 4) {
        None => None,
        Some((n, p)) => sdec_loc_seq(s, p, n),
    }
}

pub open spec fn spec_enc_chunk_locations(v: ChunkLocationsView) -> Seq<u8> {
    spec_enc_uint(v.chunk_id as nat, 16) + spec_enc_location(v.primary)
        + spec_enc_loc_list(v.secondaries)
}

pub open spec fn sdec_chunk_locations(s: Seq<u8>, pos: int) -> Option<(ChunkLocationsView, int)> {
    match sdec_uint(s, pos, 16) {
        None => None,
        Some((id, p1)) => match sdec_location(s, p1) {
            None => None,
            Some((prim, p2)) => match sdec_loc_list(s, p2) {
                None => None,
                Some((secs, p3)) => Some((
                    ChunkLocationsView {
                        chunk_id: id as u128,
                        primary: prim,
                        secondaries: secs,
                    },
                    p3,
                )),
            },
        },
    }
}

pub open spec fn spec_enc_cl_seq(l: Seq<ChunkLocationsView>) -> Seq<u8>
    decreases l.len(),
{
    if l.len() == 0 {
        Seq::empty()
    } else {
        spec_enc_chunk_locations(l[0]) + spec_enc_cl_seq(l.drop_first())
    }
}

/// A list of location records: a four-byte count, then the records.
pub open spec fn spec_enc_cl_list(l: Seq<ChunkLocationsView>) -> Seq<u8> {
    spec_enc_uint(l.len(), 4) + spec_enc_cl_seq(l)
}

pub open spec fn sdec_cl_seq(s: Seq<u8>, pos: int, count: nat)
    -> Option<(Seq<ChunkLocationsView>, int)>
    decreases count,
{
    if count == 0 {
        Some((Seq::empty(), pos))
    } else {
        match sdec_chunk_locations(s, pos) {
            None => None,
            Some((v, p1)) => match sdec_cl_seq(s, p1, (count - 1) as nat) {
                None => None,
                Some((l, p2)) => Some((seq![v] + l, p2)),
            },
        }
    }
}

pub open spec fn sdec_cl_list(s: Seq<u8>, pos: int) -> Option<(Seq<ChunkLocationsView>, int)> {
    match sdec_uint(s, pos, 4) {
        None => None,
        Some((n, p)) => sdec_cl_seq(s, p, n),
    }
}

pub open spec fn spec_enc_id_seq(l: Seq<u128>) -> Seq<u8>
    decreases l.len(),
{
    if l.len() == 0 {
        Seq::empty()
    } else {
        spec_enc_uint(l[0] as nat, 16) + spec_enc_id_seq(l.drop_first())
    }
}

/// A list of identifiers: a four-byte count, then sixteen bytes each.
pub open spec fn spec_enc_id_list(l: Seq<u128>) -> Seq<u8> {
    spec_enc_uint(l.len(), 4) + spec_enc_id_seq(l)
}

pub open spec fn sdec_id_seq(s: Seq<u8>, pos: int, count: nat) -> Option<(Seq<u128>, int)>
    decreases count,
{
    if count == 0 {
        Some((Seq::empty(), pos))
    } else {
        match sdec_uint(s, pos, 16) {
            None => None,
            Some((v, p1)) => match sdec_id_seq(s, p1, (count - 1) as nat) {
                None => None,
                Some((l, p2)) => Some((seq![v as u128] + l, p2)),
            },
        }
    }
}

pub open spec fn sdec_id_list(s: Seq<u8>, pos: int) -> Option<(Seq<u128>, int)> {
    match sdec_uint(s, pos, 4) {
        None => None,
        Some((n, p)) => sdec_id_seq(s, p, n),
    }
}

pub proof fn lemma_enc_loc_seq_snoc(l: Seq<ChunkserverLocationView>, x: ChunkserverLocationView)
    ensures
        spec_enc_loc_seq(l.push(x)) == spec_enc_loc_seq(l) + spec_enc_location(x),
    decreases l.len(),
{
    if l.len() == 0 {
        assert(l.push(x).drop_first() =~= Seq::<ChunkserverLocationView>::empty());
        assert(l.push(x)[0] == x);
        assert(spec_enc_loc_seq(l.push(x)) == spec_enc_location(x) + spec_enc_loc_seq(l.push(x).drop_first()));
        assert(spec_enc_loc_seq(l.push(x))
            =~= spec_enc_location(x) + Seq::<u8>::empty());
        assert(spec_enc_location(x) + Seq::<u8>::empty() =~= spec_enc_location(x));
        assert(spec_enc_loc_seq(l) + spec_enc_location(x) =~= spec_enc_location(x));
    } else {
        lemma_enc_loc_seq_snoc(l.drop_first(), x);
        assert(l.push(x).drop_first() =~= l.drop_first().push(x));
        assert(l.push(x)[0] == l[0]);
        assert(spec_enc_location(l[0]) + (spec_enc_loc_seq(l.drop_first()) + spec_enc_location(x))
            =~= (spec_enc_location(l[0]) + spec_enc_loc_seq(l.drop_first()))
                + spec_enc_location(x));
    }
}

pub proof fn lemma_enc_cl_seq_snoc(l: Seq<ChunkLocationsView>, x: ChunkLocationsView)
    ensures
        spec_enc_cl_seq(l.push(x)) == spec_enc_cl_seq(l) + spec_enc_chunk_locations(x),
    decreases l.len(),
{
    if l.len() == 0 {
        assert(l.push(x).drop_first() =~= Seq::<ChunkLocationsView>::empty());
        assert(l.push(x)[0] == x);
        assert(spec_enc_cl_seq(l.push(x)) == spec_enc_chunk_locations(x) + spec_enc_cl_seq(l.push(x).drop_first()));
        assert(spec_enc_cl_seq(l.push(x))
            =~= spec_enc_chunk_locations(x) + Seq::<u8>::empty());
        assert(spec_enc_chunk_locations(x) + Seq::<u8>::empty() =~= spec_enc_chunk_locations(x));
        assert(spec_enc_cl_seq(l) + spec_enc_chunk_locations(x) =~= spec_enc_chunk_locations(x));
    } else {
        lemma_enc_cl_seq_snoc(l.drop_first(), x);
        assert(l.push(x).drop_first() =~= l.drop_first().push(x));
        assert(l.push(x)[0] == l[0]);
        assert(spec_enc_chunk_locations(l[0])
            + (spec_enc_cl_seq(l.drop_first()) + spec_enc_chunk_locations(x))
            =~= (spec_enc_chunk_locations(l[0]) + spec_enc_cl_seq(l.drop_first()))
                + spec_enc_chunk_locations(x));
    }
}

pub proof fn lemma_enc_id_seq_snoc(l: Seq<u128>, x: u128)
    ensures
        spec_enc_id_seq(l.push(x)) == spec_enc_id_seq(l) + spec_enc_uint(x as nat, 16),
    decreases l.len(),
{
    if l.len() == 0 {
        assert(l.push(x).drop_first() =~= Seq::<u128>::empty());
        assert(l.push(x)[0] == x);
        assert(spec_enc_id_seq(l.push(x)) == spec_enc_uint(x as nat, 16) + spec_enc_id_seq(l.push(x).drop_first()));
        assert(spec_enc_id_seq(l.push(x))
            =~= spec_enc_uint(x as nat, 16) + Seq::<u8>::empty());
        assert(spec_enc_uint(x as nat, 16) + Seq::<u8>::empty() =~= spec_enc_uint(x as nat, 16));
        assert(spec_enc_id_seq(l) + spec_enc_uint(x as nat, 16) =~= spec_enc_uint(x as nat, 16));
    } else {
        lemma_enc_id_seq_snoc(l.drop_first(), x);
        assert(l.push(x).drop_first() =~= l.drop_first().push(x));
        assert(l.push(x)[0] == l[0]);
        assert(spec_enc_uint(l[0] as nat, 16)
            + (spec_enc_id_seq(l.drop_first()) + spec_enc_uint(x as nat, 16))
            =~= (spec_enc_uint(l[0] as nat, 16) + spec_enc_id_seq(l.drop_first()))
                + spec_enc_uint(x as nat, 16));
    }
}

/// A buffer carrying an encoded location decodes to it.
pub proof fn lemma_sdec_enc_location(s: Seq<u8>, pos: int, v: ChunkserverLocationView)
    requires
        0 <= pos,
        wf_location(v),
        pos + spec_enc_location(v).len() <= s.len(),
        s.subrange(pos, pos + spec_enc_location(v).len()) == spec_enc_location(v),
    ensures
        sdec_location(s, pos) == Some((v, pos + spec_enc_location(v).len())),
{
    lemma_pow256_values();
    let a = spec_enc_bytes(v.server_location);
    let b = spec_enc_bytes(v.server_hostname);
    lemma_enc_uint_len(v.server_location.len(), 4);
    lemma_enc_uint_len(v.server_hostname.len(), 4);
    lemma_subrange_concat(s, pos, a, b);
    lemma_sdec_enc_bytes(s, pos, v.server_location);
    lemma_sdec_enc_bytes(s, pos + a.len(), v.server_hostname);
}

/// A buffer carrying the encodings of the locations in `l`, one after
/// another, decodes to `l`.
pub proof fn lemma_sdec_enc_loc_seq(s: Seq<u8>, pos: int, l: Seq<ChunkserverLocationView>)
    requires
        0 <= pos,
        forall|i: int| 0 <= i < l.len() ==> wf_location(#[trigger] l[i]),
        pos + spec_enc_loc_seq(l).len() <= s.len(),
        s.subrange(pos, pos + spec_enc_loc_seq(l).len()) == spec_enc_loc_seq(l),
    ensures
        sdec_loc_seq(s, pos, l.len()) == Some((l, pos + spec_enc_loc_seq(l).len())),
    decreases l.len(),
{
    if l.len() == 0 {
        assert(sdec_loc_seq(s, pos, 0) == Some((Seq::<ChunkserverLocationView>::empty(), pos)));
        assert(l =~= Seq::<ChunkserverLocationView>::empty());
    } else {
        let a = spec_enc_location(l[0]);
        let b = spec_enc_loc_seq(l.drop_first());
        lemma_subrange_concat(s, pos, a, b);
        lemma_sdec_enc_location(s, pos, l[0]);
        assert(forall|i: int| 0 <= i < l.drop_first().len()
            ==> wf_location(#[trigger] l.drop_first()[i]));
        lemma_sdec_enc_loc_seq(s, pos + a.len(), l.drop_first());
        assert(seq![l[0]] + l.drop_first() =~= l);
    }
}

/// A buffer carrying an encoded location list decodes to it.
pub proof fn lemma_sdec_enc_loc_list(s: Seq<u8>, pos: int, l: Seq<ChunkserverLocationView>)
    requires
        0 <= pos,
        l.len() < 0x1_0000_0000,
        forall|i: int| 0 <= i < l.len() ==> wf_location(#[trigger] l[i]),
        pos + spec_enc_loc_list(l).len() <= s.len(),
        s.subrange(pos, pos + spec_enc_loc_list(l).len()) == spec_enc_loc_list(l),
    ensures
        sdec_loc_list(s, pos) == Some((l, pos + spec_enc_loc_list(l).len())),
{
    lemma_pow256_values();
    let a = spec_enc_uint(l.len(), 4);
    let b = spec_enc_loc_seq(l);
    lemma_enc_uint_len(l.len(), 4);
    lemma_subrange_concat(s, pos, a, b);
    lemma_sdec_enc_uint(s, pos, l.len(), 4);
    lemma_sdec_enc_loc_seq(s, pos + 4, l);
}

/// A buffer carrying an encoded location record decodes to it.
pub proof fn lemma_sdec_enc_chunk_locations(s: Seq<u8>, pos: int, v: ChunkLocationsView)
    requires
        0 <= pos,
        wf_chunk_locations(v),
        pos + spec_enc_chunk_locations(v).len() <= s.len(),
        s.subrange(pos, pos + spec_enc_chunk_locations(v).len()) == spec_enc_chunk_locations(v),
    ensures
        sdec_chunk_locations(s, pos) == Some((v, pos + spec_enc_chunk_locations(v).len())),
{
    lemma_pow256_values();
    let a = spec_enc_uint(v.chunk_id as nat, 16);
    let b = spec_enc_location(v.primary);
    let c = spec_enc_loc_list(v.secondaries);
    lemma_enc_uint_len(v.chunk_id as nat, 16);
    lemma_subrange_concat(s, pos, a + b, c);
    lemma_subrange_concat(s, pos, a, b);
    lemma_sdec_enc_uint(s, pos, v.chunk_id as nat, 16);
    lemma_sdec_enc_location(s, pos + 16, v.primary);
    lemma_sdec_enc_loc_list(s, pos + 16 + b.len(), v.secondaries);
}

/// A buffer carrying the encodings of the records in `l` decodes to `l`.
pub proof fn lemma_sdec_enc_cl_seq(s: Seq<u8>, pos: int, l: Seq<ChunkLocationsView>)
    requires
        0 <= pos,
        forall|i: int| 0 <= i < l.len() ==> wf_chunk_locations(#[trigger] l[i]),
        pos + spec_enc_cl_seq(l).len() <= s.len(),
        s.subrange(pos, pos + spec_enc_cl_seq(l).len()) == spec_enc_cl_seq(l),
    ensures
        sdec_cl_seq(s, pos, l.len()) == Some((l, pos + spec_enc_cl_seq(l).len())),
    decreases l.len(),
{
    if l.len() == 0 {
        assert(sdec_cl_seq(s, pos, 0) == Some((Seq::<ChunkLocationsView>::empty(), pos)));
        assert(l =~= Seq::<ChunkLocationsView>::empty());
    } else {
        let a = spec_enc_chunk_locations(l[0]);
        let b = spec_enc_cl_seq(l.drop_first());
        lemma_subrange_concat(s, pos, a, b);
        lemma_sdec_enc_chunk_locations(s, pos, l[0]);
        assert(forall|i: int| 0 <= i < l.drop_first().len()
            ==> wf_chunk_locations(#[trigger] l.drop_first()[i]));
        lemma_sdec_enc_cl_seq(s, pos + a.len(), l.drop_first());
        assert(seq![l[0]] + l.drop_first() =~= l);
    }
}

/// A buffer carrying an encoded list of location records decodes to it.
pub proof fn lemma_sdec_enc_cl_list(s: Seq<u8>, pos: int, l: Seq<ChunkLocationsView>)
    requires
        0 <= pos,
        wf_cl_list(l),
        pos + spec_enc_cl_list(l).len() <= s.len(),
        s.subrange(pos, pos + spec_enc_cl_list(l).len()) == spec_enc_cl_list(l),
    ensures
        sdec_cl_list(s, pos) == Some((l, pos + spec_enc_cl_list(l).len())),
{
    lemma_pow256_values();
    let a = spec_enc_uint(l.len(), 4);
    let b = spec_enc_cl_seq(l);
    lemma_enc_uint_len(l.len(), 4);
    lemma_subrange_concat(s, pos, a, b);
    lemma_sdec_enc_uint(s, pos, l.len(), 4);
    lemma_sdec_enc_cl_seq(s, pos + 4, l);
}

/// A buffer carrying the encodings of the identifiers in `l` decodes to `l`.
pub proof fn lemma_sdec_enc_id_seq(s: Seq<u8>, pos: int, l: Seq<u128>)
    requires
        0 <= pos,
        pos + spec_enc_id_seq(l).len() <= s.len(),
        s.subrange(pos, pos + spec_enc_id_seq(l).len()) == spec_enc_id_seq(l),
    ensures
        sdec_id_seq(s, pos, l.len()) == Some((l, pos + spec_enc_id_seq(l).len())),
    decreases l.len(),
{
    lemma_pow256_values();
    if l.len() == 0 {
        assert(sdec_id_seq(s, pos, 0) == Some((Seq::<u128>::empty(), pos)));
        assert(l =~= Seq::<u128>::empty());
    } else {
        let a = spec_enc_uint(l[0] as nat, 16);
        let b = spec_enc_id_seq(l.drop_first());
        lemma_enc_uint_len(l[0] as nat, 16);
        lemma_subrange_concat(s, pos, a, b);
        lemma_sdec_enc_uint(s, pos, l[0] as nat, 16);
        lemma_sdec_enc_id_seq(s, pos + 16, l.drop_first());
        assert(seq![l[0]] + l.drop_first() =~= l);
    }
}

/// A buffer carrying an encoded identifier list decodes to it.
pub proof fn lemma_sdec_enc_id_list(s: Seq<u8>, pos: int, l: Seq<u128>)
    requires
        0 <= pos,
        l.len() < 0x1_0000_0000,
        pos + spec_enc_id_list(l).len() <= s.len(),
        s.subrange(pos, pos + spec_enc_id_list(l).len()) == spec_enc_id_list(l),
    ensures
        sdec_id_list(s, pos) == Some((l, pos + spec_enc_id_list(l).len())),
{
    lemma_pow256_values();
    let a = spec_enc_uint(l.len(), 4);
    let b = spec_enc_id_seq(l);
    lemma_enc_uint_len(l.len(), 4);
    lemma_subrange_concat(s, pos, a, b);
    lemma_sdec_enc_uint(s, pos, l.len(), 4);
    lemma_sdec_enc_id_seq(s, pos + 4, l);
}

pub open spec fn spec_enc_heartbeat(p: HeartbeatPayload) -> Seq<u8> {
    spec_enc_uint(p.server_id as nat, 16) + spec_enc_uint(p.client_requests_count as nat, 8)
        + spec_enc_uint(p.available_space as nat, 8)
}

pub open spec fn sdec_heartbeat(s: Seq<u8>, pos: int) -> Option<(HeartbeatPayload, int)> {
    match sdec_uint(s, pos, 16) {
        None => None,
        Some((sid, p1)) => match sdec_uint(s, p1, 8) {
            None => None,
            Some((cnt, p2)) => match sdec_uint(s, p2, 8) {
                None => None,
                Some((sp, p3)) => Some((
                    HeartbeatPayload {
                        server_id: sid as u128,
                        client_requests_count: cnt as u64,
                        available_space: sp as u64,
                    },
                    p3,
                )),
            },
        },
    }
}

pub proof fn lemma_sdec_enc_heartbeat(s: Seq<u8>, pos: int, p: HeartbeatPayload)
    requires
        0 <= pos,
        pos + 32 <= s.len(),
        s.subrange(pos, pos + 32) == spec_enc_heartbeat(p),
    ensures
        sdec_heartbeat(s, pos) == Some((p, pos + 32)),
        spec_enc_heartbeat(p).len() == 32,
{
    lemma_pow256_values();
    let a = spec_enc_uint(p.server_id as nat, 16);
    let b = spec_enc_uint(p.client_requests_count as nat, 8);
    let c = spec_enc_uint(p.available_space as nat, 8);
    lemma_enc_uint_len(p.server_id as nat, 16);
    lemma_enc_uint_len(p.client_requests_count as nat, 8);
    lemma_enc_uint_len(p.available_space as nat, 8);
    lemma_subrange_concat(s, pos, a + b, c);
    lemma_subrange_concat(s, pos, a, b);
    lemma_sdec_enc_uint(s, pos, p.server_id as nat, 16);
    lemma_sdec_enc_uint(s, pos + 16, p.client_requests_count as nat, 8);
    lemma_sdec_enc_uint(s, pos + 24, p.available_space as nat, 8);
}

pub open spec fn spec_enc_accept(p: AcceptNewChunkServerPayload) -> Seq<u8> {
    spec_enc_uint(p.chunkserver_new_id as nat, 16)
}

pub open spec fn sdec_accept(s: Seq<u8>, pos: int) -> Option<(AcceptNewChunkServerPayload, int)> {
    match sdec_uint(s, pos, 16) {
        None => None,
        Some((id, p1)) => Some((AcceptNewChunkServerPayload { chunkserver_new_id: id as u128 }, p1)),
    }
}

pub proof fn lemma_sdec_enc_accept(s: Seq<u8>, pos: int, p: AcceptNewChunkServerPayload)
    requires
        0 <= pos,
        pos + 16 <= s.len(),
        s.subrange(pos, pos + 16) == spec_enc_accept(p),
    ensures
        sdec_accept(s, pos) == Some((p, pos + 16)),
        spec_enc_accept(p).len() == 16,
{
    lemma_pow256_values();
    lemma_enc_uint_len(p.chunkserver_new_id as nat, 16);
    lemma_sdec_enc_uint(s, pos, p.chunkserver_new_id as nat, 16);
}

pub open spec fn spec_enc_upload(p: UploadChunkPayload) -> Seq<u8> {
    spec_enc_uint(p.chunk_id as nat, 16) + spec_enc_uint(p.chunk_size as nat, 8)
}

pub open spec fn sdec_upload(s: Seq<u8>, pos: int) -> Option<(UploadChunkPayload, int)> {
    match sdec_uint(s, pos, 16) {
        None => None,
        Some((id, p1)) => match sdec_uint(s, p1, 8) {
            None => None,
            Some((sz, p2)) => Some((
                UploadChunkPayload { chunk_id: id as u128, chunk_size: sz as u64 },
                p2,
            )),
        },
    }
}

pub proof fn lemma_sdec_enc_upload(s: Seq<u8>, pos: int, p: UploadChunkPayload)
    requires
        0 <= pos,
        pos + 24 <= s.len(),
        s.subrange(pos, pos + 24) == spec_enc_upload(p),
    ensures
        sdec_upload(s, pos) == Some((p, pos + 24)),
        spec_enc_upload(p).len() == 24,
{
    lemma_pow256_values();
    let a = spec_enc_uint(p.chunk_id as nat, 16);
    let b = spec_enc_uint(p.chunk_size as nat, 8);
    lemma_enc_uint_len(p.chunk_id as nat, 16);
    lemma_enc_uint_len(p.chunk_size as nat, 8);
    lemma_subrange_concat(s, pos, a, b);
    lemma_sdec_enc_uint(s, pos, p.chunk_id as nat, 16);
    lemma_sdec_enc_uint(s, pos + 16, p.chunk_size as nat, 8);
}

pub open spec fn spec_enc_download_req(p: DownloadChunkRequestPayload) -> Seq<u8> {
    spec_enc_uint(p.chunk_id as nat, 16)
}

pub open spec fn sdec_download_req(s: Seq<u8>, pos: int)
    -> Option<(DownloadChunkRequestPayload, int)>
{
    match sdec_uint(s, pos, 16) {
        None => None,
        Some((id, p1)) => Some((DownloadChunkRequestPayload { chunk_id: id as u128 }, p1)),
    }
}

pub proof fn lemma_sdec_enc_download_req(s: Seq<u8>, pos: int, p: DownloadChunkRequestPayload)
    requires
        0 <= pos,
        pos + 16 <= s.len(),
        s.subrange(pos, pos + 16) == spec_enc_download_req(p),
    ensures
        sdec_download_req(s, pos) == Some((p, pos + 16)),
        spec_enc_download_req(p).len() == 16,
{
    lemma_pow256_values();
    lemma_enc_uint_len(p.chunk_id as nat, 16);
    lemma_sdec_enc_uint(s, pos, p.chunk_id as nat, 16);
}

pub open spec fn spec_enc_download_resp(p: DownloadChunkResponsePayload) -> Seq<u8> {
    spec_enc_uint(p.chunk_id as nat, 16) + spec_enc_uint(p.chunk_size as nat, 8)
}

pub open spec fn sdec_download_resp(s: Seq<u8>, pos: int)
    -> Option<(DownloadChunkResponsePayload, int)>
{
    match sdec_uint(s, pos, 16) {
        None => None,
        Some((id, p1)) => match sdec_uint(s, p1, 8) {
            None => None,
            Some((sz, p2)) => Some((
                DownloadChunkResponsePayload { chunk_id: id as u128, chunk_size: sz as u64 },
                p2,
            )),
        },
    }
}

pub proof fn lemma_sdec_enc_download_resp(s: Seq<u8>, pos: int, p: DownloadChunkResponsePayload)
    requires
        0 <= pos,
        pos + 24 <= s.len(),
        s.subrange(pos, pos + 24) == spec_enc_download_resp(p),
    ensures
        sdec_download_resp(s, pos) == Some((p, pos + 24)),
        spec_enc_download_resp(p).len() == 24,
{
    lemma_pow256_values();
    let a = spec_enc_uint(p.chunk_id as nat, 16);
    let b = spec_enc_uint(p.chunk_size as nat, 8);
    lemma_enc_uint_len(p.chunk_id as nat, 16);
    lemma_enc_uint_len(p.chunk_size as nat, 8);
    lemma_subrange_concat(s, pos, a, b);
    lemma_sdec_enc_uint(s, pos, p.chunk_id as nat, 16);
    lemma_sdec_enc_uint(s, pos + 16, p.chunk_size as nat, 8);
}

/// The single byte that stands for a status.
pub open spec fn spec_status_id(p: RequestStatusPayload) -> u8 {
    match p {
        RequestStatusPayload::Success => 0,
        RequestStatusPayload::InvalidRequest => 1,
        RequestStatusPayload::InternalServerError => 2,
    }
}

pub open spec fn spec_enc_status(p: RequestStatusPayload) -> Seq<u8> {
    seq![spec_status_id(p)]
}

pub open spec fn sdec_status(s: Seq<u8>, pos: int) -> Option<(RequestStatusPayload, int)> {
    if 0 <= pos && pos + 1 <= s.len() {
        if s[pos] == 0 {
            Some((RequestStatusPayload::Success, pos + 1))
        } else if s[pos] == 1 {
            Some((RequestStatusPayload::InvalidRequest, pos + 1))
        } else if s[pos] == 2 {
            Some((RequestStatusPayload::InternalServerError, pos + 1))
        } else {
            None
        }
    } else {
        None
    }
}

pub proof fn lemma_sdec_enc_status(s: Seq<u8>, pos: int, p: RequestStatusPayload)
    requires
        0 <= pos,
        pos + 1 <= s.len(),
        s.subrange(pos, pos + 1) == spec_enc_status(p),
    ensures
        sdec_status(s, pos) == Some((p, pos + 1)),
        spec_enc_status(p).len() == 1,
{
    assert(s[pos] == s.subrange(pos, pos + 1)[0]);
}

pub open spec fn wf_placement_request(v: ChunkPlacementRequestView) -> bool {
    v.filename.len() < 0x1_0000_0000
}

pub open spec fn spec_enc_placement_request(v: ChunkPlacementRequestView) -> Seq<u8> {
    spec_enc_bytes(v.filename) + spec_enc_uint(v.file_size as nat, 8)
}

pub open spec fn sdec_placement_request(s: Seq<u8>, pos: int)
    -> Option<(ChunkPlacementRequestView, int)>
{
    match sdec_bytes(s, pos) {
        None => None,
        Some((name, p1)) => match sdec_uint(s, p1, 8) {
            None => None,
            Some((sz, p2)) => Some((
                ChunkPlacementRequestView { filename: name, file_size: sz as u64 },
                p2,
            )),
        },
    }
}

pub proof fn lemma_sdec_enc_placement_request(s: Seq<u8>, pos: int, v: ChunkPlacementRequestView)
    requires
        0 <= pos,
        wf_placement_request(v),
        pos + spec_enc_placement_request(v).len() <= s.len(),
        s.subrange(pos, pos + spec_enc_placement_request(v).len())
            == spec_enc_placement_request(v),
    ensures
        sdec_placement_request(s, pos) == Some((v, pos + spec_enc_placement_request(v).len())),
{
    lemma_pow256_values();
    let a = spec_enc_bytes(v.filename);
    let b = spec_enc_uint(v.file_size as nat, 8);
    lemma_enc_uint_len(v.filename.len(), 4);
    lemma_enc_uint_len(v.file_size as nat, 8);
    lemma_subrange_concat(s, pos, a, b);
    lemma_sdec_enc_bytes(s, pos, v.filename);
    lemma_sdec_enc_uint(s, pos + a.len(), v.file_size as nat, 8);
}

pub open spec fn wf_file_placement_request(v: GetFilePlacementRequestView) -> bool {
    v.filename.len() < 0x1_0000_0000
}

pub open spec fn spec_enc_file_placement_request(v: GetFilePlacementRequestView) -> Seq<u8> {
    spec_enc_bytes(v.filename)
}

pub open spec fn sdec_file_placement_request(s: Seq<u8>, pos: int)
    -> Option<(GetFilePlacementRequestView, int)>
{
    match sdec_bytes(s, pos) {
        None => None,
        Some((name, p1)) => Some((GetFilePlacementRequestView { filename: name }, p1)),
    }
}

pub proof fn lemma_sdec_enc_file_placement_request(
    s: Seq<u8>,
    pos: int,
    v: GetFilePlacementRequestView,
)
    requires
        0 <= pos,
        wf_file_placement_request(v),
        pos + spec_enc_file_placement_request(v).len() <= s.len(),
        s.subrange(pos, pos + spec_enc_file_placement_request(v).len())
            == spec_enc_file_placement_request(v),
    ensures
        sdec_file_placement_request(s, pos)
            == Some((v, pos + spec_enc_file_placement_request(v).len())),
{
    lemma_pow256_values();
    lemma_enc_uint_len(v.filename.len(), 4);
    lemma_sdec_enc_bytes(s, pos, v.filename);
}

pub open spec fn wf_placement_response(v: ChunkPlacementResponseView) -> bool {
    wf_cl_list(v.selected_chunkservers)
}

pub open spec fn spec_enc_placement_response(v: ChunkPlacementResponseView) -> Seq<u8> {
    spec_enc_cl_list(v.selected_chunkservers)
}

pub open spec fn sdec_placement_response(s: Seq<u8>, pos: int)
    -> Option<(ChunkPlacementResponseView, int)>
{
    match sdec_cl_list(s, pos) {
        None => None,
        Some((l, p1)) => Some((ChunkPlacementResponseView { selected_chunkservers: l }, p1)),
    }
}

pub proof fn lemma_sdec_enc_placement_response(s: Seq<u8>, pos: int, v: ChunkPlacementResponseView)
    requires
        0 <= pos,
        wf_placement_response(v),
        pos + spec_enc_placement_response(v).len() <= s.len(),
        s.subrange(pos, pos + spec_enc_placement_response(v).len())
            == spec_enc_placement_response(v),
    ensures
        sdec_placement_response(s, pos) == Some((v, pos + spec_enc_placement_response(v).len())),
{
    lemma_sdec_enc_cl_list(s, pos, v.selected_chunkservers);
}

pub open spec fn wf_file_placement_response(v: GetFilePlacementResponseView) -> bool {
    wf_cl_list(v.chunks_locations)
}

pub open spec fn spec_enc_file_placement_response(v: GetFilePlacementResponseView) -> Seq<u8> {
    spec_enc_cl_list(v.chunks_locations)
}

pub open spec fn sdec_file_placement_response(s: Seq<u8>, pos: int)
    -> Option<(GetFilePlacementResponseView, int)>
{
    match sdec_cl_list(s, pos) {
        None => None,
        Some((l, p1)) => Some((GetFilePlacementResponseView { chunks_locations: l }, p1)),
    }
}

pub proof fn lemma_sdec_enc_file_placement_response(
    s: Seq<u8>,
    pos: int,
    v: GetFilePlacementResponseView,
)
    requires
        0 <= pos,
        wf_file_placement_response(v),
        pos + spec_enc_file_placement_response(v).len() <= s.len(),
        s.subrange(pos, pos + spec_enc_file_placement_response(v).len())
            == spec_enc_file_placement_response(v),
    ensures
        sdec_file_placement_response(s, pos)
            == Some((v, pos + spec_enc_file_placement_response(v).len())),
{
    lemma_sdec_enc_cl_list(s, pos, v.chunks_locations);
}

pub open spec fn wf_discover(v: ChunkServerDiscoverView) -> bool {
    &&& v.hostname.len() < 0x1_0000_0000
    &&& v.rack_id.len() < 0x1_0000_0000
    &&& v.internal_address.len() < 0x1_0000_0000
    &&& v.external_address.len() < 0x1_0000_0000
    &&& v.stored_chunks.len() < 0x1_0000_0000
}

pub open spec fn spec_enc_discover(v: ChunkServerDiscoverView) -> Seq<u8> {
    spec_enc_uint(v.server_id as nat, 16) + spec_enc_bytes(v.hostname)
        + spec_enc_bytes(v.rack_id) + spec_enc_bytes(v.internal_address)
        + spec_enc_bytes(v.external_address) + spec_enc_id_list(v.stored_chunks)
}

pub open spec fn sdec_discover(s: Seq<u8>, pos: int) -> Option<(ChunkServerDiscoverView, int)> {
    match sdec_uint(s, pos, 16) {
        None => None,
        Some((sid, p1)) => match sdec_bytes(s, p1) {
            None => None,
            Some((host, p2)) => match sdec_bytes(s, p2) {
                None => None,
                Some((rack, p3)) => match sdec_bytes(s, p3) {
                    None => None,
                    Some((iaddr, p4)) => match sdec_bytes(s, p4) {
                        None => None,
                        Some((eaddr, p5)) => match sdec_id_list(s, p5) {
                            None => None,
                            Some((chunks, p6)) => Some((
                                ChunkServerDiscoverView {
                                    server_id: sid as u128,
                                    hostname: host,
                                    rack_id: rack,
                                    internal_address: iaddr,
                                    external_address: eaddr,
                                    stored_chunks: chunks,
                                },
                                p6,
                            )),
                        },
                    },
                },
            },
        },
    }
}

pub proof fn lemma_sdec_enc_discover(s: Seq<u8>, pos: int, v: ChunkServerDiscoverView)
    requires
        0 <= pos,
        wf_discover(v),
        pos + spec_enc_discover(v).len() <= s.len(),
        s.subrange(pos, pos + spec_enc_discover(v).len()) == spec_enc_discover(v),
    ensures
        sdec_discover(s, pos) == Some((v, pos + spec_enc_discover(v).len())),
{
    lemma_pow256_values();
    let a = spec_enc_uint(v.server_id as nat, 16);
    let b = spec_enc_bytes(v.hostname);
    let c = spec_enc_bytes(v.rack_id);
    let d = spec_enc_bytes(v.internal_address);
    let e = spec_enc_bytes(v.external_address);
    let f = spec_enc_id_list(v.stored_chunks);
    lemma_enc_uint_len(v.server_id as nat, 16);
    lemma_enc_uint_len(v.hostname.len(), 4);
    lemma_enc_uint_len(v.rack_id.len(), 4);
    lemma_enc_uint_len(v.internal_address.len(), 4);
    lemma_enc_uint_len(v.external_address.len(), 4);
    lemma_subrange_concat(s, pos, a + b + c + d + e, f);
    lemma_subrange_concat(s, pos, a + b + c + d, e);
    lemma_subrange_concat(s, pos, a + b + c, d);
    lemma_subrange_concat(s, pos, a + b, c);
    lemma_subrange_concat(s, pos, a, b);
    lemma_sdec_enc_uint(s, pos, v.server_id as nat, 16);
    lemma_sdec_enc_bytes(s, pos + a.len(), v.hostname);
    lemma_sdec_enc_bytes(s, pos + a.len() + b.len(), v.rack_id);
    lemma_sdec_enc_bytes(s, pos + a.len() + b.len() + c.len(), v.internal_address);
    lemma_sdec_enc_bytes(s, pos + a.len() + b.len() + c.len() + d.len(), v.external_address);
    lemma_sdec_enc_id_list(s, pos + a.len() + b.len() + c.len() + d.len() + e.len(),
        v.stored_chunks);
}

/// Lengths small enough throughout a list of locations.
pub open spec fn wf_loc_list(l: Seq<ChunkserverLocationView>) -> bool {
    &&& l.len() < 0x1_0000_0000
    &&& forall|i: int| 0 <= i < l.len() ==> wf_location(#[trigger] l[i])
}

/// Appends the encoding of one location; refuses over-long fields.
pub fn enc_location(out: &mut Vec<u8>, v: &ChunkserverLocation) -> (ok: bool)
    ensures
        ok == wf_location(v@),
        ok ==> final(out)@ == old(out)@ + spec_enc_location(v@),
{
    if v.server_location.len() as u64 >= 0x1_0000_0000u64 {
        return false;
    }
    if v.server_hostname.len() as u64 >= 0x1_0000_0000u64 {
        return false;
    }
    let ghost orig = out@;
    enc_bytes(out, &v.server_location);
    enc_bytes(out, &v.server_hostname);
    proof {
        assert(out@ =~= orig + spec_enc_location(v@));
    }
    true
}

/// Reads one location.
pub fn dec_location(buf: &Vec<u8>, pos: usize) -> (r: Option<(ChunkserverLocation, usize)>)
    ensures
        match r {
            Some(vp) => sdec_location(buf@, pos as int) == Some((vp.0@, vp.1 as int)),
            None => sdec_location(buf@, pos as int) is None,
        },
{
    let (loc, p1) = match dec_bytes(buf, pos) {
        None => {
            return None;
        },
        Some(x) => x,
    };
    let (host, p2) = match dec_bytes(buf, p1) {
        None => {
            return None;
        },
        Some(x) => x,
    };
    Some((ChunkserverLocation { server_location: loc, server_hostname: host }, p2))
}

/// Appends the encoding of a location list; refuses over-long contents.
pub fn enc_loc_list(out: &mut Vec<u8>, list: &Vec<ChunkserverLocation>) -> (ok: bool)
    ensures
        ok == wf_loc_list(list@.map_values(|c: ChunkserverLocation| c@)),
        ok ==> final(out)@ == old(out)@
            + spec_enc_loc_list(list@.map_values(|c: ChunkserverLocation| c@)),
{
    let ghost lv = list@.map_values(|c: ChunkserverLocation| c@);
    if list.len() as u64 >= 0x1_0000_0000u64 {
        return false;
    }
    let ghost orig = out@;
    proof {
        lemma_pow256_values();
    }
    enc_uint(out, list.len() as u128, 4);
    let mut i: usize = 0;
    while i < list.len()
        invariant
            i <= list.len(),
            lv == list@.map_values(|c: ChunkserverLocation| c@),
            lv.len() == list.len() < 0x1_0000_0000,
            out@ == orig + spec_enc_uint(lv.len(), 4) + spec_enc_loc_seq(lv.subrange(0, i as int)),
            forall|j: int| 0 <= j < i ==> wf_location(#[trigger] lv[j]),
        decreases list.len() - i,
    {
        let ghost pre = out@;
        let ok = enc_location(out, &list[i]);
        if !ok {
            proof {
                assert(lv[i as int] == list@[i as int]@);
            }
            return false;
        }
        proof {
            lemma_enc_loc_seq_snoc(lv.subrange(0, i as int), lv[i as int]);
            assert(lv.subrange(0, i as int + 1) =~= lv.subrange(0, i as int).push(lv[i as int]));
            assert(out@ =~= orig + spec_enc_uint(lv.len(), 4)
                + spec_enc_loc_seq(lv.subrange(0, i as int + 1)));
        }
        i = i + 1;
    }
    proof {
        assert(lv.subrange(0, lv.len() as int) =~= lv);
        assert(out@ =~= orig + spec_enc_loc_list(lv));
    }
    true
}

/// Reads a location list.
pub fn dec_loc_list(buf: &Vec<u8>, pos: usize) -> (r: Option<(Vec<ChunkserverLocation>, usize)>)
    ensures
        match r {
            Some(vp) => sdec_loc_list(buf@, pos as int)
                == Some((vp.0@.map_values(|c: ChunkserverLocation| c@), vp.1 as int)),
            None => sdec_loc_list(buf@, pos as int) is None,
        },
{
    let (count128, start) = match dec_uint(buf, pos, 4) {
        None => {
            return None;
        },
        Some(x) => x,
    };
    proof {
        lemma_uint_val_bound(buf@.subrange(pos as int, pos as int + 4));
        lemma_pow256_values();
    }
    let count: usize = count128 as usize;
    let mut acc: Vec<ChunkserverLocation> = Vec::new();
    let mut cur: usize = start;
    let mut i: usize = 0;
    proof {
        assert(acc@.map_values(|c: ChunkserverLocation| c@) =~= Seq::<ChunkserverLocationView>::empty());
    }
    while i < count
        invariant
            i <= count,
            match sdec_loc_seq(buf@, cur as int, (count - i) as nat) {
                None => sdec_loc_list(buf@, pos as int) is None,
                Some((l, p)) => sdec_loc_list(buf@, pos as int)
                    == Some((acc@.map_values(|c: ChunkserverLocation| c@) + l, p)),
            },
        decreases count - i,
    {
        let ghost accv = acc@.map_values(|c: ChunkserverLocation| c@);
        let (loc, p1) = match dec_location(buf, cur) {
            None => {
                return None;
            },
            Some(x) => x,
        };
        acc.push(loc);
        proof {
            assert(acc@.map_values(|c: ChunkserverLocation| c@) =~= accv.push(loc@));
            match sdec_loc_seq(buf@, p1 as int, (count - i - 1) as nat) {
                None => {},
                Some((l2, p2)) => {
                    assert(accv.push(loc@) + l2 =~= accv + (seq![loc@] + l2));
                },
            }
        }
        cur = p1;
        i = i + 1;
    }
    proof {
        let accv = acc@.map_values(|c: ChunkserverLocation| c@);
        assert(sdec_loc_seq(buf@, cur as int, 0) == Some((Seq::<ChunkserverLocationView>::empty(), cur as int)));
        assert(accv + Seq::<ChunkserverLocationView>::empty() =~= accv);
    }
    Some((acc, cur))
}

/// Appends the encoding of one chunk's location record.
pub fn enc_chunk_locations(out: &mut Vec<u8>, v: &ChunkLocations) -> (ok: bool)
    ensures
        ok == wf_chunk_locations(v@),
        ok ==> final(out)@ == old(out)@ + spec_enc_chunk_locations(v@),
{
    let ghost orig = out@;
    enc_u128(out, v.chunk_id);
    let ok1 = enc_location(out, &v.primary);
    if !ok1 {
        return false;
    }
    let ok2 = enc_loc_list(out, &v.secondaries);
    if !ok2 {
        return false;
    }
    proof {
        assert(out@ =~= orig + spec_enc_chunk_locations(v@));
    }
    true
}

/// Reads one chunk's location record.
pub fn dec_chunk_locations(buf: &Vec<u8>, pos: usize) -> (r: Option<(ChunkLocations, usize)>)
    ensures
        match r {
            Some(vp) => sdec_chunk_locations(buf@, pos as int) == Some((vp.0@, vp.1 as int)),
            None => sdec_chunk_locations(buf@, pos as int) is None,
        },
{
    let (id, p1) = match dec_u128(buf, pos) {
        None => {
            return None;
        },
        Some(x) => x,
    };
    let (prim, p2) = match dec_location(buf, p1) {
        None => {
            return None;
        },
        Some(x) => x,
    };
    let (secs, p3) = match dec_loc_list(buf, p2) {
        None => {
            return None;
        },
        Some(x) => x,
    };
    Some((ChunkLocations { chunk_id: id, primary: prim, secondaries: secs }, p3))
}

/// Appends the encoding of a list of location records.
pub fn enc_cl_list(out: &mut Vec<u8>, list: &Vec<ChunkLocations>) -> (ok: bool)
    ensures
        ok == wf_cl_list(list@.map_values(|c: ChunkLocations| c@)),
        ok ==> final(out)@ == old(out)@
            + spec_enc_cl_list(list@.map_values(|c: ChunkLocations| c@)),
{
    let ghost lv = list@.map_values(|c: ChunkLocations| c@);
    if list.len() as u64 >= 0x1_0000_0000u64 {
        return false;
    }
    let ghost orig = out@;
    proof {
        lemma_pow256_values();
    }
    enc_uint(out, list.len() as u128, 4);
    let mut i: usize = 0;
    while i < list.len()
        invariant
            i <= list.len(),
            lv == list@.map_values(|c: ChunkLocations| c@),
            lv.len() == list.len() < 0x1_0000_0000,
            out@ == orig + spec_enc_uint(lv.len(), 4) + spec_enc_cl_seq(lv.subrange(0, i as int)),
            forall|j: int| 0 <= j < i ==> wf_chunk_locations(#[trigger] lv[j]),
        decreases list.len() - i,
    {
        let ok = enc_chunk_locations(out, &list[i]);
        if !ok {
            proof {
                assert(lv[i as int] == list@[i as int]@);
            }
            return false;
        }
        proof {
            lemma_enc_cl_seq_snoc(lv.subrange(0, i as int), lv[i as int]);
            assert(lv.subrange(0, i as int + 1) =~= lv.subrange(0, i as int).push(lv[i as int]));
            assert(out@ =~= orig + spec_enc_uint(lv.len(), 4)
                + spec_enc_cl_seq(lv.subrange(0, i as int + 1)));
        }
        i = i + 1;
    }
    proof {
        assert(lv.subrange(0, lv.len() as int) =~= lv);
        assert(out@ =~= orig + spec_enc_cl_list(lv));
    }
    true
}

/// Reads a list of location records.
pub fn dec_cl_list(buf: &Vec<u8>, pos: usize) -> (r: Option<(Vec<ChunkLocations>, usize)>)
    ensures
        match r {
            Some(vp) => sdec_cl_list(buf@, pos as int)
                == Some((vp.0@.map_values(|c: ChunkLocations| c@), vp.1 as int)),
            None => sdec_cl_list(buf@, pos as int) is None,
        },
{
    let (count128, start) = match dec_uint(buf, pos, 4) {
        None => {
            return None;
        },
        Some(x) => x,
    };
    proof {
        lemma_uint_val_bound(buf@.subrange(pos as int, pos as int + 4));
        lemma_pow256_values();
    }
    let count: usize = count128 as usize;
    let mut acc: Vec<ChunkLocations> = Vec::new();
    let mut cur: usize = start;
    let mut i: usize = 0;
    proof {
        assert(acc@.map_values(|c: ChunkLocations| c@) =~= Seq::<ChunkLocationsView>::empty());
    }
    while i < count
        invariant
            i <= count,
            match sdec_cl_seq(buf@, cur as int, (count - i) as nat) {
                None => sdec_cl_list(buf@, pos as int) is None,
                Some((l, p)) => sdec_cl_list(buf@, pos as int)
                    == Some((acc@.map_values(|c: ChunkLocations| c@) + l, p)),
            },
        decreases count - i,
    {
        let ghost accv = acc@.map_values(|c: ChunkLocations| c@);
        let (one, p1) = match dec_chunk_locations(buf, cur) {
            None => {
                return None;
            },
            Some(x) => x,
        };
        acc.push(one);
        proof {
            assert(acc@.map_values(|c: ChunkLocations| c@) =~= accv.push(one@));
            match sdec_cl_seq(buf@, p1 as int, (count - i - 1) as nat) {
                None => {},
                Some((l2, p2)) => {
                    assert(accv.push(one@) + l2 =~= accv + (seq![one@] + l2));
                },
            }
        }
        cur = p1;
        i = i + 1;
    }
    proof {
        let accv = acc@.map_values(|c: ChunkLocations| c@);
        assert(sdec_cl_seq(buf@, cur as int, 0) == Some((Seq::<ChunkLocationsView>::empty(), cur as int)));
        assert(accv + Seq::<ChunkLocationsView>::empty() =~= accv);
    }
    Some((acc, cur))
}

/// Appends the encoding of an identifier list.
pub fn enc_id_list(out: &mut Vec<u8>, list: &Vec<u128>) -> (ok: bool)
    ensures
        ok == (list@.len() < 0x1_0000_0000),
        ok ==> final(out)@ == old(out)@ + spec_enc_id_list(list@),
{
    if list.len() as u64 >= 0x1_0000_0000u64 {
        return false;
    }
    let ghost orig = out@;
    proof {
        lemma_pow256_values();
    }
    enc_uint(out, list.len() as u128, 4);
    let mut i: usize = 0;
    while i < list.len()
        invariant
            i <= list.len(),
            list.len() < 0x1_0000_0000,
            out@ == orig + spec_enc_uint(list@.len(), 4)
                + spec_enc_id_seq(list@.subrange(0, i as int)),
        decreases list.len() - i,
    {
        enc_u128(out, list[i]);
        proof {
            lemma_enc_id_seq_snoc(list@.subrange(0, i as int), list@[i as int]);
            assert(list@.subrange(0, i as int + 1)
                =~= list@.subrange(0, i as int).push(list@[i as int]));
            assert(out@ =~= orig + spec_enc_uint(list@.len(), 4)
                + spec_enc_id_seq(list@.subrange(0, i as int + 1)));
        }
        i = i + 1;
    }
    proof {
        assert(list@.subrange(0, list@.len() as int) =~= list@);
        assert(out@ =~= orig + spec_enc_id_list(list@));
    }
    true
}

/// Reads an identifier list.
pub fn dec_id_list(buf: &Vec<u8>, pos: usize) -> (r: Option<(Vec<u128>, usize)>)
    ensures
        match r {
            Some(vp) => sdec_id_list(buf@, pos as int) == Some((vp.0@, vp.1 as int)),
            None => sdec_id_list(buf@, pos as int) is None,
        },
{
    let (count128, start) = match dec_uint(buf, pos, 4) {
        None => {
            return None;
        },
        Some(x) => x,
    };
    proof {
        lemma_uint_val_bound(buf@.subrange(pos as int, pos as int + 4));
        lemma_pow256_values();
    }
    let count: usize = count128 as usize;
    let mut acc: Vec<u128> = Vec::new();
    let mut cur: usize = start;
    let mut i: usize = 0;
    proof {
        assert(acc@ =~= Seq::<u128>::empty());
    }
    while i < count
        invariant
            i <= count,
            match sdec_id_seq(buf@, cur as int, (count - i) as nat) {
                None => sdec_id_list(buf@, pos as int) is None,
                Some((l, p)) => sdec_id_list(buf@, pos as int) == Some((acc@ + l, p)),
            },
        decreases count - i,
    {
        let ghost accv = acc@;
        let (one, p1) = match dec_u128(buf, cur) {
            None => {
                return None;
            },
            Some(x) => x,
        };
        acc.push(one);
        proof {
            match sdec_id_seq(buf@, p1 as int, (count - i - 1) as nat) {
                None => {},
                Some((l2, p2)) => {
                    assert(accv.push(one) + l2 =~= accv + (seq![one] + l2));
                },
            }
        }
        cur = p1;
        i = i + 1;
    }
    proof {
        assert(sdec_id_seq(buf@, cur as int, 0) == Some((Seq::<u128>::empty(), cur as int)));
        assert(acc@ + Seq::<u128>::empty() =~= acc@);
    }
    Some((acc, cur))
}

pub fn enc_heartbeat_payload(out: &mut Vec<u8>, p: &HeartbeatPayload)
    ensures
        final(out)@ == old(out)@ + spec_enc_heartbeat(*p),
{
    let ghost orig = out@;
    enc_u128(out, p.server_id);
    enc_u64(out, p.client_requests_count);
    enc_u64(out, p.available_space);
    proof {
        assert(out@ =~= orig + spec_enc_heartbeat(*p));
    }
}

pub fn dec_heartbeat_payload(buf: &Vec<u8>, pos: usize) -> (r: Option<(HeartbeatPayload, usize)>)
    ensures
        match r {
            Some(vp) => sdec_heartbeat(buf@, pos as int) == Some((vp.0, vp.1 as int)),
            None => sdec_heartbeat(buf@, pos as int) is None,
        },
{
    let (sid, p1) = match dec_u128(buf, pos) {
        None => {
            return None;
        },
        Some(x) => x,
    };
    let (cnt, p2) = match dec_u64(buf, p1) {
        None => {
            return None;
        },
        Some(x) => x,
    };
    let (sp, p3) = match dec_u64(buf, p2) {
        None => {
            return None;
        },
        Some(x) => x,
    };
    Some((HeartbeatPayload { server_id: sid, client_requests_count: cnt, available_space: sp }, p3))
}

pub fn enc_accept_payload(out: &mut Vec<u8>, p: &AcceptNewChunkServerPayload)
    ensures
        final(out)@ == old(out)@ + spec_enc_accept(*p),
{
    enc_u128(out, p.chunkserver_new_id);
}

pub fn dec_accept_payload(buf: &Vec<u8>, pos: usize)
    -> (r: Option<(AcceptNewChunkServerPayload, usize)>)
    ensures
        match r {
            Some(vp) => sdec_accept(buf@, pos as int) == Some((vp.0, vp.1 as int)),
            None => sdec_accept(buf@, pos as int) is None,
        },
{
    match dec_u128(buf, pos) {
        None => None,
        Some((id, p1)) => Some((AcceptNewChunkServerPayload { chunkserver_new_id: id }, p1)),
    }
}

pub fn enc_upload_payload(out: &mut Vec<u8>, p: &UploadChunkPayload)
    ensures
        final(out)@ == old(out)@ + spec_enc_upload(*p),
{
    let ghost orig = out@;
    enc_u128(out, p.chunk_id);
    enc_u64(out, p.chunk_size);
    proof {
        assert(out@ =~= orig + spec_enc_upload(*p));
    }
}

pub fn dec_upload_payload(buf: &Vec<u8>, pos: usize) -> (r: Option<(UploadChunkPayload, usize)>)
    ensures
        match r {
            Some(vp) => sdec_upload(buf@, pos as int) == Some((vp.0, vp.1 as int)),
            None => sdec_upload(buf@, pos as int) is None,
        },
{
    let (id, p1) = match dec_u128(buf, pos) {
        None => {
            return None;
        },
        Some(x) => x,
    };
    let (sz, p2) = match dec_u64(buf, p1) {
        None => {
            return None;
        },
        Some(x) => x,
    };
    Some((UploadChunkPayload { chunk_id: id, chunk_size: sz }, p2))
}

pub fn enc_download_req_payload(out: &mut Vec<u8>, p: &DownloadChunkRequestPayload)
    ensures
        final(out)@ == old(out)@ + spec_enc_download_req(*p),
{
    enc_u128(out, p.chunk_id);
}

pub fn dec_download_req_payload(buf: &Vec<u8>, pos: usize)
    -> (r: Option<(DownloadChunkRequestPayload, usize)>)
    ensures
        match r {
            Some(vp) => sdec_download_req(buf@, pos as int) == Some((vp.0, vp.1 as int)),
            None => sdec_download_req(buf@, pos as int) is None,
        },
{
    match dec_u128(buf, pos) {
        None => None,
        Some((id, p1)) => Some((DownloadChunkRequestPayload { chunk_id: id }, p1)),
    }
}

pub fn enc_download_resp_payload(out: &mut Vec<u8>, p: &DownloadChunkResponsePayload)
    ensures
        final(out)@ == old(out)@ + spec_enc_download_resp(*p),
{
    let ghost orig = out@;
    enc_u128(out, p.chunk_id);
    enc_u64(out, p.chunk_size);
    proof {
        assert(out@ =~= orig + spec_enc_download_resp(*p));
    }
}

pub fn dec_download_resp_payload(buf: &Vec<u8>, pos: usize)
    -> (r: Option<(DownloadChunkResponsePayload, usize)>)
    ensures
        match r {
            Some(vp) => sdec_download_resp(buf@, pos as int) == Some((vp.0, vp.1 as int)),
            None => sdec_download_resp(buf@, pos as int) is None,
        },
{
    let (id, p1) = match dec_u128(buf, pos) {
        None => {
            return None;
        },
        Some(x) => x,
    };
    let (sz, p2) = match dec_u64(buf, p1) {
        None => {
            return None;
        },
        Some(x) => x,
    };
    Some((DownloadChunkResponsePayload { chunk_id: id, chunk_size: sz }, p2))
}

pub fn enc_status_payload(out: &mut Vec<u8>, p: &RequestStatusPayload)
    ensures
        final(out)@ == old(out)@ + spec_enc_status(*p),
{
    let b: u8 = match p {
        RequestStatusPayload::Success => 0,
        RequestStatusPayload::InvalidRequest => 1,
        RequestStatusPayload::InternalServerError => 2,
    };
    out.push(b);
    proof {
        assert(out@ =~= old(out)@ + spec_enc_status(*p));
    }
}

pub fn dec_status_payload(buf: &Vec<u8>, pos: usize) -> (r: Option<(RequestStatusPayload, usize)>)
    ensures
        match r {
            Some(vp) => sdec_status(buf@, pos as int) == Some((vp.0, vp.1 as int)),
            None => sdec_status(buf@, pos as int) is None,
        },
{
    if pos >= buf.len() {
        return None;
    }
    let b = buf[pos];
    if b == 0 {
        Some((RequestStatusPayload::Success, pos + 1))
    } else if b == 1 {
        Some((RequestStatusPayload::InvalidRequest, pos + 1))
    } else if b == 2 {
        Some((RequestStatusPayload::InternalServerError, pos + 1))
    } else {
        None
    }
}

pub fn enc_placement_request_payload(out: &mut Vec<u8>, p: &ChunkPlacementRequestPayload)
    -> (ok: bool)
    ensures
        ok == wf_placement_request(p@),
        ok ==> final(out)@ == old(out)@ + spec_enc_placement_request(p@),
{
    if p.filename.len() as u64 >= 0x1_0000_0000u64 {
        return false;
    }
    let ghost orig = out@;
    enc_bytes(out, &p.filename);
    enc_u64(out, p.file_size);
    proof {
        assert(out@ =~= orig + spec_enc_placement_request(p@));
    }
    true
}

pub fn dec_placement_request_payload(buf: &Vec<u8>, pos: usize)
    -> (r: Option<(ChunkPlacementRequestPayload, usize)>)
    ensures
        match r {
            Some(vp) => sdec_placement_request(buf@, pos as int) == Some((vp.0@, vp.1 as int)),
            None => sdec_placement_request(buf@, pos as int) is None,
        },
{
    let (name, p1) = match dec_bytes(buf, pos) {
        None => {
            return None;
        },
        Some(x) => x,
    };
    let (sz, p2) = match dec_u64(buf, p1) {
        None => {
            return None;
        },
        Some(x) => x,
    };
    Some((ChunkPlacementRequestPayload { filename: name, file_size: sz }, p2))
}

pub fn enc_file_placement_request_payload(out: &mut Vec<u8>, p: &GetFilePlacementRequestPayload)
    -> (ok: bool)
    ensures
        ok == wf_file_placement_request(p@),
        ok ==> final(out)@ == old(out)@ + spec_enc_file_placement_request(p@),
{
    if p.filename.len() as u64 >= 0x1_0000_0000u64 {
        return false;
    }
    enc_bytes(out, &p.filename);
    true
}

pub fn dec_file_placement_request_payload(buf: &Vec<u8>, pos: usize)
    -> (r: Option<(GetFilePlacementRequestPayload, usize)>)
    ensures
        match r {
            Some(vp) => sdec_file_placement_request(buf@, pos as int)
                == Some((vp.0@, vp.1 as int)),
            None => sdec_file_placement_request(buf@, pos as int) is None,
        },
{
    match dec_bytes(buf, pos) {
        None => None,
        Some((name, p1)) => Some((GetFilePlacementRequestPayload { filename: name }, p1)),
    }
}

pub fn enc_placement_response_payload(out: &mut Vec<u8>, p: &ChunkPlacementResponsePayload)
    -> (ok: bool)
    ensures
        ok == wf_placement_response(p@),
        ok ==> final(out)@ == old(out)@ + spec_enc_placement_response(p@),
{
    enc_cl_list(out, &p.selected_chunkservers)
}

pub fn dec_placement_response_payload(buf: &Vec<u8>, pos: usize)
    -> (r: Option<(ChunkPlacementResponsePayload, usize)>)
    ensures
        match r {
            Some(vp) => sdec_placement_response(buf@, pos as int) == Some((vp.0@, vp.1 as int)),
            None => sdec_placement_response(buf@, pos as int) is None,
        },
{
    match dec_cl_list(buf, pos) {
        None => None,
        Some((l, p1)) => Some((ChunkPlacementResponsePayload { selected_chunkservers: l }, p1)),
    }
}

pub fn enc_file_placement_response_payload(out: &mut Vec<u8>, p: &GetFilePlacementResponsePayload)
    -> (ok: bool)
    ensures
        ok == wf_file_placement_response(p@),
        ok ==> final(out)@ == old(out)@ + spec_enc_file_placement_response(p@),
{
    enc_cl_list(out, &p.chunks_locations)
}

pub fn dec_file_placement_response_payload(buf: &Vec<u8>, pos: usize)
    -> (r: Option<(GetFilePlacementResponsePayload, usize)>)
    ensures
        match r {
            Some(vp) => sdec_file_placement_response(buf@, pos as int)
                == Some((vp.0@, vp.1 as int)),
            None => sdec_file_placement_response(buf@, pos as int) is None,
        },
{
    match dec_cl_list(buf, pos) {
        None => None,
        Some((l, p1)) => Some((GetFilePlacementResponsePayload { chunks_locations: l }, p1)),
    }
}

pub fn enc_discover_payload(out: &mut Vec<u8>, p: &ChunkServerDiscoverPayload) -> (ok: bool)
    ensures
        ok == wf_discover(p@),
        ok ==> final(out)@ == old(out)@ + spec_enc_discover(p@),
{
    if p.hostname.len() as u64 >= 0x1_0000_0000u64 {
        return false;
    }
    if p.rack_id.len() as u64 >= 0x1_0000_0000u64 {
        return false;
    }
    if p.internal_address.len() as u64 >= 0x1_0000_0000u64 {
        return false;
    }
    if p.external_address.len() as u64 >= 0x1_0000_0000u64 {
        return false;
    }
    if p.stored_chunks.len() as u64 >= 0x1_0000_0000u64 {
        return false;
    }
    let ghost orig = out@;
    enc_u128(out, p.server_id);
    enc_bytes(out, &p.hostname);
    enc_bytes(out, &p.rack_id);
    enc_bytes(out, &p.internal_address);
    enc_bytes(out, &p.external_address);
    let ok = enc_id_list(out, &p.stored_chunks);
    proof {
        assert(out@ =~= orig + spec_enc_discover(p@));
    }
    true
}

pub fn dec_discover_payload(buf: &Vec<u8>, pos: usize)
    -> (r: Option<(ChunkServerDiscoverPayload, usize)>)
    ensures
        match r {
            Some(vp) => sdec_discover(buf@, pos as int) == Some((vp.0@, vp.1 as int)),
            None => sdec_discover(buf@, pos as int) is None,
        },
{
    let (sid, p1) = match dec_u128(buf, pos) {
        None => {
            return None;
        },
        Some(x) => x,
    };
    let (host, p2) = match dec_bytes(buf, p1) {
        None => {
            return None;
        },
        Some(x) => x,
    };
    let (rack, p3) = match dec_bytes(buf, p2) {
        None => {
            return None;
        },
        Some(x) => x,
    };
    let (iaddr, p4) = match dec_bytes(buf, p3) {
        None => {
            return None;
        },
        Some(x) => x,
    };
    let (eaddr, p5) = match dec_bytes(buf, p4) {
        None => {
            return None;
        },
        Some(x) => x,
    };
    let (chunks, p6) = match dec_id_list(buf, p5) {
        None => {
            return None;
        },
        Some(x) => x,
    };
    Some((
        ChunkServerDiscoverPayload {
            server_id: sid,
            hostname: host,
            rack_id: rack,
            internal_address: iaddr,
            external_address: eaddr,
            stored_chunks: chunks,
        },
        p6,
    ))
}

} // verus!
