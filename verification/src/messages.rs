//! The framed message enums, one per direction and plane.
//!
//! On the wire a message is a one-byte variant id in declaration order,
//! then a four-byte big-endian length, then the payload's canonical bytes.
//! A decoder rejects an unknown variant id, a frame the buffer cannot hold,
//! and a length prefix that disagrees with its payload.

use vstd::prelude::*;
use crate::codec::{
    dec_frame, enc_frame, lemma_enc_uint_len, lemma_sdec_enc_frame, lemma_subrange_concat,
    sdec_frame, spec_enc_frame, ProtocolError,
};
use crate::payloads::{
    dec_accept_payload, dec_discover_payload, dec_download_req_payload,
    dec_download_resp_payload, dec_file_placement_request_payload,
    dec_file_placement_response_payload, dec_heartbeat_payload,
    dec_placement_request_payload, dec_placement_response_payload, dec_status_payload,
    dec_upload_payload, enc_accept_payload, enc_discover_payload, enc_download_req_payload,
    enc_download_resp_payload, enc_file_placement_request_payload,
    enc_file_placement_response_payload, enc_heartbeat_payload,
    enc_placement_request_payload, enc_placement_response_payload, enc_status_payload,
    enc_upload_payload, lemma_sdec_enc_accept, lemma_sdec_enc_discover,
    lemma_sdec_enc_download_req, lemma_sdec_enc_download_resp,
    lemma_sdec_enc_file_placement_request, lemma_sdec_enc_file_placement_response,
    lemma_sdec_enc_heartbeat, lemma_sdec_enc_placement_request,
    lemma_sdec_enc_placement_response, lemma_sdec_enc_status, lemma_sdec_enc_upload,
    sdec_accept, sdec_discover, sdec_download_req, sdec_download_resp,
    sdec_file_placement_request, sdec_file_placement_response, sdec_heartbeat,
    sdec_placement_request, sdec_placement_response, sdec_status, sdec_upload,
    spec_enc_accept, spec_enc_discover, spec_enc_download_req, spec_enc_download_resp,
    spec_enc_file_placement_request, spec_enc_file_placement_response, spec_enc_heartbeat,
    spec_enc_placement_request, spec_enc_placement_response, spec_enc_status,
    spec_enc_upload, wf_discover, wf_file_placement_request, wf_file_placement_response,
    wf_placement_request, wf_placement_response, AcceptNewChunkServerPayload,
    ChunkPlacementRequestPayload, ChunkPlacementRequestView, ChunkPlacementResponsePayload,
    ChunkPlacementResponseView, ChunkServerDiscoverPayload, ChunkServerDiscoverView,
    DownloadChunkRequestPayload, DownloadChunkResponsePayload,
    GetClientFolderStructureRequestPayload, GetClientFolderStructureResponsePayload,
    GetFilePlacementRequestPayload, GetFilePlacementRequestView,
    GetFilePlacementResponsePayload, GetFilePlacementResponseView, HeartbeatPayload,
    RequestStatusPayload, UpdateClientFolderStructurePayload, UploadChunkPayload,
};

verus! {

/// What a client may ask the metadata server.
#[derive(Debug, Clone, PartialEq, Eq)]
pub enum MetadataServerExternalMessage {
    ChunkPlacementRequest(ChunkPlacementRequestPayload),
    GetFilePlacementRequest(GetFilePlacementRequestPayload),
    GetClientFolderStructureRequest(GetClientFolderStructureRequestPayload),
    UpdateClientFolderStructure(UpdateClientFolderStructurePayload),
}

/// View of a client-to-metadata-server message.
pub enum MetadataServerExternalMessageView {
    ChunkPlacementRequest(ChunkPlacementRequestView),
    GetFilePlacementRequest(GetFilePlacementRequestView),
    GetClientFolderStructureRequest(GetClientFolderStructureRequestPayload),
    UpdateClientFolderStructure(UpdateClientFolderStructurePayload),
}

impl View for MetadataServerExternalMessage {
    type V = MetadataServerExternalMessageView;

    open spec fn view(&self) -> MetadataServerExternalMessageView {
        match self {
            MetadataServerExternalMessage::ChunkPlacementRequest(p) =>
                MetadataServerExternalMessageView::ChunkPlacementRequest(p@),
            MetadataServerExternalMessage::GetFilePlacementRequest(p) =>
                MetadataServerExternalMessageView::GetFilePlacementRequest(p@),
            MetadataServerExternalMessage::GetClientFolderStructureRequest(p) =>
                MetadataServerExternalMessageView::GetClientFolderStructureRequest(*p),
            MetadataServerExternalMessage::UpdateClientFolderStructure(p) =>
                MetadataServerExternalMessageView::UpdateClientFolderStructure(*p),
        }
    }
}

/// Variant id of a client-to-metadata-server message, in declaration order.
pub open spec fn spec_msext_id(m: MetadataServerExternalMessageView) -> u8 {
    match m {
        MetadataServerExternalMessageView::ChunkPlacementRequest(_) => 0,
        MetadataServerExternalMessageView::GetFilePlacementRequest(_) => 1,
        MetadataServerExternalMessageView::GetClientFolderStructureRequest(_) => 2,
        MetadataServerExternalMessageView::UpdateClientFolderStructure(_) => 3,
    }
}

/// The payload bytes of the message, before framing.
pub open spec fn spec_msext_body(m: MetadataServerExternalMessageView) -> Seq<u8> {
    match m {
        MetadataServerExternalMessageView::ChunkPlacementRequest(p) =>
            spec_enc_placement_request(p),
        MetadataServerExternalMessageView::GetFilePlacementRequest(p) =>
            spec_enc_file_placement_request(p),
        MetadataServerExternalMessageView::GetClientFolderStructureRequest(_) => Seq::empty(),
        MetadataServerExternalMessageView::UpdateClientFolderStructure(_) => Seq::empty(),
    }
}

/// Field lengths small enough for their prefixes, frame included.
pub open spec fn wf_msext(m: MetadataServerExternalMessageView) -> bool {
    &&& match m {
        MetadataServerExternalMessageView::ChunkPlacementRequest(p) => wf_placement_request(p),
        MetadataServerExternalMessageView::GetFilePlacementRequest(p) =>
            wf_file_placement_request(p),
        MetadataServerExternalMessageView::GetClientFolderStructureRequest(_) => true,
        MetadataServerExternalMessageView::UpdateClientFolderStructure(_) => true,
    }
    &&& spec_msext_body(m).len() < 0x1_0000_0000
}

/// The whole frame: variant id, length prefix, payload bytes.
pub open spec fn spec_enc_msext(m: MetadataServerExternalMessageView) -> Seq<u8> {
    seq![spec_msext_id(m)] + spec_enc_frame(spec_msext_body(m))
}

/// Decoding a client-to-metadata-server message at `pos`.
pub open spec fn sdec_msext(s: Seq<u8>, pos: int)
    -> Option<(MetadataServerExternalMessageView, int)>
{
    if 0 <= pos && pos + 1 <= s.len() {
        match sdec_frame(s, pos + 1) {
            None => None,
            Some((body, p)) => {
                if s[pos] == 0 {
                    match sdec_placement_request(body, 0) {
                        Some((v, e)) => if e == body.len() {
                            Some((MetadataServerExternalMessageView::ChunkPlacementRequest(v), p))
                        } else {
                            None
                        },
                        None => None,
                    }
                } else if s[pos] == 1 {
                    match sdec_file_placement_request(body, 0) {
                        Some((v, e)) => if e == body.len() {
                            Some((
                                MetadataServerExternalMessageView::GetFilePlacementRequest(v),
                                p,
                            ))
                        } else {
                            None
                        },
                        None => None,
                    }
                } else if s[pos] == 2 {
                    if body.len() == 0 {
                        Some((
                            MetadataServerExternalMessageView::GetClientFolderStructureRequest(
                                GetClientFolderStructureRequestPayload {},
                            ),
                            p,
                        ))
                    } else {
                        None
                    }
                } else if s[pos] == 3 {
                    if body.len() == 0 {
                        Some((
                            MetadataServerExternalMessageView::UpdateClientFolderStructure(
                                UpdateClientFolderStructurePayload {},
                            ),
                            p,
                        ))
                    } else {
                        None
                    }
                } else {
                    None
                }
            },
        }
    } else {
        None
    }
}

/// Decoding the encoding of a well-formed message yields the message back,
/// consuming exactly its frame.
pub proof fn lemma_msext_round_trip(m: MetadataServerExternalMessageView)
    requires
        wf_msext(m),
    ensures
        sdec_msext(spec_enc_msext(m), 0) == Some((m, spec_enc_msext(m).len() as int)),
{
    let body = spec_msext_body(m);
    let s = spec_enc_msext(m);
    assert(s.subrange(0, s.len() as int) =~= seq![spec_msext_id(m)] + spec_enc_frame(body));
    lemma_subrange_concat(s, 0, seq![spec_msext_id(m)], spec_enc_frame(body));
    lemma_sdec_enc_frame(s, 1, body);
    assert(s[0] == s.subrange(0, 1)[0]);
    match m {
        MetadataServerExternalMessageView::ChunkPlacementRequest(p) => {
            assert(body.subrange(0, body.len() as int) =~= body);
            lemma_sdec_enc_placement_request(body, 0, p);
        },
        MetadataServerExternalMessageView::GetFilePlacementRequest(p) => {
            assert(body.subrange(0, body.len() as int) =~= body);
            lemma_sdec_enc_file_placement_request(body, 0, p);
        },
        MetadataServerExternalMessageView::GetClientFolderStructureRequest(_) => {},
        MetadataServerExternalMessageView::UpdateClientFolderStructure(_) => {},
    }
}

impl MetadataServerExternalMessage {
    /// Serializes the message into one frame, or refuses an over-long one.
    pub fn encode(&self) -> (r: Result<Vec<u8>, ProtocolError>)
        ensures
            match r {
                Ok(bytes) => wf_msext(self@) && bytes@ == spec_enc_msext(self@),
                Err(e) => e == ProtocolError::OverLength && !wf_msext(self@),
            },
    {
        let mut body: Vec<u8> = Vec::new();
        let id: u8;
        let ok: bool;
        match self {
            MetadataServerExternalMessage::ChunkPlacementRequest(p) => {
                id = 0;
                ok = enc_placement_request_payload(&mut body, p);
            },
            MetadataServerExternalMessage::GetFilePlacementRequest(p) => {
                id = 1;
                ok = enc_file_placement_request_payload(&mut body, p);
            },
            MetadataServerExternalMessage::GetClientFolderStructureRequest(_) => {
                id = 2;
                ok = true;
            },
            MetadataServerExternalMessage::UpdateClientFolderStructure(_) => {
                id = 3;
                ok = true;
            },
        }
        if !ok {
            return Err(ProtocolError::OverLength);
        }
        if body.len() as u64 >= 0x1_0000_0000u64 {
            return Err(ProtocolError::OverLength);
        }
        let mut out: Vec<u8> = Vec::new();
        out.push(id);
        enc_frame(&mut out, &body);
        proof {
            assert(out@ =~= spec_enc_msext(self@));
        }
        Ok(out)
    }

    /// Reads one frame at `pos`; the protocol error says what was wrong.
    pub fn decode(buf: &Vec<u8>, pos: usize)
        -> (r: Result<(MetadataServerExternalMessage, usize), ProtocolError>)
        ensures
            match r {
                Ok(mp) => sdec_msext(buf@, pos as int) == Some((mp.0@, mp.1 as int)),
                Err(_) => sdec_msext(buf@, pos as int) is None,
            },
            pos >= buf@.len() ==> (r matches Err(e) && e == ProtocolError::Truncated),
            pos < buf@.len() && buf@[pos as int] > 3
                ==> (r matches Err(e) && e == ProtocolError::UnknownVariant),
    {
        if pos >= buf.len() {
            return Err(ProtocolError::Truncated);
        }
        let id = buf[pos];
        if id > 3 {
            return Err(ProtocolError::UnknownVariant);
        }
        let (body, p) = match dec_frame(buf, pos + 1) {
            None => {
                return Err(ProtocolError::Truncated);
            },
            Some(x) => x,
        };
        if id == 0 {
            match dec_placement_request_payload(&body, 0) {
                Some((v, e)) => if e == body.len() {
                    Ok((MetadataServerExternalMessage::ChunkPlacementRequest(v), p))
                } else {
                    Err(ProtocolError::Malformed)
                },
                None => Err(ProtocolError::Malformed),
            }
        } else if id == 1 {
            match dec_file_placement_request_payload(&body, 0) {
                Some((v, e)) => if e == body.len() {
                    Ok((MetadataServerExternalMessage::GetFilePlacementRequest(v), p))
                } else {
                    Err(ProtocolError::Malformed)
                },
                None => Err(ProtocolError::Malformed),
            }
        } else if id == 2 {
            if body.len() == 0 {
                Ok((
                    MetadataServerExternalMessage::GetClientFolderStructureRequest(
                        GetClientFolderStructureRequestPayload {},
                    ),
                    p,
                ))
            } else {
                Err(ProtocolError::Malformed)
            }
        } else {
            if body.len() == 0 {
                Ok((
                    MetadataServerExternalMessage::UpdateClientFolderStructure(
                        UpdateClientFolderStructurePayload {},
                    ),
                    p,
                ))
            } else {
                Err(ProtocolError::Malformed)
            }
        }
    }
}

/// What a chunkserver tells the metadata server.
#[derive(Debug, Clone, PartialEq, Eq)]
pub enum MetadataServerInternalMessage {
    ChunkServerDiscover(ChunkServerDiscoverPayload),
    Heartbeat(HeartbeatPayload),
}

/// View of a chunkserver-to-metadata-server message.
pub enum MetadataServerInternalMessageView {
    ChunkServerDiscover(ChunkServerDiscoverView),
    Heartbeat(HeartbeatPayload),
}

impl View for MetadataServerInternalMessage {
    type V = MetadataServerInternalMessageView;

    open spec fn view(&self) -> MetadataServerInternalMessageView {
        match self {
            MetadataServerInternalMessage::ChunkServerDiscover(p) =>
                MetadataServerInternalMessageView::ChunkServerDiscover(p@),
            MetadataServerInternalMessage::Heartbeat(p) =>
                MetadataServerInternalMessageView::Heartbeat(*p),
        }
    }
}

/// Variant id of a chunkserver-to-metadata-server message.
pub open spec fn spec_msint_id(m: MetadataServerInternalMessageView) -> u8 {
    match m {
        MetadataServerInternalMessageView::ChunkServerDiscover(_) => 0,
        MetadataServerInternalMessageView::Heartbeat(_) => 1,
    }
}

/// The payload bytes of the message, before framing.
pub open spec fn spec_msint_body(m: MetadataServerInternalMessageView) -> Seq<u8> {
    match m {
        MetadataServerInternalMessageView::ChunkServerDiscover(p) => spec_enc_discover(p),
        MetadataServerInternalMessageView::Heartbeat(p) => spec_enc_heartbeat(p),
    }
}

/// Field lengths small enough for their prefixes, frame included.
pub open spec fn wf_msint(m: MetadataServerInternalMessageView) -> bool {
    &&& match m {
        MetadataServerInternalMessageView::ChunkServerDiscover(p) => wf_discover(p),
        MetadataServerInternalMessageView::Heartbeat(_) => true,
    }
    &&& spec_msint_body(m).len() < 0x1_0000_0000
}

/// The whole frame: variant id, length prefix, payload bytes.
pub open spec fn spec_enc_msint(m: MetadataServerInternalMessageView) -> Seq<u8> {
    seq![spec_msint_id(m)] + spec_enc_frame(spec_msint_body(m))
}

/// Decoding a chunkserver-to-metadata-server message at `pos`.
pub open spec fn sdec_msint(s: Seq<u8>, pos: int)
    -> Option<(MetadataServerInternalMessageView, int)>
{
    if 0 <= pos && pos + 1 <= s.len() {
        match sdec_frame(s, pos + 1) {
            None => None,
            Some((body, p)) => {
                if s[pos] == 0 {
                    match sdec_discover(body, 0) {
                        Some((v, e)) => if e == body.len() {
                            Some((MetadataServerInternalMessageView::ChunkServerDiscover(v), p))
                        } else {
                            None
                        },
                        None => None,
                    }
                } else if s[pos] == 1 {
                    match sdec_heartbeat(body, 0) {
                        Some((v, e)) => if e == body.len() {
                            Some((MetadataServerInternalMessageView::Heartbeat(v), p))
                        } else {
                            None
                        },
                        None => None,
                    }
                } else {
                    None
                }
            },
        }
    } else {
        None
    }
}

/// Decoding the encoding of a well-formed message yields the message back.
pub proof fn lemma_msint_round_trip(m: MetadataServerInternalMessageView)
    requires
        wf_msint(m),
    ensures
        sdec_msint(spec_enc_msint(m), 0) == Some((m, spec_enc_msint(m).len() as int)),
{
    let body = spec_msint_body(m);
    let s = spec_enc_msint(m);
    assert(s.subrange(0, s.len() as int) =~= seq![spec_msint_id(m)] + spec_enc_frame(body));
    lemma_subrange_concat(s, 0, seq![spec_msint_id(m)], spec_enc_frame(body));
    lemma_sdec_enc_frame(s, 1, body);
    assert(s[0] == s.subrange(0, 1)[0]);
    match m {
        MetadataServerInternalMessageView::ChunkServerDiscover(p) => {
            assert(body.subrange(0, body.len() as int) =~= body);
            lemma_sdec_enc_discover(body, 0, p);
        },
        MetadataServerInternalMessageView::Heartbeat(p) => {
            lemma_enc_uint_len(p.server_id as nat, 16);
            lemma_enc_uint_len(p.client_requests_count as nat, 8);
            lemma_enc_uint_len(p.available_space as nat, 8);
            assert(body.len() == 32);
            assert(body.subrange(0, 32) =~= body);
            lemma_sdec_enc_heartbeat(body, 0, p);
        },
    }
}

impl MetadataServerInternalMessage {
    /// Serializes the message into one frame, or refuses an over-long one.
    pub fn encode(&self) -> (r: Result<Vec<u8>, ProtocolError>)
        ensures
            match r {
                Ok(bytes) => wf_msint(self@) && bytes@ == spec_enc_msint(self@),
                Err(e) => e == ProtocolError::OverLength && !wf_msint(self@),
            },
    {
        let mut body: Vec<u8> = Vec::new();
        let id: u8;
        let ok: bool;
        match self {
            MetadataServerInternalMessage::ChunkServerDiscover(p) => {
                id = 0;
                ok = enc_discover_payload(&mut body, p);
            },
            MetadataServerInternalMessage::Heartbeat(p) => {
                id = 1;
                enc_heartbeat_payload(&mut body, p);
                ok = true;
            },
        }
        if !ok {
            return Err(ProtocolError::OverLength);
        }
        if body.len() as u64 >= 0x1_0000_0000u64 {
            return Err(ProtocolError::OverLength);
        }
        let mut out: Vec<u8> = Vec::new();
        out.push(id);
        enc_frame(&mut out, &body);
        proof {
            assert(out@ =~= spec_enc_msint(self@));
        }
        Ok(out)
    }

    /// Reads one frame at `pos`; the protocol error says what was wrong.
    pub fn decode(buf: &Vec<u8>, pos: usize)
        -> (r: Result<(MetadataServerInternalMessage, usize), ProtocolError>)
        ensures
            match r {
                Ok(mp) => sdec_msint(buf@, pos as int) == Some((mp.0@, mp.1 as int)),
                Err(_) => sdec_msint(buf@, pos as int) is None,
            },
            pos >= buf@.len() ==> (r matches Err(e) && e == ProtocolError::Truncated),
            pos < buf@.len() && buf@[pos as int] > 1
                ==> (r matches Err(e) && e == ProtocolError::UnknownVariant),
    {
        if pos >= buf.len() {
            return Err(ProtocolError::Truncated);
        }
        let id = buf[pos];
        if id > 1 {
            return Err(ProtocolError::UnknownVariant);
        }
        let (body, p) = match dec_frame(buf, pos + 1) {
            None => {
                return Err(ProtocolError::Truncated);
            },
            Some(x) => x,
        };
        if id == 0 {
            match dec_discover_payload(&body, 0) {
                Some((v, e)) => if e == body.len() {
                    Ok((MetadataServerInternalMessage::ChunkServerDiscover(v), p))
                } else {
                    Err(ProtocolError::Malformed)
                },
                None => Err(ProtocolError::Malformed),
            }
        } else {
            match dec_heartbeat_payload(&body, 0) {
                Some((v, e)) => if e == body.len() {
                    Ok((MetadataServerInternalMessage::Heartbeat(v), p))
                } else {
                    Err(ProtocolError::Malformed)
                },
                None => Err(ProtocolError::Malformed),
            }
        }
    }
}

/// What a client may ask a chunkserver.
#[derive(Debug, Clone, Copy, PartialEq, Eq, Structural)]
pub enum ChunkserverExternalMessage {
    UploadChunk(UploadChunkPayload),
    DownloadChunkRequest(DownloadChunkRequestPayload),
}

impl View for ChunkserverExternalMessage {
    type V = ChunkserverExternalMessage;

    open spec fn view(&self) -> ChunkserverExternalMessage {
        *self
    }
}

/// Variant id of a client-to-chunkserver message.
pub open spec fn spec_csext_id(m: ChunkserverExternalMessage) -> u8 {
    match m {
        ChunkserverExternalMessage::UploadChunk(_) => 0,
        ChunkserverExternalMessage::DownloadChunkRequest(_) => 1,
    }
}

/// The payload bytes of the message, before framing.
pub open spec fn spec_csext_body(m: ChunkserverExternalMessage) -> Seq<u8> {
    match m {
        ChunkserverExternalMessage::UploadChunk(p) => spec_enc_upload(p),
        ChunkserverExternalMessage::DownloadChunkRequest(p) => spec_enc_download_req(p),
    }
}

/// The whole frame: variant id, length prefix, payload bytes.
pub open spec fn spec_enc_csext(m: ChunkserverExternalMessage) -> Seq<u8> {
    seq![spec_csext_id(m)] + spec_enc_frame(spec_csext_body(m))
}

/// Decoding a client-to-chunkserver message at `pos`.
pub open spec fn sdec_csext(s: Seq<u8>, pos: int) -> Option<(ChunkserverExternalMessage, int)> {
    if 0 <= pos && pos + 1 <= s.len() {
        match sdec_frame(s, pos + 1) {
            None => None,
            Some((body, p)) => {
                if s[pos] == 0 {
                    match sdec_upload(body, 0) {
                        Some((v, e)) => if e == body.len() {
                            Some((ChunkserverExternalMessage::UploadChunk(v), p))
                        } else {
                            None
                        },
                        None => None,
                    }
                } else if s[pos] == 1 {
                    match sdec_download_req(body, 0) {
                        Some((v, e)) => if e == body.len() {
                            Some((ChunkserverExternalMessage::DownloadChunkRequest(v), p))
                        } else {
                            None
                        },
                        None => None,
                    }
                } else {
                    None
                }
            },
        }
    } else {
        None
    }
}

/// Decoding the encoding of a message yields the message back.
pub proof fn lemma_csext_round_trip(m: ChunkserverExternalMessage)
    ensures
        sdec_csext(spec_enc_csext(m), 0) == Some((m, spec_enc_csext(m).len() as int)),
{
    let body = spec_csext_body(m);
    let s = spec_enc_csext(m);
    match m {
        ChunkserverExternalMessage::UploadChunk(p) => {
            lemma_enc_uint_len(p.chunk_id as nat, 16);
            lemma_enc_uint_len(p.chunk_size as nat, 8);
        },
        ChunkserverExternalMessage::DownloadChunkRequest(p) => {
            lemma_enc_uint_len(p.chunk_id as nat, 16);
        },
    }
    assert(s.subrange(0, s.len() as int) =~= seq![spec_csext_id(m)] + spec_enc_frame(body));
    lemma_subrange_concat(s, 0, seq![spec_csext_id(m)], spec_enc_frame(body));
    lemma_sdec_enc_frame(s, 1, body);
    assert(s[0] == s.subrange(0, 1)[0]);
    match m {
        ChunkserverExternalMessage::UploadChunk(p) => {
            lemma_enc_uint_len(p.chunk_id as nat, 16);
            lemma_enc_uint_len(p.chunk_size as nat, 8);
            assert(body.len() == 24);
            assert(body.subrange(0, 24) =~= body);
            lemma_sdec_enc_upload(body, 0, p);
        },
        ChunkserverExternalMessage::DownloadChunkRequest(p) => {
            lemma_enc_uint_len(p.chunk_id as nat, 16);
            assert(body.len() == 16);
            assert(body.subrange(0, 16) =~= body);
            lemma_sdec_enc_download_req(body, 0, p);
        },
    }
}

impl ChunkserverExternalMessage {
    /// Serializes the message into one frame.
    pub fn encode(&self) -> (r: Vec<u8>)
        ensures
            r@ == spec_enc_csext(*self),
    {
        let mut body: Vec<u8> = Vec::new();
        let id: u8;
        match self {
            ChunkserverExternalMessage::UploadChunk(p) => {
                id = 0;
                enc_upload_payload(&mut body, p);
            },
            ChunkserverExternalMessage::DownloadChunkRequest(p) => {
                id = 1;
                enc_download_req_payload(&mut body, p);
            },
        }
        proof {
            match *self {
                ChunkserverExternalMessage::UploadChunk(p) => {
                    lemma_enc_uint_len(p.chunk_id as nat, 16);
                    lemma_enc_uint_len(p.chunk_size as nat, 8);
                },
                ChunkserverExternalMessage::DownloadChunkRequest(p) => {
                    lemma_enc_uint_len(p.chunk_id as nat, 16);
                },
            }
        }
        let mut out: Vec<u8> = Vec::new();
        out.push(id);
        enc_frame(&mut out, &body);
        proof {
            assert(out@ =~= spec_enc_csext(*self));
        }
        out
    }

    /// Reads one frame at `pos`; the protocol error says what was wrong.
    pub fn decode(buf: &Vec<u8>, pos: usize)
        -> (r: Result<(ChunkserverExternalMessage, usize), ProtocolError>)
        ensures
            match r {
                Ok(mp) => sdec_csext(buf@, pos as int) == Some((mp.0, mp.1 as int)),
                Err(_) => sdec_csext(buf@, pos as int) is None,
            },
            pos >= buf@.len() ==> (r matches Err(e) && e == ProtocolError::Truncated),
            pos < buf@.len() && buf@[pos as int] > 1
                ==> (r matches Err(e) && e == ProtocolError::UnknownVariant),
    {
        if pos >= buf.len() {
            return Err(ProtocolError::Truncated);
        }
        let id = buf[pos];
        if id > 1 {
            return Err(ProtocolError::UnknownVariant);
        }
        let (body, p) = match dec_frame(buf, pos + 1) {
            None => {
                return Err(ProtocolError::Truncated);
            },
            Some(x) => x,
        };
        if id == 0 {
            match dec_upload_payload(&body, 0) {
                Some((v, e)) => if e == body.len() {
                    Ok((ChunkserverExternalMessage::UploadChunk(v), p))
                } else {
                    Err(ProtocolError::Malformed)
                },
                None => Err(ProtocolError::Malformed),
            }
        } else {
            match dec_download_req_payload(&body, 0) {
                Some((v, e)) => if e == body.len() {
                    Ok((ChunkserverExternalMessage::DownloadChunkRequest(v), p))
                } else {
                    Err(ProtocolError::Malformed)
                },
                None => Err(ProtocolError::Malformed),
            }
        }
    }
}

/// What the metadata server may tell a chunkserver.
#[derive(Debug, Clone, Copy, PartialEq, Eq, Structural)]
pub enum ChunkserverInternalMessage {
    AcceptNewChunkserver(AcceptNewChunkServerPayload),
}

impl View for ChunkserverInternalMessage {
    type V = ChunkserverInternalMessage;

    open spec fn view(&self) -> ChunkserverInternalMessage {
        *self
    }
}

/// The payload bytes of the message, before framing.
pub open spec fn spec_csint_body(m: ChunkserverInternalMessage) -> Seq<u8> {
    match m {
        ChunkserverInternalMessage::AcceptNewChunkserver(p) => spec_enc_accept(p),
    }
}

/// The whole frame: variant id, length prefix, payload bytes.
pub open spec fn spec_enc_csint(m: ChunkserverInternalMessage) -> Seq<u8> {
    seq![0u8] + spec_enc_frame(spec_csint_body(m))
}

/// Decoding a metadata-server-to-chunkserver message at `pos`.
pub open spec fn sdec_csint(s: Seq<u8>, pos: int) -> Option<(ChunkserverInternalMessage, int)> {
    if 0 <= pos && pos + 1 <= s.len() {
        match sdec_frame(s, pos + 1) {
            None => None,
            Some((body, p)) => {
                if s[pos] == 0 {
                    match sdec_accept(body, 0) {
                        Some((v, e)) => if e == body.len() {
                            Some((ChunkserverInternalMessage::AcceptNewChunkserver(v), p))
                        } else {
                            None
                        },
                        None => None,
                    }
                } else {
                    None
                }
            },
        }
    } else {
        None
    }
}

/// Decoding the encoding of a message yields the message back.
pub proof fn lemma_csint_round_trip(m: ChunkserverInternalMessage)
    ensures
        sdec_csint(spec_enc_csint(m), 0) == Some((m, spec_enc_csint(m).len() as int)),
{
    let body = spec_csint_body(m);
    let s = spec_enc_csint(m);
    match m {
        ChunkserverInternalMessage::AcceptNewChunkserver(p) => {
            lemma_enc_uint_len(p.chunkserver_new_id as nat, 16);
        },
    }
    assert(s.subrange(0, s.len() as int) =~= seq![0u8] + spec_enc_frame(body));
    lemma_subrange_concat(s, 0, seq![0u8], spec_enc_frame(body));
    lemma_sdec_enc_frame(s, 1, body);
    assert(s[0] == s.subrange(0, 1)[0]);
    match m {
        ChunkserverInternalMessage::AcceptNewChunkserver(p) => {
            lemma_enc_uint_len(p.chunkserver_new_id as nat, 16);
            assert(body.len() == 16);
            assert(body.subrange(0, 16) =~= body);
            lemma_sdec_enc_accept(body, 0, p);
        },
    }
}

impl ChunkserverInternalMessage {
    /// Serializes the message into one frame.
    pub fn encode(&self) -> (r: Vec<u8>)
        ensures
            r@ == spec_enc_csint(*self),
    {
        let mut body: Vec<u8> = Vec::new();
        match self {
            ChunkserverInternalMessage::AcceptNewChunkserver(p) => {
                enc_accept_payload(&mut body, p);
            },
        }
        proof {
            match *self {
                ChunkserverInternalMessage::AcceptNewChunkserver(p) => {
                    lemma_enc_uint_len(p.chunkserver_new_id as nat, 16);
                },
            }
        }
        let mut out: Vec<u8> = Vec::new();
        out.push(0u8);
        enc_frame(&mut out, &body);
        proof {
            assert(out@ =~= spec_enc_csint(*self));
        }
        out
    }

    /// Reads one frame at `pos`; the protocol error says what was wrong.
    pub fn decode(buf: &Vec<u8>, pos: usize)
        -> (r: Result<(ChunkserverInternalMessage, usize), ProtocolError>)
        ensures
            match r {
                Ok(mp) => sdec_csint(buf@, pos as int) == Some((mp.0, mp.1 as int)),
                Err(_) => sdec_csint(buf@, pos as int) is None,
            },
            pos >= buf@.len() ==> (r matches Err(e) && e == ProtocolError::Truncated),
            pos < buf@.len() && buf@[pos as int] > 0
                ==> (r matches Err(e) && e == ProtocolError::UnknownVariant),
    {
        if pos >= buf.len() {
            return Err(ProtocolError::Truncated);
        }
        let id = buf[pos];
        if id > 0 {
            return Err(ProtocolError::UnknownVariant);
        }
        let (body, p) = match dec_frame(buf, pos + 1) {
            None => {
                return Err(ProtocolError::Truncated);
            },
            Some(x) => x,
        };
        match dec_accept_payload(&body, 0) {
            Some((v, e)) => if e == body.len() {
                Ok((ChunkserverInternalMessage::AcceptNewChunkserver(v), p))
            } else {
                Err(ProtocolError::Malformed)
            },
            None => Err(ProtocolError::Malformed),
        }
    }
}

/// What a server sends back to a client on the same stream.
#[derive(Debug, Clone, PartialEq, Eq)]
pub enum ClientMessage {
    ChunkPlacementResponse(ChunkPlacementResponsePayload),
    GetFilePlacementResponse(GetFilePlacementResponsePayload),
    DownloadChunkResponse(DownloadChunkResponsePayload),
    RequestStatus(RequestStatusPayload),
    GetClientFolderStructureResponse(GetClientFolderStructureResponsePayload),
}

/// View of a server-to-client message.
pub enum ClientMessageView {
    ChunkPlacementResponse(ChunkPlacementResponseView),
    GetFilePlacementResponse(GetFilePlacementResponseView),
    DownloadChunkResponse(DownloadChunkResponsePayload),
    RequestStatus(RequestStatusPayload),
    GetClientFolderStructureResponse(GetClientFolderStructureResponsePayload),
}

impl View for ClientMessage {
    type V = ClientMessageView;

    open spec fn view(&self) -> ClientMessageView {
        match self {
            ClientMessage::ChunkPlacementResponse(p) =>
                ClientMessageView::ChunkPlacementResponse(p@),
            ClientMessage::GetFilePlacementResponse(p) =>
                ClientMessageView::GetFilePlacementResponse(p@),
            ClientMessage::DownloadChunkResponse(p) =>
                ClientMessageView::DownloadChunkResponse(*p),
            ClientMessage::RequestStatus(p) => ClientMessageView::RequestStatus(*p),
            ClientMessage::GetClientFolderStructureResponse(p) =>
                ClientMessageView::GetClientFolderStructureResponse(*p),
        }
    }
}

/// Variant id of a server-to-client message.
pub open spec fn spec_client_id(m: ClientMessageView) -> u8 {
    match m {
        ClientMessageView::ChunkPlacementResponse(_) => 0,
        ClientMessageView::GetFilePlacementResponse(_) => 1,
        ClientMessageView::DownloadChunkResponse(_) => 2,
        ClientMessageView::RequestStatus(_) => 3,
        ClientMessageView::GetClientFolderStructureResponse(_) => 4,
    }
}

/// The payload bytes of the message, before framing.
pub open spec fn spec_client_body(m: ClientMessageView) -> Seq<u8> {
    match m {
        ClientMessageView::ChunkPlacementResponse(p) => spec_enc_placement_response(p),
        ClientMessageView::GetFilePlacementResponse(p) => spec_enc_file_placement_response(p),
        ClientMessageView::DownloadChunkResponse(p) => spec_enc_download_resp(p),
        ClientMessageView::RequestStatus(p) => spec_enc_status(p),
        ClientMessageView::GetClientFolderStructureResponse(_) => Seq::empty(),
    }
}

/// Field lengths small enough for their prefixes, frame included.
pub open spec fn wf_client(m: ClientMessageView) -> bool {
    &&& match m {
        ClientMessageView::ChunkPlacementResponse(p) => wf_placement_response(p),
        ClientMessageView::GetFilePlacementResponse(p) => wf_file_placement_response(p),
        ClientMessageView::DownloadChunkResponse(_) => true,
        ClientMessageView::RequestStatus(_) => true,
        ClientMessageView::GetClientFolderStructureResponse(_) => true,
    }
    &&& spec_client_body(m).len() < 0x1_0000_0000
}

/// The whole frame: variant id, length prefix, payload bytes.
pub open spec fn spec_enc_client(m: ClientMessageView) -> Seq<u8> {
    seq![spec_client_id(m)] + spec_enc_frame(spec_client_body(m))
}

/// Decoding a server-to-client message at `pos`.
pub open spec fn sdec_client(s: Seq<u8>, pos: int) -> Option<(ClientMessageView, int)> {
    if 0 <= pos && pos + 1 <= s.len() {
        match sdec_frame(s, pos + 1) {
            None => None,
            Some((body, p)) => {
                if s[pos] == 0 {
                    match sdec_placement_response(body, 0) {
                        Some((v, e)) => if e == body.len() {
                            Some((ClientMessageView::ChunkPlacementResponse(v), p))
                        } else {
                            None
                        },
                        None => None,
                    }
                } else if s[pos] == 1 {
                    match sdec_file_placement_response(body, 0) {
                        Some((v, e)) => if e == body.len() {
                            Some((ClientMessageView::GetFilePlacementResponse(v), p))
                        } else {
                            None
                        },
                        None => None,
                    }
                } else if s[pos] == 2 {
                    match sdec_download_resp(body, 0) {
                        Some((v, e)) => if e == body.len() {
                            Some((ClientMessageView::DownloadChunkResponse(v), p))
                        } else {
                            None
                        },
                        None => None,
                    }
                } else if s[pos] == 3 {
                    match sdec_status(body, 0) {
                        Some((v, e)) => if e == body.len() {
                            Some((ClientMessageView::RequestStatus(v), p))
                        } else {
                            None
                        },
                        None => None,
                    }
                } else if s[pos] == 4 {
                    if body.len() == 0 {
                        Some((
                            ClientMessageView::GetClientFolderStructureResponse(
                                GetClientFolderStructureResponsePayload {},
                            ),
                            p,
                        ))
                    } else {
                        None
                    }
                } else {
                    None
                }
            },
        }
    } else {
        None
    }
}

/// Decoding the encoding of a well-formed message yields the message back.
pub proof fn lemma_client_round_trip(m: ClientMessageView)
    requires
        wf_client(m),
    ensures
        sdec_client(spec_enc_client(m), 0) == Some((m, spec_enc_client(m).len() as int)),
{
    let body = spec_client_body(m);
    let s = spec_enc_client(m);
    assert(s.subrange(0, s.len() as int) =~= seq![spec_client_id(m)] + spec_enc_frame(body));
    lemma_subrange_concat(s, 0, seq![spec_client_id(m)], spec_enc_frame(body));
    lemma_sdec_enc_frame(s, 1, body);
    assert(s[0] == s.subrange(0, 1)[0]);
    match m {
        ClientMessageView::ChunkPlacementResponse(p) => {
            assert(body.subrange(0, body.len() as int) =~= body);
            lemma_sdec_enc_placement_response(body, 0, p);
        },
        ClientMessageView::GetFilePlacementResponse(p) => {
            assert(body.subrange(0, body.len() as int) =~= body);
            lemma_sdec_enc_file_placement_response(body, 0, p);
        },
        ClientMessageView::DownloadChunkResponse(p) => {
            lemma_enc_uint_len(p.chunk_id as nat, 16);
            lemma_enc_uint_len(p.chunk_size as nat, 8);
            assert(body.len() == 24);
            assert(body.subrange(0, 24) =~= body);
            lemma_sdec_enc_download_resp(body, 0, p);
        },
        ClientMessageView::RequestStatus(p) => {
            assert(body.len() == 1);
            assert(body.subrange(0, 1) =~= body);
            lemma_sdec_enc_status(body, 0, p);
        },
        ClientMessageView::GetClientFolderStructureResponse(_) => {},
    }
}

impl ClientMessage {
    /// Serializes the message into one frame, or refuses an over-long one.
    pub fn encode(&self) -> (r: Result<Vec<u8>, ProtocolError>)
        ensures
            match r {
                Ok(bytes) => wf_client(self@) && bytes@ == spec_enc_client(self@),
                Err(e) => e == ProtocolError::OverLength && !wf_client(self@),
            },
    {
        let mut body: Vec<u8> = Vec::new();
        let id: u8;
        let ok: bool;
        match self {
            ClientMessage::ChunkPlacementResponse(p) => {
                id = 0;
                ok = enc_placement_response_payload(&mut body, p);
            },
            ClientMessage::GetFilePlacementResponse(p) => {
                id = 1;
                ok = enc_file_placement_response_payload(&mut body, p);
            },
            ClientMessage::DownloadChunkResponse(p) => {
                id = 2;
                enc_download_resp_payload(&mut body, p);
                ok = true;
            },
            ClientMessage::RequestStatus(p) => {
                id = 3;
                enc_status_payload(&mut body, p);
                ok = true;
            },
            ClientMessage::GetClientFolderStructureResponse(_) => {
                id = 4;
                ok = true;
            },
        }
        if !ok {
            return Err(ProtocolError::OverLength);
        }
        if body.len() as u64 >= 0x1_0000_0000u64 {
            return Err(ProtocolError::OverLength);
        }
        let mut out: Vec<u8> = Vec::new();
        out.push(id);
        enc_frame(&mut out, &body);
        proof {
            assert(out@ =~= spec_enc_client(self@));
        }
        Ok(out)
    }

    /// Reads one frame at `pos`; the protocol error says what was wrong.
    pub fn decode(buf: &Vec<u8>, pos: usize)
        -> (r: Result<(ClientMessage, usize), ProtocolError>)
        ensures
            match r {
                Ok(mp) => sdec_client(buf@, pos as int) == Some((mp.0@, mp.1 as int)),
                Err(_) => sdec_client(buf@, pos as int) is None,
            },
            pos >= buf@.len() ==> (r matches Err(e) && e == ProtocolError::Truncated),
            pos < buf@.len() && buf@[pos as int] > 4
                ==> (r matches Err(e) && e == ProtocolError::UnknownVariant),
    {
        if pos >= buf.len() {
            return Err(ProtocolError::Truncated);
        }
        let id = buf[pos];
        if id > 4 {
            return Err(ProtocolError::UnknownVariant);
        }
        let (body, p) = match dec_frame(buf, pos + 1) {
            None => {
                return Err(ProtocolError::Truncated);
            },
            Some(x) => x,
        };
        if id == 0 {
            match dec_placement_response_payload(&body, 0) {
                Some((v, e)) => if e == body.len() {
                    Ok((ClientMessage::ChunkPlacementResponse(v), p))
                } else {
                    Err(ProtocolError::Malformed)
                },
                None => Err(ProtocolError::Malformed),
            }
        } else if id == 1 {
            match dec_file_placement_response_payload(&body, 0) {
                Some((v, e)) => if e == body.len() {
                    Ok((ClientMessage::GetFilePlacementResponse(v), p))
                } else {
                    Err(ProtocolError::Malformed)
                },
                None => Err(ProtocolError::Malformed),
            }
        } else if id == 2 {
            match dec_download_resp_payload(&body, 0) {
                Some((v, e)) => if e == body.len() {
                    Ok((ClientMessage::DownloadChunkResponse(v), p))
                } else {
                    Err(ProtocolError::Malformed)
                },
                None => Err(ProtocolError::Malformed),
            }
        } else if id == 3 {
            match dec_status_payload(&body, 0) {
                Some((v, e)) => if e == body.len() {
                    Ok((ClientMessage::RequestStatus(v), p))
                } else {
                    Err(ProtocolError::Malformed)
                },
                None => Err(ProtocolError::Malformed),
            }
        } else {
            if body.len() == 0 {
                Ok((
                    ClientMessage::GetClientFolderStructureResponse(
                        GetClientFolderStructureResponsePayload {},
                    ),
                    p,
                ))
            } else {
                Err(ProtocolError::Malformed)
            }
        }
    }
}

} // verus!
