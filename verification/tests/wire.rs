use dfss::codec::{dec_bytes, dec_u64, dec_uint, enc_bytes, enc_u64, enc_uint, ProtocolError};
use dfss::messages::{
    ChunkserverExternalMessage, ChunkserverInternalMessage, ClientMessage,
    MetadataServerExternalMessage, MetadataServerInternalMessage,
};
use dfss::payloads::{
    AcceptNewChunkServerPayload, ChunkLocations, ChunkPlacementRequestPayload,
    ChunkPlacementResponsePayload, ChunkServerDiscoverPayload, ChunkserverLocation,
    DownloadChunkRequestPayload, DownloadChunkResponsePayload,
    GetClientFolderStructureRequestPayload, GetClientFolderStructureResponsePayload,
    GetFilePlacementRequestPayload, GetFilePlacementResponsePayload, HeartbeatPayload,
    RequestStatusPayload, UpdateClientFolderStructurePayload, UploadChunkPayload,
};

#[test]
fn uint_layout_is_little_endian() {
    let mut out: Vec<u8> = Vec::new();
    enc_uint(&mut out, 0x0102_0304, 4);
    assert_eq!(out, vec![0x04, 0x03, 0x02, 0x01]);
    let (v, p) = dec_uint(&out, 0, 4).unwrap();
    assert_eq!(v, 0x0102_0304);
    assert_eq!(p, 4);
}

#[test]
fn u64_round_trip_and_truncation() {
    let mut out: Vec<u8> = Vec::new();
    enc_u64(&mut out, 0xDEAD_BEEF_0BAD_F00D);
    assert_eq!(out.len(), 8);
    let (v, p) = dec_u64(&out, 0).unwrap();
    assert_eq!(v, 0xDEAD_BEEF_0BAD_F00D);
    assert_eq!(p, 8);
    assert!(dec_u64(&out, 1).is_none());
}

#[test]
fn bytes_round_trip() {
    let mut out: Vec<u8> = Vec::new();
    enc_bytes(&mut out, &b"hello".to_vec());
    assert_eq!(out, vec![5, 0, 0, 0, b'h', b'e', b'l', b'l', b'o']);
    let (v, p) = dec_bytes(&out, 0).unwrap();
    assert_eq!(v, b"hello".to_vec());
    assert_eq!(p, 9);
    assert!(dec_bytes(&out, 5).is_none());
}

#[test]
fn placement_request_round_trip() {
    let m = MetadataServerExternalMessage::ChunkPlacementRequest(ChunkPlacementRequestPayload {
        filename: b"foo".to_vec(),
        file_size: 104857600,
    });
    let bytes = m.encode().unwrap();
    let (back, used) = MetadataServerExternalMessage::decode(&bytes, 0).unwrap();
    assert_eq!(back, m);
    assert_eq!(used, bytes.len());
}

#[test]
fn file_placement_request_round_trip() {
    let m = MetadataServerExternalMessage::GetFilePlacementRequest(GetFilePlacementRequestPayload {
        filename: b"a/b/c.bin".to_vec(),
    });
    let bytes = m.encode().unwrap();
    let (back, used) = MetadataServerExternalMessage::decode(&bytes, 0).unwrap();
    assert_eq!(back, m);
    assert_eq!(used, bytes.len());
}

#[test]
fn folder_structure_messages_round_trip() {
    let m1 = MetadataServerExternalMessage::GetClientFolderStructureRequest(
        GetClientFolderStructureRequestPayload {},
    );
    let b1 = m1.encode().unwrap();
    assert_eq!(MetadataServerExternalMessage::decode(&b1, 0).unwrap().0, m1);
    let m2 = MetadataServerExternalMessage::UpdateClientFolderStructure(
        UpdateClientFolderStructurePayload {},
    );
    let b2 = m2.encode().unwrap();
    assert_eq!(MetadataServerExternalMessage::decode(&b2, 0).unwrap().0, m2);
}

#[test]
fn discover_round_trip() {
    let m = MetadataServerInternalMessage::ChunkServerDiscover(ChunkServerDiscoverPayload {
        server_id: 0x0123_4567_89AB_CDEF_0011_2233_4455_6677,
        hostname: b"cs-1.example".to_vec(),
        rack_id: b"rack-a".to_vec(),
        internal_address: b"[::1]:12346".to_vec(),
        external_address: b"[::1]:12345".to_vec(),
        stored_chunks: vec![1, 2, 0xFFFF_FFFF_FFFF_FFFF_FFFF_FFFF_FFFF_FFFF],
    });
    let bytes = m.encode().unwrap();
    let (back, used) = MetadataServerInternalMessage::decode(&bytes, 0).unwrap();
    assert_eq!(back, m);
    assert_eq!(used, bytes.len());
}

#[test]
fn heartbeat_round_trip() {
    let m = MetadataServerInternalMessage::Heartbeat(HeartbeatPayload {
        server_id: 42,
        client_requests_count: 17,
        available_space: 9_000_000_000,
    });
    let bytes = m.encode().unwrap();
    let (back, used) = MetadataServerInternalMessage::decode(&bytes, 0).unwrap();
    assert_eq!(back, m);
    assert_eq!(used, bytes.len());
    // variant id 1, then a big-endian 4-byte length prefix of a 32-byte body
    assert_eq!(bytes[0], 1);
    assert_eq!(&bytes[1..5], &[0, 0, 0, 32]);
    assert_eq!(bytes.len(), 37);
}

#[test]
fn chunkserver_messages_round_trip() {
    let up = ChunkserverExternalMessage::UploadChunk(UploadChunkPayload {
        chunk_id: 7,
        chunk_size: 1024,
    });
    let b = up.encode();
    let (back, used) = ChunkserverExternalMessage::decode(&b, 0).unwrap();
    assert_eq!(back, up);
    assert_eq!(used, b.len());

    let down = ChunkserverExternalMessage::DownloadChunkRequest(DownloadChunkRequestPayload {
        chunk_id: 9,
    });
    let b2 = down.encode();
    assert_eq!(ChunkserverExternalMessage::decode(&b2, 0).unwrap().0, down);

    let accept = ChunkserverInternalMessage::AcceptNewChunkserver(AcceptNewChunkServerPayload {
        chunkserver_new_id: 77,
    });
    let b3 = accept.encode();
    assert_eq!(ChunkserverInternalMessage::decode(&b3, 0).unwrap().0, accept);
}

#[test]
fn client_messages_round_trip() {
    let loc = |l: &str, h: &str| ChunkserverLocation {
        server_location: l.as_bytes().to_vec(),
        server_hostname: h.as_bytes().to_vec(),
    };
    let cl = ChunkLocations {
        chunk_id: 5,
        primary: loc("10.0.0.1:12345", "cs-1"),
        secondaries: vec![loc("10.0.0.2:12345", "cs-2"), loc("10.0.0.3:12345", "cs-3")],
    };
    let m = ClientMessage::ChunkPlacementResponse(ChunkPlacementResponsePayload {
        selected_chunkservers: vec![cl.clone()],
    });
    let bytes = m.encode().unwrap();
    let (back, used) = ClientMessage::decode(&bytes, 0).unwrap();
    assert_eq!(back, m);
    assert_eq!(used, bytes.len());

    let m2 = ClientMessage::GetFilePlacementResponse(GetFilePlacementResponsePayload {
        chunks_locations: vec![cl],
    });
    let b2 = m2.encode().unwrap();
    assert_eq!(ClientMessage::decode(&b2, 0).unwrap().0, m2);

    let m3 = ClientMessage::DownloadChunkResponse(DownloadChunkResponsePayload {
        chunk_id: 5,
        chunk_size: 100,
    });
    let b3 = m3.encode().unwrap();
    assert_eq!(ClientMessage::decode(&b3, 0).unwrap().0, m3);

    for status in [
        RequestStatusPayload::Success,
        RequestStatusPayload::InvalidRequest,
        RequestStatusPayload::InternalServerError,
    ] {
        let m4 = ClientMessage::RequestStatus(status);
        let b4 = m4.encode().unwrap();
        assert_eq!(ClientMessage::decode(&b4, 0).unwrap().0, m4);
    }

    let m5 = ClientMessage::GetClientFolderStructureResponse(
        GetClientFolderStructureResponsePayload {},
    );
    let b5 = m5.encode().unwrap();
    assert_eq!(ClientMessage::decode(&b5, 0).unwrap().0, m5);
}

#[test]
fn unknown_variant_is_a_protocol_error() {
    let bytes = vec![9u8, 0, 0, 0, 0];
    assert_eq!(
        MetadataServerExternalMessage::decode(&bytes, 0).unwrap_err(),
        ProtocolError::UnknownVariant
    );
    assert_eq!(
        MetadataServerInternalMessage::decode(&bytes, 0).unwrap_err(),
        ProtocolError::UnknownVariant
    );
    assert_eq!(
        ClientMessage::decode(&bytes, 0).unwrap_err(),
        ProtocolError::UnknownVariant
    );
}

#[test]
fn truncated_frame_is_a_protocol_error() {
    let m = MetadataServerInternalMessage::Heartbeat(HeartbeatPayload {
        server_id: 1,
        client_requests_count: 2,
        available_space: 3,
    });
    let bytes = m.encode().unwrap();
    for cut in 0..bytes.len() {
        let prefix = bytes[..cut].to_vec();
        assert!(MetadataServerInternalMessage::decode(&prefix, 0).is_err());
    }
    assert_eq!(
        MetadataServerInternalMessage::decode(&Vec::new(), 0).unwrap_err(),
        ProtocolError::Truncated
    );
}

#[test]
fn frame_length_prefix_is_big_endian() {
    let m = ClientMessage::RequestStatus(RequestStatusPayload::Success);
    let bytes = m.encode().unwrap();
    // variant id 3, the big-endian length of the one-byte body, the body
    assert_eq!(bytes, vec![3u8, 0, 0, 0, 1, 0]);
}

#[test]
fn length_prefix_must_match_payload() {
    // variant 1 (heartbeat) announcing a 3-byte body: too short for the payload
    let bytes = vec![1u8, 0, 0, 0, 3, 0xAA, 0xBB, 0xCC];
    assert_eq!(
        MetadataServerInternalMessage::decode(&bytes, 0).unwrap_err(),
        ProtocolError::Malformed
    );
}
