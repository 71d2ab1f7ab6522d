use dfss::chunkserver::Chunkserver;
use dfss::client::{chunk_count, chunk_spans, ConnectionCache};
use dfss::config::{HEARTBEAT_EXPIRY_MILLIS, MAX_CHUNK_SIZE, N_CHUNK_REPLICAS};
use dfss::kvmap::IdMap;
use dfss::metadataserver::MetadataServer;
use dfss::payloads::{ChunkServerDiscoverPayload, HeartbeatPayload, RequestStatusPayload};
use dfss::placement::RandomPlacementStrategy;

fn discover_payload(server_id: u128, tag: &str) -> ChunkServerDiscoverPayload {
    ChunkServerDiscoverPayload {
        server_id,
        hostname: format!("cs-{tag}").into_bytes(),
        rack_id: b"rack-a".to_vec(),
        internal_address: format!("10.0.0.{tag}:12346").into_bytes(),
        external_address: format!("10.0.0.{tag}:12345").into_bytes(),
        stored_chunks: Vec::new(),
    }
}

fn cluster_of(n: u128) -> MetadataServer {
    let mut ms = MetadataServer::new();
    let mut i: u128 = 0;
    while i < n {
        ms.discover_new_chunkserver(discover_payload(i + 1, &format!("{}", i + 1)), 0);
        i += 1;
    }
    ms
}

#[test]
fn chunk_count_formula() {
    assert_eq!(chunk_count(0), 0);
    assert_eq!(chunk_count(1), 1);
    assert_eq!(chunk_count(MAX_CHUNK_SIZE), 1);
    assert_eq!(chunk_count(MAX_CHUNK_SIZE + 1), 2);
    assert_eq!(chunk_count(104857600), 2);
    assert_eq!(chunk_count(3 * MAX_CHUNK_SIZE), 3);
}

#[test]
fn chunk_spans_cover_the_file() {
    let spans = chunk_spans(104857600);
    assert_eq!(spans, vec![(0, MAX_CHUNK_SIZE), (MAX_CHUNK_SIZE, 104857600 - MAX_CHUNK_SIZE)]);
    let spans2 = chunk_spans(5);
    assert_eq!(spans2, vec![(0, 5)]);
    assert!(chunk_spans(0).is_empty());
}

#[test]
fn placement_shape_holds() {
    let strategy = RandomPlacementStrategy {};
    let candidates: Vec<u128> = vec![11, 22, 33, 44, 55];
    let picks = strategy.select_servers(10, &candidates);
    assert_eq!(picks.len(), 10);
    for (primary, replicas) in &picks {
        assert_eq!(replicas.len(), N_CHUNK_REPLICAS);
        assert!(candidates.contains(primary));
        for r in replicas {
            assert!(candidates.contains(r));
            assert_ne!(r, primary);
        }
        assert_ne!(replicas[0], replicas[1]);
    }
}

#[test]
fn placement_infeasible_with_too_few_servers() {
    let strategy = RandomPlacementStrategy {};
    let candidates: Vec<u128> = vec![11, 22];
    assert!(strategy.select_servers(3, &candidates).is_empty());
}

#[test]
fn upload_of_any_file_fails_on_a_two_server_cluster() {
    // a cluster of two chunkservers cannot hold a primary and two replicas
    let mut ms = cluster_of(2);
    let r = ms.place_file(b"foo".to_vec(), 123);
    assert_eq!(r.unwrap_err(), RequestStatusPayload::InvalidRequest);
}

#[test]
fn placement_of_an_empty_file_is_refused() {
    let mut ms = cluster_of(3);
    let r = ms.place_file(b"foo".to_vec(), 0);
    assert_eq!(r.unwrap_err(), RequestStatusPayload::InvalidRequest);
}

#[test]
fn duplicate_filename_is_refused() {
    // two placement requests for the same filename: one placement, one error
    let mut ms = cluster_of(3);
    let first = ms.place_file(b"bar".to_vec(), 100);
    assert!(first.is_ok());
    let second = ms.place_file(b"bar".to_vec(), 100);
    assert_eq!(second.unwrap_err(), RequestStatusPayload::InvalidRequest);
    assert!(ms.files.get(&b"bar".to_vec()).is_some());
}

#[test]
fn colliding_chunk_ids_are_a_server_error() {
    let mut ms = cluster_of(3);
    let r = ms.place_file_with_ids(b"foo".to_vec(), 100, vec![5]);
    assert!(r.is_ok());
    // a drawn id that is already on record cannot be placed again
    let r2 = ms.place_file_with_ids(b"other".to_vec(), 100, vec![5]);
    assert_eq!(r2.unwrap_err(), RequestStatusPayload::InternalServerError);
    // nor can the same id twice within one request
    let r3 = ms.place_file_with_ids(
        b"third".to_vec(),
        2 * MAX_CHUNK_SIZE,
        vec![6, 6],
    );
    assert_eq!(r3.unwrap_err(), RequestStatusPayload::InternalServerError);
}

#[test]
fn placement_response_matches_cluster() {
    let mut ms = cluster_of(3);
    let resp = ms.place_file(b"foo".to_vec(), 104857600).unwrap();
    assert_eq!(resp.selected_chunkservers.len(), 2);
    for cl in &resp.selected_chunkservers {
        assert_eq!(cl.secondaries.len(), N_CHUNK_REPLICAS);
        // with exactly three live servers every placement uses all three
        let mut hosts: Vec<Vec<u8>> = vec![cl.primary.server_hostname.clone()];
        for s in &cl.secondaries {
            hosts.push(s.server_hostname.clone());
        }
        hosts.sort();
        hosts.dedup();
        assert_eq!(hosts.len(), 3);
    }
}

#[test]
fn lookup_resolves_every_chunk() {
    let mut ms = cluster_of(3);
    let placed = ms.place_file(b"foo".to_vec(), 104857600).unwrap();
    let fetched = ms.fetch_file_placement(&b"foo".to_vec()).unwrap();
    assert_eq!(fetched.chunks_locations.len(), 2);
    for (a, b) in placed.selected_chunkservers.iter().zip(fetched.chunks_locations.iter()) {
        assert_eq!(a.chunk_id, b.chunk_id);
    }
    assert_eq!(
        ms.fetch_file_placement(&b"missing".to_vec()).unwrap_err(),
        RequestStatusPayload::InvalidRequest
    );
}

#[test]
fn lookup_without_primaries_is_a_server_error() {
    let mut ms = cluster_of(3);
    ms.place_file(b"foo".to_vec(), 100).unwrap();
    // every server goes silent past the expiry window: primaries are cleared
    let removed = ms.prune_inactive_chunkservers(HEARTBEAT_EXPIRY_MILLIS + 1);
    assert_eq!(removed.len(), 3);
    assert_eq!(
        ms.fetch_file_placement(&b"foo".to_vec()).unwrap_err(),
        RequestStatusPayload::InternalServerError
    );
}

#[test]
fn stale_chunkserver_is_pruned_and_scrubbed() {
    let mut ms = cluster_of(3);
    ms.place_file(b"foo".to_vec(), 104857600).unwrap();
    // servers 2 and 3 keep heart-beating; server 1 goes silent
    let late = HEARTBEAT_EXPIRY_MILLIS + 5;
    ms.accept_heartbeat(
        &HeartbeatPayload { server_id: 2, client_requests_count: 0, available_space: 1 },
        late,
    );
    ms.accept_heartbeat(
        &HeartbeatPayload { server_id: 3, client_requests_count: 0, available_space: 1 },
        late,
    );
    let removed = ms.prune_inactive_chunkservers(late);
    assert_eq!(removed, vec![1]);
    assert!(ms.active_chunkservers.get(1).is_none());
    assert!(ms.active_chunkservers.get(2).is_some());
    // no chunk record still names the dead server
    let file = ms.files.get(&b"foo".to_vec()).unwrap();
    for c in &file.chunks {
        let cm = ms.chunks.get(*c).unwrap();
        assert_ne!(cm.primary, Some(1));
        assert!(!cm.replicas.contains(&1));
        assert!(cm.replicas.len() <= N_CHUNK_REPLICAS);
    }
}

#[test]
fn heartbeat_refreshes_and_unknown_ids_are_ignored() {
    let mut ms = cluster_of(1);
    ms.accept_heartbeat(
        &HeartbeatPayload { server_id: 1, client_requests_count: 7, available_space: 99 },
        50,
    );
    let e = ms.active_chunkservers.get(1).unwrap();
    assert_eq!(e.last_heartbeat, 50);
    assert_eq!(e.client_request_count, 7);
    assert_eq!(e.available_space, 99);
    // a heartbeat from a stranger changes nothing
    ms.accept_heartbeat(
        &HeartbeatPayload { server_id: 9, client_requests_count: 1, available_space: 1 },
        60,
    );
    assert_eq!(ms.active_chunkservers.len(), 1);
}

#[test]
fn rediscover_replaces_and_new_ids_append() {
    let mut ms = cluster_of(1);
    assert_eq!(ms.active_chunkservers.len(), 1);
    // the same id introduces itself again after a reconnect: replaced, not doubled
    let mut again = discover_payload(1, "1b");
    again.stored_chunks = vec![42];
    ms.discover_new_chunkserver(again, 1000);
    assert_eq!(ms.active_chunkservers.len(), 1);
    let e = ms.active_chunkservers.get(1).unwrap();
    assert_eq!(e.last_heartbeat, 1000);
    assert_eq!(e.chunks, vec![42]);
    // a fresh id appears as a new entry
    ms.discover_new_chunkserver(discover_payload(2, "2"), 1000);
    assert_eq!(ms.active_chunkservers.len(), 2);
}

#[test]
fn reconnected_chunkserver_is_selected_again() {
    // a chunkserver reconnects after a long gap: it re-discovers, the
    // metadata server accepts it, and placements may select it again
    let mut ms = cluster_of(3);
    let gap = 2 * HEARTBEAT_EXPIRY_MILLIS;
    ms.accept_heartbeat(
        &HeartbeatPayload { server_id: 2, client_requests_count: 0, available_space: 1 },
        gap,
    );
    ms.accept_heartbeat(
        &HeartbeatPayload { server_id: 3, client_requests_count: 0, available_space: 1 },
        gap,
    );
    let removed = ms.prune_inactive_chunkservers(gap);
    assert_eq!(removed, vec![1]);
    // with only two live servers no placement is possible
    assert!(ms.place_file(b"before".to_vec(), 10).is_err());
    ms.discover_new_chunkserver(discover_payload(1, "1"), gap);
    assert_eq!(ms.active_chunkservers.len(), 3);
    let resp = ms.place_file(b"after".to_vec(), 10).unwrap();
    // with exactly three live servers again, server 1 is in the placement
    let cl = &resp.selected_chunkservers[0];
    let mut hosts: Vec<Vec<u8>> = vec![cl.primary.server_hostname.clone()];
    for s in &cl.secondaries {
        hosts.push(s.server_hostname.clone());
    }
    assert!(hosts.contains(&b"cs-1".to_vec()));
}

#[test]
fn chunk_upload_download_round_trip() {
    let mut cs = Chunkserver::new(
        b"cs-1".to_vec(),
        b"rack-a".to_vec(),
        b"10.0.0.1:12346".to_vec(),
        b"10.0.0.1:12345".to_vec(),
    );
    let body: Vec<u8> = (0..100_000u32).map(|i| (i % 251) as u8).collect();
    assert_eq!(cs.handle_upload(7, body.clone()), RequestStatusPayload::Success);
    let (meta, bytes) = cs.handle_download(7).unwrap();
    assert_eq!(meta.chunk_id, 7);
    assert_eq!(meta.chunk_size, body.len() as u64);
    assert_eq!(bytes, body);
    assert_eq!(
        cs.handle_download(8).unwrap_err(),
        RequestStatusPayload::InvalidRequest
    );
}

#[test]
fn interrupted_upload_leaves_no_final_chunk() {
    let mut cs = Chunkserver::new(
        b"cs-1".to_vec(),
        b"r".to_vec(),
        b"i".to_vec(),
        b"e".to_vec(),
    );
    cs.handle_upload_interrupted(7);
    assert!(cs.final_store.get(7).is_none());
    assert!(cs.tmp_store.get(7).is_none());
    assert_eq!(cs.handle_download(7).unwrap_err(), RequestStatusPayload::InvalidRequest);
    // the retry then succeeds and commits exactly once
    let body = b"retry body".to_vec();
    assert_eq!(cs.handle_upload(7, body.clone()), RequestStatusPayload::Success);
    assert_eq!(cs.final_store.get(7).unwrap(), &body);
    assert!(cs.tmp_store.get(7).is_none());
}

#[test]
fn duplicate_upload_is_refused_and_keeps_the_first_body() {
    let mut cs = Chunkserver::new(
        b"cs-1".to_vec(),
        b"r".to_vec(),
        b"i".to_vec(),
        b"e".to_vec(),
    );
    let first = b"first body".to_vec();
    let second = b"second body".to_vec();
    assert_eq!(cs.handle_upload(7, first.clone()), RequestStatusPayload::Success);
    assert_eq!(cs.handle_upload(7, second), RequestStatusPayload::InvalidRequest);
    assert_eq!(cs.final_store.get(7).unwrap(), &first);
    assert!(cs.tmp_store.get(7).is_none());
}

#[test]
fn heartbeat_reports_requests_since_the_previous_one() {
    let mut cs = Chunkserver::new(
        b"cs-1".to_vec(),
        b"r".to_vec(),
        b"i".to_vec(),
        b"e".to_vec(),
    );
    cs.handle_upload(1, b"a".to_vec());
    cs.handle_upload(2, b"b".to_vec());
    let _ = cs.handle_download(1);
    let hb = cs.make_heartbeat(1000, u64::MAX);
    assert_eq!(hb.client_requests_count, 3);
    assert_eq!(hb.available_space, 900);
    assert_eq!(hb.server_id, cs.server_id);
    let _ = cs.handle_download(2);
    // the advertised cap binds when nine tenths of the disk exceeds it
    let hb2 = cs.make_heartbeat(1000, 500);
    assert_eq!(hb2.client_requests_count, 1);
    assert_eq!(hb2.available_space, 500);
}

#[test]
fn discover_payload_lists_stored_chunks() {
    let mut cs = Chunkserver::new(
        b"cs-9".to_vec(),
        b"rack-z".to_vec(),
        b"int".to_vec(),
        b"ext".to_vec(),
    );
    cs.handle_upload(3, b"x".to_vec());
    cs.handle_upload(4, b"y".to_vec());
    let p = cs.make_discover();
    assert_eq!(p.server_id, cs.server_id);
    assert_eq!(p.hostname, b"cs-9".to_vec());
    let mut stored = p.stored_chunks.clone();
    stored.sort();
    assert_eq!(stored, vec![3, 4]);
}

#[test]
fn whole_file_round_trip_through_a_cluster() {
    // three chunkservers, a 100 MiB file: two chunks, each with a primary
    // and two replicas drawn without replacement; downloading every chunk
    // from its primary and concatenating reproduces the bytes
    let mut ms = MetadataServer::new();
    let mut stores: Vec<Chunkserver> = Vec::new();
    for tag in ["1", "2", "3"] {
        let cs = Chunkserver::new(
            format!("cs-{tag}").into_bytes(),
            b"rack-a".to_vec(),
            format!("10.0.0.{tag}:12346").into_bytes(),
            format!("10.0.0.{tag}:12345").into_bytes(),
        );
        ms.discover_new_chunkserver(cs.make_discover(), 0);
        stores.push(cs);
    }
    let size: u64 = 104857600;
    let mut file = vec![0u8; size as usize];
    let mut i = 0usize;
    while i < file.len() {
        file[i] = (i / 4096 % 251) as u8;
        i += 4097;
    }
    let resp = ms.place_file(b"foo".to_vec(), size).unwrap();
    let spans = chunk_spans(size);
    assert_eq!(resp.selected_chunkservers.len(), spans.len());
    for (cl, span) in resp.selected_chunkservers.iter().zip(spans.iter()) {
        let body = file[span.0 as usize..(span.0 + span.1) as usize].to_vec();
        let primary = stores
            .iter_mut()
            .find(|cs| cs.hostname == cl.primary.server_hostname)
            .unwrap();
        assert_eq!(primary.handle_upload(cl.chunk_id, body), RequestStatusPayload::Success);
    }
    let fetched = ms.fetch_file_placement(&b"foo".to_vec()).unwrap();
    let mut rebuilt: Vec<u8> = Vec::new();
    for cl in fetched.chunks_locations.iter() {
        let primary = stores
            .iter_mut()
            .find(|cs| cs.hostname == cl.primary.server_hostname)
            .unwrap();
        let (_, bytes) = primary.handle_download(cl.chunk_id).unwrap();
        rebuilt.extend_from_slice(&bytes);
    }
    assert_eq!(rebuilt.len(), file.len());
    assert!(rebuilt == file);
}

#[test]
fn idmap_single_key_semantics() {
    let mut m: IdMap<u64> = IdMap::new();
    assert!(m.insert_if_absent(1, 10));
    assert!(!m.insert_if_absent(1, 20));
    assert_eq!(m.get(1), Some(&10));
    m.upsert(1, 30);
    assert_eq!(m.get(1), Some(&30));
    assert_eq!(m.len(), 1);
    assert_eq!(m.remove(1), Some(30));
    assert_eq!(m.remove(1), None);
    assert_eq!(m.len(), 0);
}

#[test]
fn chunk_transfer_commit_hands_the_path_back() {
    let t = dfss::chunkserver::ChunkTransfer::new(Some(4), b"tmp/abc".to_vec(), true);
    assert_eq!(t.commit(), b"tmp/abc".to_vec());
}

#[test]
fn revoked_chunk_is_gone() {
    let mut cs = Chunkserver::new(
        b"cs-1".to_vec(),
        b"r".to_vec(),
        b"i".to_vec(),
        b"e".to_vec(),
    );
    let body = b"doomed".to_vec();
    assert_eq!(cs.handle_upload(7, body.clone()), RequestStatusPayload::Success);
    cs.revoke_chunk(7);
    assert!(cs.final_store.get(7).is_none());
    assert_eq!(cs.handle_download(7).unwrap_err(), RequestStatusPayload::InvalidRequest);
    // the id is free again and a retry commits cleanly
    assert_eq!(cs.handle_upload(7, body.clone()), RequestStatusPayload::Success);
    assert_eq!(cs.final_store.get(7).unwrap(), &body);
}

#[test]
fn connection_cache_evicts_least_recently_used() {
    let mut cache = ConnectionCache::new(2);
    cache.store(b"a".to_vec(), 1, 100);
    cache.store(b"b".to_vec(), 2, 100);
    // touching a makes b the least recently used entry
    assert_eq!(cache.lookup(&b"a".to_vec(), 10), Some(1));
    cache.store(b"c".to_vec(), 3, 100);
    assert_eq!(cache.lookup(&b"b".to_vec(), 10), None);
    assert_eq!(cache.lookup(&b"a".to_vec(), 10), Some(1));
    assert_eq!(cache.lookup(&b"c".to_vec(), 10), Some(3));
}

#[test]
fn connection_cache_expiry_and_redial() {
    let mut cache = ConnectionCache::new(4);
    cache.store(b"a".to_vec(), 1, 100);
    assert_eq!(cache.lookup(&b"a".to_vec(), 99), Some(1));
    // at its expiry moment the entry is dropped, not returned
    assert_eq!(cache.lookup(&b"a".to_vec(), 100), None);
    assert_eq!(cache.lookup(&b"a".to_vec(), 0), None);
    // a connection the transport reports closed is invalidated, then the
    // one redial is stored and served again
    cache.store(b"b".to_vec(), 7, 100);
    cache.invalidate(&b"b".to_vec());
    assert_eq!(cache.lookup(&b"b".to_vec(), 1), None);
    cache.store(b"b".to_vec(), 8, 100);
    assert_eq!(cache.lookup(&b"b".to_vec(), 1), Some(8));
    // storing a known location replaces its entry in place
    cache.store(b"b".to_vec(), 9, 200);
    assert_eq!(cache.lookup(&b"b".to_vec(), 150), Some(9));
}
