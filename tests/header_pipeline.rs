use martinez::downloader::{DownloadError, DownloaderPreverified, HeaderPipeline, PipelineEvent};
use martinez::header_slices::{
    BlockHeader, HeaderSliceStatus, HeaderSlices, SliceError, HEADER_SLICE_MEM_SIZE, MAX_ATTEMPTS,
    REQUEST_TIMEOUT,
};
use martinez::stages::{
    accept_headers, check_chain, fetch_request, penalize, refill, retry_timed_out, save_slice,
    verify_slice, HeaderStore, PreverifiedHashesConfig, TopBlockEstimate,
};
use martinez::types::{PeerId, H256};

fn hash_of(n: u64, salt: u8) -> H256 {
    let mut h = [0u8; 32];
    h[..8].copy_from_slice(&n.to_be_bytes());
    h[31] = salt;
    h[30] = 0xAB;
    h
}

fn peer(id: u8) -> PeerId {
    [id; 64]
}

/// Headers `start ..= start + 192`, block 0 hashed with `genesis_salt`.
fn chain(start: u64, genesis_salt: u8) -> Vec<BlockHeader> {
    let salt = |n: u64| if n == 0 { genesis_salt } else { 0 };
    (start..=start + 192)
        .map(|n| BlockHeader {
            number: n,
            hash: hash_of(n, salt(n)),
            parent_hash: if n == 0 { [0u8; 32] } else { hash_of(n - 1, salt(n - 1)) },
            difficulty: 2,
        })
        .collect()
}

fn anchors(n: u64) -> PreverifiedHashesConfig {
    PreverifiedHashesConfig { hashes: (0..n).map(|k| hash_of(k * 192, 0)).collect() }
}

fn pipeline(anchor_count: u64, slices_in_memory: usize) -> HeaderPipeline {
    let d = DownloaderPreverified::new("mainnet".to_string(), slices_in_memory * HEADER_SLICE_MEM_SIZE);
    d.start(anchors(anchor_count)).unwrap()
}

#[test]
fn cold_sync_saves_reverse_responses_in_order() {
    let mut p = pipeline(3, 4);
    assert_eq!(p.final_block_id.number, 384);
    let out = p.step(PipelineEvent::Tick { now: 0 }).unwrap();
    let starts: Vec<u64> = out.requests.iter().map(|r| r.start_block_num).collect();
    assert_eq!(starts, vec![0, 192]);
    assert!(out.requests.iter().all(|r| r.limit == 193 && r.skip == 0 && !r.reverse));

    let out = p.step(PipelineEvent::BlockHeaders { headers: chain(192, 0), peer: peer(1) }).unwrap();
    assert!(!out.finished);
    assert_eq!(p.store.records.len(), 0);
    assert_eq!(p.slices.slices[1].status, HeaderSliceStatus::Verified);

    let out = p.step(PipelineEvent::BlockHeaders { headers: chain(0, 0), peer: peer(2) }).unwrap();
    assert!(out.finished);
    assert_eq!(p.store.records.len(), 384);
    assert_eq!(p.store.progress() - 1, 383);
    for n in 0..384u64 {
        assert_eq!(p.store.canonical_hash(n), Some(hash_of(n, 0)));
        assert_eq!(p.store.records[n as usize].total_difficulty, 2 * (n as u128 + 1));
    }
    assert_eq!(p.store.canonical_hash(384), None);
    let rows = p.store.rows(5).unwrap();
    assert_eq!(rows.canonical_key, 5u64.to_be_bytes().to_vec());
    assert_eq!(rows.canonical_value, hash_of(5, 0).to_vec());
    assert_eq!(rows.number_key, hash_of(5, 0).to_vec());
    assert_eq!(rows.number_value, 5u64.to_be_bytes().to_vec());
    assert_eq!(rows.td_key.len(), 41);
    assert_eq!(rows.total_difficulty, 12);
    assert!(p.store.rows(384).is_none());
    assert_eq!(p.report().final_block_id.hash, hash_of(384, 0));
}

#[test]
fn bad_peer_is_penalized_and_slice_refetched() {
    let mut p = pipeline(3, 4);
    p.step(PipelineEvent::Tick { now: 0 }).unwrap();
    let out = p.step(PipelineEvent::BlockHeaders { headers: chain(0, 9), peer: peer(7) }).unwrap();
    assert_eq!(out.penalties, vec![peer(7)]);
    let starts: Vec<u64> = out.requests.iter().map(|r| r.start_block_num).collect();
    assert_eq!(starts, vec![0]);
    assert_eq!(p.slices.slices[0].status, HeaderSliceStatus::Waiting);
    assert_eq!(p.slices.slices[0].from_peer_id, None);

    p.step(PipelineEvent::BlockHeaders { headers: chain(0, 0), peer: peer(8) }).unwrap();
    assert_eq!(p.store.records.len(), 192);
    assert_eq!(p.store.canonical_hash(0), Some(hash_of(0, 0)));
}

#[test]
fn invalid_slice_goes_back_to_empty() {
    let mut s = HeaderSlices::new(4 * HEADER_SLICE_MEM_SIZE, 0, 384);
    fetch_request(&mut s, 0).unwrap();
    assert!(accept_headers(&mut s, chain(0, 9), peer(3)));
    let cfg = anchors(3);
    assert_eq!(verify_slice(&mut s, &cfg), Some(0));
    assert_eq!(s.slices[0].status, HeaderSliceStatus::Invalid);
    assert_eq!(penalize(&mut s), Some((0, Some(peer(3)))));
    assert_eq!(s.slices[0].status, HeaderSliceStatus::Empty);
    assert!(s.slices[0].headers.is_none());
    assert_eq!(s.slices[0].request_attempt, 0);
    assert_eq!(penalize(&mut s), None);
}

#[test]
fn timeout_resets_then_invalidates() {
    let mut s = HeaderSlices::new(4 * HEADER_SLICE_MEM_SIZE, 0, 192);
    let mut now = 0;
    for attempt in 1..=MAX_ATTEMPTS {
        assert!(fetch_request(&mut s, now).is_some());
        assert_eq!(retry_timed_out(&mut s, now + REQUEST_TIMEOUT - 1), 0);
        assert_eq!(s.slices[0].status, HeaderSliceStatus::Waiting);
        now += REQUEST_TIMEOUT;
        assert_eq!(retry_timed_out(&mut s, now), 1);
        assert_eq!(s.slices[0].request_attempt, attempt);
        if attempt < MAX_ATTEMPTS {
            assert_eq!(s.slices[0].status, HeaderSliceStatus::Empty);
        } else {
            assert_eq!(s.slices[0].status, HeaderSliceStatus::Invalid);
        }
    }
}

#[test]
fn window_holds_four_slices_and_slides_on_refill() {
    let mut s = HeaderSlices::new(4 * HEADER_SLICE_MEM_SIZE, 0, 192 * 10);
    assert_eq!(s.max_slices, 4);
    assert_eq!(s.slices.len(), 4);
    let mut store = HeaderStore::new();
    let cfg = anchors(11);
    for round in 0..10u64 {
        assert!(s.slices.len() <= 4);
        let req = fetch_request(&mut s, 0).unwrap();
        assert_eq!(req.start_block_num, s.slices[0].start_block_num);
        assert!(accept_headers(&mut s, chain(req.start_block_num, 0), peer(1)));
        assert_eq!(verify_slice(&mut s, &cfg), Some(0));
        assert_eq!(save_slice(&mut s, &mut store), Ok(Some(0)));
        assert_eq!(s.slide_window_if_possible(), 0);
        assert_eq!(s.start_block_num, 192 * round);
        assert_eq!(refill(&mut s), Some(0));
        assert_eq!(s.slide_window_if_possible(), 1);
        assert_eq!(s.start_block_num, 192 * (round + 1));
        assert!(s.slices.len() <= 4);
        for (i, sl) in s.slices.iter().enumerate() {
            assert_eq!(sl.start_block_num, 192 * (round + 1 + i as u64));
        }
    }
    assert!(s.is_empty_at_final_position());
    assert_eq!(store.records.len(), 1920);
}

#[test]
fn slices_stay_sorted_and_disjoint() {
    let mut s = HeaderSlices::new(3 * HEADER_SLICE_MEM_SIZE, 192, 192 * 6);
    let check = |s: &HeaderSlices| {
        for w in s.slices.windows(2) {
            assert!(w[0].start_block_num + 192 <= w[1].start_block_num);
        }
    };
    check(&s);
    assert_eq!(s.set_slice_status(0, HeaderSliceStatus::Waiting), Ok(()));
    check(&s);
    assert_eq!(s.slide_window_if_possible(), 0);
    check(&s);
    assert_eq!(s.set_slice_status(0, HeaderSliceStatus::Empty), Ok(()));
    check(&s);
}

#[test]
fn status_never_moves_backward() {
    let mut s = HeaderSlices::new(2 * HEADER_SLICE_MEM_SIZE, 0, 384);
    assert_eq!(s.set_slice_status(0, HeaderSliceStatus::Saved), Err(SliceError::IllegalTransition));
    assert_eq!(s.set_slice_status(0, HeaderSliceStatus::Waiting), Ok(()));
    assert_eq!(s.set_slice_status(0, HeaderSliceStatus::Downloaded), Err(SliceError::IllegalTransition));
    assert!(accept_headers(&mut s, chain(0, 0), peer(1)));
    assert_eq!(s.set_slice_status(0, HeaderSliceStatus::Verified), Ok(()));
    assert_eq!(s.set_slice_status(0, HeaderSliceStatus::Saved), Ok(()));
    assert_eq!(s.set_slice_status(0, HeaderSliceStatus::Downloaded), Err(SliceError::IllegalTransition));
    assert_eq!(s.set_slice_status(0, HeaderSliceStatus::Empty), Err(SliceError::IllegalTransition));
    assert_eq!(s.set_slice_status(5, HeaderSliceStatus::Waiting), Err(SliceError::OutOfWindow));
    assert_eq!(s.slices[0].status, HeaderSliceStatus::Saved);
}

#[test]
fn verifying_twice_gives_the_same_outcome() {
    let cfg = anchors(3);
    for salt in [0u8, 9u8] {
        let mut outcomes = Vec::new();
        for _ in 0..2 {
            let mut s = HeaderSlices::new(2 * HEADER_SLICE_MEM_SIZE, 0, 384);
            fetch_request(&mut s, 0).unwrap();
            assert!(accept_headers(&mut s, chain(0, salt), peer(1)));
            verify_slice(&mut s, &cfg);
            outcomes.push(s.slices[0].status);
        }
        assert_eq!(outcomes[0], outcomes[1]);
    }
}

#[test]
fn unmatched_responses_are_dropped() {
    let mut s = HeaderSlices::new(2 * HEADER_SLICE_MEM_SIZE, 0, 384);
    assert!(!accept_headers(&mut s, chain(0, 0), peer(1)));
    fetch_request(&mut s, 0).unwrap();
    let mut short = chain(0, 0);
    short.pop();
    assert!(!accept_headers(&mut s, short, peer(1)));
    let mut broken = chain(0, 0);
    broken[5].parent_hash = [1u8; 32];
    assert!(!accept_headers(&mut s, broken, peer(1)));
    assert!(!accept_headers(&mut s, chain(100, 0), peer(1)));
    assert_eq!(s.slices[0].status, HeaderSliceStatus::Waiting);
    assert!(accept_headers(&mut s, chain(0, 0), peer(1)));
    assert_eq!(s.slices[0].status, HeaderSliceStatus::Downloaded);
}

#[test]
fn check_chain_needs_numbers_and_parents() {
    let c = chain(192, 0);
    assert!(check_chain(&c, 192));
    assert!(!check_chain(&c, 191));
    let mut bad = c.clone();
    bad[10].number = 7;
    assert!(!check_chain(&bad, 192));
}

#[test]
fn gap_blocks_saving() {
    let mut s = HeaderSlices::new(4 * HEADER_SLICE_MEM_SIZE, 0, 384);
    let mut store = HeaderStore::new();
    let cfg = anchors(3);
    fetch_request(&mut s, 0).unwrap();
    fetch_request(&mut s, 0).unwrap();
    assert!(accept_headers(&mut s, chain(192, 0), peer(1)));
    assert_eq!(verify_slice(&mut s, &cfg), Some(1));
    assert_eq!(save_slice(&mut s, &mut store), Ok(None));
    assert_eq!(store.records.len(), 0);
    assert!(accept_headers(&mut s, chain(0, 0), peer(1)));
    assert_eq!(verify_slice(&mut s, &cfg), Some(0));
    assert_eq!(save_slice(&mut s, &mut store), Ok(Some(0)));
    assert_eq!(save_slice(&mut s, &mut store), Ok(Some(1)));
    assert_eq!(store.records.len(), 384);
}

#[test]
fn total_difficulty_overflow_writes_nothing() {
    let mut s = HeaderSlices::new(4 * HEADER_SLICE_MEM_SIZE, 0, 192);
    let mut store = HeaderStore::new();
    let cfg = anchors(2);
    fetch_request(&mut s, 0).unwrap();
    let mut c = chain(0, 0);
    c[3].difficulty = u128::MAX;
    assert!(accept_headers(&mut s, c, peer(1)));
    verify_slice(&mut s, &cfg);
    assert_eq!(save_slice(&mut s, &mut store), Err(martinez::stages::SaveError::TotalDifficultyOverflow));
    assert_eq!(store.records.len(), 0);
    assert_eq!(s.slices[0].status, HeaderSliceStatus::Verified);
}

#[test]
fn fetch_request_respects_inflight_limit() {
    let mut s = HeaderSlices::new(40 * HEADER_SLICE_MEM_SIZE, 0, 192 * 40);
    let mut n = 0;
    while fetch_request(&mut s, 0).is_some() {
        n += 1;
    }
    assert_eq!(n, martinez::stages::MAX_INFLIGHT);
    assert_eq!(s.count_by_status(HeaderSliceStatus::Waiting), martinez::stages::MAX_INFLIGHT);
    assert_eq!(s.find_by_status(HeaderSliceStatus::Empty), Some(martinez::stages::MAX_INFLIGHT));
}

#[test]
fn top_block_estimate_tracks_highest() {
    let mut e = TopBlockEstimate::new();
    assert_eq!(e.estimate, None);
    e.observe(&vec![5, 12, 7]);
    assert_eq!(e.estimate, Some(12));
    e.observe(&vec![3]);
    assert_eq!(e.estimate, Some(12));
    e.observe(&vec![40]);
    assert_eq!(e.estimate, Some(40));
    let mut p = pipeline(3, 4);
    p.step(PipelineEvent::NewBlockHashes { numbers: vec![1000, 999] }).unwrap();
    assert_eq!(p.report().estimated_top_block_num, Some(1000));
}

#[test]
fn start_needs_anchors() {
    let d = DownloaderPreverified::new("none".to_string(), HEADER_SLICE_MEM_SIZE);
    assert_eq!(d.start(PreverifiedHashesConfig { hashes: vec![] }).err(), Some(DownloadError::NoPreverifiedHashes));
    let p = d.start(anchors(1)).unwrap();
    assert_eq!(p.final_block_id.number, 0);
    assert!(p.slices.is_empty_at_final_position());
    assert_eq!(anchors(5).final_block_num(), Some(768));
}

#[test]
fn window_new_clamps_to_memory_and_final() {
    let s = HeaderSlices::new(10 * HEADER_SLICE_MEM_SIZE, 0, 400);
    let starts: Vec<u64> = s.slices.iter().map(|x| x.start_block_num).collect();
    assert_eq!(starts, vec![0, 192, 384]);
    let s = HeaderSlices::new(HEADER_SLICE_MEM_SIZE - 1, 0, 400);
    assert_eq!(s.slices.len(), 0);
    assert!(!s.is_empty_at_final_position());
}
