use noid_mobile::bootstrap::{MobileBootstrapStage, NetworkCommand};
use noid_mobile::p2p_runtime::MobileP2PRuntime;
use noid_mobile::peer::{FailureDomain, MobilePeer, PeerId};
use noid_mobile::segments::{
    segment_followup, BoundaryHeader, ManifestError, SegmentFailure, SegmentFollowup, SegmentKey, SegmentReply,
    SegmentStep, SnapshotManifest,
};
use noid_mobile::snapshot::{
    post_install_request, HeaderBatchStep, HeadersFailure, HeadersStep, InstallError, ManifestStep,
    RequestFailureKind, SnapshotBoundary, TerminalStep,
};

fn peer(n: u8) -> PeerId {
    PeerId::from_bytes(&[0x12, 0x20, n]).unwrap()
}

fn boundary(height: u64) -> SnapshotBoundary {
    SnapshotBoundary { height, hash: [7; 32], chainwork: [8; 32], manifest_digest: [9; 32] }
}

fn waiting_for_manifest() -> MobileP2PRuntime {
    let mut runtime = MobileP2PRuntime::new();
    let info = MobilePeer { failure_domain: FailureDomain(1), locally_selected: true };
    runtime.peer_connected(peer(1), info, 0, None, 0);
    runtime
}

/// All headers up to height 1000 staged from genesis and sealed, the terminal requested.
fn waiting_for_terminal() -> MobileP2PRuntime {
    let mut runtime = waiting_for_manifest();
    runtime.manifest_staged(&boundary(1_000), 0);
    runtime.first_headers_queued(1, [8; 32]);
    runtime.snapshot_headers_appended(513);
    runtime.next_headers_queued(513);
    assert!(matches!(runtime.snapshot_headers_appended(1_001), HeadersStep::Seal));
    runtime.snapshot_headers_sealed();
    runtime.terminal_requested();
    runtime
}

fn syncing() -> MobileP2PRuntime {
    let mut runtime = waiting_for_terminal();
    assert_eq!(runtime.history_step_terminal(1, &peer(1), 1_000, &[7; 32], 10), TerminalStep::Verify);
    assert!(runtime.take_snapshot_offer());
    runtime.snapshot_authorized();
    runtime.snapshot_sync_started();
    runtime
}

#[test]
fn manifests_are_correlated() {
    let runtime = waiting_for_manifest();
    assert_eq!(runtime.state_manifest(2, &peer(1), 5), ManifestStep::Stale);
    assert_eq!(runtime.state_manifest(1, &peer(2), 5), ManifestStep::Stale);
    assert_eq!(runtime.state_manifest(1, &peer(1), 0), ManifestStep::EmptySnapshot);
    assert_eq!(runtime.state_manifest(1, &peer(1), 5), ManifestStep::Accept);
}

#[test]
fn no_missing_header_seals_at_once() {
    let mut runtime = waiting_for_manifest();
    assert!(matches!(runtime.manifest_staged(&boundary(40), 40), HeadersStep::Seal));
    assert!(!runtime.slots.header_staging);
    match runtime.snapshot_headers_sealed() {
        NetworkCommand::RequestHistoryStepTerminal { token, height, block_hash, .. } => {
            assert_eq!(token, 1);
            assert_eq!(height, 40);
            assert_eq!(block_hash, [7; 32]);
        }
        other => panic!("{:?}", other),
    }
    runtime.terminal_requested();
    assert!(matches!(runtime.stage, MobileBootstrapStage::WaitingTerminal { boundary_height: 40, .. }));
}

#[test]
fn snapshot_headers_are_fetched_in_batches() {
    let mut runtime = waiting_for_manifest();
    match runtime.manifest_staged(&boundary(1_000), 0) {
        HeadersStep::Fetch(NetworkCommand::FetchSnapshotHeaders { generation, token, start_height, count, .. }) => {
            assert_eq!((generation, token, start_height, count), (1, 1, 1, 512));
        }
        other => panic!("{:?}", other),
    }
    assert_eq!(runtime.phase, 2);
    runtime.first_headers_queued(1, [8; 32]);
    assert_eq!(runtime.snapshot_headers_batch(2, 1, &peer(1), 1, 5), HeaderBatchStep::Stale);
    assert_eq!(runtime.snapshot_headers_batch(1, 2, &peer(1), 1, 5), HeaderBatchStep::Mismatch);
    assert_eq!(runtime.snapshot_headers_batch(1, 1, &peer(2), 1, 5), HeaderBatchStep::Mismatch);
    assert_eq!(runtime.snapshot_headers_batch(1, 1, &peer(1), 2, 5), HeaderBatchStep::Mismatch);
    assert_eq!(runtime.snapshot_headers_batch(1, 1, &peer(1), 1, 0), HeaderBatchStep::Empty);
    assert_eq!(runtime.snapshot_headers_batch(1, 1, &peer(1), 1, 5), HeaderBatchStep::Append);
    match runtime.snapshot_headers_appended(513) {
        HeadersStep::Fetch(NetworkCommand::FetchSnapshotHeaders { token, start_height, count, .. }) => {
            assert_eq!((token, start_height, count), (2, 513, 488));
        }
        other => panic!("{:?}", other),
    }
    runtime.next_headers_queued(513);
    assert_eq!(runtime.snapshot_headers_batch(1, 2, &peer(1), 513, 5), HeaderBatchStep::Append);
    assert!(matches!(runtime.snapshot_headers_appended(1_001), HeadersStep::Seal));
    assert_eq!(runtime.snapshot_headers_batch(1, 2, &peer(1), 513, 5), HeaderBatchStep::StagingMissing);
}

#[test]
fn local_capacity_keeps_the_staged_headers() {
    let mut runtime = waiting_for_manifest();
    runtime.manifest_staged(&boundary(1_000), 0);
    runtime.first_headers_queued(1, [8; 32]);
    match runtime.snapshot_headers_failed(1, 1, peer(1), 1, 512, RequestFailureKind::LocalCapacity) {
        HeadersFailure::Retry(NetworkCommand::FetchSnapshotHeaders { token, start_height, count, .. }) => {
            assert_eq!((token, start_height, count), (1, 1, 512));
        }
        other => panic!("{:?}", other),
    }
    assert!(runtime.slots.header_staging);
    let failure = runtime.snapshot_headers_failed(1, 9, peer(1), 1, 512, RequestFailureKind::Other);
    assert!(matches!(failure, HeadersFailure::Ignore));
    let failure = runtime.snapshot_headers_failed(1, 1, peer(1), 1, 512, RequestFailureKind::Unavailable);
    assert!(matches!(failure, HeadersFailure::Discard));
    assert!(matches!(runtime.stage, MobileBootstrapStage::Idle));
    assert!(!runtime.slots.header_staging);
    assert!(!runtime.slots.offer);
}

#[test]
fn terminals_are_correlated() {
    let mut runtime = waiting_for_terminal();
    let hash = [7; 32];
    assert_eq!(runtime.history_step_terminal(2, &peer(1), 1_000, &hash, 5), TerminalStep::Stale);
    assert_eq!(runtime.history_step_terminal(1, &peer(2), 1_000, &hash, 5), TerminalStep::Stale);
    assert_eq!(runtime.history_step_terminal(1, &peer(1), 1_001, &hash, 5), TerminalStep::Stale);
    assert_eq!(runtime.history_step_terminal(1, &peer(1), 1_000, &[6; 32], 5), TerminalStep::Stale);
    assert_eq!(runtime.history_step_terminal(1, &peer(1), 1_000, &hash, 0), TerminalStep::Empty);
    assert!(runtime.boundary_matches(1_000, &hash));
    assert!(!runtime.boundary_matches(999, &hash));
    assert_eq!(runtime.history_step_terminal(1, &peer(1), 1_000, &hash, 5), TerminalStep::Verify);
    assert_eq!(runtime.history_step_terminal(1, &peer(1), 1_000, &hash, 5), TerminalStep::HeadersMissing);
}

#[test]
fn failed_terminal_request_goes_idle() {
    let mut runtime = waiting_for_terminal();
    runtime.terminal_request_failed(1, &peer(2));
    assert!(runtime.snapshot_bootstrap_active());
    runtime.terminal_request_failed(1, &peer(1));
    assert!(matches!(runtime.stage, MobileBootstrapStage::Idle));
}

fn manifest() -> SnapshotManifest {
    SnapshotManifest {
        tip_hash: [7; 32],
        tip_height: 1_000,
        state_root: [5; 32],
        log_slots: 20,
        active_slot_count: 3,
        alloc_counter: 4,
        segment_ids: vec![2, 5],
        segment_roots: vec![[1; 32], [2; 32]],
        segment_lengths: vec![100, 200],
    }
}

fn header() -> BoundaryHeader {
    BoundaryHeader {
        hash: [7; 32],
        height: 1_000,
        state_root: [5; 32],
        log_slots: 20,
        active_slot_count: 3,
        alloc_counter: 4,
    }
}

#[test]
fn manifest_binds_to_its_header() {
    let descriptors = manifest().bind(&header()).unwrap();
    assert_eq!(descriptors.len(), 2);
    assert_eq!(descriptors[1].segment_id, 5);
    assert_eq!(descriptors[1].segment_root, [2; 32]);
    assert_eq!(descriptors[1].encoded_len, 200);
    for change in 0..6 {
        let mut other = header();
        match change {
            0 => other.hash = [0; 32],
            1 => other.height = 999,
            2 => other.state_root = [0; 32],
            3 => other.log_slots = 21,
            4 => other.active_slot_count = 0,
            _ => other.alloc_counter = 0,
        }
        assert_eq!(manifest().bind(&other).unwrap_err(), ManifestError::HeaderMismatch);
    }
}

#[test]
fn manifest_lists_must_align() {
    let mut bad = manifest();
    bad.segment_roots.pop();
    assert_eq!(bad.bind(&header()).unwrap_err(), ManifestError::Malformed);
    let mut bad = manifest();
    bad.segment_lengths.push(1);
    assert_eq!(bad.bind(&header()).unwrap_err(), ManifestError::Malformed);
}

fn key() -> SegmentKey {
    SegmentKey { segment_id: 2, tip_height: 1_000, tip_hash: [7; 32], manifest_digest: [9; 32] }
}

fn reply(busy_for_ms: Option<u32>, data_len: Option<usize>) -> SegmentReply {
    SegmentReply {
        expected_tip_height: 1_000,
        expected_tip_hash: [7; 32],
        manifest_digest: [9; 32],
        busy_for_ms,
        data_len,
    }
}

#[test]
fn segment_replies_are_correlated() {
    let idle = waiting_for_manifest();
    assert_eq!(idle.state_segment(Some(key()), &reply(None, Some(5)), 0), SegmentStep::NoTransfer);
    let runtime = syncing();
    assert_eq!(runtime.phase, 3);
    assert_eq!(runtime.state_segment(None, &reply(None, Some(5)), 0), SegmentStep::Unknown);
    let mut stale = reply(None, Some(5));
    stale.manifest_digest = [0; 32];
    assert_eq!(runtime.state_segment(Some(key()), &stale, 0), SegmentStep::Stale);
    assert_eq!(
        runtime.state_segment(Some(key()), &reply(Some(250), Some(5)), 1_000),
        SegmentStep::Busy { retry_at_ms: 1_250 }
    );
    assert_eq!(runtime.state_segment(Some(key()), &reply(None, None), 0), SegmentStep::Unavailable);
    assert_eq!(runtime.state_segment(Some(key()), &reply(None, Some(5)), 0), SegmentStep::Admit { len: 5 });
}

#[test]
fn failed_segment_requests_are_recorded_by_kind() {
    let runtime = syncing();
    let kinds = [
        (RequestFailureKind::LocalCapacity, SegmentFailure::Defer),
        (RequestFailureKind::Unavailable, SegmentFailure::Unavailable),
        (RequestFailureKind::InvalidResponse, SegmentFailure::RejectProvider),
        (RequestFailureKind::Other, SegmentFailure::RequestFailed),
    ];
    for (kind, failure) in kinds {
        assert_eq!(runtime.segment_request_failed(Some(key()), 1_000, &[7; 32], &[9; 32], kind), failure);
        assert_eq!(
            runtime.segment_request_failed(Some(key()), 999, &[7; 32], &[9; 32], kind),
            SegmentFailure::Ignore
        );
        assert_eq!(runtime.segment_request_failed(None, 1_000, &[7; 32], &[9; 32], kind), SegmentFailure::Ignore);
    }
    assert_eq!(runtime.segment_request_busy(Some(key()), 1_000, &[7; 32], &[9; 32], 30, 70), Some(100));
    assert_eq!(runtime.segment_request_busy(Some(key()), 1_000, &[0; 32], &[9; 32], 30, 70), None);
}

#[test]
fn segments_are_followed_up() {
    assert_eq!(segment_followup(false, true, true), SegmentFollowup::RejectProvider);
    assert_eq!(segment_followup(true, false, true), SegmentFollowup::RejectProvider);
    assert_eq!(segment_followup(true, true, false), SegmentFollowup::RequestNext);
    assert_eq!(segment_followup(true, true, true), SegmentFollowup::Install);
    match key().request(peer(3)) {
        NetworkCommand::RequestStateSegment { segment_id, expected_tip_height, .. } => {
            assert_eq!((segment_id, expected_tip_height), (2, 1_000));
        }
        other => panic!("{:?}", other),
    }
}

#[test]
fn nothing_is_installed_before_all_segments_are_verified() {
    let mut idle = waiting_for_manifest();
    assert_eq!(idle.begin_install(true), Err(InstallError::TransportMissing));
    let mut runtime = syncing();
    assert_eq!(runtime.begin_install(false), Err(InstallError::SegmentsUnverified));
    assert!(matches!(runtime.stage, MobileBootstrapStage::SyncingSnapshot { .. }));
    assert_eq!(runtime.begin_install(true), Ok(()));
    assert!(matches!(runtime.stage, MobileBootstrapStage::Installing));
    assert_eq!(runtime.begin_install(true), Err(InstallError::TransportMissing));
    runtime.finish_install(1_000, peer(1), true, 50);
    match runtime.stage {
        MobileBootstrapStage::TailSync(tail) => {
            assert_eq!(tail.boundary_height, 1_000);
            assert_eq!(tail.inflight_start, Some(1_001));
            assert_eq!(tail.inflight_since, Some(50));
        }
        other => panic!("{:?}", other),
    }
    assert_eq!(runtime.phase, 4);
    match post_install_request(1_000, peer(1)) {
        NetworkCommand::FetchHeaders { start_height, count, .. } => assert_eq!((start_height, count), (1_001, 512)),
        other => panic!("{:?}", other),
    }
}

#[test]
fn tail_above_a_snapshot_retries_if_the_lane_was_full() {
    let mut runtime = syncing();
    runtime.begin_install(true).unwrap();
    runtime.finish_install(1_000, peer(1), false, 50);
    match runtime.stage {
        MobileBootstrapStage::TailSync(tail) => assert_eq!(tail.inflight_start, None),
        other => panic!("{:?}", other),
    }
}

#[test]
fn refusals_of_the_bootstrap_are_worded() {
    assert_eq!(ManifestStep::Accept.complaint(), None);
    assert_eq!(ManifestStep::Stale.complaint(), None);
    assert_eq!(
        ManifestStep::EmptySnapshot.complaint(),
        Some("mobile bootstrap peer returned empty snapshot manifest")
    );
    assert_eq!(HeaderBatchStep::Stale.complaint(), None);
    assert_eq!(HeaderBatchStep::Append.complaint(), None);
    assert_eq!(
        HeaderBatchStep::Mismatch.complaint(),
        Some("mobile snapshot header response correlation mismatch")
    );
    assert_eq!(HeaderBatchStep::Empty.complaint(), Some("mobile snapshot header peer returned empty range"));
    assert_eq!(HeaderBatchStep::StagingMissing.complaint(), Some("mobile snapshot header staging missing"));
    assert_eq!(TerminalStep::Verify.complaint(), None);
    assert_eq!(
        TerminalStep::Empty.complaint(),
        Some("mobile bootstrap peer returned empty HistoryStep terminal")
    );
    assert_eq!(TerminalStep::HeadersMissing.complaint(), Some("validated mobile snapshot headers missing"));
    assert_eq!(
        InstallError::TransportMissing.message(),
        "mobile snapshot transport disappeared before install"
    );
    assert_eq!(
        InstallError::SegmentsUnverified.message(),
        "mobile snapshot install attempted before every segment was verified"
    );
    assert_eq!(InstallError::StagingMissing.message(), "completed mobile State staging missing");
    assert_eq!(InstallError::BoundaryMissing.message(), "verified mobile snapshot boundary missing");
    assert_eq!(InstallError::HeadersMissing.message(), "validated mobile snapshot headers missing");
    assert_eq!(
        ManifestError::HeaderMismatch.message(),
        "mobile snapshot manifest metadata does not match authenticated boundary header"
    );
    assert_eq!(
        ManifestError::Malformed.message(),
        "mobile snapshot manifest segment descriptor vectors are malformed"
    );
}

#[test]
fn authorized_snapshot_keeps_its_headers() {
    let mut runtime = waiting_for_terminal();
    assert_eq!(runtime.history_step_terminal(1, &peer(1), 1_000, &[7; 32], 10), TerminalStep::Verify);
    assert_eq!(runtime.history_step_terminal(1, &peer(1), 1_000, &[7; 32], 10), TerminalStep::HeadersMissing);
    runtime.snapshot_authorized();
    assert_eq!(runtime.history_step_terminal(1, &peer(1), 1_000, &[7; 32], 10), TerminalStep::Verify);
    assert_eq!(runtime.begin_install(true), Err(InstallError::TransportMissing));
}
