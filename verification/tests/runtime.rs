use noid_mobile::bootstrap::{
    gap_requires_snapshot_sync, header_range_count, MobileBootstrapStage, NetworkCommand, TailSync,
};
use noid_mobile::p2p_runtime::{
    mobile_p2p_status, ActiveSuffix, MobileP2PRuntime, RecoveryReason, TailStep,
};
use noid_mobile::peer::{FailureDomain, MobilePeer, PeerId, PeerTable};

const SERVING_DEPTH: u64 = 1000;

fn peer(n: u8) -> PeerId {
    PeerId::from_bytes(&[0x12, 0x20, n]).unwrap()
}

fn info(selected: bool) -> MobilePeer {
    MobilePeer { failure_domain: FailureDomain(7), locally_selected: selected }
}

fn shown<T: std::fmt::Debug>(value: &T) -> String {
    format!("{:?}", value)
}

fn fetch(n: u8, start_height: u64, count: u16) -> String {
    shown(&NetworkCommand::FetchHeaders { peer: peer(n), start_height, count })
}

fn tail(runtime: &MobileP2PRuntime) -> TailSync {
    match runtime.stage {
        MobileBootstrapStage::TailSync(tail) => tail,
        _ => panic!("not in the tail"),
    }
}

/// A runtime in the tail above height 100, with the request of peer 1 outstanding since 0 ms.
fn in_tail() -> MobileP2PRuntime {
    let mut runtime = MobileP2PRuntime::new();
    runtime.peer_connected(peer(1), info(true), 100, None, 0);
    match runtime.drive_bootstrap_tail(false, 100, 0, SERVING_DEPTH) {
        TailStep::Request { peer, start_height } => runtime.tail_request_sent(peer, start_height, true, 0),
        other => panic!("{:?}", other),
    }
    runtime
}

#[test]
fn status_labels() {
    let labels: Vec<(usize, u8, &str, bool)> = vec![
        (0, 0, "WAITING", false),
        (2, 0, "CONNECTING", true),
        (0, 1, "MANIFEST", true),
        (2, 2, "HEADERS", true),
        (2, 3, "STATE", true),
        (2, 4, "TAIL", true),
        (2, 5, "SYNCED", false),
        (1, 9, "CONNECTING", true),
    ];
    for (peers, phase, label, syncing) in labels {
        let status = mobile_p2p_status(peers, phase);
        assert_eq!(status.peers, peers);
        assert_eq!(status.phase, label);
        assert_eq!(status.syncing, syncing);
    }
}

#[test]
fn empty_chain_asks_for_a_manifest() {
    let mut runtime = MobileP2PRuntime::new();
    let actions = runtime.peer_connected(peer(1), info(true), 0, None, 5);
    assert_eq!(
        shown(&actions.manifest.unwrap()),
        shown(&NetworkCommand::RequestStateManifest {
            generation: 1,
            peer: peer(1),
            requester_height: 0,
            requested_manifest_digest: [0; 32],
        })
    );
    assert!(!actions.pull_mempool);
    assert!(actions.headers.probes.is_empty());
    assert_eq!(shown(&actions.headers.fetch.unwrap()), fetch(1, 1, 512));
    assert_eq!(runtime.phase, 1);
    assert_eq!(runtime.peer_count(), 1);
    assert!(runtime.snapshot_bootstrap_active());
}

#[test]
fn durable_chain_resumes_in_the_tail() {
    let mut runtime = MobileP2PRuntime::new();
    let actions = runtime.peer_connected(peer(1), info(true), 100, None, 5);
    assert!(actions.manifest.is_none());
    assert!(actions.headers.probes.is_empty() && actions.headers.fetch.is_none());
    assert_eq!(tail(&runtime).observed_frontier, 100);
    assert_eq!(runtime.phase, 4);
    assert!(!runtime.bootstrap_complete_flag());
    assert_eq!(runtime.peer_failure_domain(&peer(1)).unwrap().0, 7);
    assert!(runtime.peer_failure_domain(&peer(2)).is_none());
    assert_eq!(runtime.failure_domain_or(&peer(1), FailureDomain(3)).0, 7);
    assert_eq!(runtime.failure_domain_or(&peer(2), FailureDomain(3)).0, 3);
}

#[test]
fn running_snapshot_bootstrap_is_kept() {
    let mut runtime = MobileP2PRuntime::new();
    runtime.peer_connected(peer(1), info(true), 0, None, 0);
    let actions = runtime.peer_connected(peer(2), info(true), 0, None, 0);
    assert!(actions.manifest.is_none());
    assert_eq!(runtime.generation, 2);
    match runtime.stage {
        MobileBootstrapStage::WaitingManifest { generation, peer: waiting } => {
            assert_eq!(generation, 1);
            assert!(waiting.same(&peer(1)));
        }
        other => panic!("{:?}", other),
    }
}

#[test]
fn failed_manifest_request_goes_idle_only_if_it_fits() {
    let mut runtime = MobileP2PRuntime::new();
    runtime.peer_connected(peer(1), info(true), 0, None, 0);
    runtime.manifest_request_failed(2, &peer(1));
    assert!(runtime.snapshot_bootstrap_active());
    runtime.manifest_request_failed(1, &peer(2));
    assert!(runtime.snapshot_bootstrap_active());
    runtime.manifest_request_failed(1, &peer(1));
    assert!(matches!(runtime.stage, MobileBootstrapStage::Idle));
}

#[test]
fn only_the_answer_to_the_outstanding_request_counts() {
    let mut runtime = in_tail();
    let before = shown(&tail(&runtime));
    runtime.note_tail_header_batch(&peer(2), &vec![101], 10);
    runtime.note_tail_header_batch(&peer(1), &vec![102, 103], 10);
    assert_eq!(shown(&tail(&runtime)), before);
    runtime.note_tail_header_batch(&peer(1), &vec![101, 102, 140], 10);
    let after = tail(&runtime);
    assert_eq!(after.inflight_start, None);
    assert_eq!(after.waiting_start, Some(101));
    assert_eq!(after.waiting_since, Some(10));
    assert_eq!(after.observed_frontier, 140);
}

#[test]
fn empty_answer_completes_the_bootstrap() {
    let mut runtime = in_tail();
    runtime.peer_connected(peer(9), info(false), 100, None, 0);
    runtime.peer_connected(peer(3), info(true), 100, None, 0);
    runtime.note_tail_header_batch(&peer(1), &vec![], 10);
    assert!(matches!(runtime.drive_bootstrap_tail(false, 100, 11, SERVING_DEPTH), TailStep::Complete));
    let pulls = runtime.bootstrap_published();
    assert_eq!(pulls.len(), 2);
    assert!(pulls[0].same(&peer(1)));
    assert!(pulls[1].same(&peer(3)));
    runtime.mempool_sync_queued(pulls[0]);
    runtime.mempool_sync_queued(pulls[1]);
    assert!(runtime.bootstrap_complete_flag());
    assert_eq!(runtime.phase, 5);
    let actions = runtime.peer_connected(peer(4), info(true), 100, None, 20);
    assert!(actions.pull_mempool);
    let actions = runtime.peer_connected(peer(5), info(false), 100, None, 20);
    assert!(!actions.pull_mempool);
}

#[test]
fn a_higher_announcement_prevents_completion() {
    let mut runtime = in_tail();
    runtime.note_tail_header_batch(&peer(1), &vec![], 10);
    let requests = runtime.header_announcement(peer(2), 103, &[1; 32], 100, &[2; 32], None, 11);
    assert!(requests.probes.is_empty() && requests.fetch.is_none());
    assert_eq!(tail(&runtime).observed_frontier, 103);
    match runtime.drive_bootstrap_tail(false, 100, 12, SERVING_DEPTH) {
        TailStep::Request { peer: asked, start_height } => {
            assert!(asked.same(&peer(1)));
            assert_eq!(start_height, 101);
        }
        other => panic!("{:?}", other),
    }
}

#[test]
fn stale_empty_answer_does_not_complete() {
    let mut runtime = in_tail();
    runtime.note_tail_header_batch(&peer(1), &vec![], 10);
    assert!(matches!(runtime.drive_bootstrap_tail(false, 105, 11, SERVING_DEPTH), TailStep::Request { .. }));
    assert_eq!(tail(&runtime).empty_probe_start, None);
}

#[test]
fn the_tail_waits_for_its_answer_and_its_timeout() {
    let mut runtime = in_tail();
    assert!(matches!(runtime.drive_bootstrap_tail(false, 100, 9_999, SERVING_DEPTH), TailStep::Nothing));
    assert!(matches!(runtime.drive_bootstrap_tail(true, 100, 60_000, SERVING_DEPTH), TailStep::Nothing));
    assert!(matches!(runtime.drive_bootstrap_tail(false, 100, 10_000, SERVING_DEPTH), TailStep::Request { .. }));
}

#[test]
fn an_accepted_batch_has_time_to_become_canonical() {
    let mut runtime = in_tail();
    runtime.note_tail_header_batch(&peer(1), &vec![101, 102], 1_000);
    assert!(matches!(runtime.drive_bootstrap_tail(false, 100, 15_999, SERVING_DEPTH), TailStep::Nothing));
    assert!(matches!(runtime.drive_bootstrap_tail(false, 101, 2_000, SERVING_DEPTH), TailStep::Request { .. }));
    assert_eq!(tail(&runtime).waiting_start, None);
}

#[test]
fn an_expired_wait_moves_to_another_peer() {
    let mut runtime = in_tail();
    runtime.peer_connected(peer(2), info(false), 100, None, 0);
    runtime.note_tail_header_batch(&peer(1), &vec![101, 102], 1_000);
    match runtime.drive_bootstrap_tail(false, 100, 16_000, SERVING_DEPTH) {
        TailStep::Request { peer: asked, start_height } => {
            assert!(asked.same(&peer(2)));
            assert_eq!(start_height, 101);
            runtime.tail_request_sent(asked, start_height, true, 16_001);
        }
        other => panic!("{:?}", other),
    }
    assert!(tail(&runtime).peer.same(&peer(2)));
    assert_eq!(tail(&runtime).inflight_start, Some(101));
}

#[test]
fn an_expired_wait_with_one_peer_asks_it_again() {
    let mut runtime = in_tail();
    runtime.note_tail_header_batch(&peer(1), &vec![101, 102], 1_000);
    match runtime.drive_bootstrap_tail(false, 100, 16_000, SERVING_DEPTH) {
        TailStep::Request { peer: asked, .. } => assert!(asked.same(&peer(1))),
        other => panic!("{:?}", other),
    }
}

#[test]
fn a_wide_gap_takes_a_snapshot() {
    let mut runtime = in_tail();
    runtime.note_tail_header_batch(&peer(1), &vec![101, 1_101], 1_000);
    match runtime.drive_bootstrap_tail(false, 100, 1_001, SERVING_DEPTH) {
        TailStep::Snapshot(NetworkCommand::RequestStateManifest { generation, requester_height, .. }) => {
            assert_eq!(generation, 1);
            assert_eq!(requester_height, 100);
        }
        other => panic!("{:?}", other),
    }
    assert!(gap_requires_snapshot_sync(100, 1_101, SERVING_DEPTH));
    assert!(!gap_requires_snapshot_sync(100, 1_100, SERVING_DEPTH));
    assert!(!gap_requires_snapshot_sync(u64::MAX, u64::MAX, SERVING_DEPTH));
}

#[test]
fn disconnect_releases_the_tail_and_forgets_the_peer() {
    let mut runtime = in_tail();
    runtime.peer_connected(peer(2), info(false), 100, None, 0);
    runtime.peer_disconnected(&peer(1));
    assert_eq!(runtime.peer_count(), 1);
    assert_eq!(tail(&runtime).inflight_start, None);
    match runtime.drive_bootstrap_tail(false, 100, 1, SERVING_DEPTH) {
        TailStep::Request { peer: asked, .. } => assert!(asked.same(&peer(2))),
        other => panic!("{:?}", other),
    }
    runtime.peer_disconnected(&peer(2));
    assert!(matches!(runtime.drive_bootstrap_tail(false, 100, 1, SERVING_DEPTH), TailStep::Nothing));
}

#[test]
fn failed_header_request_is_released() {
    let mut runtime = in_tail();
    runtime.headers_request_failed(&peer(1), 102);
    assert_eq!(tail(&runtime).inflight_start, Some(101));
    runtime.headers_request_failed(&peer(1), 101);
    assert_eq!(tail(&runtime).inflight_start, None);
}

#[test]
fn announcements_outside_the_tail() {
    let mut runtime = MobileP2PRuntime::new();
    let here = [3; 32];
    let requests = runtime.header_announcement(peer(1), 102, &[9; 32], 100, &here, None, 0);
    assert!(requests.probes.is_empty());
    assert_eq!(shown(&requests.fetch.unwrap()), fetch(1, 101, 2));
    let requests = runtime.header_announcement(peer(1), 100, &here, 100, &here, None, 0);
    assert!(requests.probes.is_empty() && requests.fetch.is_none());
    let requests = runtime.header_announcement(peer(1), 100, &[9; 32], 100, &here, None, 0);
    assert_eq!(shown(&requests.fetch.unwrap()), fetch(1, 0, 101));
    let requests = runtime.header_announcement(peer(1), 50, &[9; 32], 1_000, &here, None, 0);
    assert_eq!(shown(&requests.fetch.unwrap()), fetch(1, 489, 512));
    let suffix = ActiveSuffix { first_height: Some(101), header_count: 3, target_height: 103 };
    runtime.peer_connected(peer(1), info(false), 0, None, 0);
    let requests = runtime.header_announcement(peer(1), 102, &[9; 32], 100, &here, Some(suffix), 0);
    assert_eq!(requests.probes.len(), 1);
    assert_eq!(shown(&requests.probes[0]), fetch(1, 100, 4));
    assert!(requests.fetch.is_none());
}

#[test]
fn probes_of_one_range_are_spaced() {
    let mut runtime = MobileP2PRuntime::new();
    for n in 1..=6 {
        runtime.peer_connected(peer(n), info(false), 100, None, 0);
    }
    let suffix = ActiveSuffix { first_height: Some(101), header_count: 3, target_height: 103 };
    let commands = runtime.probe_active_suffix_providers(Some(suffix), 1_000);
    assert_eq!(commands.len(), 4);
    assert_eq!(shown(&commands[0]), fetch(1, 100, 4));
    assert_eq!(shown(&commands[3]), fetch(4, 100, 4));
    assert!(runtime.probe_active_suffix_providers(Some(suffix), 3_999).is_empty());
    assert_eq!(runtime.probe_active_suffix_providers(Some(suffix), 4_000).len(), 4);
    assert!(runtime.probe_active_suffix_providers(None, 9_000).is_empty());
    let headless = ActiveSuffix { first_height: None, header_count: 0, target_height: 103 };
    assert!(runtime.probe_active_suffix_providers(Some(headless), 9_000).is_empty());
}

#[test]
fn recovery_runs_after_the_bootstrap_only() {
    let mut runtime = in_tail();
    assert!(runtime.drive_live_suffix_recovery(true, true, true).is_none());
    runtime.note_tail_header_batch(&peer(1), &vec![], 10);
    runtime.drive_bootstrap_tail(false, 100, 11, SERVING_DEPTH);
    runtime.bootstrap_published();
    assert!(runtime.drive_live_suffix_recovery(false, true, true).is_none());
    assert!(matches!(runtime.drive_live_suffix_recovery(true, true, false), Some(RecoveryReason::Stalled)));
    assert!(matches!(runtime.drive_live_suffix_recovery(true, false, true), Some(RecoveryReason::Extinct)));
    assert!(runtime.drive_live_suffix_recovery(true, false, false).is_none());
}

#[test]
fn one_application_at_a_time() {
    let mut runtime = in_tail();
    assert!(!runtime.begin_apply(false));
    assert!(runtime.begin_apply(true));
    assert!(!runtime.begin_apply(true));
    assert!(matches!(runtime.drive_bootstrap_tail(false, 100, 60_000, SERVING_DEPTH), TailStep::Nothing));
    runtime.suffix_committed(120);
    runtime.finish_apply();
    assert_eq!(tail(&runtime).observed_frontier, 120);
    assert!(runtime.begin_apply(true));
}

#[test]
fn header_ranges_fit_one_batch() {
    assert_eq!(header_range_count(101, 101), 1);
    assert_eq!(header_range_count(101, 612), 512);
    assert_eq!(header_range_count(101, 9_000), 512);
    assert_eq!(header_range_count(0, u64::MAX), 512);
}

#[test]
fn peer_table_overwrites_and_keeps_order() {
    let mut table = PeerTable::new();
    table.insert(peer(5), info(false));
    table.insert(peer(3), info(false));
    table.insert(peer(5), info(true));
    assert_eq!(table.len(), 2);
    assert!(table.get(&peer(5)).unwrap().locally_selected);
    assert!(table.alternate(&peer(5)).unwrap().same(&peer(3)));
    assert!(table.alternate(&peer(3)).unwrap().same(&peer(5)));
    table.remove(&peer(5));
    assert!(table.find(&peer(5)).is_none());
    assert!(table.alternate(&peer(3)).is_none());
}

#[test]
fn mempool_peers_are_picked_by_encoding() {
    let mut table = PeerTable::new();
    for n in [9, 4, 7, 1, 8] {
        table.insert(peer(n), info(n != 1));
    }
    let chosen = table.lowest_unrequested(&vec![peer(4)], 2);
    assert_eq!(chosen.len(), 2);
    assert!(chosen[0].same(&peer(7)));
    assert!(chosen[1].same(&peer(8)));
}

#[test]
fn peer_identities_read_back() {
    let bytes: Vec<u8> = (0..38).collect();
    let id = PeerId::from_bytes(&bytes).unwrap();
    assert_eq!(id.to_bytes(), bytes);
    assert!(PeerId::from_bytes(&[0; 67]).is_none());
    assert!(!id.same(&peer(1)));
    assert!(id.precedes(&peer(1)));
    assert!(!peer(1).precedes(&id));
}
