use noid_mobile::bootstrap::NetworkCommand;
use noid_mobile::header_planner::{
    advertise_inventory_for_known_headers, finalized_header_search_floor, header_batch_exhausts_nonfinal_window,
    header_inventory_validation_anchor, nonfinal_header_discovery_range, plan_header_inventory,
    plan_validated_candidate, record_validated_headers, source_independent_suffix_offer, validation_path,
    ChainPoint, HeaderInventoryPlan, HeaderInventoryRecord, InventoryStep, ObjectClaim, PlanError, ProviderInventory, SuffixKind,
    SuffixSyncError, ValidatedHeader,
};
use noid_mobile::inventory::{
    gossip_verdict, inventory_action, merge_headers, tally, within_wire_limit, CandidateFacts, CandidateStep, GossipVerdict,
    InventoryAction, SubmitOutcome, TxOutcome,
};
use noid_mobile::p2p_runtime::{ActiveSuffix, MobileP2PRuntime};
use noid_mobile::peer::{FailureDomain, MobilePeer, PeerId, PeerTable};
use noid_mobile::sync::{
    admission_after, busy_retry_at, canonical_headers, reconcile_finalized, AdmissionError, AdmissionStep,
    CanonicalRow, MobileSuffixAdmission, MobileSyncCoordinator, PlanSummary, ReconcileStep, RowError, StoredRow,
};

const DEPTH: u64 = 144;

fn peer(n: u8) -> PeerId {
    PeerId::from_bytes(&[0x12, 0x20, n]).unwrap()
}

fn point(height: u64, fill: u8) -> ChainPoint {
    ChainPoint::new(height, [fill; 32])
}

fn record(height: u64, fill: u8) -> HeaderInventoryRecord {
    HeaderInventoryRecord {
        height,
        hash: [fill; 32],
        difficulty_target: [1; 32],
        body: None,
        terminal: None,
    }
}

fn validated(height: u64, fill: u8) -> ValidatedHeader {
    ValidatedHeader { height, hash: [fill; 32], difficulty_target: [1; 32], cumulative_work: [height as u8; 32] }
}

fn plan(records: Vec<HeaderInventoryRecord>, found: Vec<Option<u64>>, known: Vec<bool>) -> InventoryStep {
    plan_header_inventory(point(500, 50), point(400, 40), &records, &found, &known, DEPTH)
}

#[test]
fn discovery_ranges() {
    assert_eq!(nonfinal_header_discovery_range(0, DEPTH), None);
    assert_eq!(nonfinal_header_discovery_range(500, DEPTH), Some((356, 145)));
    assert_eq!(nonfinal_header_discovery_range(10, DEPTH), Some((0, 11)));
    assert_eq!(finalized_header_search_floor(500, DEPTH), 356);
    assert_eq!(finalized_header_search_floor(100, DEPTH), 0);
    assert!(header_batch_exhausts_nonfinal_window(500, 356, DEPTH));
    assert!(!header_batch_exhausts_nonfinal_window(500, 357, DEPTH));
}

#[test]
fn canonical_anchor_comes_first() {
    let canonical = point(5, 1);
    let dag = point(9, 2);
    assert!(header_inventory_validation_anchor(Some(canonical), Some(dag)).unwrap().same(&canonical));
    assert!(header_inventory_validation_anchor(None, Some(dag)).unwrap().same(&dag));
    assert!(header_inventory_validation_anchor(None, None).is_none());
}

#[test]
fn empty_inventory_asks_for_the_nonfinal_range() {
    match plan(vec![], vec![], vec![]) {
        InventoryStep::Planned(HeaderInventoryPlan::NeedOlder { start_height, count }) => {
            assert_eq!((start_height, count), (356, 145));
        }
        other => panic!("{:?}", other),
    }
    let empty = plan_header_inventory(point(0, 0), point(0, 0), &vec![], &vec![], &vec![], DEPTH);
    assert!(matches!(empty, InventoryStep::Planned(HeaderInventoryPlan::Behind)));
}

#[test]
fn hanging_inventory_asks_for_older_headers() {
    match plan(vec![record(480, 1)], vec![None], vec![false]) {
        InventoryStep::Planned(HeaderInventoryPlan::NeedOlder { start_height, count }) => {
            assert_eq!((start_height, count), (356, 288));
        }
        other => panic!("{:?}", other),
    }
    let low = plan(vec![record(356, 1)], vec![None], vec![false]);
    assert!(matches!(low, InventoryStep::Planned(HeaderInventoryPlan::FinalizedDivergence)));
    let deep = plan_header_inventory(point(5_000, 50), point(4_000, 40), &vec![record(4_900, 1)], &vec![None], &vec![
        false,
    ], 1_000);
    assert!(matches!(
        deep,
        InventoryStep::Planned(HeaderInventoryPlan::NeedOlder { start_height: 4_000, count: 512 })
    ));
}

#[test]
fn known_tip_is_confirmed() {
    let at_tip = plan(vec![record(500, 50)], vec![Some(500)], vec![true]);
    assert!(matches!(at_tip, InventoryStep::Planned(HeaderInventoryPlan::Confirmed { .. })));
    let below = plan(vec![record(499, 49)], vec![Some(499)], vec![false]);
    assert!(matches!(below, InventoryStep::Planned(HeaderInventoryPlan::Behind)));
}

#[test]
fn branch_is_validated_above_its_highest_known_point() {
    let records = vec![record(498, 1), record(499, 2), record(500, 3), record(501, 4)];
    let found = vec![Some(498), Some(499), None, None];
    let known = vec![true, true, true, false];
    match plan(records, found, known) {
        InventoryStep::Validate { ancestor, competing } => {
            assert!(ancestor.same(&point(499, 2)));
            assert_eq!(competing.len(), 2);
            assert_eq!(competing[0].height, 500);
            assert_eq!(competing[1].height, 501);
        }
        other => panic!("{:?}", other),
    }
}

#[test]
fn validated_point_anchors_a_continuation() {
    let step = plan(vec![record(501, 1), record(502, 2)], vec![None, None], vec![true, false]);
    match step {
        InventoryStep::Validate { ancestor, competing } => {
            assert!(ancestor.same(&point(501, 1)));
            assert_eq!(competing.len(), 1);
        }
        other => panic!("{:?}", other),
    }
    let step = plan(vec![record(400, 40), record(401, 2)], vec![Some(399), None], vec![false, false]);
    assert!(matches!(step, InventoryStep::Validate { .. }));
    let step = plan(vec![record(399, 1), record(401, 2)], vec![None, None], vec![true, false]);
    assert!(matches!(step, InventoryStep::Planned(HeaderInventoryPlan::FinalizedDivergence)));
}

fn add_byte(work: [u8; 32], target: [u8; 32]) -> [u8; 32] {
    let mut sum = work;
    sum[0] = sum[0].wrapping_add(target[0]);
    sum
}

#[test]
fn candidate_sums_its_work() {
    let competing = vec![record(501, 1), record(502, 2)];
    let mut start = [0; 32];
    start[0] = 10;
    let mut end = [0; 32];
    end[0] = 12;
    match plan_validated_candidate(point(500, 50), start, competing.clone(), end, add_byte) {
        Ok(HeaderInventoryPlan::Candidate { headers, records, old_tip, target }) => {
            assert_eq!(headers.len(), 2);
            assert_eq!(headers[0].cumulative_work[0], 11);
            assert_eq!(headers[1].cumulative_work[0], 12);
            assert_eq!(records.len(), 2);
            assert!(old_tip.same(&point(500, 50)));
            assert!(target.same(&point(502, 2)));
        }
        other => panic!("{:?}", other),
    }
    let wrong = plan_validated_candidate(point(500, 50), start, competing, start, add_byte);
    assert_eq!(wrong.unwrap_err(), PlanError::ChainworkDisagrees);
}

#[test]
fn recording_stops_at_the_first_refusal() {
    let headers = vec![validated(1, 1), validated(2, 2), validated(3, 3)];
    let insert = |mut store: Vec<u64>, header: ValidatedHeader| {
        store.push(header.height);
        if header.height == 2 {
            (store, Err("refused"))
        } else {
            (store, Ok(()))
        }
    };
    let (store, result) = record_validated_headers(Vec::new(), &headers, insert);
    assert_eq!(store, vec![1, 2]);
    assert_eq!(result, Err("refused"));
    let (store, result) = record_validated_headers(Vec::new(), &vec![validated(5, 5)], insert);
    assert_eq!(store, vec![5]);
    assert_eq!(result, Ok(()));
}

#[test]
fn hints_of_known_headers_only() {
    let claim = ObjectClaim { height: 2, block_hash: [2; 32] };
    let mut with_body = record(2, 2);
    with_body.body = Some(claim);
    let mut with_terminal = record(3, 3);
    with_terminal.terminal = Some(claim);
    let records = vec![record(1, 1), with_body, with_terminal];
    let hints = advertise_inventory_for_known_headers(&records, &vec![true, true, false]).unwrap();
    assert_eq!(hints.len(), 1);
    assert_eq!(hints[0].height, 2);
    assert!(advertise_inventory_for_known_headers(&records, &vec![true, false, false]).is_none());
}

fn served(header: &ValidatedHeader) -> HeaderInventoryRecord {
    let mut record = header.header_only();
    record.body = Some(ObjectClaim { height: header.height, block_hash: header.hash });
    record
}

#[test]
fn suffix_offer_needs_terminal_and_bodies() {
    let headers = vec![validated(501, 1), validated(502, 2)];
    let claim = ObjectClaim { height: 502, block_hash: [2; 32] };
    let terminal = Some((peer(1), claim));
    let inventories = vec![
        ProviderInventory { peer: peer(1), records: vec![served(&headers[0])] },
        ProviderInventory { peer: peer(2), records: vec![headers[0].header_only(), served(&headers[1])] },
    ];
    let offer = |kind: SuffixKind, records: Vec<HeaderInventoryRecord>| Ok::<_, String>((kind, records));
    let tip = point(500, 50);
    let (source, (kind, records)) =
        source_independent_suffix_offer(terminal, tip, tip, &headers, &inventories, offer).unwrap();
    assert!(source.same(&peer(1)));
    assert_eq!(kind, SuffixKind::Live);
    assert!(records[0].terminal.is_none());
    assert_eq!(records[1].terminal.unwrap().height, 502);
    let base = point(499, 49);
    let (_, (kind, _)) = source_independent_suffix_offer(terminal, tip, base, &headers, &inventories, offer).unwrap();
    assert_eq!(kind, SuffixKind::Reorg);
    let none = source_independent_suffix_offer(terminal, tip, tip, &vec![], &inventories, offer);
    assert_eq!(none.unwrap_err(), SuffixSyncError::EmptySuffix);
    let none = source_independent_suffix_offer(None, tip, tip, &headers, &inventories, offer);
    assert_eq!(none.unwrap_err(), SuffixSyncError::MissingTipTerminal);
    let fewer = vec![ProviderInventory { peer: peer(1), records: vec![served(&headers[0])] }];
    let none = source_independent_suffix_offer(terminal, tip, tip, &headers, &fewer, offer);
    assert_eq!(none.unwrap_err(), SuffixSyncError::MissingBodySource);
    let refuse = |_: SuffixKind, _: Vec<HeaderInventoryRecord>| -> Result<u8, String> {
        Err("bad link".to_string())
    };
    let none = source_independent_suffix_offer(terminal, tip, tip, &headers, &inventories, refuse);
    assert_eq!(none.unwrap_err(), SuffixSyncError::Offer("bad link".to_string()));
}

fn summary(id: u8, height: u64, work: Option<u8>) -> PlanSummary {
    PlanSummary { id: [id; 32], target: point(height, id), target_work: work.map(|w| [w; 32]) }
}

fn coordinator(active: bool) -> MobileSyncCoordinator<u8> {
    let mut sync = MobileSyncCoordinator::new(point(500, 50));
    if active {
        sync.take_up(MobileSuffixAdmission::Started, 1);
    }
    sync
}

#[test]
fn offers_are_judged_against_the_active_suffix() {
    let active = summary(1, 505, Some(5));
    let idle = coordinator(false);
    let busy = coordinator(true);
    assert!(matches!(idle.admit_offer(None, &active, false), Ok(AdmissionStep::Start)));
    assert!(matches!(busy.admit_offer(Some(active), &active, true), Ok(AdmissionStep::Merge)));
    let longer = summary(2, 510, Some(6));
    assert!(matches!(busy.admit_offer(Some(active), &longer, true), Ok(AdmissionStep::Defer)));
    match busy.admit_offer(Some(active), &longer, false) {
        Ok(AdmissionStep::Compare { candidate_work, active_work, candidate_hash, active_hash }) => {
            assert_eq!((candidate_work, active_work), ([6; 32], [5; 32]));
            assert_eq!((candidate_hash, active_hash), ([2; 32], [1; 32]));
        }
        other => panic!("{:?}", other),
    }
    let workless = summary(3, 510, None);
    assert_eq!(
        busy.admit_offer(Some(active), &workless, false).unwrap_err(),
        AdmissionError::CandidateWorkMissing
    );
    assert_eq!(busy.admit_offer(Some(workless), &longer, false).unwrap_err(), AdmissionError::ActiveWorkMissing);
}

#[test]
fn admissions_follow_their_step() {
    let compare = AdmissionStep::Compare {
        candidate_work: [1; 32],
        candidate_hash: [1; 32],
        active_work: [1; 32],
        active_hash: [1; 32],
    };
    assert_eq!(admission_after(&AdmissionStep::Start, 0, false), MobileSuffixAdmission::Started);
    assert_eq!(admission_after(&AdmissionStep::Merge, 2, false), MobileSuffixAdmission::Merged);
    assert_eq!(admission_after(&AdmissionStep::Merge, 0, false), MobileSuffixAdmission::Duplicate);
    assert_eq!(admission_after(&AdmissionStep::Defer, 0, true), MobileSuffixAdmission::DeferredExtension);
    assert_eq!(admission_after(&compare, 0, true), MobileSuffixAdmission::Replaced);
    assert_eq!(admission_after(&compare, 0, false), MobileSuffixAdmission::KeptStrongerActive);
}

#[test]
fn active_suffix_gives_way_to_nothing_weaker() {
    let mut sync = coordinator(true);
    for admission in [
        MobileSuffixAdmission::Merged,
        MobileSuffixAdmission::Duplicate,
        MobileSuffixAdmission::DeferredExtension,
        MobileSuffixAdmission::KeptStrongerActive,
    ] {
        sync.take_up(admission, 9);
        assert_eq!(sync.active_plan(), Some(&1));
    }
    sync.take_up(MobileSuffixAdmission::Replaced, 2);
    assert_eq!(sync.take_fetched(false), None);
    assert!(sync.is_active());
    assert_eq!(sync.take_fetched(true), Some(2));
    assert!(!sync.is_active());
    sync.take_up(MobileSuffixAdmission::Started, 3);
    sync.clear_active();
    assert_eq!(sync.active_plan(), None);
    sync.reconcile_from_chain(point(600, 60));
    assert!(sync.committed_tip.same(&point(600, 60)));
}

#[test]
fn busy_providers_rest() {
    assert_eq!(busy_retry_at(1_000, 5), 1_100);
    assert_eq!(busy_retry_at(1_000, 250), 1_250);
    assert_eq!(busy_retry_at(u64::MAX, 250), u64::MAX);
}

#[test]
fn header_store_follows_the_finalized_block() {
    let dag = point(400, 40);
    assert_eq!(reconcile_finalized(&point(399, 39), &dag), ReconcileStep::Conflict);
    assert_eq!(reconcile_finalized(&point(400, 41), &dag), ReconcileStep::Conflict);
    assert_eq!(reconcile_finalized(&dag, &dag), ReconcileStep::Advance { from_height: 401 });
    assert_eq!(reconcile_finalized(&point(464, 41), &dag), ReconcileStep::Advance { from_height: 401 });
    assert_eq!(reconcile_finalized(&point(465, 41), &dag), ReconcileStep::Rebuild);
}

fn row(fill: u8, known: bool, work: Option<u8>) -> StoredRow {
    StoredRow {
        header: Some(CanonicalRow { hash: [fill; 32], difficulty_target: [1; 32] }),
        known,
        work: work.map(|w| [w; 32]),
    }
}

#[test]
fn canonical_rows_stop_at_a_gap() {
    let (headers, error) = canonical_headers(401, &vec![row(1, false, Some(1)), row(2, true, None), row(3, false, Some(3))]);
    assert!(error.is_none());
    assert_eq!(headers.len(), 2);
    assert_eq!(headers[1].height, 403);
    assert_eq!(headers[1].cumulative_work, [3; 32]);
    let (headers, error) = canonical_headers(401, &vec![row(1, false, Some(1)), row(2, false, None)]);
    assert_eq!(headers.len(), 1);
    assert_eq!(error, Some(RowError::WorkMissing { height: 402 }));
    let missing = StoredRow { header: None, known: false, work: None };
    let (headers, error) = canonical_headers(401, &vec![missing, row(2, false, None)]);
    assert!(headers.is_empty());
    assert_eq!(error, Some(RowError::HeaderMissing { height: 401 }));
}

#[test]
fn inventories_are_acted_on() {
    assert!(matches!(inventory_action(None, peer(1)), InventoryAction::Drop));
    assert!(matches!(inventory_action(Some(&HeaderInventoryPlan::Behind), peer(1)), InventoryAction::MergeHints));
    let confirmed = HeaderInventoryPlan::Confirmed { tip: point(1, 1) };
    assert!(matches!(inventory_action(Some(&confirmed), peer(1)), InventoryAction::MergeHints));
    let divergent = HeaderInventoryPlan::FinalizedDivergence;
    assert!(matches!(inventory_action(Some(&divergent), peer(1)), InventoryAction::DropAndDisconnect));
    let older = HeaderInventoryPlan::NeedOlder { start_height: 3, count: 4 };
    match inventory_action(Some(&older), peer(1)) {
        InventoryAction::Fetch(NetworkCommand::FetchHeaders { start_height, count, .. }) => {
            assert_eq!((start_height, count), (3, 4));
        }
        other => panic!("{:?}", other),
    }
    let candidate = HeaderInventoryPlan::Candidate {
        headers: vec![],
        records: vec![],
        old_tip: point(1, 1),
        target: point(2, 2),
    };
    assert!(matches!(inventory_action(Some(&candidate), peer(1)), InventoryAction::Consider));
}

fn connected(n: u8) -> MobileP2PRuntime {
    let mut runtime = MobileP2PRuntime::new();
    for k in 1..=n {
        let info = MobilePeer { failure_domain: FailureDomain(0), locally_selected: false };
        runtime.peer_connected(peer(k), info, 500, None, 0);
    }
    runtime
}

fn facts(target_height: u64) -> CandidateFacts {
    CandidateFacts { headers: 2, is_best: true, selected: 2, old_tip_height: 500, target_height }
}

#[test]
fn candidates_are_considered() {
    let mut runtime = connected(2);
    assert!(matches!(runtime.consider_candidate(peer(1), &facts(502), false, 500, 100), CandidateStep::Plan));
    let mut none = facts(502);
    none.headers = 0;
    assert!(matches!(runtime.consider_candidate(peer(1), &none, false, 500, 100), CandidateStep::Leave));
    let mut weaker = facts(502);
    weaker.is_best = false;
    assert!(matches!(runtime.consider_candidate(peer(1), &weaker, false, 500, 100), CandidateStep::Leave));
    let mut nothing = facts(502);
    nothing.selected = 0;
    assert!(matches!(runtime.consider_candidate(peer(1), &nothing, false, 500, 100), CandidateStep::Leave));
    assert!(matches!(runtime.consider_candidate(peer(1), &facts(601), true, 500, 100), CandidateStep::Plan));
    match runtime.consider_candidate(peer(1), &facts(601), false, 500, 100) {
        CandidateStep::Snapshot(NetworkCommand::RequestStateManifest { generation, requester_height, .. }) => {
            assert_eq!((generation, requester_height), (1, 500));
        }
        other => panic!("{:?}", other),
    }
    assert!(matches!(runtime.consider_candidate(peer(1), &facts(601), false, 500, 100), CandidateStep::Leave));
}

#[test]
fn missing_providers_are_probed_without_the_sender_and_the_tail_peer() {
    let mut runtime = connected(6);
    let commands = runtime.providers_missing(peer(3), 500, 502, 2, 1_000);
    let asked: Vec<u8> = commands
        .iter()
        .map(|command| match command {
            NetworkCommand::FetchHeaders { peer, start_height, count } => {
                assert_eq!((*start_height, *count), (500, 3));
                peer.to_bytes()[2]
            }
            other => panic!("{:?}", other),
        })
        .collect();
    assert_eq!(asked, vec![2, 4, 5, 6]);
    assert!(runtime.providers_missing(peer(3), 500, 502, 2, 2_000).is_empty());
    let started = runtime.suffix_admitted(MobileSuffixAdmission::Started, 500, 502, None, 2_000);
    assert!(started.is_empty());
    assert_eq!(runtime.providers_missing(peer(3), 500, 502, 600, 2_500).len(), 4);
}

#[test]
fn deferred_suffix_probes_the_active_one() {
    let mut runtime = connected(2);
    let active = Some(ActiveSuffix { first_height: Some(501), header_count: 1, target_height: 501 });
    let commands = runtime.suffix_admitted(MobileSuffixAdmission::DeferredExtension, 500, 502, active, 0);
    assert_eq!(commands.len(), 2);
    let commands = runtime.suffix_admitted(MobileSuffixAdmission::KeptStrongerActive, 500, 502, active, 10_000);
    assert_eq!(commands.len(), 2);
}

#[test]
fn gossip_is_judged_by_what_it_proves() {
    assert!(within_wire_limit(10, 10));
    assert!(!within_wire_limit(11, 10));
    assert_eq!(gossip_verdict(TxOutcome::TooLarge), GossipVerdict::Reject);
    assert_eq!(gossip_verdict(TxOutcome::Malformed), GossipVerdict::Reject);
    assert_eq!(gossip_verdict(TxOutcome::Submitted(SubmitOutcome::Admitted)), GossipVerdict::Accept);
    assert_eq!(gossip_verdict(TxOutcome::Submitted(SubmitOutcome::AlreadyAdmitted)), GossipVerdict::Ignore);
    assert_eq!(gossip_verdict(TxOutcome::Submitted(SubmitOutcome::Soft)), GossipVerdict::Ignore);
    assert_eq!(gossip_verdict(TxOutcome::Submitted(SubmitOutcome::Hard)), GossipVerdict::Reject);
}

#[test]
fn mempool_responses_are_counted() {
    let counted = tally(&vec![
        TxOutcome::TooLarge,
        TxOutcome::Submitted(SubmitOutcome::Admitted),
        TxOutcome::Submitted(SubmitOutcome::Soft),
        TxOutcome::Submitted(SubmitOutcome::AlreadyAdmitted),
        TxOutcome::Malformed,
        TxOutcome::Submitted(SubmitOutcome::Admitted),
    ]);
    assert_eq!((counted.admitted, counted.already_known, counted.rejected), (2, 1, 3));
}

#[test]
fn final_blocks_are_not_planned_anew() {
    let records = vec![record(399, 1), record(400, 40), record(401, 2), record(402, 3)];
    let step = plan(records, vec![Some(399), None, None, None], vec![true, false, false, false]);
    match step {
        InventoryStep::Validate { ancestor, competing } => {
            assert!(ancestor.height >= 400);
            assert!(competing.iter().all(|record| record.height > 400));
            assert_eq!(competing.len(), 2);
        }
        other => panic!("{:?}", other),
    }
}

#[test]
fn synchronization_errors_are_worded() {
    assert_eq!(
        AdmissionError::CandidateWorkMissing.message(),
        "candidate mobile suffix has no cumulative work"
    );
    assert_eq!(AdmissionError::ActiveWorkMissing.message(), "active mobile suffix has no cumulative work");
    assert_eq!(
        RowError::HeaderMissing { height: 12 }.message(),
        "canonical mobile HeaderDag row 12 is missing"
    );
    assert_eq!(RowError::WorkMissing { height: 7 }.message(), "canonical mobile HeaderDag work 7 is missing");
    assert_eq!(
        PlanError::ChainworkDisagrees.message(),
        "header-plan chainwork disagrees with native validation"
    );
}

#[test]
fn mempool_is_pulled_in_the_order_of_encodings() {
    let mut table = PeerTable::new();
    let local = MobilePeer { failure_domain: FailureDomain(0), locally_selected: true };
    let remote = MobilePeer { failure_domain: FailureDomain(0), locally_selected: false };
    for n in [9, 3, 7, 1] {
        table.insert(peer(n), local);
    }
    table.insert(peer(2), remote);
    table.insert(PeerId::from_bytes(&[0x12, 0x20]).unwrap(), local);
    let chosen: Vec<Vec<u8>> =
        table.lowest_unrequested(&vec![peer(3)], 3).iter().map(|peer| peer.to_bytes()).collect();
    assert_eq!(chosen, vec![vec![0x12, 0x20], vec![0x12, 0x20, 1], vec![0x12, 0x20, 7]]);
    assert!(table.lowest_unrequested(&vec![], 0).is_empty());
}

#[test]
fn validation_starts_at_the_final_block() {
    let finalized = ChainPoint::new(4, [4; 32]);
    let ancestor = ChainPoint::new(6, [6; 32]);
    let path: Result<Vec<u64>, String> = validation_path(finalized, ancestor, vec![7, 8], |from, to| {
        assert_eq!((from.height, to.height), (4, 6));
        Ok(vec![5, 6])
    });
    assert_eq!(path, Ok(vec![5, 6, 7, 8]));
    let short: Result<Vec<u64>, String> =
        validation_path(finalized, finalized, vec![5], |_, _| Err("not loaded".to_string()));
    assert_eq!(short, Ok(vec![5]));
    let other_fork = ChainPoint::new(4, [5; 32]);
    let failed: Result<Vec<u64>, String> =
        validation_path(finalized, other_fork, vec![5], |_, _| Err("no path".to_string()));
    assert_eq!(failed, Err("no path".to_string()));
}

#[test]
fn inventories_count_toward_the_pinned_headers() {
    assert_eq!(merge_headers(Some(vec![1]), vec![2, 3]), vec![1]);
    assert_eq!(merge_headers(Some(Vec::new()), vec![2]), Vec::<i32>::new());
    assert_eq!(merge_headers(None, vec![2, 3]), vec![2, 3]);
}
