use noid_mobile::header_planner::ChainPoint;
use noid_mobile::peer::PeerId;
use noid_mobile::suffix_apply::{AnchorLookup, ApplyStage, ReorgFailure, SuffixApply};
use noid_mobile::sync_apply::{
    anchor_missing, anchor_source, body_error_is_peer_fault, check_bodies, confirmed_by,
    history_step_error_is_peer_fault, mempool_followup, payload_bytes, reorg_failure, terminal_check,
    terminal_failure, AnchorSource, AppliedExactSuffix, AppliedReorg, CommitPath, ContextError, ContextFailure,
    DecodedBody, ExactSuffixApplyError, MempoolFollowup, SyncPlanKind, TerminalUse, WalletFollowup,
};

fn peer(n: u8) -> PeerId {
    PeerId::from_bytes(&[0x12, 0x20, n]).unwrap()
}

fn point(height: u64, fill: u8) -> ChainPoint {
    ChainPoint::new(height, [fill; 32])
}

fn block(height: u64, fill: u8) -> DecodedBody {
    DecodedBody::Block { header_matches: true, height, hash: [fill; 32] }
}

/// Whom an error blames, 0 for nobody, and its words.
fn blame(error: &ExactSuffixApplyError) -> (u8, String) {
    let who = match error {
        ExactSuffixApplyError::Terminal { source, .. } => source.to_bytes()[2],
        ExactSuffixApplyError::Body { sources, .. } => {
            assert_eq!(sources.len(), 1);
            sources[0].to_bytes()[2]
        }
        ExactSuffixApplyError::Other(_) => 0,
    };
    (who, error.message().to_string())
}

fn failure(kind: ContextError) -> ContextFailure {
    ContextFailure { kind, text: "why".to_string() }
}

fn bad_terminal(text: &str) -> ContextError {
    ContextError::BadTerminal(text.to_string())
}

#[test]
fn good_bodies_pass() {
    let bodies = vec![block(501, 1), block(502, 2)];
    assert!(check_bodies(2, &point(502, 2), &bodies, &vec![peer(1), peer(2)]).is_ok());
}

#[test]
fn bodies_must_match_the_plan_in_number() {
    let words = "exact suffix body/source count differs from its immutable plan".to_string();
    let target = point(502, 2);
    for (headers, bodies, sources) in [
        (3, vec![block(501, 1), block(502, 2)], vec![peer(1), peer(2)]),
        (2, vec![block(501, 1), block(502, 2)], vec![peer(1)]),
        (0, vec![], vec![]),
    ] {
        let error = check_bodies(headers, &target, &bodies, &sources).unwrap_err();
        assert_eq!(blame(&error), (0, words.clone()));
    }
}

#[test]
fn the_first_bad_body_is_blamed_on_its_sender() {
    let sources = vec![peer(1), peer(2), peer(3)];
    let differs = DecodedBody::Block { header_matches: false, height: 502, hash: [2; 32] };
    let bodies = vec![block(501, 1), differs, DecodedBody::Malformed("short".to_string())];
    let error = check_bodies(3, &point(503, 3), &bodies, &sources).unwrap_err();
    assert_eq!(blame(&error), (2, "exact suffix body header differs from its validated header".to_string()));
    let bodies = vec![block(501, 1), block(502, 2), DecodedBody::Malformed("short".to_string())];
    let error = check_bodies(3, &point(503, 3), &bodies, &sources).unwrap_err();
    assert_eq!(blame(&error), (3, "decode exact suffix body: short".to_string()));
    let bodies = vec![block(501, 1), block(502, 2), block(503, 4)];
    let error = check_bodies(3, &point(503, 3), &bodies, &sources).unwrap_err();
    assert_eq!(blame(&error), (3, "exact suffix bodies do not end at selected target".to_string()));
}

#[test]
fn terminal_faults_of_the_peer() {
    for text in [
        "the terminal exceeds the wire cap",
        "terminal metadata is invalid: 3",
        "x terminal does not bind y",
        "HistoryStep terminal rejected: bad",
    ] {
        assert!(history_step_error_is_peer_fault(&bad_terminal(text)));
    }
    assert!(!history_step_error_is_peer_fault(&bad_terminal("verifier unavailable")));
    assert!(!history_step_error_is_peer_fault(&bad_terminal("")));
    assert!(!history_step_error_is_peer_fault(&ContextError::Consensus));
    assert!(!history_step_error_is_peer_fault(&ContextError::Store));
    let error = terminal_failure(TerminalUse::Verify, peer(4), &failure(bad_terminal("terminal does not bind")));
    assert_eq!(blame(&error), (4, "verify exact suffix terminal: why".to_string()));
    let error = terminal_failure(TerminalUse::AuthorizeLive, peer(4), &failure(ContextError::Store));
    assert_eq!(blame(&error), (0, "authorize exact live suffix terminal: why".to_string()));
    let error = terminal_failure(TerminalUse::AuthorizeReorg, peer(4), &failure(ContextError::Store));
    assert_eq!(blame(&error), (0, "authorize exact reorg terminal: why".to_string()));
}

#[test]
fn body_faults_of_the_peer() {
    assert!(body_error_is_peer_fault(&ContextError::Consensus));
    assert!(body_error_is_peer_fault(&bad_terminal("anything")));
    for text in [
        "recursive suffix block body is malformed",
        "recursive suffix block has invalid logical transactions",
        "recursive reorg body is malformed",
        "recursive reorg tip body is malformed",
    ] {
        assert!(body_error_is_peer_fault(&ContextError::Corrupt(text.to_string())));
    }
    assert!(!body_error_is_peer_fault(&ContextError::Corrupt("recursive reorg body is malformed.".to_string())));
    assert!(!body_error_is_peer_fault(&ContextError::Store));
    assert!(!body_error_is_peer_fault(&ContextError::ResourceLimit));
}

#[test]
fn a_missing_verifier_blames_nobody() {
    assert!(terminal_check(true, None).is_ok());
    let unavailable = terminal_check(false, Some("bad".to_string())).unwrap_err();
    assert_eq!(unavailable, "embedded HistoryStep verifier unavailable");
    assert!(!history_step_error_is_peer_fault(&ContextError::BadTerminal(unavailable)));
    let rejected = terminal_check(true, Some("bad".to_string())).unwrap_err();
    assert_eq!(rejected, "HistoryStep terminal rejected: bad");
    assert!(history_step_error_is_peer_fault(&ContextError::BadTerminal(rejected)));
}

#[test]
fn epoch_anchor_is_found() {
    let points = vec![point(501, 1), point(502, 2), point(502, 3)];
    assert_eq!(anchor_source(500, 500, &points), AnchorSource::Canonical);
    assert_eq!(anchor_source(502, 500, &points), AnchorSource::Body(1));
    assert_eq!(anchor_source(510, 500, &points), AnchorSource::Missing);
    assert_eq!(
        blame(&anchor_missing(true)).1,
        "exact suffix epoch anchor missing from canonical storage"
    );
    assert_eq!(
        blame(&anchor_missing(false)).1,
        "exact suffix epoch anchor missing from candidate bodies"
    );
}

/// Three blocks above height 500, from the peers 1, 2 and 3.
fn fetched(kind: SyncPlanKind) -> SuffixApply {
    SuffixApply::new(kind, point(500, 50), point(503, 3), 3, vec![peer(1), peer(2), peer(3)], peer(9))
}

fn three() -> Vec<DecodedBody> {
    vec![block(501, 1), block(502, 2), block(503, 3)]
}

/// The suffix once its terminal is verified.
fn verified(kind: SyncPlanKind) -> SuffixApply {
    let mut apply = fetched(kind);
    apply.bodies(&three()).unwrap();
    assert_eq!(apply.anchor(500, AnchorLookup::Found).unwrap(), AnchorSource::Canonical);
    apply.terminal_verified(Ok(())).unwrap();
    assert_eq!(apply.stage, ApplyStage::Verified);
    apply
}

fn live() -> SuffixApply {
    let mut apply = verified(SyncPlanKind::LiveSuffix);
    assert_eq!(apply.commit_path(&point(500, 50)).unwrap(), CommitPath::Live);
    assert_eq!(apply.next_block(), None);
    apply.authorized(Ok(())).unwrap();
    apply
}

fn assert_nothing_written(apply: &SuffixApply) {
    assert_eq!(apply.stage, ApplyStage::Refused);
    assert_eq!(apply.applied, 0);
    assert!(apply.confirmed_tx_hashes.is_empty());
    assert_eq!(apply.next_block(), None);
}

#[test]
fn a_failed_check_ends_the_application() {
    let mut apply = fetched(SyncPlanKind::LiveSuffix);
    assert!(apply.bodies(&vec![block(501, 1), block(502, 2)]).is_err());
    assert_nothing_written(&apply);

    let mut apply = fetched(SyncPlanKind::LiveSuffix);
    apply.bodies(&three()).unwrap();
    assert_eq!(apply.anchor_source(502), AnchorSource::Body(1));
    let error = apply.anchor(510, AnchorLookup::Found).unwrap_err();
    assert_eq!(blame(&error), (0, "exact suffix epoch anchor missing from candidate bodies".to_string()));
    assert_nothing_written(&apply);

    let mut apply = fetched(SyncPlanKind::LiveSuffix);
    apply.bodies(&three()).unwrap();
    let error = apply.anchor(400, AnchorLookup::Absent).unwrap_err();
    assert_eq!(blame(&error), (0, "exact suffix epoch anchor missing from canonical storage".to_string()));
    let mut apply = fetched(SyncPlanKind::LiveSuffix);
    apply.bodies(&three()).unwrap();
    let error = apply.anchor(400, AnchorLookup::Failed("io".to_string())).unwrap_err();
    assert_eq!(blame(&error), (0, "load exact suffix epoch anchor: io".to_string()));

    let mut apply = fetched(SyncPlanKind::LiveSuffix);
    apply.bodies(&three()).unwrap();
    assert_eq!(apply.anchor(502, AnchorLookup::Absent).unwrap(), AnchorSource::Body(1));
    let error = apply.terminal_verified(Err(failure(bad_terminal("terminal does not bind")))).unwrap_err();
    assert_eq!(blame(&error), (9, "verify exact suffix terminal: why".to_string()));
    assert_nothing_written(&apply);
}

#[test]
fn commit_paths() {
    assert_eq!(verified(SyncPlanKind::Reorg).commit_path(&point(501, 51)).unwrap(), CommitPath::Reorg);
    let mut apply = verified(SyncPlanKind::LiveSuffix);
    let error = apply.commit_path(&point(500, 51)).unwrap_err();
    assert_eq!(blame(&error), (0, "exact live suffix base changed before commit".to_string()));
    assert_nothing_written(&apply);
    let mut apply = verified(SyncPlanKind::Snapshot);
    let error = apply.commit_path(&point(500, 50)).unwrap_err();
    assert_eq!(blame(&error), (0, "snapshot plan reached live suffix committer".to_string()));
    assert_nothing_written(&apply);
    let mut apply = verified(SyncPlanKind::LiveSuffix);
    apply.commit_path(&point(500, 50)).unwrap();
    let error = apply.authorized(Err(failure(ContextError::Store))).unwrap_err();
    assert_eq!(blame(&error), (0, "authorize exact live suffix terminal: why".to_string()));
    assert_nothing_written(&apply);
}

#[test]
fn a_complete_commit_applied_every_block() {
    let mut apply = live();
    for index in 0..3 {
        assert_eq!(apply.next_block(), Some(index));
        apply.block_applied(&vec![[index as u8; 32]]);
    }
    assert_eq!(apply.next_block(), None);
    apply.finish(true);
    assert_eq!(apply.stage, ApplyStage::Committed);
    let applied = apply.live_applied(&point(503, 3), "view", &vec![70, 7], 5);
    assert!(applied.trailing_error.is_none());
    assert_eq!((applied.height, applied.block_hash, applied.applied_blocks), (503, [3; 32], 3));
    assert_eq!(applied.confirmed_tx_hashes, vec![[0; 32], [1; 32], [2; 32]]);
    assert_eq!((applied.view, applied.payload_bytes, applied.apply_elapsed_ms), ("view", 77, 5));
}

#[test]
fn live_commit_keeps_what_was_applied() {
    let mut apply = live();
    apply.block_applied(&vec![[1; 32], [2; 32]]);
    apply.block_applied(&vec![]);
    apply.block_refused(&failure(ContextError::Consensus));
    assert_eq!(apply.next_block(), None);
    apply.finish(false);
    let applied = apply.live_applied(&point(502, 2), "view", &vec![77], 5);
    assert_eq!(applied.applied_blocks, 2);
    assert_eq!(applied.height, 502);
    assert_eq!(applied.confirmed_tx_hashes, vec![[1; 32], [2; 32]]);
    let error = applied.trailing_error.unwrap();
    assert_eq!(blame(&error), (3, "apply exact suffix block 503: why".to_string()));
}

#[test]
fn live_commit_can_end_early() {
    let mut apply = live();
    apply.block_applied(&vec![]);
    apply.bad_transactions("loop");
    assert_eq!(apply.next_block(), None);
    assert_eq!(
        blame(&apply.trailing_error.unwrap()),
        (2, "exact suffix logical transaction stream: loop".to_string())
    );
    let mut apply = live();
    apply.block_refused(&failure(ContextError::Store));
    assert_eq!(blame(&apply.trailing_error.unwrap()), (0, "apply exact suffix block 501: why".to_string()));
    for (blocks, complete) in [(3, false), (2, true), (0, true)] {
        let mut apply = live();
        for _ in 0..blocks {
            apply.block_applied(&vec![]);
        }
        apply.finish(complete);
        assert_eq!(blame(&apply.trailing_error.unwrap()), (0, "exact suffix ended before verified tip".to_string()));
    }
}

#[test]
fn a_reorganization_is_whole_or_nothing() {
    let mut apply = verified(SyncPlanKind::Reorg);
    apply.commit_path(&point(501, 51)).unwrap();
    apply.authorized(Ok(())).unwrap();
    assert_eq!(apply.next_block(), None);
    apply.reorganized(Ok(())).unwrap();
    assert_eq!(apply.wallet_after_reorg(false, true, true), WalletFollowup::Nothing);
    assert_eq!(apply.wallet_after_reorg(true, true, true), WalletFollowup::Installed);
    assert_eq!(apply.wallet_after_reorg(true, true, false), WalletFollowup::Invalidate);
    assert_eq!(apply.wallet_after_reorg(true, false, true), WalletFollowup::Invalidate);
    let txids = vec![vec![[1; 32]], vec![], vec![[3; 32]]];
    let applied = apply.reorg_applied(point(503, 3), vec![[8; 32]], &txids, ());
    assert_eq!(applied.confirmed_tx_hashes, vec![[1; 32], [3; 32]]);
    assert_eq!(applied.reclaimed_tx_hashes, vec![[8; 32]]);
    assert_eq!(applied.tip.height, 503);

    let mut apply = verified(SyncPlanKind::Reorg);
    apply.commit_path(&point(501, 51)).unwrap();
    apply.authorized(Ok(())).unwrap();
    let refused = ReorgFailure { failure: failure(ContextError::Consensus), body_index: Some(1) };
    let error = apply.reorganized(Err(refused)).unwrap_err();
    assert_eq!(blame(&error), (2, "apply atomic exact reorg suffix: why".to_string()));
    assert_nothing_written(&apply);
    let mut apply = verified(SyncPlanKind::Reorg);
    apply.commit_path(&point(501, 51)).unwrap();
    let error = apply.authorized(Err(failure(bad_terminal("terminal does not bind")))).unwrap_err();
    assert_eq!(blame(&error), (9, "authorize exact reorg terminal: why".to_string()));
}

#[test]
fn reorganization_failures() {
    let sources = vec![peer(1), peer(2)];
    let words = "apply atomic exact reorg suffix: why".to_string();
    let error = reorg_failure(&failure(ContextError::Consensus), Some(1), &sources);
    assert_eq!(blame(&error), (2, words.clone()));
    let error = reorg_failure(&failure(ContextError::Consensus), Some(2), &sources);
    assert_eq!(blame(&error), (0, words.clone()));
    let error = reorg_failure(&failure(ContextError::Store), Some(1), &sources);
    assert_eq!(blame(&error), (0, words.clone()));
    let error = reorg_failure(&failure(ContextError::Consensus), None, &sources);
    assert_eq!(blame(&error), (0, words));
}

#[test]
fn payloads_and_confirmations_add_up() {
    assert_eq!(payload_bytes(&vec![]), 0);
    assert_eq!(payload_bytes(&vec![3, 4, 5]), 12);
    assert_eq!(payload_bytes(&vec![usize::MAX, usize::MAX, 5]), u64::MAX);
    assert_eq!(confirmed_by(&vec![vec![[1; 32]], vec![], vec![[2; 32], [3; 32]]]), vec![[1; 32], [2; 32], [3; 32]]);
}

#[test]
fn followups_of_a_commit() {
    let mut apply = live();
    apply.finish(false);
    let nothing = AppliedExactSuffix::Live(apply.live_applied(&point(500, 50), (), &vec![], 0));
    assert_eq!(mempool_followup(&nothing), MempoolFollowup::Nothing);
    let mut apply = live();
    apply.block_applied(&vec![]);
    apply.finish(false);
    let live = AppliedExactSuffix::Live(apply.live_applied(&point(501, 1), (), &vec![], 0));
    assert_eq!(mempool_followup(&live), MempoolFollowup::NewBlock { height: 501 });
    let reorg = AppliedExactSuffix::Reorg(AppliedReorg {
        tip: point(7, 7),
        reclaimed_tx_hashes: vec![],
        confirmed_tx_hashes: vec![],
        view: (),
    });
    assert_eq!(mempool_followup(&reorg), MempoolFollowup::NewBlockThenReadmit { height: 7 });
}
