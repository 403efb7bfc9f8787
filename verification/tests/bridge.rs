use noid_mobile::bridge::{
    below_min_fee_required, checked_amounts, may_start, recent_rows, send_failed, send_succeeded, status_offline,
    status_running, status_unreadable, wallet_artifacts, wallet_configured, SendAll, StartRefusal,
    WALLET_MARKER_FILE,
};
use noid_mobile::history::{
    history_proof_bank_id, history_step_cache_name, verifier_unavailable, CACHE_DIRECTORY,
};
use noid_mobile::overview::MobileRecentTransaction;
use noid_mobile::p2p_runtime::mobile_p2p_status;
use noid_mobile::p2p_startup::{exit_report, MobileP2PConfig, NetworkTask, TaskExit};
use noid_mobile::seeds::{
    admit_seed, mainnet_seed_multiaddr, mainnet_seeds, parsed_seed, IpText, ResolvedAddress, SeedError, SeedHost,
};
use noid_mobile::send::{after_attempt, AttemptOutcome, MobileSendResult, SendStep};
use noid_mobile::submit::WalletSendPlan;
use noid_mobile::text::{contains, decimal_text, digest_name, find_text, shown_digest, trim};
use noid_mobile::wallet::TxDirection;

fn plan(total: u64, fee: u64) -> WalletSendPlan {
    WalletSendPlan {
        amount_micronoid: total - fee,
        fee_micronoid: fee,
        total_spend_micronoid: total,
        input_count: 2,
        output_count: 1,
        change_micronoid: 0,
    }
}

#[test]
fn named_fees_are_read() {
    assert_eq!(below_min_fee_required("BelowMinFee: required=123, actual=5"), Some(123));
    assert_eq!(below_min_fee_required("refused: BelowMinFee: required=0"), Some(0));
    assert_eq!(below_min_fee_required("BelowMinFee: required=007x"), Some(7));
    assert_eq!(below_min_fee_required("BelowMinFee: required=18446744073709551615"), Some(u64::MAX));
    assert_eq!(below_min_fee_required("BelowMinFee: required=18446744073709551616"), None);
    assert_eq!(below_min_fee_required("BelowMinFee: required=99999999999999999999999999"), None);
    assert_eq!(below_min_fee_required("BelowMinFee: required=x BelowMinFee: required=5"), None);
    assert_eq!(below_min_fee_required("BelowMinFee: required="), None);
    assert_eq!(below_min_fee_required("pool full"), None);
}

#[test]
fn send_all_carries_the_named_fee() {
    let mut all = SendAll::new();
    assert_eq!(all.payment(&plan(300, 21)).unwrap(), (279, 21));
    assert!(all.refused("BelowMinFee: required=40, actual=21"));
    assert_eq!(all.payment(&plan(300, 22)).unwrap(), (260, 40));
    assert!(all.refused("BelowMinFee: required=30, actual=21"));
    assert_eq!(all.payment(&plan(300, 50)).unwrap(), (250, 50));
    assert!(!all.refused("BelowMinFee: required=60, actual=50"));
    assert_eq!(all.minimum_fee_hint, 60);
    assert_eq!(all.attempt, 2);
}

#[test]
fn send_all_retries_soft_refusals() {
    let mut all = SendAll::new();
    assert!(all.refused("fee below required minimum: got 1, need 2"));
    assert!(all.refused("InsufficientFunds: need 3"));
    assert!(!all.refused("InsufficientFunds: need 3"));
    let mut all = SendAll::new();
    assert!(!all.refused("invalid proof"));
    assert_eq!(all.attempt, 0);
}

#[test]
fn send_all_needs_more_than_the_fee() {
    let mut all = SendAll::new();
    all.refused("BelowMinFee: required=300");
    let failure = all.payment(&plan(300, 21)).unwrap_err();
    assert!(!failure.ok);
    assert_eq!((failure.amount_micronoid, failure.fee_micronoid), (0, 300));
    assert_eq!((failure.input_count, failure.output_count), (2, 1));
    assert_eq!(
        failure.error.unwrap(),
        "InsufficientFunds: active balance 300 μNOID does not cover current SEND ALL fee 300 μNOID"
    );
    all.refused("BelowMinFee: required=299");
    assert!(all.payment(&plan(299, 21)).is_err());
}

#[test]
fn outcomes_are_shown() {
    let mut txid = [0; 32];
    txid[0] = 0xab;
    txid[31] = 0x0f;
    let result = MobileSendResult {
        txid,
        amount_micronoid: 5,
        fee_micronoid: 2,
        input_count: 1,
        output_count: 2,
    };
    let outcome = send_succeeded(&result);
    assert!(outcome.ok);
    assert_eq!(
        outcome.txid.unwrap(),
        "ab0000000000000000000000000000000000000000000000000000000000000f"
    );
    assert_eq!((outcome.amount_micronoid, outcome.fee_micronoid), (5, 2));
    assert!(outcome.error.is_none());
    let failure = send_failed(5, 2, 0, 0, "no".to_string());
    assert!(!failure.ok && failure.txid.is_none());
    assert_eq!(failure.error.unwrap(), "no");
    assert_eq!(checked_amounts(-1, 0), None);
    assert_eq!(checked_amounts(0, -1), None);
    assert_eq!(checked_amounts(5, i64::MAX), Some((5, i64::MAX as u64)));
}

#[test]
fn node_status_is_shown() {
    let status = status_unreadable();
    assert_eq!((status.ok, status.running, status.sync_state.as_str()), (false, false, "ERROR"));
    assert_eq!(status.error.unwrap(), "mobile node state lock poisoned");
    let status = status_offline();
    assert_eq!((status.ok, status.running, status.sync_state.as_str()), (true, false, "OFFLINE"));
    assert_eq!(status.tip_hash, "");
    let runtime = mobile_p2p_status(3, 4);
    let status = status_running(9, &[0x1c; 32], Some(7), &runtime, true);
    assert_eq!((status.tip_height, status.peers, status.syncing), (9, 7, true));
    assert_eq!(status.tip_hash, "1c".repeat(32));
    assert_eq!(status.sync_state, "TAIL");
    assert!(status.history_step_ready && status.running);
    assert_eq!(status_running(9, &[0; 32], None, &runtime, false).peers, 3);
}

#[test]
fn recent_payments_are_shown() {
    let item = MobileRecentTransaction {
        txid: [0xfe; 32],
        direction: TxDirection::Sent,
        amount_micronoid: 5,
        height: 6,
        timestamp: 7,
        pending: false,
        is_coinbase: true,
    };
    let mut other = item;
    other.direction = TxDirection::Received;
    let rows = recent_rows(&vec![item, other]);
    assert_eq!(rows.len(), 2);
    assert_eq!(rows[0].txid, "fe".repeat(32));
    assert_eq!((rows[0].direction, rows[1].direction), ("SENT", "RECEIVED"));
    assert_eq!((rows[0].amount_micronoid, rows[0].height, rows[0].timestamp), (5, 6, 7));
    assert!(rows[0].is_coinbase && !rows[0].pending);
}

#[test]
fn wallet_files() {
    assert_eq!(wallet_artifacts(), ["wallet.key", "wallet.meta", "wallet.history", "wallet.receipts"]);
    assert_eq!(WALLET_MARKER_FILE, "mobile-wallet.configured");
    assert!(wallet_configured(true, true));
    assert!(!wallet_configured(true, false));
    assert!(!wallet_configured(false, true));
}

#[test]
fn node_starts_once_and_with_a_wallet() {
    assert_eq!(may_start(true, true, false), Ok(()));
    assert_eq!(may_start(true, true, true), Err(StartRefusal::AlreadyRunning));
    assert_eq!(may_start(false, true, true), Err(StartRefusal::WalletNotConfigured));
    assert_eq!(may_start(true, false, false), Err(StartRefusal::WalletNotConfigured));
}

#[test]
fn verifier_identity() {
    assert_eq!(history_proof_bank_id(None), [0; 32]);
    assert_eq!(history_proof_bank_id(Some([3; 32])), [3; 32]);
    assert_eq!(history_step_cache_name(&[0xa0; 32]), "a0".repeat(32));
    assert_eq!(CACHE_DIRECTORY, "history-step-cache");
    assert_eq!(
        verifier_unavailable(),
        "HistoryStep verifier unavailable: this is a pack-free development build"
    );
}

#[test]
fn digest_notations_agree() {
    let mut digest = [0; 32];
    for i in 0..32 {
        digest[i] = (i * 8 + 7) as u8;
    }
    assert_eq!(digest_name(&digest), shown_digest(&digest));
    assert!(digest_name(&digest).starts_with("070f171f"));
}

fn ip(v6: bool, text: &str) -> IpText {
    IpText { v6, text: text.to_string() }
}

#[test]
fn configured_seeds_become_addresses() {
    assert_eq!(mainnet_seed_multiaddr(" seed.example\n", None, 9600).unwrap(), "/dns/seed.example/tcp/9600");
    assert_eq!(
        mainnet_seed_multiaddr("10.0.0.1", Some(ip(false, "10.0.0.1")), 9600).unwrap(),
        "/ip4/10.0.0.1/tcp/9600"
    );
    assert_eq!(mainnet_seed_multiaddr("::1", Some(ip(true, "::1")), 65535).unwrap(), "/ip6/::1/tcp/65535");
    assert_eq!(mainnet_seed_multiaddr("/ip4/1.2.3.4/tcp/0001", None, 9600).unwrap(), "/ip4/1.2.3.4/tcp/1");
    assert!(matches!(mainnet_seed_multiaddr(" \t ", None, 9600), Err(SeedError::Empty)));
    match mainnet_seed_multiaddr("/nonsense/1", None, 9600) {
        Err(SeedError::Unparsable(text)) => assert_eq!(text, "/nonsense/1"),
        other => panic!("{:?}", other),
    }
}

fn host(name: &str, resolved: Vec<ResolvedAddress>) -> SeedHost {
    SeedHost { name: name.to_string(), resolved }
}

fn address(v6: bool, text: &str, port: u16) -> ResolvedAddress {
    ResolvedAddress { ip: ip(v6, text), port }
}

#[test]
fn bootstrap_seeds_are_collected_once() {
    let hosts = vec![
        host("  ", vec![address(false, "9.9.9.9", 1)]),
        host("a.example", vec![address(false, "1.2.3.4", 9600), address(true, "::2", 9600)]),
        host(" b.example ", vec![]),
        host("c.example", vec![address(false, "1.2.3.4", 9600), address(true, "0:0:0:0:0:0:0:2", 9600)]),
    ];
    assert_eq!(
        mainnet_seeds(&hosts, 9600).unwrap(),
        vec!["/ip4/1.2.3.4/tcp/9600", "/ip6/::2/tcp/9600", "/dns4/b.example/tcp/9600"]
    );
    assert!(matches!(mainnet_seeds(&vec![], 9600), Err(SeedError::NoSeeds)));
    assert!(matches!(mainnet_seeds(&vec![host(" ", vec![])], 9600), Err(SeedError::NoSeeds)));
    let bad = vec![host("a", vec![address(false, "1.2.3.4", 1), address(false, "300.1.1.1", 1)]), host("b", vec![])];
    match mainnet_seeds(&bad, 9600) {
        Err(SeedError::Unparsable(text)) => assert_eq!(text, "/ip4/300.1.1.1/tcp/1"),
        other => panic!("{:?}", other),
    }
}

#[test]
fn parsed_seeds_are_added_once() {
    let mut seeds = Vec::new();
    admit_seed(&mut seeds, "x".to_string());
    admit_seed(&mut seeds, "y".to_string());
    admit_seed(&mut seeds, "x".to_string());
    assert_eq!(seeds, vec!["x", "y"]);
    assert_eq!(parsed_seed("x".to_string(), Some("y".to_string())).unwrap(), "y");
    assert!(matches!(parsed_seed("x".to_string(), None), Err(SeedError::Unparsable(_))));
}

#[test]
fn texts_are_searched() {
    assert!(contains("abcabd", "abd"));
    assert!(!contains("abcab", "abd"));
    assert!(contains("abc", ""));
    assert!(!contains("", "a"));
    assert_eq!(find_text("μxμy", "μy"), Some(2));
    assert_eq!(find_text("aaa", "aa"), Some(0));
    assert_eq!(find_text("a", "aa"), None);
}

#[test]
fn texts_are_trimmed() {
    assert_eq!(trim("  a b \u{2003}\n"), "a b");
    assert_eq!(trim("\u{a0}\u{3000}"), "");
    assert_eq!(trim("\u{200b}a"), "\u{200b}a");
    assert_eq!(trim(""), "");
}

#[test]
fn numbers_are_written() {
    for value in [0, 9, 10, 12345, u64::MAX] {
        assert_eq!(decimal_text(value), value.to_string());
    }
}

#[test]
fn network_is_configured() {
    let config = MobileP2PConfig::new("/ip4/0.0.0.0/tcp/0".to_string(), 3u8)
        .with_seed("a".to_string())
        .with_seeds(vec!["b".to_string(), "c".to_string()])
        .with_public_address("p".to_string());
    assert_eq!(config.listen_addr, "/ip4/0.0.0.0/tcp/0");
    assert_eq!(config.seeds, vec!["a", "b", "c"]);
    assert_eq!(config.public_addresses, vec!["p"]);
    assert_eq!(config.topics, 3);
}

#[test]
fn ended_tasks_are_reported() {
    assert_eq!(exit_report(NetworkTask::Reactor, TaskExit::Stopped), "mobile P2P reactor stopped unexpectedly");
    assert_eq!(exit_report(NetworkTask::Reactor, TaskExit::Failed), "mobile P2P reactor failed");
    assert_eq!(exit_report(NetworkTask::Reactor, TaskExit::Lost), "mobile P2P reactor task failed");
    assert_eq!(
        exit_report(NetworkTask::EventActor, TaskExit::Stopped),
        "mobile P2P event actor stopped unexpectedly"
    );
    assert_eq!(exit_report(NetworkTask::EventActor, TaskExit::Failed), "mobile P2P event actor failed");
    assert_eq!(exit_report(NetworkTask::EventActor, TaskExit::Lost), "mobile P2P event actor task failed");
}

#[test]
fn refused_starts_are_worded() {
    assert_eq!(
        StartRefusal::WalletNotConfigured.message(),
        "mobile wallet is not configured; create or import a wallet first"
    );
    assert_eq!(StartRefusal::AlreadyRunning.message(), "mobile node already running");
}

#[test]
fn fee_of_the_last_refusal_reaches_the_next_plan() {
    let refusal = AttemptOutcome::Refused("BelowMinFee: required=40, actual=21".to_string());
    let words = match after_attempt(&plan(300, 21), 279, 2, refusal) {
        SendStep::Failed(words) => words,
        other => panic!("{:?}", other),
    };
    assert_eq!(words, "wallet send failed after 3 attempts: BelowMinFee: required=40, actual=21");
    let mut all = SendAll::new();
    assert!(all.refused(&words));
    assert_eq!(all.payment(&plan(300, 21)).unwrap(), (260, 40));
}
