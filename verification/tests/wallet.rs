use std::collections::HashSet;

use noid_mobile::overview::{
    mobile_recent_transactions, new_address_view, recent_limit, scan_end, OverviewError, OverviewScan,
};
use noid_mobile::submit::PendingSlots;
use noid_mobile::wallet::{
    install_reorg_snapshot_and_artifacts, invalidate_active_cache, AcceptedBlock, ActiveCoins, ActiveWalletSnapshot,
    HistoryEntry, SaveActions, TxDirection, WalletArtifacts, WalletState,
};

use noid_mobile::wallet_tables::{CoinTable, ReceiptBook, WalletUtxo};

fn coin(slot_index: u32, value: u64) -> CoinTable {
    let mut table = CoinTable::new();
    table.insert(WalletUtxo { slot_index, value });
    table
}

fn receipts(fills: &[u8]) -> ReceiptBook {
    let mut book = ReceiptBook::new();
    for fill in fills {
        book.insert([*fill; 32]);
    }
    book
}

fn entry(fill: u8, direction: TxDirection, height: u64, is_coinbase: bool) -> HistoryEntry {
    HistoryEntry {
        tx_hash: [fill; 32],
        direction,
        amount_micronoid: fill as u64,
        height,
        timestamp: 1_000 + fill as u64,
        is_coinbase,
    }
}

fn snapshot(height: u64) -> ActiveWalletSnapshot {
    ActiveWalletSnapshot {
        height,
        tip_hash: [1; 32],
        state_root: [2; 32],
        log_slots: 20,
        active_slot_count: 3,
        alloc_counter: 4,
    }
}

fn state() -> WalletState {
    WalletState {
        utxos: coin(1, 5),
        pending: PendingSlots { inputs: [1].into_iter().collect(), outputs: [7, 8].into_iter().collect() },
        history: vec![
            entry(1, TxDirection::Received, 5, false),
            entry(2, TxDirection::Sent, 6, false),
            entry(3, TxDirection::Received, 6, true),
            entry(4, TxDirection::Sent, 6, false),
        ],
        receipts: receipts(&[2, 4, 9]),
        active_snapshot: Some(snapshot(6)),
        history_dirty: false,
        receipts_dirty: false,
    }
}

fn block(confirmed: Result<Vec<bool>, String>, walletwide: bool) -> AcceptedBlock {
    AcceptedBlock {
        snapshot: snapshot(7),
        walletwide_history_changed: walletwide,
        confirmed,
        output_slots: vec![7, 7, 30],
    }
}

#[test]
fn invalid_cache_spends_nothing() {
    let mut wallet = Some(state());
    invalidate_active_cache(&mut wallet);
    let after = wallet.unwrap();
    assert!(after.utxos.coins().is_empty());
    assert!(after.pending.inputs.is_empty());
    assert!(after.active_snapshot.is_none());
    assert_eq!(after.pending.outputs.len(), 2);
    assert_eq!(after.history.len(), 4);
    let mut none: Option<WalletState> = None;
    invalidate_active_cache(&mut none);
    assert!(none.is_none());
}

#[test]
fn accepted_block_without_news_saves_nothing() {
    let mut wallet = state();
    let marks = wallet.marks();
    let save = wallet.update_for_accepted_block(&marks, &block(Ok(vec![false, false]), false)).unwrap();
    assert_eq!(save, SaveActions { history: false, receipts: false });
    assert_eq!(wallet.active_snapshot.unwrap().height, 7);
    assert_eq!(wallet.pending.outputs, [8].into_iter().collect::<HashSet<u32>>());
}

#[test]
fn accepted_block_saves_what_changed() {
    let mut wallet = state();
    let marks = wallet.marks();
    let save = wallet.update_for_accepted_block(&marks, &block(Ok(vec![false, true]), false)).unwrap();
    assert_eq!(save, SaveActions { history: true, receipts: false });
    let mut wallet = state();
    let marks = wallet.marks();
    let save = wallet.update_for_accepted_block(&marks, &block(Ok(vec![]), true)).unwrap();
    assert_eq!(save, SaveActions { history: true, receipts: false });
    let mut wallet = state();
    let marks = wallet.marks();
    wallet.history.push(entry(5, TxDirection::Received, 7, false));
    wallet.receipts.insert([5; 32]);
    let save = wallet.update_for_accepted_block(&marks, &block(Ok(vec![]), false)).unwrap();
    assert_eq!(save, SaveActions { history: true, receipts: true });
    let mut wallet = state();
    wallet.receipts_dirty = true;
    let marks = wallet.marks();
    let save = wallet.update_for_accepted_block(&marks, &block(Ok(vec![]), false)).unwrap();
    assert_eq!(save, SaveActions { history: false, receipts: true });
}

#[test]
fn unreadable_transactions_are_an_error() {
    let mut wallet = state();
    let marks = wallet.marks();
    let error = wallet.update_for_accepted_block(&marks, &block(Err("loop".to_string()), true)).unwrap_err();
    assert_eq!(error, "accepted block logical txids: loop");
    assert_eq!(wallet.pending.outputs.len(), 2);
    assert!(!wallet.history_dirty);
}

/// The coins of the active address on the new branch.
fn coins() -> ActiveCoins {
    ActiveCoins {
        utxos: coin(40, 12),
        pending: PendingSlots { inputs: [40].into_iter().collect(), outputs: [7, 8, 9].into_iter().collect() },
        snapshot: Some(snapshot(8)),
    }
}

fn unchanged(artifacts: WalletArtifacts, _: usize) -> (WalletArtifacts, Result<(), String>) {
    (artifacts, Ok(()))
}

fn outputs(wallet: &WalletState) -> Vec<u32> {
    let mut slots: Vec<u32> = wallet.pending.outputs.iter().copied().collect();
    slots.sort();
    slots
}

#[test]
fn reorganization_drops_orphaned_artifacts() {
    let mut wallet = Some(state());
    let reclaimed = vec![[2; 32], [3; 32], [4; 32]];
    let replacement = vec![[4; 32], [3; 32]];
    let slots = vec![vec![7, 30], vec![], vec![9]];
    let save =
        install_reorg_snapshot_and_artifacts(&mut wallet, Ok(coins()), &reclaimed, &replacement, &slots, |found, index| {
            let mut artifacts = found;
            if index == 0 {
                assert_eq!(*artifacts.receipts.payments(), vec![[9; 32]]);
            }
            if index == 1 {
                artifacts.receipts.insert([4; 32]);
                artifacts.receipts.insert([4; 32]);
                artifacts.history[2].height = 8;
            }
            (artifacts, Ok(()))
        })
        .unwrap();
    assert_eq!(save, Some(SaveActions { history: true, receipts: true }));
    let after = wallet.unwrap();
    let kept: Vec<(u8, u64)> = after.history.iter().map(|entry| (entry.tx_hash[0], entry.height)).collect();
    assert_eq!(kept, vec![(1, 5), (3, 6), (4, 8)]);
    assert_eq!(*after.receipts.payments(), vec![[9; 32], [4; 32]]);
    assert!(after.history_dirty && after.receipts_dirty);
}

#[test]
fn coins_come_from_the_verified_snapshot() {
    let mut wallet = Some(state());
    let slots = vec![vec![8], vec![7, 9]];
    install_reorg_snapshot_and_artifacts(&mut wallet, Ok(coins()), &vec![], &vec![], &slots, |_, _| {
        (WalletArtifacts { history: vec![], receipts: ReceiptBook::new() }, Ok(()))
    })
    .unwrap();
    let after = wallet.unwrap();
    assert_eq!(*after.utxos.coins(), vec![WalletUtxo { slot_index: 40, value: 12 }]);
    assert!(after.pending.inputs.contains(&40) && after.pending.inputs.len() == 1);
    assert_eq!(after.active_snapshot.unwrap().height, 8);
    assert!(after.pending.outputs.is_empty());
}

#[test]
fn reorganization_without_activation_changes_nothing() {
    let mut wallet = Some(state());
    let reclaimed = vec![[2; 32]];
    let result = install_reorg_snapshot_and_artifacts(
        &mut wallet,
        Err("gone".to_string()),
        &reclaimed,
        &vec![],
        &vec![vec![7]],
        unchanged,
    );
    assert_eq!(result.unwrap_err(), "gone");
    let after = wallet.unwrap();
    assert_eq!(after.history.len(), 4);
    assert_eq!(outputs(&after), vec![7, 8]);
    let mut none: Option<WalletState> = None;
    let result =
        install_reorg_snapshot_and_artifacts(&mut none, Ok(coins()), &reclaimed, &vec![], &vec![vec![7]], unchanged);
    assert_eq!(result, Ok(None));
}

#[test]
fn failed_rescan_is_not_saved() {
    let mut wallet = Some(state());
    let slots = vec![vec![7], vec![8], vec![9]];
    let result =
        install_reorg_snapshot_and_artifacts(&mut wallet, Ok(coins()), &vec![[2; 32]], &vec![], &slots, |found, index| {
            if index == 1 {
                (found, Err("bad block".to_string()))
            } else {
                (found, Ok(()))
            }
        });
    assert_eq!(result.unwrap_err(), "bad block");
    let after = wallet.unwrap();
    assert_eq!(after.history.len(), 3);
    assert!(!after.history_dirty);
    assert_eq!(outputs(&after), vec![8, 9]);
}

#[test]
fn look_ahead_is_bounded() {
    assert_eq!(scan_end(3, 1_000), 23);
    assert_eq!(scan_end(990, 1_000), 1_000);
    assert_eq!(scan_end(u32::MAX, 1_000), 1_000);
    assert_eq!(scan_end(u32::MAX - 5, u32::MAX), u32::MAX);
}

#[test]
fn overview_shows_each_address_on_its_own() {
    let mut scan = OverviewScan::new(2);
    for amounts in [vec![10, 5], vec![], vec![], vec![7], vec![]] {
        scan.add_address(&amounts).unwrap();
    }
    assert_eq!(scan.discovered_next(), Some(4));
    let texts: Vec<String> = (0..5).map(|i| format!("noid{}", i)).collect();
    let overview = scan.overview(4, 3, &texts);
    assert_eq!(overview.available_balance_micronoid, 22);
    assert_eq!(overview.active_balance_micronoid, 7);
    assert_eq!(overview.active_index, 3);
    assert_eq!(overview.address_count, 4);
    assert_eq!(overview.addresses.len(), 4);
    assert_eq!(overview.addresses[0].balance_micronoid, 15);
    assert!(overview.addresses[3].is_active);
    assert!(!overview.addresses[0].is_active);
    assert_eq!(overview.addresses[2].address, "noid2");
    assert_eq!(overview.addresses[2].key_index, 2);
}

#[test]
fn nothing_is_discovered_among_generated_addresses() {
    let mut scan = OverviewScan::new(2);
    for amounts in [vec![10], vec![5], vec![]] {
        scan.add_address(&amounts).unwrap();
    }
    assert_eq!(scan.discovered_next(), None);
    let texts = vec!["a".to_string(), "b".to_string(), "c".to_string()];
    let overview = scan.overview(2, 5, &texts);
    assert_eq!(overview.addresses.len(), 2);
    assert_eq!(overview.active_balance_micronoid, 0);
}

#[test]
fn balances_that_do_not_fit() {
    let mut scan = OverviewScan::new(0);
    scan.add_address(&vec![1]).unwrap();
    let error = scan.add_address(&vec![u64::MAX, 1]).unwrap_err();
    assert_eq!(error, OverviewError::AddressOverflow { index: 1 });
    assert_eq!(error.message(), "wallet address #1 balance overflow");
    let error = scan.add_address(&vec![u64::MAX]).unwrap_err();
    assert_eq!(error, OverviewError::AvailableOverflow);
    assert_eq!(error.message(), "available wallet balance overflow");
}

#[test]
fn new_addresses_are_inactive() {
    let view = new_address_view(8, "noid8".to_string());
    assert_eq!((view.key_index, view.address.as_str(), view.balance_micronoid, view.is_active), (8, "noid8", 0, false));
}

#[test]
fn recent_payments_come_newest_first() {
    let history: Vec<HistoryEntry> = (0..30).map(|i| entry(i, TxDirection::Sent, (i % 2) as u64, false)).collect();
    let recent = mobile_recent_transactions(&history, 3);
    assert_eq!(recent.len(), 3);
    assert_eq!(recent[0].txid, [29; 32]);
    assert_eq!(recent[2].txid, [27; 32]);
    assert!(!recent[0].pending);
    assert!(recent[1].pending);
    assert_eq!(recent[1].timestamp, 1_028);
    assert_eq!(mobile_recent_transactions(&history, 100).len(), 20);
    assert_eq!(mobile_recent_transactions(&history[..2].to_vec(), 5).len(), 2);
    assert!(mobile_recent_transactions(&history, 0).is_empty());
}

#[test]
fn asked_numbers_are_clamped() {
    assert_eq!(recent_limit(-3), 5);
    assert_eq!(recent_limit(0), 5);
    assert_eq!(recent_limit(1), 1);
    assert_eq!(recent_limit(20), 20);
    assert_eq!(recent_limit(i32::MAX), 20);
}

#[test]
fn tables_hold_a_key_once() {
    let mut table = coin(3, 10);
    table.insert(WalletUtxo { slot_index: 4, value: 1 });
    table.insert(WalletUtxo { slot_index: 3, value: 20 });
    let held: Vec<(u32, u64)> = table.coins().iter().map(|coin| (coin.slot_index, coin.value)).collect();
    assert_eq!(held, vec![(3, 20), (4, 1)]);
    table.clear();
    assert!(table.coins().is_empty());
    let mut book = receipts(&[1, 2, 1, 3]);
    assert_eq!(book.len(), 3);
    book.remove_all(&vec![[3; 32], [7; 32], [1; 32]]);
    assert_eq!(*book.payments(), vec![[2; 32]]);
}
