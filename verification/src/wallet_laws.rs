//! What holds of the wallet: its coins, history and receipts, and what is shown of them.

use vstd::prelude::*;
use crate::bytes::Digest;
use crate::overview::{
    lemma_highest_funded, mobile_recent_transactions, new_address_view, recent_limit, scan_end, sum,
    MobileRecentTransaction, MobileWalletAddressView, MobileWalletOverview, OverviewError, OverviewScan,
};
use crate::wallet::{
    block_walked, filled_slots, finished_blocks, followed, install_reorg_snapshot_and_artifacts,
    invalidate_active_cache, reorged_history, walked, with_coins, AcceptedBlock, ActiveCoins, BlockMarks,
    HistoryEntry, SaveActions, TxDirection, WalletArtifacts, WalletState,
};
use crate::wallet_tables::{kept_receipts, lemma_no_orphaned_receipt, CoinTable, ReceiptBook, WalletUtxo};

verus! {

/// A history entry survives a reorganization: it was not reclaimed, or it is a
/// mined block, or a sent payment that the new branch holds too.
pub open spec fn survives(entry: HistoryEntry, reclaimed: Seq<Digest>, replacement: Seq<Digest>) -> bool {
    ||| !reclaimed.contains(entry.tx_hash)
    ||| entry.is_coinbase
    ||| replacement.contains(entry.tx_hash) && entry.direction == TxDirection::Sent
}

/// What a reorganization leaves of a history: the entries at some places, in
/// their order. Whatever was not reclaimed, and every mined block, is left as
/// it was; a sent payment that the new branch holds too is pending again.
pub open spec fn history_left(
    before: Seq<HistoryEntry>,
    after: Seq<HistoryEntry>,
    reclaimed: Seq<Digest>,
    replacement: Seq<Digest>,
    places: Seq<int>,
) -> bool {
    &&& places.len() == after.len()
    &&& forall|a: int, b: int| 0 <= a < b < places.len() ==> places[a] < places[b]
    &&& forall|a: int|
        0 <= a < places.len() ==> {
            let old_entry = before[#[trigger] places[a]];
            &&& 0 <= places[a] < before.len()
            &&& after[a].tx_hash == old_entry.tx_hash
            &&& after[a].direction == old_entry.direction
            &&& after[a].amount_micronoid == old_entry.amount_micronoid
            &&& after[a].timestamp == old_entry.timestamp
            &&& after[a].is_coinbase == old_entry.is_coinbase
            &&& after[a].height == (if reclaimed.contains(old_entry.tx_hash) && !old_entry.is_coinbase {
                0
            } else {
                old_entry.height
            })
        }
    &&& forall|i: int|
        0 <= i < before.len() ==> (places.contains(i) <==> survives(#[trigger] before[i], reclaimed, replacement))
}

proof fn lemma_history_left(history: Seq<HistoryEntry>, reclaimed: Seq<Digest>, replacement: Seq<Digest>) -> (places: Seq<
    int,
>)
    ensures
        history_left(history, reorged_history(history, reclaimed, replacement), reclaimed, replacement, places),
    decreases history.len(),
{
    if history.len() == 0 {
        Seq::empty()
    } else {
        let last = history.len() - 1;
        let fewer = history.drop_last();
        let before = lemma_history_left(fewer, reclaimed, replacement);
        let kept = survives(history[last], reclaimed, replacement);
        let places = if kept {
            before.push(last)
        } else {
            before
        };
        let after = reorged_history(history, reclaimed, replacement);
        let rest = reorged_history(fewer, reclaimed, replacement);
        assert forall|a: int| 0 <= a < places.len() implies {
            let old_entry = history[#[trigger] places[a]];
            &&& 0 <= places[a] < history.len()
            &&& after[a].tx_hash == old_entry.tx_hash
            &&& after[a].direction == old_entry.direction
            &&& after[a].amount_micronoid == old_entry.amount_micronoid
            &&& after[a].timestamp == old_entry.timestamp
            &&& after[a].is_coinbase == old_entry.is_coinbase
            &&& after[a].height == (if reclaimed.contains(old_entry.tx_hash) && !old_entry.is_coinbase {
                0
            } else {
                old_entry.height
            })
        } by {
            if a < before.len() {
                assert(0 <= before[a] < fewer.len());
                assert(fewer[before[a]] == history[places[a]]);
                assert(after[a] == rest[a]);
            }
        }
        assert forall|i: int| 0 <= i < history.len() implies (places.contains(i) <==> survives(
            #[trigger] history[i],
            reclaimed,
            replacement,
        )) by {
            if i < last {
                assert(fewer[i] == history[i]);
                assert(before.contains(i) <==> survives(fewer[i], reclaimed, replacement));
                if before.contains(i) {
                    let j = choose|j: int| 0 <= j < before.len() && before[j] == i;
                    assert(places[j] == i);
                }
            } else if kept {
                assert(places[places.len() - 1] == i);
            } else if places.contains(i) {
                let j = choose|j: int| 0 <= j < before.len() && before[j] == i;
                assert(0 <= before[j] < fewer.len());
            }
        }
        places
    }
}

proof fn lemma_receipts_are_filtered(receipts: Seq<Digest>, reclaimed: Seq<Digest>)
    ensures
        kept_receipts(receipts, reclaimed) == receipts.filter(|hash: Digest| !reclaimed.contains(hash)),
    decreases receipts.len(),
{
    reveal(Seq::filter);
    if receipts.len() > 0 {
        lemma_receipts_are_filtered(receipts.drop_last(), reclaimed);
    }
}

/// Reclaimed payments leave the history and the receipts, and nothing else
/// does: see `history_left`. No receipt of a reclaimed payment is kept.
pub proof fn lemma_only_reclaimed_payments_are_dropped(
    wallet: &mut WalletState,
    reclaimed: Vec<Digest>,
    replacement: Vec<Digest>,
) -> (places: Seq<int>)
    requires
        call_ensures(WalletState::drop_reclaimed, (wallet, &reclaimed, &replacement), ()),
    ensures
        history_left(old(wallet).history@, final(wallet).history@, reclaimed@, replacement@, places),
        final(wallet).receipts@ == old(wallet).receipts@.filter(|hash: Digest| !reclaimed@.contains(hash)),
        final(wallet).utxos == old(wallet).utxos,
        final(wallet).pending == old(wallet).pending,
        final(wallet).active_snapshot == old(wallet).active_snapshot,
        final(wallet).history_dirty == old(wallet).history_dirty,
        final(wallet).receipts_dirty == old(wallet).receipts_dirty,
{
    lemma_receipts_are_filtered(old(wallet).receipts@, reclaimed@);
    lemma_history_left(old(wallet).history@, reclaimed@, replacement@)
}

/// An entry that was not reclaimed is in the history after a reorganization as
/// it was before, pending or not.
pub proof fn lemma_what_was_not_reclaimed_stays(
    wallet: &mut WalletState,
    reclaimed: Vec<Digest>,
    replacement: Vec<Digest>,
    i: int,
)
    requires
        call_ensures(WalletState::drop_reclaimed, (wallet, &reclaimed, &replacement), ()),
        0 <= i < old(wallet).history@.len(),
        !reclaimed@.contains(old(wallet).history@[i].tx_hash),
    ensures
        final(wallet).history@.contains(old(wallet).history@[i]),
{
    let places = lemma_only_reclaimed_payments_are_dropped(wallet, reclaimed, replacement);
    let before = old(wallet).history@;
    assert(survives(before[i], reclaimed@, replacement@));
    assert(places.contains(i));
    let a = choose|a: int| 0 <= a < places.len() && places[a] == i;
    assert(before[places[a]] == before[i]);
    assert(final(wallet).history@[a] == before[i]);
}

proof fn lemma_filled_slots(blocks: Seq<Vec<u32>>, slot: u32)
    ensures
        filled_slots(blocks).contains(slot) <==> exists|b: int|
            0 <= b < blocks.len() && (#[trigger] blocks[b])@.contains(slot),
    decreases blocks.len(),
{
    if blocks.len() > 0 {
        let fewer = blocks.drop_last();
        lemma_filled_slots(fewer, slot);
        if filled_slots(fewer).contains(slot) {
            let b = choose|b: int| 0 <= b < fewer.len() && (#[trigger] fewer[b])@.contains(slot);
            assert(blocks[b]@.contains(slot));
        }
        if blocks.last()@.contains(slot) {
            assert(blocks[blocks.len() - 1]@.contains(slot));
        }
        if exists|b: int| 0 <= b < blocks.len() && (#[trigger] blocks[b])@.contains(slot) {
            let b = choose|b: int| 0 <= b < blocks.len() && (#[trigger] blocks[b])@.contains(slot);
            if b < fewer.len() {
                assert(fewer[b]@.contains(slot));
            }
        }
    }
}

/// Without a wallet a reorganization has nothing to bring over.
pub proof fn lemma_a_reorganization_without_a_wallet<
    F: Fn(WalletArtifacts, usize) -> (WalletArtifacts, Result<(), String>),
>(
    wallet: &mut Option<WalletState>,
    activated: Result<ActiveCoins, String>,
    reclaimed: Vec<Digest>,
    replacement: Vec<Digest>,
    output_slots: Vec<Vec<u32>>,
    rescan: F,
    result: Result<Option<SaveActions>, String>,
)
    requires
        call_ensures(
            install_reorg_snapshot_and_artifacts::<F>,
            (wallet, activated, &reclaimed, &replacement, &output_slots, rescan),
            result,
        ),
        *old(wallet) is None || activated is Err,
    ensures
        *old(wallet) is None ==> *final(wallet) is None && result == Ok::<Option<SaveActions>, String>(None),
        *old(wallet) is Some ==> *final(wallet) == *old(wallet) && result == Err::<Option<SaveActions>, String>(
            activated->Err_0,
        ),
{
}

/// The `i`-th block was read with this verdict.
pub open spec fn read_over<F: Fn(WalletArtifacts, usize) -> (WalletArtifacts, Result<(), String>)>(
    rescan: F,
    trace: Seq<WalletArtifacts>,
    i: int,
    verdict: Result<(), String>,
) -> bool {
    call_ensures(rescan, (trace[i], i as usize), (trace[i + 1], verdict))
}

/// How a wallet gets onto a new branch: `trace` are its history and receipts
/// before the first block of the branch and after each, and `places` say which
/// entries of its history were left before the first.
///
/// It holds the verified coins of the new branch. Its history and receipts go
/// through the blocks in their order. The first block that cannot be read ends
/// it; the blocks before it have released the output slots that they fill.
pub open spec fn brought_over<F: Fn(WalletArtifacts, usize) -> (WalletArtifacts, Result<(), String>)>(
    before: WalletState,
    after: WalletState,
    coins: ActiveCoins,
    reclaimed: Seq<Digest>,
    replacement: Seq<Digest>,
    output_slots: Seq<Vec<u32>>,
    rescan: F,
    result: Result<Option<SaveActions>, String>,
    trace: Seq<WalletArtifacts>,
    places: Seq<int>,
) -> bool {
    &&& trace.len() > 0
    &&& history_left(before.history@, trace[0].history@, reclaimed, replacement, places)
    &&& trace[0].receipts@ == before.receipts@.filter(|hash: Digest| !reclaimed.contains(hash))
    &&& after.history@ == trace.last().history@
    &&& after.receipts@ == trace.last().receipts@
    &&& after.utxos == coins.utxos
    &&& after.pending.inputs == coins.pending.inputs
    &&& after.active_snapshot == coins.snapshot
    &&& match result {
        Ok(saves) => {
            &&& saves == Some(SaveActions { history: true, receipts: true })
            &&& after.history_dirty && after.receipts_dirty
            &&& trace.len() == output_slots.len() + 1
            &&& forall|i: int|
                0 <= i < output_slots.len() ==> #[trigger] read_over(rescan, trace, i, Ok(()))
            &&& forall|slot: u32|
                #[trigger] after.pending.outputs@.contains(slot) <==> coins.pending.outputs@.contains(slot)
                    && forall|b: int|
                    0 <= b < output_slots.len() ==> !(#[trigger] output_slots[b])@.contains(slot)
        },
        Err(error) => {
            &&& after.history_dirty == before.history_dirty
            &&& after.receipts_dirty == before.receipts_dirty
            &&& 1 < trace.len() <= output_slots.len() + 1
            &&& forall|i: int|
                0 <= i < trace.len() - 2 ==> #[trigger] read_over(rescan, trace, i, Ok(()))
            &&& read_over(rescan, trace, trace.len() - 2, Err(error))
            &&& forall|slot: u32|
                #[trigger] after.pending.outputs@.contains(slot) <==> coins.pending.outputs@.contains(slot)
                    && forall|b: int|
                    0 <= b < trace.len() - 2 ==> !(#[trigger] output_slots[b])@.contains(slot)
        },
    }
}

/// A reorganization brings the wallet onto the new branch: see `brought_over`.
pub proof fn lemma_a_reorganization_brings_the_wallet_over<
    F: Fn(WalletArtifacts, usize) -> (WalletArtifacts, Result<(), String>),
>(
    wallet: &mut Option<WalletState>,
    coins: ActiveCoins,
    reclaimed: Vec<Digest>,
    replacement: Vec<Digest>,
    output_slots: Vec<Vec<u32>>,
    rescan: F,
    result: Result<Option<SaveActions>, String>,
)
    requires
        call_ensures(
            install_reorg_snapshot_and_artifacts::<F>,
            (wallet, Ok(coins), &reclaimed, &replacement, &output_slots, rescan),
            result,
        ),
        *old(wallet) is Some,
    ensures
        *final(wallet) is Some,
        exists|trace: Seq<WalletArtifacts>, places: Seq<int>| #[trigger]
            brought_over(
                (*old(wallet))->0,
                (*final(wallet))->0,
                coins,
                reclaimed@,
                replacement@,
                output_slots@,
                rescan,
                result,
                trace,
                places,
            ),
{
    let before = (*old(wallet))->0;
    let after = (*final(wallet))->0;
    let (trace, outcome) = choose|trace: Seq<WalletArtifacts>, outcome: Result<(), String>|
        {
            &&& #[trigger] walked(rescan, trace, outcome)
            &&& trace[0].history@ == reorged_history(before.history@, reclaimed@, replacement@)
            &&& trace[0].receipts@ == kept_receipts(before.receipts@, reclaimed@)
            &&& trace.len() <= output_slots@.len() + 1
            &&& outcome is Ok ==> trace.len() == output_slots@.len() + 1
            &&& followed(with_coins(before, coins), after, output_slots@, trace, outcome)
            &&& result == match outcome {
                Err(error) => Err::<Option<SaveActions>, String>(error),
                Ok(_) => Ok(Some(SaveActions { history: true, receipts: true })),
            }
        };
    let places = lemma_history_left(before.history@, reclaimed@, replacement@);
    lemma_receipts_are_filtered(before.receipts@, reclaimed@);
    let done = finished_blocks(trace, outcome);
    if outcome is Ok {
        assert(outcome->Ok_0 == ());
        assert forall|i: int| 0 <= i < output_slots@.len() implies #[trigger] read_over(rescan, trace, i, Ok(())) by {
            assert(block_walked(rescan, trace, outcome, i));
        }
    } else {
        assert forall|i: int| 0 <= i < trace.len() - 2 implies #[trigger] read_over(rescan, trace, i, Ok(())) by {
            assert(block_walked(rescan, trace, outcome, i));
        }
        assert(block_walked(rescan, trace, outcome, trace.len() - 2));
    }
    assert forall|slot: u32| #[trigger] after.pending.outputs@.contains(slot) <==> coins.pending.outputs@.contains(slot)
        && forall|b: int| 0 <= b < done ==> !(#[trigger] output_slots@[b])@.contains(slot) by {
        let blocks = output_slots@.take(done);
        lemma_filled_slots(blocks, slot);
        if filled_slots(blocks).contains(slot) {
            let b = choose|b: int| 0 <= b < blocks.len() && (#[trigger] blocks[b])@.contains(slot);
            assert(output_slots@[b]@.contains(slot));
        } else {
            assert forall|b: int| 0 <= b < done implies !(#[trigger] output_slots@[b])@.contains(slot) by {
                assert(!blocks[b]@.contains(slot));
            }
        }
    }
    assert(brought_over(
        before,
        after,
        coins,
        reclaimed@,
        replacement@,
        output_slots@,
        rescan,
        result,
        trace,
        places,
    ));
}

/// A reorganization whose blocks hold nothing of the wallet keeps every history
/// entry that was not reclaimed, pending or not, as it was.
pub proof fn lemma_a_reorganization_keeps_what_was_not_reclaimed<
    F: Fn(WalletArtifacts, usize) -> (WalletArtifacts, Result<(), String>),
>(
    wallet: &mut Option<WalletState>,
    coins: ActiveCoins,
    reclaimed: Vec<Digest>,
    replacement: Vec<Digest>,
    output_slots: Vec<Vec<u32>>,
    rescan: F,
    result: Result<Option<SaveActions>, String>,
    i: int,
)
    requires
        call_ensures(
            install_reorg_snapshot_and_artifacts::<F>,
            (wallet, Ok(coins), &reclaimed, &replacement, &output_slots, rescan),
            result,
        ),
        *old(wallet) is Some,
        forall|artifacts: WalletArtifacts, index: usize, after: (WalletArtifacts, Result<(), String>)|
            #[trigger] call_ensures(rescan, (artifacts, index), after) ==> after.0.history@ == artifacts.history@,
        0 <= i < (*old(wallet))->0.history@.len(),
        !reclaimed@.contains((*old(wallet))->0.history@[i].tx_hash),
    ensures
        *final(wallet) is Some,
        (*final(wallet))->0.history@.contains((*old(wallet))->0.history@[i]),
{
    lemma_a_reorganization_brings_the_wallet_over(
        wallet,
        coins,
        reclaimed,
        replacement,
        output_slots,
        rescan,
        result,
    );
    let before = (*old(wallet))->0;
    let after = (*final(wallet))->0;
    let (trace, places) = choose|trace: Seq<WalletArtifacts>, places: Seq<int>| #[trigger]
        brought_over(
            before,
            after,
            coins,
            reclaimed@,
            replacement@,
            output_slots@,
            rescan,
            result,
            trace,
            places,
        );
    lemma_still_walk(rescan, trace, result, output_slots@, trace.len() - 1);
    assert(survives(before.history@[i], reclaimed@, replacement@));
    assert(places.contains(i));
    let a = choose|a: int| 0 <= a < places.len() && places[a] == i;
    assert(before.history@[places[a]] == before.history@[i]);
    assert(trace[0].history@[a] == before.history@[i]);
}

proof fn lemma_still_walk<F: Fn(WalletArtifacts, usize) -> (WalletArtifacts, Result<(), String>)>(
    rescan: F,
    trace: Seq<WalletArtifacts>,
    result: Result<Option<SaveActions>, String>,
    output_slots: Seq<Vec<u32>>,
    n: int,
)
    requires
        0 <= n < trace.len(),
        trace.len() <= output_slots.len() + 1,
        forall|artifacts: WalletArtifacts, index: usize, after: (WalletArtifacts, Result<(), String>)|
            #[trigger] call_ensures(rescan, (artifacts, index), after) ==> after.0.history@ == artifacts.history@,
        match result {
            Ok(_) => forall|i: int|
                0 <= i < trace.len() - 1 ==> #[trigger] read_over(rescan, trace, i, Ok(())),
            Err(error) => trace.len() > 1 && (forall|i: int|
                0 <= i < trace.len() - 2 ==> #[trigger] read_over(rescan, trace, i, Ok(()))) && read_over(rescan, trace, trace.len() - 2, Err(error)),
        },
    ensures
        trace[n].history@ == trace[0].history@,
    decreases n,
{
    if n > 0 {
        lemma_still_walk(rescan, trace, result, output_slots, n - 1);
        match result {
            Ok(_) => {
                assert(read_over(rescan, trace, n - 1, Ok(())));
            },
            Err(error) => {
                if n < trace.len() - 1 {
                    assert(read_over(rescan, trace, n - 1, Ok(())));
                }
            },
        }
    }
}

/// Dropping the cache of the active address takes its coins, its pending inputs
/// and its snapshot, and leaves history, receipts and pending outputs.
pub proof fn lemma_a_dropped_cache_can_spend_nothing(wallet: &mut Option<WalletState>)
    requires
        call_ensures(invalidate_active_cache, (wallet,), ()),
        *old(wallet) is Some,
    ensures
        *final(wallet) is Some,
        (*final(wallet))->0.utxos@.len() == 0,
        forall|slot: u32| !(#[trigger] (*final(wallet))->0.pending.inputs@.contains(slot)),
        (*final(wallet))->0.active_snapshot is None,
        (*final(wallet))->0.pending.outputs == (*old(wallet))->0.pending.outputs,
        (*final(wallet))->0.history == (*old(wallet))->0.history,
        (*final(wallet))->0.receipts == (*old(wallet))->0.receipts,
{
}

/// Verified coins replace the coins, the pending slots and the snapshot, and nothing else.
pub proof fn lemma_activation_replaces_the_coins(wallet: &mut WalletState, coins: ActiveCoins)
    requires
        call_ensures(WalletState::activate, (wallet, coins), ()),
    ensures
        final(wallet).utxos == coins.utxos,
        final(wallet).pending == coins.pending,
        final(wallet).active_snapshot == coins.snapshot,
        final(wallet).history == old(wallet).history,
        final(wallet).receipts == old(wallet).receipts,
        final(wallet).history_dirty == old(wallet).history_dirty,
        final(wallet).receipts_dirty == old(wallet).receipts_dirty,
{
}

/// After an accepted block the wallet is exact up to it and the output slots
/// that it fills are not pending any more. History is saved exactly if it
/// changed since it was last saved, and so are the receipts.
pub proof fn lemma_an_accepted_block_is_followed(
    earlier: WalletState,
    marks: BlockMarks,
    wallet: &mut WalletState,
    block: AcceptedBlock,
    confirmed: Vec<bool>,
    result: Result<SaveActions, String>,
)
    requires
        call_ensures(WalletState::marks, (&earlier,), marks),
        call_ensures(WalletState::update_for_accepted_block, (wallet, &marks, &block), result),
        block.confirmed == Ok::<Vec<bool>, String>(confirmed),
    ensures
        final(wallet).active_snapshot == Some(block.snapshot),
        final(wallet).utxos == old(wallet).utxos,
        final(wallet).pending.inputs == old(wallet).pending.inputs,
        final(wallet).history == old(wallet).history,
        final(wallet).receipts == old(wallet).receipts,
        forall|slot: u32|
            #[trigger] final(wallet).pending.outputs@.contains(slot) <==> old(wallet).pending.outputs@.contains(slot)
                && !block.output_slots@.contains(slot),
        result is Ok,
        result->Ok_0.history <==> old(wallet).history_dirty || earlier.history@.len() != old(wallet).history@.len()
            || block.walletwide_history_changed || exists|t: int| 0 <= t < confirmed@.len() && #[trigger] confirmed@[t],
        result->Ok_0.receipts <==> old(wallet).receipts_dirty || earlier.receipts@.len()
            != old(wallet).receipts@.len(),
        final(wallet).history_dirty == result->Ok_0.history,
        final(wallet).receipts_dirty == result->Ok_0.receipts,
{
}

/// A coin that is put into the table is there; the coins of all other slots stay.
pub proof fn lemma_a_coin_replaces_the_one_in_its_slot(table: &mut CoinTable, coin: WalletUtxo)
    requires
        call_ensures(CoinTable::insert, (table, coin), ()),
        forall|i: int, j: int|
            0 <= i < j < old(table)@.len() ==> (#[trigger] old(table)@[i]).slot_index != (#[trigger] old(
                table,
            )@[j]).slot_index,
    ensures
        final(table)@.contains(coin),
        forall|other: WalletUtxo|
            other.slot_index != coin.slot_index ==> (#[trigger] final(table)@.contains(other) <==> old(
                table,
            )@.contains(other)),
        forall|other: WalletUtxo|
            other.slot_index == coin.slot_index && #[trigger] final(table)@.contains(other) ==> other == coin,
{
    let before = old(table)@;
    let after = final(table)@;
    if exists|i: int| 0 <= i < before.len() && (#[trigger] before[i]).slot_index == coin.slot_index {
        let k = choose|i: int| 0 <= i < before.len() && (#[trigger] before[i]).slot_index == coin.slot_index;
        assert(after == before.update(k, coin));
        assert(after[k] == coin);
        assert forall|other: WalletUtxo| other.slot_index != coin.slot_index implies (#[trigger] after.contains(other)
            <==> before.contains(other)) by {
            if before.contains(other) {
                let j = choose|j: int| 0 <= j < before.len() && before[j] == other;
                assert(after[j] == other);
            }
            if after.contains(other) {
                let j = choose|j: int| 0 <= j < after.len() && after[j] == other;
                assert(before[j] == other);
            }
        }
        assert forall|other: WalletUtxo|
            other.slot_index == coin.slot_index && #[trigger] after.contains(other) implies other == coin by {
            let j = choose|j: int| 0 <= j < after.len() && after[j] == other;
            if j < k {
                assert(before[j].slot_index != before[k].slot_index);
            } else if j > k {
                assert(before[k].slot_index != before[j].slot_index);
            }
        }
    } else {
        assert(after == before.push(coin));
        assert(after[before.len() as int] == coin);
        assert forall|other: WalletUtxo| other.slot_index != coin.slot_index implies (#[trigger] after.contains(other)
            <==> before.contains(other)) by {
            if before.contains(other) {
                let j = choose|j: int| 0 <= j < before.len() && before[j] == other;
                assert(after[j] == other);
            }
            if after.contains(other) {
                let j = choose|j: int| 0 <= j < after.len() && after[j] == other;
                assert(before[j] == other);
            }
        }
        assert forall|other: WalletUtxo|
            other.slot_index == coin.slot_index && #[trigger] after.contains(other) implies other == coin by {
            let j = choose|j: int| 0 <= j < after.len() && after[j] == other;
            if j < before.len() {
                assert(before[j].slot_index != coin.slot_index);
            }
        }
    }
}

/// A receipt that is noted is held, and no other receipt is touched.
pub proof fn lemma_a_noted_receipt_is_held(book: &mut ReceiptBook, hash: Digest, other: Digest)
    requires
        call_ensures(ReceiptBook::insert, (book, hash), ()),
    ensures
        final(book)@.contains(other) <==> old(book)@.contains(other) || other == hash,
{
    let before = old(book)@;
    let after = final(book)@;
    if !before.contains(hash) {
        assert(after[before.len() as int] == hash);
        if before.contains(other) {
            let j = choose|j: int| 0 <= j < before.len() && before[j] == other;
            assert(after[j] == other);
        }
        if after.contains(other) && other != hash {
            let j = choose|j: int| 0 <= j < after.len() && after[j] == other;
            assert(before[j] == other);
        }
    }
}

/// The receipts of the named payments are dropped, and no others.
pub proof fn lemma_dropped_receipts_are_gone(book: &mut ReceiptBook, reclaimed: Vec<Digest>, hash: Digest)
    requires
        call_ensures(ReceiptBook::remove_all, (book, &reclaimed), ()),
    ensures
        final(book)@.contains(hash) <==> old(book)@.contains(hash) && !reclaimed@.contains(hash),
{
    lemma_no_orphaned_receipt(old(book)@, reclaimed@, hash);
}

/// Recent payments are shown as the history has them, field by field, the
/// newest first; at most twenty of them, and no more than are asked for.
pub proof fn lemma_recent_payments_are_shown_as_they_are(
    history: Vec<HistoryEntry>,
    limit: usize,
    recent: Vec<MobileRecentTransaction>,
)
    requires
        call_ensures(mobile_recent_transactions, (&history, limit), recent),
    ensures
        recent@.len() <= limit,
        recent@.len() <= 20,
        recent@.len() <= history@.len(),
        recent@.len() == limit || recent@.len() == 20 || recent@.len() == history@.len(),
        forall|i: int|
            0 <= i < recent@.len() ==> {
                let entry = history@[history@.len() - 1 - i];
                &&& (#[trigger] recent@[i]).txid == entry.tx_hash
                &&& recent@[i].direction == entry.direction
                &&& recent@[i].amount_micronoid == entry.amount_micronoid
                &&& recent@[i].height == entry.height
                &&& recent@[i].timestamp == entry.timestamp
                &&& recent@[i].is_coinbase == entry.is_coinbase
                &&& recent@[i].pending <==> entry.height == 0
            },
{
}

/// Without a number five payments are shown, otherwise as many as are asked for, up to twenty.
pub proof fn lemma_the_number_of_recent_payments(asked: i32, limit: usize)
    requires
        call_ensures(recent_limit, (asked,), limit),
    ensures
        asked <= 0 ==> limit == 5,
        0 < asked <= 20 ==> limit == asked,
        asked > 20 ==> limit == 20,
{
}

/// Twenty addresses behind the last generated one are looked at, as far as there are so many.
pub proof fn lemma_the_look_ahead(next_index: u32, max_addresses: u32, end: u32)
    requires
        call_ensures(scan_end, (next_index, max_addresses), end),
    ensures
        end <= max_addresses,
        next_index + 20 <= max_addresses ==> end == next_index + 20,
        next_index + 20 > max_addresses ==> end == max_addresses,
{
}

/// The amounts of a list together.
pub open spec fn together(amounts: Seq<u64>) -> int {
    amounts.fold_left(0int, |total: int, amount: u64| total + amount)
}

proof fn lemma_sum_is_folded(amounts: Seq<u64>)
    ensures
        sum(amounts) == together(amounts),
    decreases amounts.len(),
{
    reveal_with_fuel(Seq::fold_left, 2);
    if amounts.len() > 0 {
        lemma_sum_is_folded(amounts.drop_last());
    }
}

/// A scan that starts has looked at nothing.
pub proof fn lemma_a_new_scan_is_empty(original_next: u32, scan: OverviewScan)
    requires
        call_ensures(OverviewScan::new, (original_next,), scan),
    ensures
        scan.wf(),
        scan.original_next == original_next,
        scan.balances@.len() == 0,
        scan.available == 0,
        scan.highest is None,
{
}

/// An address counts with all its amounts. One whose balance does not fit is an
/// error, and so is a balance of all addresses that does not; then nothing is added.
pub proof fn lemma_an_address_counts_with_all_its_amounts(
    scan: &mut OverviewScan,
    amounts: Vec<u64>,
    result: Result<(), OverviewError>,
)
    requires
        old(scan).wf(),
        call_ensures(OverviewScan::add_address, (scan, &amounts), result),
    ensures
        final(scan).wf(),
        final(scan).original_next == old(scan).original_next,
        final(scan).available == together(final(scan).balances@),
        ({
            let balance = together(amounts@);
            match result {
                Ok(_) => {
                    &&& 0 <= balance <= u64::MAX
                    &&& final(scan).balances@ == old(scan).balances@.push(balance as u64)
                    &&& final(scan).available == old(scan).available + balance
                },
                Err(OverviewError::AddressOverflow { index }) => {
                    &&& balance > u64::MAX
                    &&& index == old(scan).balances@.len() as u32
                    &&& final(scan).balances@ == old(scan).balances@
                },
                Err(OverviewError::AvailableOverflow) => {
                    &&& balance <= u64::MAX
                    &&& old(scan).available + balance > u64::MAX
                    &&& final(scan).balances@ == old(scan).balances@
                },
            }
        }),
{
    lemma_sum_is_folded(amounts@);
    lemma_sum_is_folded(old(scan).balances@);
    lemma_sum_is_folded(final(scan).balances@);
    if result is Ok {
        assert(final(scan).balances@.drop_last() =~= old(scan).balances@);
    }
}

/// The next index comes right after the last funded address of the look-ahead,
/// so that every funded address can be selected; with none it does not change.
pub proof fn lemma_every_funded_address_becomes_selectable(scan: OverviewScan, next: Option<u32>)
    requires
        scan.wf(),
        call_ensures(OverviewScan::discovered_next, (&scan,), next),
    ensures
        match next {
            Some(next) => {
                &&& scan.original_next < next <= scan.balances@.len()
                &&& scan.balances@[next - 1] != 0
                &&& forall|i: int| next <= i < scan.balances@.len() ==> #[trigger] scan.balances@[i] == 0
            },
            None => forall|i: int| scan.original_next <= i < scan.balances@.len() ==> #[trigger] scan.balances@[i] == 0,
        },
{
    lemma_highest_funded(scan.balances@, scan.original_next);
}

/// The overview shows every generated address that was looked at, with its own
/// text and balance, and marks the active one and no other. What is available
/// is the balance of all addresses, and the active balance that of the active one.
pub proof fn lemma_the_overview_shows_every_address(
    scan: OverviewScan,
    committed_next: u32,
    active_index: u32,
    addresses: Vec<String>,
    overview: MobileWalletOverview,
)
    requires
        scan.wf(),
        addresses@.len() == scan.balances@.len(),
        call_ensures(OverviewScan::overview, (&scan, committed_next, active_index, &addresses), overview),
    ensures
        overview.available_balance_micronoid == together(scan.balances@),
        overview.active_index == active_index,
        overview.address_count == committed_next,
        overview.addresses@.len() <= committed_next,
        overview.addresses@.len() <= scan.balances@.len(),
        overview.addresses@.len() == committed_next || overview.addresses@.len() == scan.balances@.len(),
        forall|i: int|
            0 <= i < overview.addresses@.len() ==> {
                &&& (#[trigger] overview.addresses@[i]).key_index == i
                &&& overview.addresses@[i].address@ == addresses@[i]@
                &&& overview.addresses@[i].balance_micronoid == scan.balances@[i]
                &&& overview.addresses@[i].is_active <==> i == active_index
            },
        active_index < overview.addresses@.len() ==> overview.active_balance_micronoid
            == scan.balances@[active_index as int],
        active_index >= overview.addresses@.len() ==> overview.active_balance_micronoid == 0,
{
    lemma_sum_is_folded(scan.balances@);
}

/// A new address is empty and not active.
pub proof fn lemma_a_new_address_is_empty(key_index: u32, address: String, view: MobileWalletAddressView)
    requires
        call_ensures(new_address_view, (key_index, address), view),
    ensures
        view.key_index == key_index,
        view.address@ == address@,
        view.balance_micronoid == 0,
        !view.is_active,
{
}

} // verus!
