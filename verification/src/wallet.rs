//! The wallet cache and how it follows the canonical chain.

use vstd::prelude::*;
use crate::bytes::Digest;
use crate::submit::PendingSlots;
use crate::wallet_tables::{is_listed, kept_receipts, listed, CoinTable, ReceiptBook, WalletUtxo};

verus! {

broadcast use vstd::std_specs::hash::group_hash_axioms;

/// Which way a payment went.
#[derive(Clone, Copy, Debug, PartialEq, Eq, Structural)]
pub enum TxDirection {
    Sent,
    Received,
}

/// A payment in the wallet's history; at height zero it is pending.
#[derive(Clone, Copy, Debug)]
pub struct HistoryEntry {
    pub tx_hash: Digest,
    pub direction: TxDirection,
    pub amount_micronoid: u64,
    pub height: u64,
    pub timestamp: u64,
    pub is_coinbase: bool,
}

/// The block up to which the cache of the active address is exact.
#[derive(Clone, Copy, Debug)]
pub struct ActiveWalletSnapshot {
    pub height: u64,
    pub tip_hash: Digest,
    pub state_root: Digest,
    pub log_slots: u32,
    pub active_slot_count: u64,
    pub alloc_counter: u64,
}

/// The wallet: coins of the active address, pending slots, history and receipts.
pub struct WalletState {
    pub utxos: CoinTable,
    pub pending: PendingSlots,
    pub history: Vec<HistoryEntry>,
    pub receipts: ReceiptBook,
    pub active_snapshot: Option<ActiveWalletSnapshot>,
    /// The history differs from what is on disk.
    pub history_dirty: bool,
    /// The receipts differ from what is on disk.
    pub receipts_dirty: bool,
}

/// Drop the cache of the active address.
///
/// This is how a reorganization whose owner snapshot cannot be installed ends:
/// nothing can be spent before a verified reload.
pub fn invalidate_active_cache(wallet: &mut Option<WalletState>)
    ensures
        *old(wallet) is None ==> *final(wallet) is None,
        *old(wallet) is Some ==> *final(wallet) is Some && ({
            let before = (*old(wallet))->0;
            let after = (*final(wallet))->0;
            &&& after.utxos@ == Seq::<WalletUtxo>::empty()
            &&& after.pending.inputs@ == Set::<u32>::empty()
            &&& after.active_snapshot is None
            &&& after.pending.outputs == before.pending.outputs
            &&& after.history == before.history
            &&& after.receipts == before.receipts
            &&& after.history_dirty == before.history_dirty
            &&& after.receipts_dirty == before.receipts_dirty
        }),
{
    if let Some(state) = wallet {
        state.utxos.clear();
        state.pending.inputs.clear();
        state.active_snapshot = None;
    }
}

/// How many entries the wallet had before a block.
#[derive(Clone, Copy, Debug, PartialEq, Eq, Structural)]
pub struct BlockMarks {
    pub history: usize,
    pub receipts: usize,
}

/// What an accepted block brought, besides the scan of its bodies.
#[derive(Debug)]
pub struct AcceptedBlock {
    pub snapshot: ActiveWalletSnapshot,
    /// Scanning for payments to any address of the wallet changed the history.
    pub walletwide_history_changed: bool,
    /// For each transaction of the block, whether it confirmed a pending payment.
    pub confirmed: Result<Vec<bool>, String>,
    /// The slots that the block fills.
    pub output_slots: Vec<u32>,
}

/// What is to be written to disk.
#[derive(Clone, Copy, Debug, PartialEq, Eq, Structural)]
pub struct SaveActions {
    pub history: bool,
    pub receipts: bool,
}

pub open spec fn any_true(flags: Seq<bool>) -> bool {
    exists|i: int| 0 <= i < flags.len() && #[trigger] flags[i]
}

fn any_set(flags: &Vec<bool>) -> (found: bool)
    ensures
        found == any_true(flags@),
{
    let mut i: usize = 0;
    while i < flags.len()
        invariant
            i <= flags@.len(),
            forall|j: int| 0 <= j < i ==> !(#[trigger] flags@[j]),
        decreases flags@.len() - i,
    {
        if flags[i] {
            return true;
        }
        i = i + 1;
    }
    false
}

impl WalletState {
    pub fn marks(&self) -> (marks: BlockMarks)
        ensures
            marks.history == self.history@.len(),
            marks.receipts == self.receipts@.len(),
    {
        BlockMarks { history: self.history.len(), receipts: self.receipts.len() }
    }

    /// Follow a committed block, once its bodies were scanned.
    ///
    /// `marks` was taken before the scan. Gives what is to be saved. A block
    /// whose transactions cannot be told apart is an error.
    pub fn update_for_accepted_block(&mut self, marks: &BlockMarks, block: &AcceptedBlock) -> (result: Result<
        SaveActions,
        String,
    >)
        ensures
            final(self).utxos == old(self).utxos,
            final(self).pending.inputs == old(self).pending.inputs,
            final(self).history == old(self).history,
            final(self).receipts == old(self).receipts,
            final(self).active_snapshot == Some(block.snapshot),
            match block.confirmed {
                Ok(confirmed) => {
                    &&& final(self).pending.outputs@ == old(self).pending.outputs@.difference(
                        block.output_slots@.to_set(),
                    )
                    &&& final(self).history_dirty == (old(self).history_dirty || old(self).history@.len()
                        != marks.history || block.walletwide_history_changed || any_true(confirmed@))
                    &&& final(self).receipts_dirty == (old(self).receipts_dirty || old(self).receipts@.len()
                        != marks.receipts)
                    &&& result == Ok::<SaveActions, String>(
                        SaveActions { history: final(self).history_dirty, receipts: final(self).receipts_dirty },
                    )
                },
                Err(error) => {
                    &&& final(self).pending.outputs == old(self).pending.outputs
                    &&& final(self).history_dirty == old(self).history_dirty
                    &&& final(self).receipts_dirty == old(self).receipts_dirty
                    &&& result is Err
                    &&& result->Err_0@ == "accepted block logical txids: "@ + error@
                },
            },
    {
        self.active_snapshot = Some(block.snapshot);
        let confirmed = match &block.confirmed {
            Ok(confirmed) => confirmed,
            Err(error) => {
                let mut text = String::from_str("accepted block logical txids: ");
                text.append(error.as_str());
                return Err(text);
            },
        };
        let history_changed: bool = self.history.len() != marks.history || block.walletwide_history_changed
            || any_set(confirmed);
        self.pending.release_outputs(&block.output_slots);
        if history_changed {
            self.history_dirty = true;
        }
        if self.receipts.len() != marks.receipts {
            self.receipts_dirty = true;
        }
        Ok(SaveActions { history: self.history_dirty, receipts: self.receipts_dirty })
    }
}

/// What remains of a history entry when payments were taken out of the chain.
///
/// A locally mined block stays on record. A payment that was sent and is in
/// the new branch too waits for its confirmation there.
pub open spec fn reorged_entry(entry: HistoryEntry, reclaimed: Seq<Digest>, replacement: Seq<Digest>) -> Option<
    HistoryEntry,
> {
    if !listed(reclaimed, entry.tx_hash) || entry.is_coinbase {
        Some(entry)
    } else if listed(replacement, entry.tx_hash) && entry.direction == TxDirection::Sent {
        Some(HistoryEntry { height: 0, ..entry })
    } else {
        None
    }
}

/// The history after a reorganization.
pub open spec fn reorged_history(history: Seq<HistoryEntry>, reclaimed: Seq<Digest>, replacement: Seq<Digest>) -> Seq<
    HistoryEntry,
>
    decreases history.len(),
{
    if history.len() == 0 {
        Seq::empty()
    } else {
        let rest = reorged_history(history.drop_last(), reclaimed, replacement);
        match reorged_entry(history.last(), reclaimed, replacement) {
            Some(entry) => rest.push(entry),
            None => rest,
        }
    }
}

impl WalletState {
    /// Take the reclaimed payments out of receipts and history.
    ///
    /// `replacement` are the payments of the new branch.
    pub fn drop_reclaimed(&mut self, reclaimed: &Vec<Digest>, replacement: &Vec<Digest>)
        ensures
            final(self).history@ == reorged_history(old(self).history@, reclaimed@, replacement@),
            final(self).receipts@ == kept_receipts(old(self).receipts@, reclaimed@),
            final(self).utxos == old(self).utxos,
            final(self).pending == old(self).pending,
            final(self).active_snapshot == old(self).active_snapshot,
            final(self).history_dirty == old(self).history_dirty,
            final(self).receipts_dirty == old(self).receipts_dirty,
    {
        // A receipt binds to the block, so none of a reclaimed payment is kept.
        self.receipts.remove_all(reclaimed);
        let ghost cleared = *self;
        let mut history: Vec<HistoryEntry> = Vec::new();
        let mut h: usize = 0;
        while h < self.history.len()
            invariant
                h <= self.history@.len(),
                *self == cleared,
                history@ == reorged_history(self.history@.take(h as int), reclaimed@, replacement@),
            decreases self.history@.len() - h,
        {
            assert(self.history@.take(h + 1).drop_last() =~= self.history@.take(h as int));
            let mut entry = self.history[h];
            if !is_listed(reclaimed, &entry.tx_hash) || entry.is_coinbase {
                history.push(entry);
            } else if is_listed(replacement, &entry.tx_hash) && entry.direction == TxDirection::Sent {
                entry.height = 0;
                history.push(entry);
            }
            h = h + 1;
        }
        assert(self.history@.take(h as int) =~= self.history@);
        self.history = history;
    }
}

/// What the wallet keeps of the payments in blocks.
pub struct WalletArtifacts {
    pub history: Vec<HistoryEntry>,
    pub receipts: ReceiptBook,
}

/// The verified coins of an address, and which slots pending payments use.
pub struct ActiveCoins {
    pub utxos: CoinTable,
    pub pending: PendingSlots,
    pub snapshot: Option<ActiveWalletSnapshot>,
}

/// The wallet with these coins in place of its own.
pub open spec fn with_coins(wallet: WalletState, coins: ActiveCoins) -> WalletState {
    WalletState { utxos: coins.utxos, pending: coins.pending, active_snapshot: coins.snapshot, ..wallet }
}

impl WalletState {
    /// Put verified coins in place of the ones that the wallet holds.
    pub fn activate(&mut self, coins: ActiveCoins)
        ensures
            *final(self) == with_coins(*old(self), coins),
    {
        self.utxos = coins.utxos;
        self.pending = coins.pending;
        self.active_snapshot = coins.snapshot;
    }
}

/// The slots that some blocks fill.
pub open spec fn filled_slots(blocks: Seq<Vec<u32>>) -> Set<u32>
    decreases blocks.len(),
{
    if blocks.len() == 0 {
        Set::empty()
    } else {
        filled_slots(blocks.drop_last()).union(blocks.last()@.to_set())
    }
}

/// One block of a walk.
pub open spec fn block_walked<F: Fn(WalletArtifacts, usize) -> (WalletArtifacts, Result<(), String>)>(
    rescan: F,
    trace: Seq<WalletArtifacts>,
    outcome: Result<(), String>,
    i: int,
) -> bool {
    call_ensures(
        rescan,
        (trace[i], i as usize),
        (
            trace[i + 1],
            if i == trace.len() - 2 {
                outcome
            } else {
                Ok(())
            },
        ),
    )
}

/// A walk over blocks, the first ones in their order: `trace` holds history
/// and receipts before the first block and after each, and `outcome` is that
/// of the last one. Only the last one can fail.
pub open spec fn walked<F: Fn(WalletArtifacts, usize) -> (WalletArtifacts, Result<(), String>)>(
    rescan: F,
    trace: Seq<WalletArtifacts>,
    outcome: Result<(), String>,
) -> bool {
    &&& trace.len() > 0
    &&& outcome is Err ==> trace.len() > 1
    &&& forall|i: int| 0 <= i < trace.len() - 1 ==> #[trigger] block_walked(rescan, trace, outcome, i)
}

/// How many blocks of a walk were finished.
pub open spec fn finished_blocks(trace: Seq<WalletArtifacts>, outcome: Result<(), String>) -> int {
    if outcome is Ok {
        trace.len() - 1
    } else {
        trace.len() - 2
    }
}

/// The wallet after a reorganization: `before` had the coins installed, and
/// the walk over the blocks of the new branch is `trace`.
///
/// Coins, pending inputs and snapshot are those of `before`; the walk reaches
/// only history and receipts, and every finished block releases the output
/// slots that it fills.
pub open spec fn followed(
    before: WalletState,
    after: WalletState,
    output_slots: Seq<Vec<u32>>,
    trace: Seq<WalletArtifacts>,
    outcome: Result<(), String>,
) -> bool {
    &&& after.utxos == before.utxos
    &&& after.pending.inputs == before.pending.inputs
    &&& after.active_snapshot == before.active_snapshot
    &&& after.pending.outputs@ == before.pending.outputs@.difference(
        filled_slots(output_slots.take(finished_blocks(trace, outcome))),
    )
    &&& after.history@ == trace.last().history@
    &&& after.receipts@ == trace.last().receipts@
    &&& after.history_dirty == (outcome is Ok || before.history_dirty)
    &&& after.receipts_dirty == (outcome is Ok || before.receipts_dirty)
}

/// Bring the wallet onto the new branch after a reorganization.
///
/// `activated` are the verified coins of the active address on the new branch;
/// the coins are never found by replaying blocks. The blocks of the new branch
/// serve only history and receipts, which `rescan` brings over one block, and
/// the release of the output slots that they fill.
pub fn install_reorg_snapshot_and_artifacts<
    F: Fn(WalletArtifacts, usize) -> (WalletArtifacts, Result<(), String>),
>(
    wallet: &mut Option<WalletState>,
    activated: Result<ActiveCoins, String>,
    reclaimed: &Vec<Digest>,
    replacement: &Vec<Digest>,
    output_slots: &Vec<Vec<u32>>,
    rescan: F,
) -> (result: Result<Option<SaveActions>, String>)
    requires
        forall|artifacts: WalletArtifacts, index: usize|
            index < output_slots@.len() ==> call_requires(rescan, (artifacts, index)),
    ensures
        match *old(wallet) {
            None => *final(wallet) is None && result == Ok::<Option<SaveActions>, String>(None),
            Some(before) => match activated {
                Err(error) => *final(wallet) == *old(wallet) && result == Err::<Option<SaveActions>, String>(error),
                Ok(coins) => *final(wallet) is Some && exists|
                    trace: Seq<WalletArtifacts>,
                    outcome: Result<(), String>,
                |
                    {
                        &&& #[trigger] walked(rescan, trace, outcome)
                        &&& trace[0].history@ == reorged_history(before.history@, reclaimed@, replacement@)
                        &&& trace[0].receipts@ == kept_receipts(before.receipts@, reclaimed@)
                        &&& trace.len() <= output_slots@.len() + 1
                        &&& outcome is Ok ==> trace.len() == output_slots@.len() + 1
                        &&& followed(
                            with_coins(before, coins),
                            (*final(wallet))->0,
                            output_slots@,
                            trace,
                            outcome,
                        )
                        &&& result == match outcome {
                            Err(error) => Err::<Option<SaveActions>, String>(error),
                            Ok(_) => Ok(Some(SaveActions { history: true, receipts: true })),
                        }
                    },
            },
        },
{
    if wallet.is_none() {
        return Ok(None);
    }
    let coins = match activated {
        Ok(coins) => coins,
        Err(error) => {
            return Err(error);
        },
    };
    match wallet.take() {
        None => Ok(None),
        Some(mut state) => {
            state.activate(coins);
            let ghost before = state;
            state.drop_reclaimed(reclaimed, replacement);
            let mut artifacts = WalletArtifacts { history: state.history, receipts: state.receipts };
            let mut pending = state.pending;
            let ghost mut trace: Seq<WalletArtifacts> = seq![artifacts];
            let mut outcome: Result<(), String> = Ok(());
            let mut index: usize = 0;
            assert(output_slots@.take(0).len() == 0);
            assert(pending.outputs@ =~= before.pending.outputs@.difference(filled_slots(output_slots@.take(0))));
            while index < output_slots.len() && outcome.is_ok()
                invariant
                    index <= output_slots@.len(),
                    forall|a: WalletArtifacts, i: usize|
                        i < output_slots@.len() ==> call_requires(rescan, (a, i)),
                    walked(rescan, trace, outcome),
                    finished_blocks(trace, outcome) == (if outcome is Ok {
                        index as int
                    } else {
                        index - 1
                    }),
                    trace.last() == artifacts,
                    trace[0].history@ == reorged_history(before.history@, reclaimed@, replacement@),
                    trace[0].receipts@ == kept_receipts(before.receipts@, reclaimed@),
                    pending.inputs == before.pending.inputs,
                    pending.outputs@ == before.pending.outputs@.difference(
                        filled_slots(output_slots@.take(finished_blocks(trace, outcome))),
                    ),
                decreases output_slots@.len() - index,
            {
                let ghost walk = trace;
                let (next, scanned) = rescan(artifacts, index);
                proof {
                    trace = walk.push(next);
                    assert forall|i: int| 0 <= i < trace.len() - 1 implies #[trigger] block_walked(
                        rescan,
                        trace,
                        scanned,
                        i,
                    ) by {
                        if i < walk.len() - 1 {
                            assert(block_walked(rescan, walk, outcome, i));
                            assert(outcome->Ok_0 == ());
                        }
                    }
                }
                artifacts = next;
                if scanned.is_ok() {
                    pending.release_outputs(&output_slots[index]);
                    proof {
                        let done = output_slots@.take(index + 1);
                        assert(done.drop_last() =~= output_slots@.take(index as int));
                        assert(pending.outputs@ =~= before.pending.outputs@.difference(filled_slots(done)));
                    }
                }
                outcome = scanned;
                index = index + 1;
            }
            let done: bool = outcome.is_ok();
            *wallet = Some(
                WalletState {
                    utxos: state.utxos,
                    pending,
                    history: artifacts.history,
                    receipts: artifacts.receipts,
                    active_snapshot: state.active_snapshot,
                    history_dirty: done || state.history_dirty,
                    receipts_dirty: done || state.receipts_dirty,
                },
            );
            match outcome {
                Err(error) => Err(error),
                Ok(_) => Ok(Some(SaveActions { history: true, receipts: true })),
            }
        },
    }
}

/// The two entries are of the same payment.
pub open spec fn same_payment(a: HistoryEntry, b: HistoryEntry) -> bool {
    &&& a.tx_hash == b.tx_hash
    &&& a.direction == b.direction
    &&& a.amount_micronoid == b.amount_micronoid
    &&& a.is_coinbase == b.is_coinbase
}

pub open spec fn has_payment(history: Seq<HistoryEntry>, entry: HistoryEntry) -> bool {
    exists|i: int| 0 <= i < history.len() && same_payment(#[trigger] history[i], entry)
}

/// No payment of `before` is missing from `after`.
pub open spec fn keeps_payments(before: Seq<HistoryEntry>, after: Seq<HistoryEntry>) -> bool {
    forall|i: int| 0 <= i < before.len() ==> has_payment(after, #[trigger] before[i])
}

/// A walk each of whose blocks keeps the payments on record keeps them all.
pub proof fn lemma_walk_keeps_payments<F: Fn(WalletArtifacts, usize) -> (WalletArtifacts, Result<(), String>)>(
    rescan: F,
    trace: Seq<WalletArtifacts>,
    outcome: Result<(), String>,
)
    requires
        walked(rescan, trace, outcome),
        forall|artifacts: WalletArtifacts, index: usize, after: (WalletArtifacts, Result<(), String>)|
            #[trigger] call_ensures(rescan, (artifacts, index), after) ==> keeps_payments(
                artifacts.history@,
                after.0.history@,
            ),
    ensures
        keeps_payments(trace[0].history@, trace.last().history@),
{
    lemma_walk_keeps_payments_up_to(rescan, trace, outcome, trace.len() - 1);
}

proof fn lemma_walk_keeps_payments_up_to<F: Fn(WalletArtifacts, usize) -> (WalletArtifacts, Result<(), String>)>(
    rescan: F,
    trace: Seq<WalletArtifacts>,
    outcome: Result<(), String>,
    n: int,
)
    requires
        0 <= n < trace.len(),
        walked(rescan, trace, outcome),
        forall|artifacts: WalletArtifacts, index: usize, after: (WalletArtifacts, Result<(), String>)|
            #[trigger] call_ensures(rescan, (artifacts, index), after) ==> keeps_payments(
                artifacts.history@,
                after.0.history@,
            ),
    ensures
        keeps_payments(trace[0].history@, trace[n].history@),
    decreases n,
{
    let first = trace[0].history@;
    if n == 0 {
        assert forall|i: int| 0 <= i < first.len() implies has_payment(first, #[trigger] first[i]) by {
            assert(same_payment(first[i], first[i]));
        }
    } else {
        lemma_walk_keeps_payments_up_to(rescan, trace, outcome, n - 1);
        let middle = trace[n - 1].history@;
        let last = trace[n].history@;
        assert(block_walked(rescan, trace, outcome, n - 1));
        assert(keeps_payments(middle, last));
        assert forall|i: int| 0 <= i < first.len() implies has_payment(last, #[trigger] first[i]) by {
            assert(has_payment(middle, first[i]));
            let j = choose|j: int| 0 <= j < middle.len() && same_payment(#[trigger] middle[j], first[i]);
            assert(has_payment(last, middle[j]));
            let k = choose|k: int| 0 <= k < last.len() && same_payment(#[trigger] last[k], middle[j]);
            assert(same_payment(last[k], first[i]));
        }
    }
}

/// What remains of an entry is in the history after a reorganization.
pub proof fn lemma_kept_history(
    history: Seq<HistoryEntry>,
    reclaimed: Seq<Digest>,
    replacement: Seq<Digest>,
    i: int,
)
    requires
        0 <= i < history.len(),
        reorged_entry(history[i], reclaimed, replacement) is Some,
    ensures
        reorged_history(history, reclaimed, replacement).contains(
            reorged_entry(history[i], reclaimed, replacement)->0,
        ),
    decreases history.len(),
{
    let kept = reorged_history(history, reclaimed, replacement);
    let entry = reorged_entry(history[i], reclaimed, replacement)->0;
    if i < history.len() - 1 {
        let head = history.drop_last();
        let rest = reorged_history(head, reclaimed, replacement);
        assert(head[i] == history[i]);
        lemma_kept_history(head, reclaimed, replacement, i);
        let k = choose|k: int| 0 <= k < rest.len() && rest[k] == entry;
        assert(kept[k] == entry);
    } else {
        assert(kept[kept.len() - 1] == entry);
    }
}

/// After a reorganization the history holds a reclaimed payment only as a mined
/// block, or as a sent payment that waits for its confirmation in the new branch.
pub proof fn lemma_no_orphaned_history(
    history: Seq<HistoryEntry>,
    reclaimed: Seq<Digest>,
    replacement: Seq<Digest>,
    i: int,
)
    requires
        0 <= i < reorged_history(history, reclaimed, replacement).len(),
        listed(reclaimed, reorged_history(history, reclaimed, replacement)[i].tx_hash),
    ensures
        ({
            let entry = reorged_history(history, reclaimed, replacement)[i];
            ||| entry.is_coinbase
            ||| entry.height == 0 && entry.direction == TxDirection::Sent && listed(replacement, entry.tx_hash)
        }),
    decreases history.len(),
{
    if history.len() > 0 {
        let rest = reorged_history(history.drop_last(), reclaimed, replacement);
        if i < rest.len() {
            lemma_no_orphaned_history(history.drop_last(), reclaimed, replacement, i);
        }
    }
}

} // verus!
