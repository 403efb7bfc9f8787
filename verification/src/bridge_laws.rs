//! What holds of what the user is shown, of sending everything, and of what peers send.

use vstd::prelude::*;
use crate::bootstrap::{MobileBootstrapStage, NetworkCommand};
use crate::bridge::{
    below_min_fee_required, checked_amounts, fee_marker, may_start, recent_rows, send_failed, send_succeeded,
    status_offline, status_running, status_unreadable, wallet_artifacts, wallet_configured, NodeStatus,
    RecentTransactionRow, SendAll, SendResult, StartRefusal,
};
use crate::bytes::Digest;
use crate::header_planner::HeaderInventoryPlan;
use crate::inventory::{
    gossip_verdict, inventory_action, merge_headers, tally, tally_of, within_wire_limit, CandidateFacts,
    CandidateStep, GossipVerdict, InventoryAction, MempoolTally, SubmitOutcome, TxOutcome,
};
use crate::overview::MobileRecentTransaction;
use crate::p2p_runtime::{ActiveSuffix, MobileP2PRuntime, MobileP2PStatusSnapshot, ProviderProbe, RuntimeView};
use crate::peer::PeerId;
use crate::send::MobileSendResult;
use crate::sequences::lemma_filter_members;
use crate::submit::WalletSendPlan;
use crate::sync::MobileSuffixAdmission;
use crate::text::{
    contains, decimal_text, first_occurrence, lemma_decimal_reads_back, lemma_leading_digits, occurs_at, shown_digest,
    text_contains,
};
use crate::wallet::TxDirection;

verus! {

/// An admitted payment is shown with its id, amount, fee and counts; a failed
/// one with its reason and no id.
pub proof fn lemma_a_payment_is_shown_as_it_went(
    result: MobileSendResult,
    good: SendResult,
    txid: String,
    amount: u64,
    fee: u64,
    inputs: usize,
    outputs: usize,
    error: String,
    bad: SendResult,
)
    requires
        call_ensures(send_succeeded, (&result,), good),
        call_ensures(shown_digest, (&result.txid,), txid),
        call_ensures(send_failed, (amount, fee, inputs, outputs, error), bad),
    ensures
        good.ok && good.error is None && good.txid is Some && good.txid->0@ == txid@,
        good.amount_micronoid == result.amount_micronoid && good.fee_micronoid == result.fee_micronoid,
        good.input_count == result.input_count && good.output_count == result.output_count,
        !bad.ok && bad.txid is None && bad.error is Some && bad.error->0@ == error@,
        bad.amount_micronoid == amount && bad.fee_micronoid == fee,
        bad.input_count == inputs && bad.output_count == outputs,
{
}

/// Amounts and fees are taken as they are; a negative one is refused.
pub proof fn lemma_negative_amounts_are_refused(amount: i64, fee: i64, amounts: Option<(u64, u64)>)
    requires
        call_ensures(checked_amounts, (amount, fee), amounts),
    ensures
        amounts is Some <==> amount >= 0 && fee >= 0,
        amounts matches Some((a, f)) ==> a == amount && f == fee,
{
}

/// The fee that a refusal names is read: the number right behind the first
/// marker, whatever stands before it and whatever follows the number.
pub proof fn lemma_a_named_fee_is_read(message: &str, at: int, fee: u64, written: String, required: Option<u64>)
    requires
        call_ensures(below_min_fee_required, (message,), required),
        call_ensures(decimal_text, (fee,), written),
        ({
            let marker = "BelowMinFee: required="@;
            let start = at + marker.len();
            &&& 0 <= at
            &&& start + written@.len() <= message@.len()
            &&& message@.subrange(at, start) == marker
            &&& forall|earlier: int|
                0 <= earlier < at ==> #[trigger] message@.subrange(earlier, earlier + marker.len()) != marker
            &&& message@.subrange(start, start + written@.len()) == written@
            &&& start + written@.len() < message@.len() ==> !('0' <= message@[start + written@.len()] <= '9')
        }),
    ensures
        required == Some(fee),
{
    let marker = fee_marker();
    let start = at + marker.len();
    assert(occurs_at(message@, marker, at));
    assert forall|earlier: int| earlier < at implies !occurs_at(message@, marker, earlier) by {
        if 0 <= earlier {
            assert(message@.subrange(earlier, earlier + marker.len()) != marker);
        }
    }
    assert(first_occurrence(message@, marker, at));
    let first = choose|p: int| first_occurrence(message@, marker, p);
    assert(first_occurrence(message@, marker, first));
    assert(first == at);
    assert(text_contains(message@, marker));
    let tail = message@.skip(start);
    let rest = message@.skip(start + written@.len());
    assert(tail =~= written@ + rest) by {
        assert forall|i: int| 0 <= i < written@.len() implies tail[i] == written@[i] by {
            assert(message@.subrange(start, start + written@.len())[i] == written@[i]);
        }
    }
    lemma_decimal_reads_back(fee as nat);
    lemma_leading_digits(written@, rest);
}

/// A refusal without the marker names no fee.
pub proof fn lemma_no_fee_is_read_where_none_is_named(message: &str, required: Option<u64>, marked: bool)
    requires
        call_ensures(below_min_fee_required, (message,), required),
        call_ensures(contains, (message, "BelowMinFee: required="), marked),
    ensures
        !marked ==> required is None,
{
}

/// A refusal with no digit behind its first marker names no fee.
pub proof fn lemma_no_fee_is_read_without_a_digit(message: &str, at: int, required: Option<u64>)
    requires
        call_ensures(below_min_fee_required, (message,), required),
        ({
            let marker = "BelowMinFee: required="@;
            let start = at + marker.len();
            &&& 0 <= at
            &&& start <= message@.len()
            &&& message@.subrange(at, start) == marker
            &&& forall|earlier: int|
                0 <= earlier < at ==> #[trigger] message@.subrange(earlier, earlier + marker.len()) != marker
            &&& start < message@.len() ==> !('0' <= message@[start] <= '9')
        }),
    ensures
        required is None,
{
    let marker = fee_marker();
    let start = at + marker.len();
    assert(occurs_at(message@, marker, at));
    assert forall|earlier: int| earlier < at implies !occurs_at(message@, marker, earlier) by {
        if 0 <= earlier {
            assert(message@.subrange(earlier, earlier + marker.len()) != marker);
        }
    }
    assert(first_occurrence(message@, marker, at));
    let first = choose|p: int| first_occurrence(message@, marker, p);
    assert(first_occurrence(message@, marker, first));
    assert(first == at);
    assert(text_contains(message@, marker));
    let tail = message@.skip(start);
    assert(start < message@.len() ==> tail[0] == message@[start]);
    assert(Seq::<char>::empty() + tail =~= tail);
    lemma_leading_digits(Seq::empty(), tail);
}

/// Sending everything starts with the planned fee.
pub proof fn lemma_sending_everything_starts_anew(all: SendAll)
    requires
        call_ensures(SendAll::new, (), all),
    ensures
        all.attempt == 0,
        all.minimum_fee_hint == 0,
{
}

/// Amount and fee of an attempt make up the whole balance. The fee is the
/// planned one or the one that a refusal named, whichever is more; a balance
/// that does not exceed it is not sent.
pub proof fn lemma_an_attempt_sends_the_whole_balance(
    all: SendAll,
    plan: WalletSendPlan,
    result: Result<(u64, u64), SendResult>,
    balance: String,
    needed: String,
)
    requires
        call_ensures(SendAll::payment, (&all, &plan), result),
        call_ensures(decimal_text, (plan.total_spend_micronoid,), balance),
        call_ensures(
            decimal_text,
            (if plan.fee_micronoid >= all.minimum_fee_hint {
                plan.fee_micronoid
            } else {
                all.minimum_fee_hint
            },),
            needed,
        ),
    ensures
        match result {
            Ok((amount, fee)) => {
                &&& amount > 0
                &&& amount + fee == plan.total_spend_micronoid
                &&& fee >= plan.fee_micronoid
                &&& fee >= all.minimum_fee_hint
                &&& fee == plan.fee_micronoid || fee == all.minimum_fee_hint
            },
            Err(shown) => {
                &&& plan.total_spend_micronoid <= plan.fee_micronoid || plan.total_spend_micronoid
                    <= all.minimum_fee_hint
                &&& !shown.ok
                &&& shown.amount_micronoid == 0
                &&& shown.input_count == plan.input_count
                &&& shown.output_count == plan.output_count
                &&& shown.error is Some
                &&& shown.error->0@ == "InsufficientFunds: active balance "@ + balance@
                    + " μNOID does not cover current SEND ALL fee "@ + needed@ + " μNOID"@
            },
        },
{
}

/// A refusal is followed by another attempt if it names a fee or says that the
/// fee or the funds do not suffice, until three attempts were made. A named fee
/// is remembered unless a higher one is.
pub proof fn lemma_a_refusal_raises_the_fee(
    all: &mut SendAll,
    message: &str,
    again: bool,
    named: Option<u64>,
    low_fee: bool,
    low_funds: bool,
)
    requires
        old(all).attempt < 3,
        call_ensures(SendAll::refused, (all, message), again),
        call_ensures(below_min_fee_required, (message,), named),
        call_ensures(contains, (message, "fee below required minimum"), low_fee),
        call_ensures(contains, (message, "InsufficientFunds"), low_funds),
    ensures
        again <==> old(all).attempt < 2 && (named is Some || low_fee || low_funds),
        final(all).attempt == (if again {
            old(all).attempt + 1
        } else {
            old(all).attempt as int
        }),
        named is None ==> final(all).minimum_fee_hint == old(all).minimum_fee_hint,
        named matches Some(fee) ==> final(all).minimum_fee_hint >= fee && final(all).minimum_fee_hint >= old(all).minimum_fee_hint && (final(all).minimum_fee_hint == fee || final(all).minimum_fee_hint == old(all).minimum_fee_hint),
{
}

/// A node that does not run shows nothing but that; an unreadable state is an error.
pub proof fn lemma_a_stopped_node_shows_nothing(offline: NodeStatus, unreadable: NodeStatus)
    requires
        call_ensures(status_offline, (), offline),
        call_ensures(status_unreadable, (), unreadable),
    ensures
        offline.ok && !offline.running && !offline.syncing && !offline.history_step_ready && offline.error is None,
        offline.tip_height == 0 && offline.peers == 0 && offline.sync_state@ == "OFFLINE"@,
        offline.tip_hash@.len() == 0,
        !unreadable.ok && !unreadable.running && !unreadable.syncing && unreadable.error is Some,
        unreadable.tip_height == 0 && unreadable.peers == 0 && unreadable.sync_state@ == "ERROR"@,
        unreadable.error->0@ == "mobile node state lock poisoned"@,
{
}

/// A running node shows its tip, the peers that the transport counts, and its phase.
pub proof fn lemma_a_running_node_shows_its_state(
    tip_height: u64,
    tip_hash: Digest,
    hash: String,
    transport_peers: Option<usize>,
    runtime: MobileP2PStatusSnapshot,
    ready: bool,
    status: NodeStatus,
)
    requires
        call_ensures(status_running, (tip_height, &tip_hash, transport_peers, &runtime, ready), status),
        call_ensures(shown_digest, (&tip_hash,), hash),
    ensures
        status.ok && status.running && status.error is None,
        status.tip_height == tip_height,
        status.tip_hash@ == hash@,
        transport_peers is Some ==> status.peers == transport_peers->0,
        transport_peers is None ==> status.peers == runtime.peers,
        status.syncing == runtime.syncing,
        status.sync_state@ == runtime.phase@,
        status.history_step_ready == ready,
{
}

/// Every recent payment has its row, in its place and with its own fields; what
/// came in is shown as received and what went out as sent.
pub proof fn lemma_rows_show_the_payments(
    items: Vec<MobileRecentTransaction>,
    rows: Vec<RecentTransactionRow>,
    i: int,
    txid: String,
)
    requires
        call_ensures(recent_rows, (&items,), rows),
        0 <= i < items@.len(),
        call_ensures(shown_digest, (&items@[i].txid,), txid),
    ensures
        rows@.len() == items@.len(),
        rows@[i].txid@ == txid@,
        items@[i].direction == TxDirection::Sent ==> rows@[i].direction@ == "SENT"@,
        items@[i].direction == TxDirection::Received ==> rows@[i].direction@ == "RECEIVED"@,
        rows@[i].amount_micronoid == items@[i].amount_micronoid,
        rows@[i].height == items@[i].height,
        rows@[i].timestamp == items@[i].timestamp,
        rows@[i].pending == items@[i].pending,
        rows@[i].is_coinbase == items@[i].is_coinbase,
{
    assert(crate::bridge::row_shows(rows@[i], items@[i]));
}

/// A node starts only with a wallet that was set up, and only once. A wallet
/// that was not set up is said first.
pub proof fn lemma_a_node_starts_once_and_with_a_wallet(
    key: bool,
    marker: bool,
    running: bool,
    result: Result<(), StartRefusal>,
    configured: bool,
    files: [&'static str; 4],
)
    requires
        call_ensures(may_start, (key, marker, running), result),
        call_ensures(wallet_configured, (key, marker), configured),
        call_ensures(wallet_artifacts, (), files),
    ensures
        configured <==> key && marker,
        result is Ok <==> configured && !running,
        !configured ==> result == Err::<(), StartRefusal>(StartRefusal::WalletNotConfigured),
        configured && running ==> result == Err::<(), StartRefusal>(StartRefusal::AlreadyRunning),
        files[0]@ == "wallet.key"@,
        files[1]@ == "wallet.meta"@,
        files[2]@ == "wallet.history"@,
        files[3]@ == "wallet.receipts"@,
{
}

/// What an inventory calls for: known headers bring hints, missing ones are
/// fetched from the sender, a validated branch is judged. A peer that left the
/// chain below its finality is taken off, and an inventory that failed
/// validation is forgotten.
pub proof fn lemma_every_inventory_is_acted_on(
    plan: Option<&HeaderInventoryPlan>,
    from: PeerId,
    action: InventoryAction,
)
    requires
        call_ensures(inventory_action, (plan, from), action),
    ensures
        plan is None <==> action is Drop,
        plan matches Some(p) ==> {
            &&& action is MergeHints <==> *p is Confirmed || *p is Behind
            &&& action is Consider <==> *p is Candidate
            &&& action is DropAndDisconnect <==> *p is FinalizedDivergence
            &&& action is Fetch <==> *p is NeedOlder
            &&& *p is NeedOlder ==> action->Fetch_0 == (NetworkCommand::FetchHeaders {
                peer: from,
                start_height: p->start_height,
                count: p->count,
            })
        },
{
}

/// A branch is followed only if it has headers, ends at the best tip and is not
/// selected already. One whose bodies are too far off to be served takes a
/// snapshot, unless a suffix is being fetched; a snapshot bootstrap that is
/// under way is not disturbed.
pub proof fn lemma_a_branch_is_followed_or_left(
    runtime: &mut MobileP2PRuntime,
    from: PeerId,
    facts: CandidateFacts,
    exact_active: bool,
    local_height: u64,
    serving_depth: u64,
    step: CandidateStep,
)
    requires
        old(runtime)@.generation < u64::MAX,
        call_ensures(
            MobileP2PRuntime::consider_candidate,
            (runtime, from, &facts, exact_active, local_height, serving_depth),
            step,
        ),
    ensures
        ({
            let worth = facts.headers > 0 && facts.is_best && facts.selected > 0;
            let far = facts.target_height > facts.old_tip_height + serving_depth && !exact_active;
            let busy = match old(runtime)@.stage {
                MobileBootstrapStage::Idle => false,
                MobileBootstrapStage::TailSync(_) => false,
                MobileBootstrapStage::Complete => false,
                _ => true,
            };
            &&& step is Plan <==> worth && !far
            &&& step is Snapshot <==> worth && far && !busy
            &&& !(step is Snapshot) ==> final(runtime)@ == old(runtime)@
            &&& step is Snapshot ==> final(runtime)@.stage == (MobileBootstrapStage::WaitingManifest {
                generation: (old(runtime)@.generation + 1) as u64,
                peer: from,
            }) && !final(runtime)@.complete
        }),
        step matches CandidateStep::Snapshot(command) ==> match command {
            NetworkCommand::RequestStateManifest { generation, peer, requester_height, .. } => generation == old(runtime)@.generation + 1 && peer == from && requester_height == local_height,
            _ => false,
        },
{
}

/// A suffix that is taken up ends the search for its providers. One that has to
/// wait leaves that search, and the providers of the active suffix are asked for.
pub proof fn lemma_an_admitted_suffix_ends_its_search(
    runtime: &mut MobileP2PRuntime,
    admission: MobileSuffixAdmission,
    base_height: u64,
    target_height: u64,
    active: Option<ActiveSuffix>,
    now_ms: u64,
    commands: Vec<NetworkCommand>,
)
    requires
        call_ensures(
            MobileP2PRuntime::suffix_admitted,
            (runtime, admission, base_height, target_height, active, now_ms),
            commands,
        ),
    ensures
        final(runtime)@ == (RuntimeView { probes: final(runtime)@.probes, ..old(runtime)@ }),
        admission is Started || admission is Merged || admission is Duplicate || admission is Replaced
            ==> commands@.len() == 0 && forall|probe: ProviderProbe|
            #[trigger] final(runtime)@.probes.contains(probe) <==> old(runtime)@.probes.contains(probe) && !(
            probe.base_height == base_height && probe.target_height == target_height),
        (admission is DeferredExtension || admission is KeptStrongerActive) && (active is None
            || active->0.first_height is None) ==> commands@.len() == 0 && final(runtime)@ == old(runtime)@,
{
    lemma_filter_members(
        old(runtime)@.probes,
        |probe: ProviderProbe| !crate::p2p_runtime::probe_is(probe, base_height, target_height),
    );
}

/// A suffix that has to wait has the providers of the active one asked for,
/// exactly as if they had been asked for on their own.
pub proof fn lemma_a_waiting_suffix_probes_for_the_active_one(
    runtime: &mut MobileP2PRuntime,
    admission: MobileSuffixAdmission,
    base_height: u64,
    target_height: u64,
    active: Option<ActiveSuffix>,
    now_ms: u64,
    commands: Vec<NetworkCommand>,
    probing: &mut MobileP2PRuntime,
    probes: Vec<NetworkCommand>,
)
    requires
        admission is DeferredExtension || admission is KeptStrongerActive,
        old(probing)@ == old(runtime)@,
        call_ensures(
            MobileP2PRuntime::suffix_admitted,
            (runtime, admission, base_height, target_height, active, now_ms),
            commands,
        ),
        call_ensures(MobileP2PRuntime::probe_active_suffix_providers, (probing, active, now_ms), probes),
    ensures
        commands@ == probes@,
        final(runtime)@ == final(probing)@,
{
}

/// Without providers a branch is probed for in its own range, from everybody
/// but the peer that sent it and the peer of the tail.
pub proof fn lemma_missing_providers_are_probed_for(
    runtime: &mut MobileP2PRuntime,
    from: PeerId,
    base_height: u64,
    target_height: u64,
    selected: usize,
    now_ms: u64,
    commands: Vec<NetworkCommand>,
    probing: &mut MobileP2PRuntime,
    skip: Vec<PeerId>,
    probes: Vec<NetworkCommand>,
)
    requires
        old(probing)@ == old(runtime)@,
        skip@ == (match old(runtime).stage {
            MobileBootstrapStage::TailSync(tail) => seq![from, tail.peer],
            _ => seq![from],
        }),
        call_ensures(
            MobileP2PRuntime::providers_missing,
            (runtime, from, base_height, target_height, selected, now_ms),
            commands,
        ),
        call_ensures(
            MobileP2PRuntime::probe_providers,
            (probing, base_height, target_height, now_ms, &skip, selected),
            probes,
        ),
    ensures
        commands@ == probes@,
        final(runtime)@ == final(probing)@,
{
}

/// Inventories are merged onto the headers of the active suffix if there is one.
pub proof fn lemma_inventories_are_merged_onto_the_active_headers<H>(
    active: Option<Vec<H>>,
    selected: Vec<H>,
    headers: Vec<H>,
)
    requires
        call_ensures(merge_headers::<H>, (active, selected), headers),
    ensures
        active is Some ==> headers == active->0,
        active is None ==> headers == selected,
{
}

/// A transaction is passed on only if the mempool admitted it, and its sender is
/// held to account only for one that is too large, unreadable or invalid.
pub proof fn lemma_only_faults_are_reported(outcome: TxOutcome, verdict: GossipVerdict, len: usize, max: usize, within: bool)
    requires
        call_ensures(gossip_verdict, (outcome,), verdict),
        call_ensures(within_wire_limit, (len, max), within),
    ensures
        within <==> len <= max,
        verdict is Accept <==> outcome == TxOutcome::Submitted(SubmitOutcome::Admitted),
        verdict is Reject <==> outcome is TooLarge || outcome is Malformed || outcome == TxOutcome::Submitted(
            SubmitOutcome::Hard,
        ),
{
}

proof fn lemma_tally_counts(outcomes: Seq<TxOutcome>)
    ensures
        ({
            let (admitted, known, rejected) = tally_of(outcomes);
            &&& admitted == outcomes.filter(
                |o: TxOutcome| o == TxOutcome::Submitted(SubmitOutcome::Admitted),
            ).len()
            &&& known == outcomes.filter(
                |o: TxOutcome| o == TxOutcome::Submitted(SubmitOutcome::AlreadyAdmitted),
            ).len()
            &&& admitted + known + rejected == outcomes.len()
        }),
    decreases outcomes.len(),
{
    reveal(Seq::filter);
    if outcomes.len() > 0 {
        lemma_tally_counts(outcomes.drop_last());
    }
}

/// Every transaction of a mempool response is counted once: as admitted, as
/// known already, or as rejected.
pub proof fn lemma_every_transaction_is_counted_once(outcomes: Vec<TxOutcome>, counted: MempoolTally)
    requires
        call_ensures(tally, (&outcomes,), counted),
    ensures
        counted.admitted == outcomes@.filter(
            |o: TxOutcome| o == TxOutcome::Submitted(SubmitOutcome::Admitted),
        ).len(),
        counted.already_known == outcomes@.filter(
            |o: TxOutcome| o == TxOutcome::Submitted(SubmitOutcome::AlreadyAdmitted),
        ).len(),
        counted.admitted + counted.already_known + counted.rejected == outcomes@.len(),
{
    lemma_tally_counts(outcomes@);
}

} // verus!
