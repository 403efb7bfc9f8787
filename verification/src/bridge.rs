//! What the user interface is told, and sending everything in one payment.

use vstd::prelude::*;
use crate::arith::{larger, max_u64};
use crate::bytes::Digest;
use crate::overview::MobileRecentTransaction;
use crate::p2p_runtime::MobileP2PStatusSnapshot;
use crate::send::{given_up_words, MobileSendResult};
use crate::submit::WalletSendPlan;
use crate::text::{
    chars_of, contains, decimal, decimal_text, digits_value, find_text, first_occurrence, hex_text, is_digit,
    leading_digits, lemma_decimal_reads_back, lemma_leading_digits, number_at, occurs_at, shown_digest, text_contains,
};
use crate::wallet::TxDirection;

verus! {

/// How often sending everything is tried.
pub const SEND_ALL_ATTEMPTS: u32 = 3;

/// The outcome of a payment as it is shown.
#[derive(Debug)]
pub struct SendResult {
    pub ok: bool,
    pub txid: Option<String>,
    pub amount_micronoid: u64,
    pub fee_micronoid: u64,
    pub input_count: usize,
    pub output_count: usize,
    pub error: Option<String>,
}

/// The outcome shows an admitted payment.
pub open spec fn shows_success(outcome: SendResult, result: MobileSendResult) -> bool {
    &&& outcome.ok
    &&& outcome.txid is Some
    &&& outcome.txid->0@ == hex_text(result.txid@)
    &&& outcome.amount_micronoid == result.amount_micronoid
    &&& outcome.fee_micronoid == result.fee_micronoid
    &&& outcome.input_count == result.input_count
    &&& outcome.output_count == result.output_count
    &&& outcome.error is None
}

/// The outcome shows a failure.
pub open spec fn shows_failure(
    outcome: SendResult,
    amount: u64,
    fee: u64,
    inputs: usize,
    outputs: usize,
    words: Seq<char>,
) -> bool {
    &&& !outcome.ok
    &&& outcome.txid is None
    &&& outcome.amount_micronoid == amount
    &&& outcome.fee_micronoid == fee
    &&& outcome.input_count == inputs
    &&& outcome.output_count == outputs
    &&& outcome.error is Some
    &&& outcome.error->0@ == words
}

pub fn send_succeeded(result: &MobileSendResult) -> (outcome: SendResult)
    ensures
        shows_success(outcome, *result),
{
    SendResult {
        ok: true,
        txid: Some(shown_digest(&result.txid)),
        amount_micronoid: result.amount_micronoid,
        fee_micronoid: result.fee_micronoid,
        input_count: result.input_count,
        output_count: result.output_count,
        error: None,
    }
}

pub fn send_failed(
    amount_micronoid: u64,
    fee_micronoid: u64,
    input_count: usize,
    output_count: usize,
    error: String,
) -> (outcome: SendResult)
    ensures
        shows_failure(outcome, amount_micronoid, fee_micronoid, input_count, output_count, error@),
{
    SendResult {
        ok: false,
        txid: None,
        amount_micronoid,
        fee_micronoid,
        input_count,
        output_count,
        error: Some(error),
    }
}

/// Amount and fee as the user interface hands them over; none if one is negative.
pub fn checked_amounts(amount: i64, fee: i64) -> (amounts: Option<(u64, u64)>)
    ensures
        amounts == (if amount < 0 || fee < 0 {
            None
        } else {
            Some((amount as u64, fee as u64))
        }),
{
    if amount < 0 || fee < 0 {
        None
    } else {
        Some((amount as u64, fee as u64))
    }
}

/// What the mempool writes before the fee that it requires.
pub open spec fn fee_marker() -> Seq<char> {
    "BelowMinFee: required="@
}

/// The number behind the first marker.
pub open spec fn fee_behind(message: Seq<char>, at: int) -> Option<u64> {
    let digits = leading_digits(message.skip(at + fee_marker().len()));
    if digits.len() == 0 || digits_value(digits) > u64::MAX {
        None
    } else {
        Some(digits_value(digits) as u64)
    }
}

/// The fee that a refusal names.
pub open spec fn required_fee(message: Seq<char>) -> Option<u64> {
    if !text_contains(message, fee_marker()) {
        None
    } else {
        fee_behind(message, choose|at: int| first_occurrence(message, fee_marker(), at))
    }
}

/// The fee that a refusal names, if it names one.
pub fn below_min_fee_required(message: &str) -> (required: Option<u64>)
    ensures
        required == required_fee(message@),
{
    match find_text(message, "BelowMinFee: required=") {
        None => None,
        Some(at) => {
            let ghost first = choose|p: int| first_occurrence(message@, fee_marker(), p);
            assert(first_occurrence(message@, fee_marker(), at as int));
            assert(first_occurrence(message@, fee_marker(), first));
            assert(first == at);
            assert(occurs_at(message@, fee_marker(), at as int));
            let chars = chars_of(message);
            let marker = chars_of("BelowMinFee: required=");
            assert(at + marker.len() <= chars.len());
            number_at(&chars, at + marker.len())
        },
    }
}

/// A refusal that names a fee is read back exactly, whatever stands before it
/// and whatever follows the number.
pub proof fn lemma_required_fee_is_read(before: Seq<char>, fee: u64, rest: Seq<char>)
    requires
        forall|earlier: int|
            earlier < before.len() ==> !occurs_at(
                before + fee_marker() + decimal(fee as nat) + rest,
                fee_marker(),
                earlier,
            ),
        rest.len() == 0 || !is_digit(rest[0]),
    ensures
        required_fee(before + fee_marker() + decimal(fee as nat) + rest) == Some(fee),
{
    let marker = fee_marker();
    let message = before + marker + decimal(fee as nat) + rest;
    let start = before.len() as int;
    assert(message.subrange(start, start + marker.len()) =~= marker);
    assert(occurs_at(message, marker, start));
    assert(first_occurrence(message, marker, start));
    let at = choose|p: int| first_occurrence(message, marker, p);
    assert(first_occurrence(message, marker, at));
    assert(at == start);
    assert(message.skip(start + marker.len()) =~= decimal(fee as nat) + rest);
    lemma_decimal_reads_back(fee as nat);
    lemma_leading_digits(decimal(fee as nat), rest);
}

/// The fee that the mempool names in its last refusal is still read once the
/// payment was given up.
pub proof fn lemma_given_up_names_the_fee(fee: u64, rest: Seq<char>)
    requires
        rest.len() == 0 || !is_digit(rest[0]),
    ensures
        required_fee(given_up_words(fee_marker() + decimal(fee as nat) + rest)) == Some(fee),
{
    let before = "wallet send failed after 3 attempts: "@;
    let marker = fee_marker();
    let message = before + marker + decimal(fee as nat) + rest;
    reveal_strlit("wallet send failed after 3 attempts: ");
    reveal_strlit("BelowMinFee: required=");
    assert(before.len() == 37);
    assert forall|earlier: int| earlier < before.len() implies !occurs_at(message, marker, earlier) by {
        if occurs_at(message, marker, earlier) {
            assert(message.subrange(earlier, earlier + marker.len())[0] == marker[0]);
            assert(message[earlier] == before[earlier]);
            assert(before[earlier] == 'B');
            assert(false);
        }
    }
    assert(given_up_words(marker + decimal(fee as nat) + rest) =~= message);
    lemma_required_fee_is_read(before, fee, rest);
}

/// A refusal that an older mempool words differently and that is worth another plan.
pub open spec fn worth_retrying(message: Seq<char>) -> bool {
    text_contains(message, "fee below required minimum"@) || text_contains(message, "InsufficientFunds"@)
}

/// Sending everything, over its attempts.
///
/// Between planning and admission a block can raise the fee. The fee that a
/// refusal names is carried into the next plan.
pub struct SendAll {
    pub attempt: u32,
    pub minimum_fee_hint: u64,
}

impl SendAll {
    pub open spec fn wf(self) -> bool {
        self.attempt < SEND_ALL_ATTEMPTS
    }

    /// The fee of this attempt.
    pub open spec fn fee(self, plan: WalletSendPlan) -> u64 {
        larger(plan.fee_micronoid, self.minimum_fee_hint)
    }

    /// Amount and fee of this attempt, if the balance covers the fee.
    pub open spec fn payment_of(self, plan: WalletSendPlan) -> Option<(u64, u64)> {
        let fee = self.fee(plan);
        if plan.total_spend_micronoid > fee {
            Some(((plan.total_spend_micronoid - fee) as u64, fee))
        } else {
            None
        }
    }

    /// A refusal is followed by another attempt.
    pub open spec fn retries(self, message: Seq<char>) -> bool {
        self.attempt + 1 < SEND_ALL_ATTEMPTS && (required_fee(message) is Some || worth_retrying(message))
    }

    pub fn new() -> (all: SendAll)
        ensures
            all.wf(),
            all.attempt == 0,
            all.minimum_fee_hint == 0,
    {
        SendAll { attempt: 0, minimum_fee_hint: 0 }
    }

    /// Amount and fee of this attempt, or the failure to show if the balance does not cover the fee.
    pub fn payment(&self, plan: &WalletSendPlan) -> (result: Result<(u64, u64), SendResult>)
        ensures
            match self.payment_of(*plan) {
                Some(payment) => result == Ok::<(u64, u64), SendResult>(payment),
                None => result is Err && shows_failure(
                    result->Err_0,
                    0,
                    self.fee(*plan),
                    plan.input_count,
                    plan.output_count,
                    "InsufficientFunds: active balance "@ + decimal(plan.total_spend_micronoid as nat)
                        + " μNOID does not cover current SEND ALL fee "@ + decimal(self.fee(*plan) as nat)
                        + " μNOID"@,
                ),
            },
    {
        let fee: u64 = max_u64(plan.fee_micronoid, self.minimum_fee_hint);
        if plan.total_spend_micronoid > fee {
            return Ok((plan.total_spend_micronoid - fee, fee));
        }
        let mut text = String::from_str("InsufficientFunds: active balance ");
        text.append(decimal_text(plan.total_spend_micronoid).as_str());
        text.append(" μNOID does not cover current SEND ALL fee ");
        text.append(decimal_text(fee).as_str());
        text.append(" μNOID");
        Err(send_failed(0, fee, plan.input_count, plan.output_count, text))
    }

    /// The payment was refused; says whether to plan and try again.
    pub fn refused(&mut self, message: &str) -> (again: bool)
        requires
            old(self).wf(),
        ensures
            again == old(self).retries(message@),
            final(self).minimum_fee_hint == hint_after(old(self).minimum_fee_hint, message@),
            final(self).attempt == (if again {
                old(self).attempt + 1
            } else {
                old(self).attempt as int
            }),
            final(self).wf(),
    {
        let named = below_min_fee_required(message);
        if let Some(required) = named {
            self.minimum_fee_hint = max_u64(self.minimum_fee_hint, required);
        }
        let retryable: bool = named.is_some() || contains(message, "fee below required minimum") || contains(
            message,
            "InsufficientFunds",
        );
        if retryable && self.attempt + 1 < SEND_ALL_ATTEMPTS {
            self.attempt = self.attempt + 1;
            true
        } else {
            false
        }
    }
}

/// The fee hint after a refusal.
pub open spec fn hint_after(hint: u64, message: Seq<char>) -> u64 {
    match required_fee(message) {
        Some(required) => larger(hint, required),
        None => hint,
    }
}

/// The fee hint after some refusals.
pub open spec fn hint_over(messages: Seq<Seq<char>>) -> u64
    decreases messages.len(),
{
    if messages.len() == 0 {
        0
    } else {
        hint_after(hint_over(messages.drop_last()), messages.last())
    }
}

/// Whatever was refused before, amount and fee of an attempt make up the whole
/// spendable balance, and the fee is at least the planned one and every fee that
/// a refusal named.
pub proof fn lemma_send_all_keeps_the_balance(all: SendAll, messages: Seq<Seq<char>>, plan: WalletSendPlan)
    requires
        all.minimum_fee_hint == hint_over(messages),
    ensures
        all.payment_of(plan) matches Some((amount, fee)) ==> {
            &&& amount > 0
            &&& amount + fee == plan.total_spend_micronoid
            &&& fee >= plan.fee_micronoid
            &&& forall|i: int|
                0 <= i < messages.len() ==> (required_fee(#[trigger] messages[i]) matches Some(named) ==> fee >= named)
        },
{
    lemma_hint_covers(messages);
}

proof fn lemma_hint_covers(messages: Seq<Seq<char>>)
    ensures
        forall|i: int|
            0 <= i < messages.len() ==> (required_fee(#[trigger] messages[i]) matches Some(named) ==> hint_over(messages)
                >= named),
    decreases messages.len(),
{
    if messages.len() > 0 {
        let head = messages.drop_last();
        lemma_hint_covers(head);
        assert forall|i: int| 0 <= i < messages.len() implies (required_fee(#[trigger] messages[i]) matches Some(named)
            ==> hint_over(messages) >= named) by {
            if i < head.len() {
                assert(head[i] == messages[i]);
            }
        }
    }
}

/// The node as it is shown.
#[derive(Debug)]
pub struct NodeStatus {
    pub ok: bool,
    pub running: bool,
    pub tip_height: u64,
    pub tip_hash: String,
    pub peers: usize,
    pub syncing: bool,
    pub sync_state: String,
    pub history_step_ready: bool,
    pub error: Option<String>,
}

/// The status of a node that is not running.
pub open spec fn shows_idle(status: NodeStatus, ok: bool, state: Seq<char>, error: Option<Seq<char>>) -> bool {
    &&& status.ok == ok
    &&& !status.running
    &&& status.tip_height == 0
    &&& status.tip_hash@ == Seq::<char>::empty()
    &&& status.peers == 0
    &&& !status.syncing
    &&& status.sync_state@ == state
    &&& !status.history_step_ready
    &&& match (status.error, error) {
        (Some(text), Some(words)) => text@ == words,
        (None, None) => true,
        _ => false,
    }
}

/// The status if the node's state cannot be read.
pub fn status_unreadable() -> (status: NodeStatus)
    ensures
        shows_idle(status, false, "ERROR"@, Some("mobile node state lock poisoned"@)),
{
    NodeStatus {
        ok: false,
        running: false,
        tip_height: 0,
        tip_hash: String::new(),
        peers: 0,
        syncing: false,
        sync_state: String::from_str("ERROR"),
        history_step_ready: false,
        error: Some(String::from_str("mobile node state lock poisoned")),
    }
}

/// The status of a stopped node.
pub fn status_offline() -> (status: NodeStatus)
    ensures
        shows_idle(status, true, "OFFLINE"@, None),
{
    NodeStatus {
        ok: true,
        running: false,
        tip_height: 0,
        tip_hash: String::new(),
        peers: 0,
        syncing: false,
        sync_state: String::from_str("OFFLINE"),
        history_step_ready: false,
        error: None,
    }
}

/// The status of a running node.
///
/// The peers are those that the transport counts, where it does.
pub fn status_running(
    tip_height: u64,
    tip_hash: &Digest,
    transport_peers: Option<usize>,
    runtime: &MobileP2PStatusSnapshot,
    history_step_ready: bool,
) -> (status: NodeStatus)
    ensures
        status.ok,
        status.running,
        status.tip_height == tip_height,
        status.tip_hash@ == hex_text(tip_hash@),
        status.peers == (match transport_peers {
            Some(peers) => peers,
            None => runtime.peers,
        }),
        status.syncing == runtime.syncing,
        status.sync_state@ == runtime.phase@,
        status.history_step_ready == history_step_ready,
        status.error is None,
{
    NodeStatus {
        ok: true,
        running: true,
        tip_height,
        tip_hash: shown_digest(tip_hash),
        peers: match transport_peers {
            Some(peers) => peers,
            None => runtime.peers,
        },
        syncing: runtime.syncing,
        sync_state: String::from_str(runtime.phase),
        history_step_ready,
        error: None,
    }
}

/// A recent payment as it is shown.
#[derive(Debug)]
pub struct RecentTransactionRow {
    pub txid: String,
    pub direction: &'static str,
    pub amount_micronoid: u64,
    pub height: u64,
    pub timestamp: u64,
    pub pending: bool,
    pub is_coinbase: bool,
}

/// The row shows the payment.
pub open spec fn row_shows(row: RecentTransactionRow, item: MobileRecentTransaction) -> bool {
    &&& row.txid@ == hex_text(item.txid@)
    &&& row.direction@ == (if item.direction == TxDirection::Sent {
        "SENT"@
    } else {
        "RECEIVED"@
    })
    &&& row.amount_micronoid == item.amount_micronoid
    &&& row.height == item.height
    &&& row.timestamp == item.timestamp
    &&& row.pending == item.pending
    &&& row.is_coinbase == item.is_coinbase
}

/// Recent payments as they are shown.
pub fn recent_rows(items: &Vec<MobileRecentTransaction>) -> (rows: Vec<RecentTransactionRow>)
    ensures
        rows@.len() == items@.len(),
        forall|i: int| 0 <= i < items@.len() ==> row_shows(#[trigger] rows@[i], items@[i]),
{
    let mut rows: Vec<RecentTransactionRow> = Vec::new();
    let mut i: usize = 0;
    while i < items.len()
        invariant
            i <= items@.len(),
            rows@.len() == i,
            forall|j: int| 0 <= j < i ==> row_shows(#[trigger] rows@[j], items@[j]),
        decreases items@.len() - i,
    {
        let item = items[i];
        let direction: &'static str = match item.direction {
            TxDirection::Sent => "SENT",
            TxDirection::Received => "RECEIVED",
        };
        rows.push(
            RecentTransactionRow {
                txid: shown_digest(&item.txid),
                direction,
                amount_micronoid: item.amount_micronoid,
                height: item.height,
                timestamp: item.timestamp,
                pending: item.pending,
                is_coinbase: item.is_coinbase,
            },
        );
        i = i + 1;
    }
    rows
}

/// The master key of the wallet, below the data directory.
pub const WALLET_KEY_FILE: &'static str = "wallet.key";

pub const WALLET_META_FILE: &'static str = "wallet.meta";

pub const WALLET_HISTORY_FILE: &'static str = "wallet.history";

pub const WALLET_RECEIPTS_FILE: &'static str = "wallet.receipts";

/// The file whose presence says that the wallet was set up by the user.
pub const WALLET_MARKER_FILE: &'static str = "mobile-wallet.configured";

/// Whether a wallet was set up: both its key and the marker are there.
pub fn wallet_configured(key_exists: bool, marker_exists: bool) -> (configured: bool)
    ensures
        configured == (key_exists && marker_exists),
{
    key_exists && marker_exists
}

/// The files that make up a wallet, the key first.
pub fn wallet_artifacts() -> (names: [&'static str; 4])
    ensures
        names[0]@ == WALLET_KEY_FILE@,
        names[1]@ == WALLET_META_FILE@,
        names[2]@ == WALLET_HISTORY_FILE@,
        names[3]@ == WALLET_RECEIPTS_FILE@,
{
    [WALLET_KEY_FILE, WALLET_META_FILE, WALLET_HISTORY_FILE, WALLET_RECEIPTS_FILE]
}

/// What keeps the node from starting.
#[derive(Clone, Copy, Debug, PartialEq, Eq, Structural)]
pub enum StartRefusal {
    WalletNotConfigured,
    AlreadyRunning,
}

impl StartRefusal {
    /// The words in which it is reported.
    pub open spec fn words(self) -> Seq<char> {
        match self {
            StartRefusal::WalletNotConfigured => "mobile wallet is not configured; create or import a wallet first"@,
            StartRefusal::AlreadyRunning => "mobile node already running"@,
        }
    }

    /// The words in which it is reported.
    pub fn message(&self) -> (text: &'static str)
        ensures
            text@ == self.words(),
    {
        match self {
            StartRefusal::WalletNotConfigured => "mobile wallet is not configured; create or import a wallet first",
            StartRefusal::AlreadyRunning => "mobile node already running",
        }
    }
}

/// Whether the node may start.
pub fn may_start(key_exists: bool, marker_exists: bool, running: bool) -> (result: Result<(), StartRefusal>)
    ensures
        result == (if !key_exists || !marker_exists {
            Err::<(), StartRefusal>(StartRefusal::WalletNotConfigured)
        } else if running {
            Err::<(), StartRefusal>(StartRefusal::AlreadyRunning)
        } else {
            Ok::<(), StartRefusal>(())
        }),
{
    if !wallet_configured(key_exists, marker_exists) {
        Err(StartRefusal::WalletNotConfigured)
    } else if running {
        Err(StartRefusal::AlreadyRunning)
    } else {
        Ok(())
    }
}

} // verus!
