//! In which words errors are reported.

use vstd::prelude::*;
use crate::bridge::StartRefusal;
use crate::header_planner::PlanError;
use crate::overview::OverviewError;
use crate::p2p_startup::{exit_report, NetworkTask, TaskExit};
use crate::segments::ManifestError;
use crate::slots::SlotError;
use crate::snapshot::{HeaderBatchStep, InstallError, ManifestStep, TerminalStep};
use crate::submit::{AnchorError, PaymentError, ReserveError};
use crate::sync::{AdmissionError, RowError};
use crate::text::decimal;

verus! {

/// A start that is refused says whether the wallet is missing or the node runs.
pub proof fn lemma_the_words_of_a_refused_start(refusal: StartRefusal, text: &'static str)
    requires
        call_ensures(StartRefusal::message, (&refusal,), text),
    ensures
        refusal is WalletNotConfigured ==> text@
            == "mobile wallet is not configured; create or import a wallet first"@,
        refusal is AlreadyRunning ==> text@ == "mobile node already running"@,
{
}

/// The planner has one complaint.
pub proof fn lemma_the_words_of_the_planner(error: PlanError, text: &'static str)
    requires
        call_ensures(PlanError::message, (&error,), text),
    ensures
        text@ == "header-plan chainwork disagrees with native validation"@,
{
}

/// A balance that overflows is reported with its address, if it is that of one.
pub proof fn lemma_the_words_of_an_overflow(error: OverviewError, text: String)
    requires
        call_ensures(OverviewError::message, (&error,), text),
    ensures
        error matches OverviewError::AddressOverflow { index } ==> text@ == "wallet address #"@ + decimal(index as nat)
            + " balance overflow"@,
        error is AvailableOverflow ==> text@ == "available wallet balance overflow"@,
{
}

/// A manifest is complained about only if it is empty.
pub proof fn lemma_the_words_on_a_manifest(step: ManifestStep, text: Option<&'static str>)
    requires
        call_ensures(ManifestStep::complaint, (&step,), text),
    ensures
        text is Some <==> step is EmptySnapshot,
        text matches Some(words) ==> words@ == "mobile bootstrap peer returned empty snapshot manifest"@,
{
}

/// Headers are complained about if they do not fit, if there are none, and if
/// there is no place for them.
pub proof fn lemma_the_words_on_headers(step: HeaderBatchStep, text: Option<&'static str>)
    requires
        call_ensures(HeaderBatchStep::complaint, (&step,), text),
    ensures
        text is None <==> step is Stale || step is Append,
        step is Mismatch ==> text->0@ == "mobile snapshot header response correlation mismatch"@,
        step is Empty ==> text->0@ == "mobile snapshot header peer returned empty range"@,
        step is StagingMissing ==> text->0@ == "mobile snapshot header staging missing"@,
{
}

/// A terminal is complained about if it is empty or its headers are missing.
pub proof fn lemma_the_words_on_a_terminal(step: TerminalStep, text: Option<&'static str>)
    requires
        call_ensures(TerminalStep::complaint, (&step,), text),
    ensures
        text is None <==> step is Stale || step is Verify,
        step is Empty ==> text->0@ == "mobile bootstrap peer returned empty HistoryStep terminal"@,
        step is HeadersMissing ==> text->0@ == "validated mobile snapshot headers missing"@,
{
}

/// A snapshot that cannot be installed says what is missing.
pub proof fn lemma_the_words_on_an_installation(error: InstallError, text: &'static str)
    requires
        call_ensures(InstallError::message, (&error,), text),
    ensures
        error is TransportMissing ==> text@ == "mobile snapshot transport disappeared before install"@,
        error is SegmentsUnverified ==> text@
            == "mobile snapshot install attempted before every segment was verified"@,
        error is StagingMissing ==> text@ == "completed mobile State staging missing"@,
        error is BoundaryMissing ==> text@ == "verified mobile snapshot boundary missing"@,
        error is HeadersMissing ==> text@ == "validated mobile snapshot headers missing"@,
{
}

/// A manifest that is not bound says whether it is of another header or malformed.
pub proof fn lemma_the_words_on_a_binding(error: ManifestError, text: &'static str)
    requires
        call_ensures(ManifestError::message, (&error,), text),
    ensures
        error is HeaderMismatch ==> text@
            == "mobile snapshot manifest metadata does not match authenticated boundary header"@,
        error is Malformed ==> text@ == "mobile snapshot manifest segment descriptor vectors are malformed"@,
{
}

/// A segment that fails a search is named, with what was found of it.
pub proof fn lemma_the_words_on_a_segment(error: SlotError, text: String)
    requires
        call_ensures(SlotError::message, (&error,), text),
    ensures
        error matches SlotError::Store(told) ==> text@ == told@,
        error matches SlotError::MissingSegment { segment_id } ==> text@ == "evicted segment "@ + decimal(
            segment_id as nat,
        ) + " is missing from durable state"@,
        error matches SlotError::DepthMismatch { segment_id, stored, expected } ==> text@ == "segment "@ + decimal(
            segment_id as nat,
        ) + " depth mismatch: stored "@ + decimal(stored as nat) + ", expected "@ + decimal(expected as nat),
        error matches SlotError::TooShort { segment_id, local_index } ==> text@ == "segment "@ + decimal(
            segment_id as nat,
        ) + " is too short for local slot "@ + decimal(local_index as nat),
{
}

/// A payment that cannot be planned names the amounts that decided it.
pub proof fn lemma_the_words_on_a_payment(error: PaymentError, text: String)
    requires
        call_ensures(PaymentError::message, (&error,), text),
    ensures
        error is ZeroAmount ==> text@ == "payment amount must be greater than zero"@,
        error matches PaymentError::InsufficientFunds { need, have } ==> text@ == "InsufficientFunds: need "@ + decimal(
            need as nat,
        ) + " μNOID, have "@ + decimal(have as nat) + " μNOID spendable"@,
        error matches PaymentError::InputLimit { max } ==> text@
            == "InputLimitExceeded: canonical payments support at most "@ + decimal(max as nat) + " inputs"@,
        error matches PaymentError::FeeBelowMinimum { got, need } ==> text@ == "fee below required minimum: got "@
            + decimal(got as nat) + ", need "@ + decimal(need as nat),
        error is NotConverged ==> text@ == "wallet fee planning did not converge"@,
        error is NothingSpendable ==> text@ == "InsufficientFunds: active address has no spendable UTXOs"@,
        error matches PaymentError::TooManyInputs { needed, max } ==> text@ == "InputLimitExceeded: SEND ALL needs "@
            + decimal(needed as nat) + " inputs but one canonical payment supports at most "@ + decimal(max as nat)
            + "; consolidate first"@,
        error is BalanceOverflow ==> text@ == "wallet balance arithmetic overflow"@,
        error matches PaymentError::FeeNotCovered { spendable, fee } ==> text@ == "InsufficientFunds: active balance "@
            + decimal(spendable as nat) + " μNOID does not cover SEND ALL fee "@ + decimal(fee as nat) + " μNOID"@,
        error matches PaymentError::OnlyFeeCovered { fee } ==> text@
            == "InsufficientFunds: active balance equals SEND ALL fee "@ + decimal(fee as nat) + " μNOID"@,
{
}

/// A reservation that fails says whether an input or an output is taken; what
/// the record says is passed on.
pub proof fn lemma_the_words_on_a_reservation(error: ReserveError, text: String)
    requires
        call_ensures(ReserveError::message, (&error,), text),
    ensures
        error is WalletMissing ==> text@ == "wallet not initialized"@,
        error is InputReserved ==> text@ == "wallet input is already reserved by a pending transaction"@,
        error is OutputReserved ==> text@ == "wallet output slot is already reserved by a pending transaction"@,
        error matches ReserveError::Record(told) ==> text@ == told@,
{
}

/// An anchor that is not there says why.
pub proof fn lemma_the_words_on_an_anchor(error: AnchorError, text: String)
    requires
        call_ensures(AnchorError::message, (&error,), text),
    ensures
        error is HeightOverflow ==> text@ == "child height overflow"@,
        error matches AnchorError::Load(told) ==> text@ == "load transaction epoch anchor: "@ + told@,
        error is Missing ==> text@ == "canonical transaction epoch anchor header is missing"@,
{
}

/// An offer that cannot be compared says whose work is missing.
pub proof fn lemma_the_words_on_an_offer(error: AdmissionError, text: &'static str)
    requires
        call_ensures(AdmissionError::message, (&error,), text),
    ensures
        error is CandidateWorkMissing ==> text@ == "candidate mobile suffix has no cumulative work"@,
        error is ActiveWorkMissing ==> text@ == "active mobile suffix has no cumulative work"@,
{
}

/// A gap in the canonical rows is named by its height.
pub proof fn lemma_the_words_on_a_row(error: RowError, text: String)
    requires
        call_ensures(RowError::message, (&error,), text),
    ensures
        error matches RowError::HeaderMissing { height } ==> text@ == "canonical mobile HeaderDag row "@ + decimal(
            height as nat,
        ) + " is missing"@,
        error matches RowError::WorkMissing { height } ==> text@ == "canonical mobile HeaderDag work "@ + decimal(
            height as nat,
        ) + " is missing"@,
{
}

/// A task that ends says which one it was and how it ended.
pub proof fn lemma_the_words_on_a_task(task: NetworkTask, exit: TaskExit, report: &'static str)
    requires
        call_ensures(exit_report, (task, exit), report),
    ensures
        task is Reactor && exit is Stopped ==> report@ == "mobile P2P reactor stopped unexpectedly"@,
        task is Reactor && exit is Failed ==> report@ == "mobile P2P reactor failed"@,
        task is Reactor && exit is Lost ==> report@ == "mobile P2P reactor task failed"@,
        task is EventActor && exit is Stopped ==> report@ == "mobile P2P event actor stopped unexpectedly"@,
        task is EventActor && exit is Failed ==> report@ == "mobile P2P event actor failed"@,
        task is EventActor && exit is Lost ==> report@ == "mobile P2P event actor task failed"@,
{
}

} // verus!
