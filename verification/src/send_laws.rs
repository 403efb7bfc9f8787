//! What each step of a payment on its way into the mempool comes to.

use vstd::prelude::*;
use crate::bytes::Digest;
use crate::send::{attempt_seed, SendStep};
use crate::send_run::{BuildOutcome, PaymentFacts, SendRun};
use crate::submit::{
    PaymentOrder, PendingAdmissionGuard, PendingSlots, ReserveError, WalletSendPlan,
};

verus! {

/// Everything but the stage is as it was.
pub open spec fn only_the_stage_moved(before: SendRun, after: SendRun) -> bool {
    after == (SendRun { stage: after.stage, ..before })
}

/// A payment is taken up as it was planned, and its attempts have the seeds of
/// their numbers.
pub proof fn lemma_a_payment_is_taken_up_as_planned(
    plan: WalletSendPlan,
    to_address: Digest,
    amount: u64,
    fresh: SendRun,
    run: SendRun,
    state_root: Digest,
    nonce: u64,
    seed: u64,
    expected: u64,
)
    requires
        call_ensures(SendRun::new, (plan, to_address, amount), fresh),
        call_ensures(SendRun::seed, (&run, &state_root, nonce), seed),
        call_ensures(attempt_seed, (&state_root, nonce, run.attempt), expected),
    ensures
        fresh.plan == plan && fresh.to_address == to_address && fresh.amount_micronoid == amount,
        fresh.attempt == 0 && fresh.stage is Seeking && fresh.facts is None,
        seed == expected,
{
}

/// A payment is ordered only with an empty slot for each of its outputs, and
/// then with its own address, amount and planned fee and what was found for it.
pub proof fn lemma_a_payment_is_ordered_with_enough_slots(
    run: &mut SendRun,
    anchor: Digest,
    hints: Vec<u32>,
    log_slots: u32,
    result: Result<PaymentOrder, String>,
)
    requires
        call_ensures(SendRun::order, (run, anchor, hints, log_slots), result),
    ensures
        only_the_stage_moved(*old(run), *final(run)),
        result is Ok <==> hints@.len() >= old(run).plan.output_count,
        result matches Ok(order) ==> {
            &&& final(run).stage is Building
            &&& order.to_address == old(run).to_address
            &&& order.amount_micronoid == old(run).amount_micronoid
            &&& order.fee_micronoid == old(run).plan.fee_micronoid
            &&& order.epoch_anchor == anchor
            &&& order.slot_hints == hints
            &&& order.log_slots == log_slots
        },
        result matches Err(words) ==> final(run).stage is Failed && words@ == "wallet send failed after 3 attempts: "@
            + "not enough empty output slots available"@,
{
}

/// A payment that is not built, or cannot be read, is given up with the reason.
pub proof fn lemma_a_payment_that_is_not_built_is_given_up(
    building: &mut SendRun,
    build: BuildOutcome,
    built: Result<(), String>,
    reading: &mut SendRun,
    read: Result<(), String>,
    decoded: Result<(), String>,
)
    requires
        call_ensures(SendRun::built, (building, build), built),
        call_ensures(SendRun::decoded, (reading, read), decoded),
    ensures
        only_the_stage_moved(*old(building), *final(building)),
        built is Ok <==> build is Built,
        built is Ok ==> final(building).stage is Built,
        built is Err ==> final(building).stage is Failed,
        build is Failed ==> built->Err_0@ == "wallet send failed after 3 attempts: "@ + build->Failed_0@,
        build is TaskFailed ==> built->Err_0@ == "wallet send failed after 3 attempts: "@ + ("wallet proof task: "@
            + build->TaskFailed_0@),
        only_the_stage_moved(*old(reading), *final(reading)),
        decoded is Ok <==> read is Ok,
        decoded is Ok ==> final(reading).stage is Decoded,
        decoded is Err ==> final(reading).stage is Failed && decoded->Err_0@
            == "wallet send failed after 3 attempts: "@ + ("intent decode: "@ + read->Err_0@),
{
}

/// A payment passes its check only if it is valid and has the fee and the
/// counts that were planned.
pub proof fn lemma_a_payment_off_its_plan_is_not_sent(
    run: &mut SendRun,
    outcome: Result<PaymentFacts, String>,
    result: Result<(), String>,
)
    requires
        call_ensures(SendRun::checked, (run, outcome), result),
    ensures
        result is Ok <==> outcome is Ok && outcome->Ok_0.built.fee == old(run).plan.fee_micronoid
            && outcome->Ok_0.built.input_count == old(run).plan.input_count && outcome->Ok_0.built.output_count == old(run).plan.output_count,
        result is Ok ==> final(run).stage is Checked && final(run).facts == Some(outcome->Ok_0),
        result is Err ==> final(run).stage is Failed && final(run).facts == old(run).facts,
        outcome is Err ==> result->Err_0@ == "wallet PagedSpend: "@ + outcome->Err_0@,
        final(run).plan == old(run).plan,
        final(run).to_address == old(run).to_address,
        final(run).amount_micronoid == old(run).amount_micronoid,
        final(run).attempt == old(run).attempt,
{
}

/// The slots of a checked payment are reserved under its own id, as
/// `PendingAdmissionGuard::reserve` reserves them; without a reservation the
/// payment is given up.
pub proof fn lemma_a_checked_payment_is_reserved<F: FnOnce(Digest, u64, Digest) -> Result<(), String>>(
    run: &mut SendRun,
    pending: &mut PendingSlots,
    input_slots: Vec<u32>,
    output_slots: Vec<u32>,
    record: F,
    result: Result<PendingAdmissionGuard, ReserveError>,
    homeless: &mut SendRun,
    error: ReserveError,
)
    requires
        call_ensures(SendRun::reserve::<F>, (run, pending, input_slots, output_slots, record), result),
        call_ensures(SendRun::no_wallet, (homeless,), error),
    ensures
        only_the_stage_moved(*old(run), *final(run)),
        result is Ok ==> final(run).stage is Reserved,
        result is Err ==> final(run).stage is Failed,
        result matches Ok(guard) ==> {
            &&& guard.armed
            &&& guard.txid == old(run).facts->0.txid
            &&& guard.input_slots == input_slots
            &&& guard.output_slots == output_slots
            &&& forall|slot: u32|
                #[trigger] final(pending).inputs@.contains(slot) <==> old(pending).inputs@.contains(slot)
                    || input_slots@.contains(slot)
            &&& forall|slot: u32|
                #[trigger] final(pending).outputs@.contains(slot) <==> old(pending).outputs@.contains(slot)
                    || output_slots@.contains(slot)
            &&& forall|i: int|
                0 <= i < input_slots@.len() ==> !old(pending).inputs@.contains(#[trigger] input_slots@[i])
            &&& forall|i: int|
                0 <= i < output_slots@.len() ==> !old(pending).outputs@.contains(#[trigger] output_slots@[i])
        },
        result is Err ==> final(pending).inputs@ == old(pending).inputs@ && final(pending).outputs@ == old(pending).outputs@,
        only_the_stage_moved(*old(homeless), *final(homeless)),
        final(homeless).stage is Failed,
        error is WalletMissing,
{
}

/// An admitted payment is done and keeps its slots. A refused one leaves the
/// reservation to be given back, and is tried again twice.
pub proof fn lemma_the_mempool_decides(
    run: &mut SendRun,
    guard: &mut PendingAdmissionGuard,
    outcome: Result<Digest, String>,
    step: SendStep,
)
    requires
        old(run).attempt < 3,
        call_ensures(SendRun::submitted, (run, guard, outcome), step),
    ensures
        final(run).plan == old(run).plan,
        final(run).to_address == old(run).to_address,
        final(run).amount_micronoid == old(run).amount_micronoid,
        step is Done <==> outcome is Ok,
        step is Retry <==> outcome is Err && old(run).attempt < 2,
        step is Done ==> final(run).stage is Done && !final(guard).armed && final(guard).input_slots == old(guard).input_slots && final(guard).output_slots == old(guard).output_slots,
        step matches SendStep::Done(result) ==> {
            &&& result.txid == outcome->Ok_0
            &&& result.amount_micronoid == old(run).amount_micronoid
            &&& result.fee_micronoid == old(run).plan.fee_micronoid
            &&& result.input_count == old(run).plan.input_count
            &&& result.output_count == old(run).plan.output_count
        },
        outcome is Err ==> *final(guard) == *old(guard),
        step is Retry ==> final(run).stage is Seeking && final(run).attempt == old(run).attempt + 1 && final(run).facts is None,
        step matches SendStep::Failed(words) ==> final(run).stage is Failed && final(run).attempt == old(run).attempt
            && words@ == "wallet send failed after 3 attempts: "@ + outcome->Err_0@,
{
}

} // verus!
