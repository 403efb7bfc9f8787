//! One payment on its way into the mempool, step by step.
//!
//! A payment is handed to the mempool only after it was found to be what was
//! planned and its slots were reserved. A refusal gives the slots back and may
//! start another attempt; every other failure ends the payment.

use vstd::prelude::*;
use crate::bytes::Digest;
use crate::send::{
    after_attempt, attempt_seed, built_as_planned, divergence_words, enough_slots, follows_plan, given_up_words,
    seed_of, AttemptOutcome, BuiltPayment, MobileSendResult, SendStep, SEND_ATTEMPTS,
};
use crate::submit::{
    reservation_follows, PaymentOrder, PendingAdmissionGuard, PendingSlots, ReserveError, WalletSendPlan,
};

verus! {

/// How far an attempt has come.
#[derive(Clone, Copy, Debug, PartialEq, Eq, Structural)]
pub enum SendStage {
    /// Empty slots are looked for.
    Seeking,
    /// The payment is being built and proved.
    Building,
    /// There are bytes.
    Built,
    /// The bytes are a payment.
    Decoded,
    /// The payment is valid and the one that was planned.
    Checked,
    /// Its slots are reserved: it may be handed to the mempool.
    Reserved,
    /// The mempool admitted it.
    Done,
    /// Given up.
    Failed,
}

/// One stage follows another.
pub open spec fn send_follows(before: SendStage, after: SendStage) -> bool {
    match before {
        SendStage::Seeking => after is Building || after is Failed,
        SendStage::Building => after is Built || after is Failed,
        SendStage::Built => after is Decoded || after is Failed,
        SendStage::Decoded => after is Checked || after is Failed,
        SendStage::Checked => after is Reserved || after is Failed,
        SendStage::Reserved => after is Done || after is Seeking || after is Failed,
        SendStage::Done => false,
        SendStage::Failed => false,
    }
}

/// What building a payment came to.
#[derive(Debug)]
pub enum BuildOutcome {
    Built,
    /// The wallet could not build it.
    Failed(String),
    /// The proving task itself failed.
    TaskFailed(String),
}

/// What a valid payment says of itself.
#[derive(Clone, Copy, Debug)]
pub struct PaymentFacts {
    pub txid: Digest,
    pub built: BuiltPayment,
}

/// A payment while it is sent.
#[derive(Debug)]
pub struct SendRun {
    pub plan: WalletSendPlan,
    pub to_address: Digest,
    pub amount_micronoid: u64,
    /// Attempts that were refused.
    pub attempt: u32,
    pub stage: SendStage,
    /// What was built in this attempt, once it is checked.
    pub facts: Option<PaymentFacts>,
}

impl SendRun {
    pub open spec fn wf(self) -> bool {
        &&& self.attempt < SEND_ATTEMPTS
        &&& self.stage is Checked || self.stage is Reserved ==> self.facts is Some && follows_plan(
            self.plan,
            self.facts->0.built,
        )
    }

    pub open spec fn at(self, stage: SendStage) -> SendRun {
        SendRun { stage, ..self }
    }

    /// A step leads to a stage, or ends the payment with these words.
    pub open spec fn led_to<T>(
        self,
        after: SendRun,
        stage: SendStage,
        failure: Option<Seq<char>>,
        result: Result<T, String>,
    ) -> bool {
        &&& after.wf()
        &&& send_follows(self.stage, after.stage)
        &&& match failure {
            None => result is Ok && after == self.at(stage),
            Some(words) => result is Err && result->Err_0@ == words && after == self.at(SendStage::Failed),
        }
    }

    /// Take up a planned payment.
    pub fn new(plan: WalletSendPlan, to_address: Digest, amount_micronoid: u64) -> (run: SendRun)
        ensures
            run == (SendRun {
                plan,
                to_address,
                amount_micronoid,
                attempt: 0,
                stage: SendStage::Seeking,
                facts: None,
            }),
            run.wf(),
    {
        SendRun { plan, to_address, amount_micronoid, attempt: 0, stage: SendStage::Seeking, facts: None }
    }

    /// The seed of the search for empty slots in this attempt.
    pub fn seed(&self, state_root: &Digest, call_nonce: u64) -> (seed: u64)
        ensures
            seed == seed_of(*state_root, call_nonce, self.attempt),
    {
        attempt_seed(state_root, call_nonce, self.attempt)
    }

    /// The attempt ends here, and with it the payment.
    fn fail(&mut self, outcome: AttemptOutcome) -> (words: String)
        requires
            old(self).wf(),
            !(outcome is Refused || outcome is Admitted),
        ensures
            *final(self) == old(self).at(SendStage::Failed),
            final(self).wf(),
            words@ == failure_words(old(self).plan, outcome),
    {
        let step = after_attempt(&self.plan, self.amount_micronoid, self.attempt, outcome);
        self.stage = SendStage::Failed;
        match step {
            SendStep::Failed(words) => words,
            _ => String::new(),
        }
    }

    /// Empty slots were looked for; gives what the payment is built from.
    pub fn order(&mut self, epoch_anchor: Digest, slot_hints: Vec<u32>, log_slots: u32) -> (result: Result<
        PaymentOrder,
        String,
    >)
        requires
            old(self).wf(),
            old(self).stage is Seeking,
        ensures
            old(self).led_to(
                *final(self),
                SendStage::Building,
                if slot_hints@.len() >= old(self).plan.output_count {
                    None
                } else {
                    Some(given_up_words("not enough empty output slots available"@))
                },
                result,
            ),
            result matches Ok(order) ==> order == (PaymentOrder {
                to_address: old(self).to_address,
                amount_micronoid: old(self).amount_micronoid,
                fee_micronoid: old(self).plan.fee_micronoid,
                epoch_anchor,
                slot_hints,
                log_slots,
            }),
    {
        if !enough_slots(&self.plan, slot_hints.len()) {
            return Err(self.fail(AttemptOutcome::NotEnoughSlots));
        }
        self.stage = SendStage::Building;
        Ok(
            PaymentOrder {
                to_address: self.to_address,
                amount_micronoid: self.amount_micronoid,
                fee_micronoid: self.plan.fee_micronoid,
                epoch_anchor,
                slot_hints,
                log_slots,
            },
        )
    }

    /// The payment was built and proved, or was not.
    pub fn built(&mut self, outcome: BuildOutcome) -> (result: Result<(), String>)
        requires
            old(self).wf(),
            old(self).stage is Building,
        ensures
            old(self).led_to(
                *final(self),
                SendStage::Built,
                match outcome {
                    BuildOutcome::Built => None,
                    BuildOutcome::Failed(error) => Some(given_up_words(error@)),
                    BuildOutcome::TaskFailed(error) => Some(given_up_words("wallet proof task: "@ + error@)),
                },
                result,
            ),
    {
        match outcome {
            BuildOutcome::Built => {
                self.stage = SendStage::Built;
                Ok(())
            },
            BuildOutcome::Failed(error) => Err(self.fail(AttemptOutcome::BuildFailed(error))),
            BuildOutcome::TaskFailed(error) => Err(self.fail(AttemptOutcome::ProofTaskFailed(error))),
        }
    }

    /// What was built can be read as a payment, or cannot.
    pub fn decoded(&mut self, outcome: Result<(), String>) -> (result: Result<(), String>)
        requires
            old(self).wf(),
            old(self).stage is Built,
        ensures
            old(self).led_to(
                *final(self),
                SendStage::Decoded,
                match outcome {
                    Ok(_) => None,
                    Err(error) => Some(given_up_words("intent decode: "@ + error@)),
                },
                result,
            ),
    {
        match outcome {
            Ok(_) => {
                self.stage = SendStage::Decoded;
                Ok(())
            },
            Err(error) => Err(self.fail(AttemptOutcome::DecodeFailed(error))),
        }
    }

    /// What was built was validated: it passes only if it is the planned payment.
    pub fn checked(&mut self, outcome: Result<PaymentFacts, String>) -> (result: Result<(), String>)
        requires
            old(self).wf(),
            old(self).stage is Decoded,
        ensures
            final(self).wf(),
            send_follows(old(self).stage, final(self).stage),
            match outcome {
                Err(error) => {
                    &&& result is Err
                    &&& result->Err_0@ == "wallet PagedSpend: "@ + error@
                    &&& *final(self) == old(self).at(SendStage::Failed)
                },
                Ok(facts) => if follows_plan(old(self).plan, facts.built) {
                    &&& result is Ok
                    &&& *final(self) == (SendRun { stage: SendStage::Checked, facts: Some(facts), ..*old(self) })
                } else {
                    &&& result is Err
                    &&& result->Err_0@ == divergence_words(old(self).plan, facts.built)
                    &&& *final(self) == old(self).at(SendStage::Failed)
                },
            },
    {
        match outcome {
            Err(error) => Err(self.fail(AttemptOutcome::Invalid(error))),
            Ok(facts) => if built_as_planned(&self.plan, &facts.built) {
                self.stage = SendStage::Checked;
                self.facts = Some(facts);
                Ok(())
            } else {
                Err(self.fail(AttemptOutcome::Diverged(facts.built)))
            },
        }
    }

    /// Reserve the slots of the checked payment.
    ///
    /// `record` writes the pending payment down.
    pub fn reserve<F: FnOnce(Digest, u64, Digest) -> Result<(), String>>(
        &mut self,
        pending: &mut PendingSlots,
        input_slots: Vec<u32>,
        output_slots: Vec<u32>,
        record: F,
    ) -> (result: Result<PendingAdmissionGuard, ReserveError>)
        requires
            old(self).wf(),
            old(self).stage is Checked,
            call_requires(
                record,
                (old(self).facts->0.txid, old(self).amount_micronoid, old(self).to_address),
            ),
        ensures
            reservation_follows(
                *old(pending),
                *final(pending),
                old(self).facts->0.txid,
                input_slots,
                output_slots,
                old(self).amount_micronoid,
                old(self).to_address,
                record,
                result,
            ),
            *final(self) == old(self).at(
                if result is Ok {
                    SendStage::Reserved
                } else {
                    SendStage::Failed
                },
            ),
            result matches Ok(guard) ==> guard.armed && guard.txid == final(self).facts->0.txid,
            send_follows(old(self).stage, final(self).stage),
            final(self).wf(),
    {
        let txid = match &self.facts {
            Some(facts) => facts.txid,
            None => [0u8; 32],
        };
        let result = PendingAdmissionGuard::reserve(
            pending,
            txid,
            input_slots,
            output_slots,
            self.amount_micronoid,
            self.to_address,
            record,
        );
        self.stage = if result.is_ok() {
            SendStage::Reserved
        } else {
            SendStage::Failed
        };
        result
    }

    /// There is no wallet in which the slots of the checked payment could be reserved.
    pub fn no_wallet(&mut self) -> (error: ReserveError)
        requires
            old(self).wf(),
            old(self).stage is Checked,
        ensures
            error is WalletMissing,
            *final(self) == old(self).at(SendStage::Failed),
            send_follows(old(self).stage, final(self).stage),
            final(self).wf(),
    {
        self.stage = SendStage::Failed;
        ReserveError::WalletMissing
    }

    /// The mempool answered.
    ///
    /// An admitted payment keeps its slots. A refused one does not, and is tried
    /// again as often as is allowed.
    pub fn submitted(&mut self, guard: &mut PendingAdmissionGuard, outcome: Result<Digest, String>) -> (step: SendStep)
        requires
            old(self).wf(),
            old(self).stage is Reserved,
            old(guard).armed,
            old(guard).txid == old(self).facts->0.txid,
        ensures
            final(self).wf(),
            send_follows(old(self).stage, final(self).stage),
            match outcome {
                Ok(txid) => {
                    &&& step == SendStep::Done(
                        MobileSendResult {
                            txid,
                            amount_micronoid: old(self).amount_micronoid,
                            fee_micronoid: old(self).plan.fee_micronoid,
                            input_count: old(self).plan.input_count,
                            output_count: old(self).plan.output_count,
                        },
                    )
                    &&& *final(self) == old(self).at(SendStage::Done)
                    &&& *final(guard) == (PendingAdmissionGuard { armed: false, ..*old(guard) })
                },
                Err(error) => {
                    &&& *final(guard) == *old(guard)
                    &&& if old(self).attempt + 1 < SEND_ATTEMPTS {
                        &&& step is Retry
                        &&& *final(self) == (SendRun {
                            stage: SendStage::Seeking,
                            attempt: (old(self).attempt + 1) as u32,
                            facts: None,
                            ..*old(self)
                        })
                    } else {
                        &&& step is Failed
                        &&& step->Failed_0@ == given_up_words(error@)
                        &&& *final(self) == old(self).at(SendStage::Failed)
                    }
                },
            },
    {
        let built = match &self.facts {
            Some(facts) => facts.built,
            None => BuiltPayment { fee: 0, input_count: 0, output_count: 0 },
        };
        match outcome {
            Ok(txid) => {
                guard.commit();
                self.stage = SendStage::Done;
                after_attempt(
                    &self.plan,
                    self.amount_micronoid,
                    self.attempt,
                    AttemptOutcome::Admitted { txid, built },
                )
            },
            Err(error) => {
                let step = after_attempt(
                    &self.plan,
                    self.amount_micronoid,
                    self.attempt,
                    AttemptOutcome::Refused(error),
                );
                if self.attempt + 1 < SEND_ATTEMPTS {
                    self.attempt = self.attempt + 1;
                    self.facts = None;
                    self.stage = SendStage::Seeking;
                } else {
                    self.stage = SendStage::Failed;
                }
                step
            },
        }
    }
}

/// How the report of an attempt that ends the payment reads.
pub open spec fn failure_words(plan: WalletSendPlan, outcome: AttemptOutcome) -> Seq<char> {
    match outcome {
        AttemptOutcome::NotEnoughSlots => given_up_words("not enough empty output slots available"@),
        AttemptOutcome::BuildFailed(error) => given_up_words(error@),
        AttemptOutcome::ProofTaskFailed(error) => given_up_words("wallet proof task: "@ + error@),
        AttemptOutcome::DecodeFailed(error) => given_up_words("intent decode: "@ + error@),
        AttemptOutcome::Invalid(error) => "wallet PagedSpend: "@ + error@,
        AttemptOutcome::Diverged(built) => divergence_words(plan, built),
        AttemptOutcome::ReserveFailed(error) => error@,
        _ => Seq::empty(),
    }
}

/// A payment that may be handed to the mempool went through every step of its
/// attempt right before: slots were found, it was built and read, it was found
/// to be the planned one, and its slots were reserved.
pub proof fn lemma_only_a_checked_and_reserved_payment_is_submitted(stages: Seq<SendStage>)
    requires
        stages.len() > 0,
        stages[0] is Seeking,
        forall|i: int| 0 <= i < stages.len() - 1 ==> send_follows(#[trigger] stages[i], stages[i + 1]),
        stages.last() is Reserved,
    ensures
        stages.len() >= 6,
        stages[stages.len() - 2] is Checked,
        stages[stages.len() - 3] is Decoded,
        stages[stages.len() - 4] is Built,
        stages[stages.len() - 5] is Building,
        stages[stages.len() - 6] is Seeking,
{
    let last = stages.len() - 1;
    assert(last > 0);
    assert(send_follows(stages[last - 1], stages[last - 1 + 1]));
    assert(last > 1);
    assert(send_follows(stages[last - 2], stages[last - 2 + 1]));
    assert(last > 2);
    assert(send_follows(stages[last - 3], stages[last - 3 + 1]));
    assert(last > 3);
    assert(send_follows(stages[last - 4], stages[last - 4 + 1]));
    assert(last > 4);
    assert(send_follows(stages[last - 5], stages[last - 5 + 1]));
}

/// A payment that may be handed to the mempool is the planned one, and its
/// attempts have not run out.
pub proof fn lemma_submitted_payments_follow_their_plan(run: SendRun)
    requires
        run.wf(),
        run.stage is Reserved,
    ensures
        run.facts is Some,
        follows_plan(run.plan, run.facts->0.built),
        run.attempt < SEND_ATTEMPTS,
{
}

} // verus!
