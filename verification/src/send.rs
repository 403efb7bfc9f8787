//! Sending one payment: plan, build, reserve, admit, with a bounded number of attempts.

use vstd::prelude::*;
use crate::bytes::Digest;
use crate::submit::WalletSendPlan;
use crate::text::{decimal, decimal_text};

verus! {

/// How often a payment is tried.
pub const SEND_ATTEMPTS: u32 = 3;

/// The odd constant that spreads the seeds of attempts.
pub const SEED_STEP: u64 = 0x9e37_79b9_7f4a_7c15;

/// A payment that the local mempool admitted.
#[derive(Clone, Copy, Debug)]
pub struct MobileSendResult {
    pub txid: Digest,
    pub amount_micronoid: u64,
    pub fee_micronoid: u64,
    pub input_count: usize,
    pub output_count: usize,
}

/// A fee of zero asks for the automatic fee.
pub fn explicit_fee(fee_micronoid: u64) -> (fee: Option<u64>)
    ensures
        fee == (if fee_micronoid == 0 {
            None
        } else {
            Some(fee_micronoid)
        }),
{
    if fee_micronoid == 0 {
        None
    } else {
        Some(fee_micronoid)
    }
}

/// The number that bytes stand for, the least significant first.
pub open spec fn little_endian(bytes: Seq<u8>) -> nat
    decreases bytes.len(),
{
    if bytes.len() == 0 {
        0
    } else {
        bytes[0] as nat + 256 * little_endian(bytes.skip(1))
    }
}

/// The first eight bytes of a state root as a number.
pub open spec fn root_number(state_root: Digest) -> u64 {
    little_endian(state_root@.take(8)) as u64
}

/// The seed of one attempt at a payment.
pub open spec fn seed_of(state_root: Digest, call_nonce: u64, attempt: u32) -> u64 {
    root_number(state_root).wrapping_add(call_nonce.wrapping_add(attempt as u64).wrapping_mul(SEED_STEP))
}

proof fn lemma_little_endian_eight(bytes: Seq<u8>)
    requires
        bytes.len() == 8,
    ensures
        little_endian(bytes) == bytes[0] + 256 * (bytes[1] + 256 * (bytes[2] + 256 * (bytes[3] + 256 * (bytes[4] + 256
            * (bytes[5] + 256 * (bytes[6] + 256 * bytes[7])))))),
{
    reveal_with_fuel(little_endian, 9);
    assert(bytes.skip(1).skip(1) =~= bytes.skip(2));
    assert(bytes.skip(2).skip(1) =~= bytes.skip(3));
    assert(bytes.skip(3).skip(1) =~= bytes.skip(4));
    assert(bytes.skip(4).skip(1) =~= bytes.skip(5));
    assert(bytes.skip(5).skip(1) =~= bytes.skip(6));
    assert(bytes.skip(6).skip(1) =~= bytes.skip(7));
    assert(bytes.skip(7).skip(1) =~= bytes.skip(8));
}

/// The seed of one attempt at a payment: no two attempts of one call share it.
pub fn attempt_seed(state_root: &Digest, call_nonce: u64, attempt: u32) -> (seed: u64)
    ensures
        seed == seed_of(*state_root, call_nonce, attempt),
{
    proof {
        lemma_little_endian_eight(state_root@.take(8));
        assert forall|i: int| 0 <= i < 8 implies state_root@.take(8)[i] == #[trigger] state_root@[i] by {}
    }
    let mut value: u64 = state_root[7] as u64;
    value = value * 256 + state_root[6] as u64;
    value = value * 256 + state_root[5] as u64;
    value = value * 256 + state_root[4] as u64;
    value = value * 256 + state_root[3] as u64;
    value = value * 256 + state_root[2] as u64;
    value = value * 256 + state_root[1] as u64;
    value = value * 256 + state_root[0] as u64;
    value.wrapping_add(call_nonce.wrapping_add(attempt as u64).wrapping_mul(SEED_STEP))
}

/// What was found in the payment that the wallet built.
#[derive(Clone, Copy, Debug)]
pub struct BuiltPayment {
    pub fee: u64,
    pub input_count: usize,
    pub output_count: usize,
}

/// The built payment is the planned one.
pub open spec fn follows_plan(plan: WalletSendPlan, built: BuiltPayment) -> bool {
    &&& built.fee == plan.fee_micronoid
    &&& built.input_count == plan.input_count
    &&& built.output_count == plan.output_count
}

/// How the report of a built payment that left its plan reads.
pub open spec fn divergence_words(plan: WalletSendPlan, built: BuiltPayment) -> Seq<char> {
    "wallet builder diverged from plan: expected fee/counts "@ + decimal(plan.fee_micronoid as nat) + "/"@ + decimal(
        plan.input_count as nat,
    ) + "/"@ + decimal(plan.output_count as nat) + ", got "@ + decimal(built.fee as nat) + "/"@ + decimal(
        built.input_count as nat,
    ) + "/"@ + decimal(built.output_count as nat)
}

fn divergence_text(plan: &WalletSendPlan, built: &BuiltPayment) -> (text: String)
    ensures
        text@ == divergence_words(*plan, *built),
{
    let mut text = String::from_str("wallet builder diverged from plan: expected fee/counts ");
    text.append(decimal_text(plan.fee_micronoid).as_str());
    text.append("/");
    text.append(decimal_text(plan.input_count as u64).as_str());
    text.append("/");
    text.append(decimal_text(plan.output_count as u64).as_str());
    text.append(", got ");
    text.append(decimal_text(built.fee).as_str());
    text.append("/");
    text.append(decimal_text(built.input_count as u64).as_str());
    text.append("/");
    text.append(decimal_text(built.output_count as u64).as_str());
    text
}

/// How far one attempt came.
#[derive(Debug)]
pub enum AttemptOutcome {
    /// Too few empty slots were found for the outputs.
    NotEnoughSlots,
    /// The wallet could not build the payment.
    BuildFailed(String),
    /// The proving task itself failed.
    ProofTaskFailed(String),
    /// What the wallet built cannot be read.
    DecodeFailed(String),
    /// What the wallet built is no valid payment.
    Invalid(String),
    /// What the wallet built is not what was planned.
    Diverged(BuiltPayment),
    /// The slots could not be reserved.
    ReserveFailed(String),
    /// The mempool refused the payment.
    Refused(String),
    /// The mempool admitted the payment.
    Admitted { txid: Digest, built: BuiltPayment },
}

/// What follows an attempt.
#[derive(Debug)]
pub enum SendStep {
    Done(MobileSendResult),
    /// Try again.
    Retry,
    Failed(String),
}

/// The report of a payment that was given up.
pub open spec fn given_up_words(last_error: Seq<char>) -> Seq<char> {
    "wallet send failed after 3 attempts: "@ + last_error
}

fn given_up(last_error: &str) -> (text: String)
    ensures
        text@ == given_up_words(last_error@),
{
    let mut text = String::from_str("wallet send failed after 3 attempts: ");
    text.append(last_error);
    text
}

/// What follows an attempt.
pub open spec fn step_follows(
    step: SendStep,
    plan: WalletSendPlan,
    amount: u64,
    attempt: u32,
    outcome: AttemptOutcome,
) -> bool {
    match outcome {
        AttemptOutcome::Admitted { txid, built } => step == SendStep::Done(
            MobileSendResult {
                txid,
                amount_micronoid: amount,
                fee_micronoid: built.fee,
                input_count: built.input_count,
                output_count: built.output_count,
            },
        ),
        AttemptOutcome::Refused(error) => if attempt + 1 < SEND_ATTEMPTS {
            step == SendStep::Retry
        } else {
            fails_with(step, given_up_words(error@))
        },
        AttemptOutcome::NotEnoughSlots => fails_with(
            step,
            given_up_words("not enough empty output slots available"@),
        ),
        AttemptOutcome::BuildFailed(error) => fails_with(step, given_up_words(error@)),
        AttemptOutcome::ProofTaskFailed(error) => fails_with(step, given_up_words("wallet proof task: "@ + error@)),
        AttemptOutcome::DecodeFailed(error) => fails_with(step, given_up_words("intent decode: "@ + error@)),
        AttemptOutcome::Invalid(error) => fails_with(step, "wallet PagedSpend: "@ + error@),
        AttemptOutcome::Diverged(built) => fails_with(step, divergence_words(plan, built)),
        AttemptOutcome::ReserveFailed(error) => fails_with(step, error@),
    }
}

pub open spec fn fails_with(step: SendStep, words: Seq<char>) -> bool {
    match step {
        SendStep::Failed(text) => text@ == words,
        _ => false,
    }
}

/// Whether enough slots were found for the outputs of a plan.
pub fn enough_slots(plan: &WalletSendPlan, found: usize) -> (enough: bool)
    ensures
        enough == (found >= plan.output_count),
{
    found >= plan.output_count
}

/// Whether a built payment is the planned one.
pub fn built_as_planned(plan: &WalletSendPlan, built: &BuiltPayment) -> (same: bool)
    ensures
        same == follows_plan(*plan, *built),
{
    built.fee == plan.fee_micronoid && built.input_count == plan.input_count && built.output_count
        == plan.output_count
}

/// Decide what follows an attempt.
///
/// Only a refusal by the mempool is tried again: everything else would fail in
/// the same way. A payment that does not follow its plan is never handed to the
/// mempool, so an admitted one does.
pub fn after_attempt(plan: &WalletSendPlan, amount_micronoid: u64, attempt: u32, outcome: AttemptOutcome) -> (step:
    SendStep)
    requires
        attempt < SEND_ATTEMPTS,
        outcome matches AttemptOutcome::Admitted { built, .. } ==> follows_plan(*plan, built),
    ensures
        step_follows(step, *plan, amount_micronoid, attempt, outcome),
        step matches SendStep::Done(result) ==> {
            &&& result.amount_micronoid == amount_micronoid
            &&& result.fee_micronoid == plan.fee_micronoid
            &&& result.input_count == plan.input_count
            &&& result.output_count == plan.output_count
        },
{
    match outcome {
        AttemptOutcome::Admitted { txid, built } => SendStep::Done(
            MobileSendResult {
                txid,
                amount_micronoid,
                fee_micronoid: built.fee,
                input_count: built.input_count,
                output_count: built.output_count,
            },
        ),
        AttemptOutcome::Refused(error) => if attempt + 1 < SEND_ATTEMPTS {
            SendStep::Retry
        } else {
            SendStep::Failed(given_up(error.as_str()))
        },
        AttemptOutcome::NotEnoughSlots => SendStep::Failed(given_up("not enough empty output slots available")),
        AttemptOutcome::BuildFailed(error) => SendStep::Failed(given_up(error.as_str())),
        AttemptOutcome::ProofTaskFailed(error) => {
            let mut text = String::from_str("wallet proof task: ");
            text.append(error.as_str());
            SendStep::Failed(given_up(text.as_str()))
        },
        AttemptOutcome::DecodeFailed(error) => {
            let mut text = String::from_str("intent decode: ");
            text.append(error.as_str());
            SendStep::Failed(given_up(text.as_str()))
        },
        AttemptOutcome::Invalid(error) => {
            let mut text = String::from_str("wallet PagedSpend: ");
            text.append(error.as_str());
            SendStep::Failed(text)
        },
        AttemptOutcome::Diverged(built) => SendStep::Failed(divergence_text(plan, &built)),
        AttemptOutcome::ReserveFailed(error) => SendStep::Failed(error),
    }
}

/// A payment is tried again only after a refusal, and never more often than allowed.
pub proof fn lemma_only_refusals_are_retried(
    plan: WalletSendPlan,
    amount: u64,
    attempt: u32,
    outcome: AttemptOutcome,
    step: SendStep,
)
    requires
        attempt < SEND_ATTEMPTS,
        step_follows(step, plan, amount, attempt, outcome),
    ensures
        step is Retry <==> outcome is Refused && attempt + 1 < SEND_ATTEMPTS,
        step is Done <==> outcome is Admitted,
{
}

/// The attempts of one call have different seeds.
pub proof fn lemma_seeds_differ(state_root: Digest, call_nonce: u64, first: u32, second: u32)
    requires
        first < second < SEND_ATTEMPTS,
    ensures
        seed_of(state_root, call_nonce, first) != seed_of(state_root, call_nonce, second),
{
    let root = root_number(state_root);
    let a = call_nonce.wrapping_add(first as u64);
    let b = call_nonce.wrapping_add(second as u64);
    let gap = (second - first) as u64;
    assert(gap == 1 || gap == 2);
    let x = a.wrapping_mul(SEED_STEP);
    let y = b.wrapping_mul(SEED_STEP);
    let modulus = 0x1_0000_0000_0000_0000int;
    assert((b - a - gap) == 0 || (b - a - gap) == -modulus);
    assert(x == (a * SEED_STEP) % modulus);
    assert(y == (b * SEED_STEP) % modulus);
    if x == y {
        let step = SEED_STEP as int;
        let n = a * step;
        let m = b * step;
        let turns = (b - a - gap) / modulus;
        assert(b == a + gap + turns * modulus);
        assert(m == n + gap * step + (turns * step) * modulus) by (nonlinear_arith)
            requires
                m == b * step,
                n == a * step,
                b == a + gap + turns * modulus,
        ;
        let whole = gap * step;
        vstd::arithmetic::div_mod::lemma_fundamental_div_mod(n, modulus);
        vstd::arithmetic::div_mod::lemma_fundamental_div_mod(m, modulus);
        let q = n / modulus;
        let r = m / modulus;
        assert(whole == (r - q - turns * step) * modulus) by (nonlinear_arith)
            requires
                m == modulus * r + y,
                n == modulus * q + x,
                x == y,
                m == n + whole + (turns * step) * modulus,
        ;
        let k = r - q - turns * step;
        assert(0 < whole < 2 * modulus) by {
            assert(whole == step || whole == 2 * step);
        }
        assert(k == 1) by (nonlinear_arith)
            requires
                whole == k * modulus,
                0 < whole < 2 * modulus,
                modulus == 0x1_0000_0000_0000_0000int,
        ;
        assert(false);
    }
    assert(root.wrapping_add(x) != root.wrapping_add(y));
}

} // verus!
