use std::collections::HashSet;

use noid_mobile::send::{
    after_attempt, attempt_seed, built_as_planned, enough_slots, explicit_fee, AttemptOutcome, BuiltPayment, SendStep,
};
use noid_mobile::send_run::{BuildOutcome, PaymentFacts, SendRun, SendStage};
use noid_mobile::submit::{
    build_send, next_user_epoch_anchor, plan_send, plan_send_all, AnchorError, AnchorLookup, BuildData, PaymentError,
    PaymentOrder, PendingAdmissionGuard, PendingSlots, ReserveError, Selection, WalletSendPlan,
};
use noid_mobile::wallet_tables::{CoinTable, WalletUtxo};

fn coin(slot_index: u32, value: u64) -> WalletUtxo {
    WalletUtxo { slot_index, value }
}

/// Coins worth 300 are spendable, slot 9 is spent by a pending payment.
fn wallet() -> (CoinTable, HashSet<u32>) {
    (table(vec![coin(1, 100), coin(2, 200), coin(9, 1_000)]), [9].into_iter().collect())
}

fn table(coins: Vec<WalletUtxo>) -> CoinTable {
    let mut table = CoinTable::new();
    for coin in coins {
        table.insert(coin);
    }
    table
}

/// The coins of the wallet, the largest first.
fn select(amount: u64, fee: u64) -> Option<Selection> {
    let need = amount + fee;
    if need <= 200 {
        Some(Selection { input_count: 1, change: 200 - need })
    } else if need <= 300 {
        Some(Selection { input_count: 2, change: 300 - need })
    } else {
        None
    }
}

fn fee(inputs: u64, outputs: u64) -> u64 {
    10 * inputs + outputs
}

fn planned(amount: u64, explicit: Option<u64>, floor: u64, max: usize) -> Result<WalletSendPlan, PaymentError> {
    let (utxos, pending) = wallet();
    plan_send(&utxos, &pending, amount, explicit, floor, max, select, fee)
}

#[test]
fn automatic_fee_settles() {
    let plan = planned(100, None, 1, 5).unwrap();
    assert_eq!(plan.fee_micronoid, 12);
    assert_eq!(plan.total_spend_micronoid, 112);
    assert_eq!((plan.input_count, plan.output_count, plan.change_micronoid), (1, 2, 88));
    let plan = planned(190, None, 1, 5).unwrap();
    assert_eq!(plan.fee_micronoid, 22);
    assert_eq!(plan.input_count, 2);
}

#[test]
fn relay_floor_is_respected() {
    let plan = planned(100, None, 50, 5).unwrap();
    assert_eq!(plan.fee_micronoid, 50);
    assert_eq!(plan.change_micronoid, 50);
}

#[test]
fn payment_without_change_has_one_output() {
    let plan = planned(189, Some(11), 1, 5).unwrap();
    assert_eq!(plan.change_micronoid, 0);
    assert_eq!(plan.output_count, 1);
    assert_eq!(plan.fee_micronoid, 11);
}

#[test]
fn explicit_fee_is_taken_or_refused() {
    assert_eq!(planned(100, Some(40), 1, 5).unwrap().fee_micronoid, 40);
    assert_eq!(planned(100, Some(5), 1, 5), Err(PaymentError::FeeBelowMinimum { got: 5, need: 12 }));
    assert_eq!(explicit_fee(0), None);
    assert_eq!(explicit_fee(7), Some(7));
}

#[test]
fn impossible_payments() {
    assert_eq!(planned(0, None, 1, 5), Err(PaymentError::ZeroAmount));
    assert_eq!(planned(400, None, 1, 5), Err(PaymentError::InsufficientFunds { need: 401, have: 300 }));
    assert_eq!(planned(250, None, 1, 1), Err(PaymentError::InputLimit { max: 1 }));
    let (utxos, pending) = wallet();
    let rising = plan_send(
        &utxos,
        &pending,
        10,
        None,
        1,
        5,
        |_, fee| Some(Selection { input_count: (fee % 2) as usize + 1, change: 1 }),
        |inputs, _| 20 + (inputs + 1) % 2,
    );
    assert_eq!(rising.unwrap().fee_micronoid, 21);
    let swinging = plan_send(
        &utxos,
        &pending,
        10,
        None,
        1,
        5,
        |_, fee| Some(Selection { input_count: (fee % 2) as usize + 1, change: 1 }),
        |inputs, _| 20 + inputs % 2,
    );
    assert_eq!(swinging, Err(PaymentError::NotConverged));
}

#[test]
fn payment_errors_are_worded() {
    let words = [
        (PaymentError::ZeroAmount, "payment amount must be greater than zero"),
        (
            PaymentError::InsufficientFunds { need: 401, have: 300 },
            "InsufficientFunds: need 401 μNOID, have 300 μNOID spendable",
        ),
        (PaymentError::InputLimit { max: 64 }, "InputLimitExceeded: canonical payments support at most 64 inputs"),
        (PaymentError::FeeBelowMinimum { got: 5, need: 12 }, "fee below required minimum: got 5, need 12"),
        (PaymentError::NotConverged, "wallet fee planning did not converge"),
        (PaymentError::NothingSpendable, "InsufficientFunds: active address has no spendable UTXOs"),
        (
            PaymentError::TooManyInputs { needed: 70, max: 64 },
            "InputLimitExceeded: SEND ALL needs 70 inputs but one canonical payment supports at most 64; consolidate first",
        ),
        (PaymentError::BalanceOverflow, "wallet balance arithmetic overflow"),
        (
            PaymentError::FeeNotCovered { spendable: 3, fee: 10 },
            "InsufficientFunds: active balance 3 μNOID does not cover SEND ALL fee 10 μNOID",
        ),
        (
            PaymentError::OnlyFeeCovered { fee: 10 },
            "InsufficientFunds: active balance equals SEND ALL fee 10 μNOID",
        ),
    ];
    for (error, text) in words {
        assert_eq!(error.message(), text);
    }
}

#[test]
fn sending_all_empties_the_address() {
    let (utxos, pending) = wallet();
    let plan = plan_send_all(&utxos, &pending, 1, 5, fee).unwrap();
    assert_eq!(plan.fee_micronoid, 21);
    assert_eq!(plan.amount_micronoid, 279);
    assert_eq!(plan.amount_micronoid + plan.fee_micronoid, 300);
    assert_eq!(plan.total_spend_micronoid, 300);
    assert_eq!((plan.input_count, plan.output_count, plan.change_micronoid), (2, 1, 0));
}

#[test]
fn sending_all_can_be_impossible() {
    let (utxos, pending) = wallet();
    let everything: HashSet<u32> = [1, 2, 9].into_iter().collect();
    assert_eq!(plan_send_all(&utxos, &everything, 1, 5, fee), Err(PaymentError::NothingSpendable));
    assert_eq!(
        plan_send_all(&utxos, &pending, 1, 1, fee),
        Err(PaymentError::TooManyInputs { needed: 2, max: 1 })
    );
    assert_eq!(
        plan_send_all(&utxos, &pending, 301, 5, fee),
        Err(PaymentError::FeeNotCovered { spendable: 300, fee: 301 })
    );
    assert_eq!(plan_send_all(&utxos, &pending, 300, 5, fee), Err(PaymentError::OnlyFeeCovered { fee: 300 }));
    let rich = table(vec![coin(1, u64::MAX), coin(2, 1)]);
    assert_eq!(plan_send_all(&rich, &pending, 1, 5, fee), Err(PaymentError::BalanceOverflow));
}

fn slots(inputs: &[u32], outputs: &[u32]) -> PendingSlots {
    PendingSlots { inputs: inputs.iter().copied().collect(), outputs: outputs.iter().copied().collect() }
}

fn sorted(set: &HashSet<u32>) -> Vec<u32> {
    let mut list: Vec<u32> = set.iter().copied().collect();
    list.sort();
    list
}

#[test]
fn reservation_is_undone_by_its_release() {
    let mut pending = slots(&[1], &[10]);
    let guard = PendingAdmissionGuard::reserve(&mut pending, [7; 32], vec![2, 3], vec![11], 5, [8; 32], |_, _, _| {
        Ok(())
    })
    .unwrap();
    assert_eq!(sorted(&pending.inputs), vec![1, 2, 3]);
    assert_eq!(sorted(&pending.outputs), vec![10, 11]);
    assert_eq!(guard.txid, [7; 32]);
    assert!(guard.release(&mut pending));
    assert_eq!(sorted(&pending.inputs), vec![1]);
    assert_eq!(sorted(&pending.outputs), vec![10]);
}

#[test]
fn committed_reservation_stays() {
    let mut pending = slots(&[], &[]);
    let mut guard =
        PendingAdmissionGuard::reserve(&mut pending, [7; 32], vec![2], vec![11], 5, [8; 32], |_, _, _| Ok(()))
            .unwrap();
    guard.commit();
    assert!(!guard.release(&mut pending));
    assert_eq!(sorted(&pending.inputs), vec![2]);
    assert_eq!(sorted(&pending.outputs), vec![11]);
}

#[test]
fn reservations_do_not_overlap() {
    let mut pending = slots(&[1], &[10]);
    let ok = |_: [u8; 32], _: u64, _: [u8; 32]| Ok(());
    let error = PendingAdmissionGuard::reserve(&mut pending, [7; 32], vec![1], vec![10], 5, [8; 32], ok).err().unwrap();
    assert!(matches!(error, ReserveError::InputReserved));
    assert_eq!(error.message(), "wallet input is already reserved by a pending transaction");
    let error = PendingAdmissionGuard::reserve(&mut pending, [7; 32], vec![2], vec![10], 5, [8; 32], ok).err().unwrap();
    assert!(matches!(error, ReserveError::OutputReserved));
    assert_eq!(error.message(), "wallet output slot is already reserved by a pending transaction");
    assert_eq!(sorted(&pending.inputs), vec![1]);
}

#[test]
fn unrecorded_reservation_leaves_nothing() {
    let mut pending = slots(&[1], &[10]);
    let error = PendingAdmissionGuard::reserve(&mut pending, [7; 32], vec![2, 2], vec![11], 5, [8; 32], |txid, amount, to| {
        assert_eq!((txid, amount, to), ([7; 32], 5, [8; 32]));
        Err("disk full".to_string())
    })
    .err()
    .unwrap();
    assert_eq!(error.message(), "disk full");
    assert_eq!(sorted(&pending.inputs), vec![1]);
    assert_eq!(sorted(&pending.outputs), vec![10]);
}

/// Epochs of a hundred blocks.
fn epoch_start(child: u64) -> u64 {
    child - child % 100
}

#[test]
fn epoch_anchor_of_the_next_block() {
    let found = next_user_epoch_anchor(199, epoch_start, |height| {
        assert_eq!(height, 200);
        AnchorLookup::Found([3; 32])
    });
    assert_eq!(found.unwrap(), [3; 32]);
    let found = next_user_epoch_anchor(143, epoch_start, |height| AnchorLookup::Found([height as u8; 32]));
    assert_eq!(found.unwrap(), [100; 32]);
    let missing = next_user_epoch_anchor(5, epoch_start, |_| AnchorLookup::Missing).unwrap_err();
    assert_eq!(missing.message(), "canonical transaction epoch anchor header is missing");
    let failed = next_user_epoch_anchor(5, epoch_start, |_| AnchorLookup::Failed("io".to_string())).unwrap_err();
    assert_eq!(failed.message(), "load transaction epoch anchor: io");
    let overflow = next_user_epoch_anchor(u64::MAX, epoch_start, |_| AnchorLookup::Missing).unwrap_err();
    assert!(matches!(overflow, AnchorError::HeightOverflow));
    assert_eq!(overflow.message(), "child height overflow");
}

fn order() -> PaymentOrder {
    PaymentOrder {
        to_address: [7; 32],
        amount_micronoid: 100,
        fee_micronoid: 12,
        epoch_anchor: [3; 32],
        slot_hints: vec![20, 21],
        log_slots: 24,
    }
}

fn extract(amount: u64, fee: u64, anchor: [u8; 32], hints: Vec<u32>, log: u32) -> Result<BuildData<u8>, String> {
    assert_eq!((amount, fee, anchor, hints, log), (100, 12, [3; 32], vec![20, 21], 24));
    Ok(BuildData { selected: vec![coin(4, 1), coin(2, 1)], witness: 9u8 })
}

#[test]
fn built_payment_names_its_slots() {
    let (bytes, spent) = build_send(order(), extract, |to, amount, fee, data: BuildData<u8>| {
        assert_eq!((to, amount, fee), ([7; 32], 100, 12));
        Ok(vec![data.witness])
    })
    .unwrap();
    assert_eq!(bytes, vec![9]);
    assert_eq!(spent, vec![4, 2]);
    let unproved = build_send(order(), extract, |_, _, _, _: BuildData<u8>| Err("no proof".to_string()));
    assert_eq!(unproved.unwrap_err(), "no proof");
    let empty =
        build_send(order(), |_, _, _, _, _| Err("no coins".to_string()), |_, _, _, _: BuildData<u8>| Ok(vec![]));
    assert_eq!(empty.unwrap_err(), "no coins");
}

#[test]
fn seeds_of_attempts() {
    let mut root = [0; 32];
    root[0] = 2;
    root[7] = 1;
    root[8] = 99;
    let base = 0x0100_0000_0000_0002u64;
    let step = 0x9e37_79b9_7f4a_7c15u64;
    assert_eq!(attempt_seed(&root, 0, 0), base);
    assert_eq!(attempt_seed(&root, 0, 1), base.wrapping_add(step));
    assert_eq!(attempt_seed(&root, 3, 2), base.wrapping_add(5u64.wrapping_mul(step)));
    assert_eq!(attempt_seed(&root, u64::MAX, 1), base);
}

fn plan() -> WalletSendPlan {
    WalletSendPlan {
        amount_micronoid: 100,
        fee_micronoid: 12,
        total_spend_micronoid: 112,
        input_count: 1,
        output_count: 2,
        change_micronoid: 88,
    }
}

fn built() -> BuiltPayment {
    BuiltPayment { fee: 12, input_count: 1, output_count: 2 }
}

#[test]
fn admitted_payment_is_done() {
    match after_attempt(&plan(), 100, 2, AttemptOutcome::Admitted { txid: [5; 32], built: built() }) {
        SendStep::Done(result) => {
            assert_eq!(result.txid, [5; 32]);
            assert_eq!((result.amount_micronoid, result.fee_micronoid), (100, 12));
            assert_eq!((result.input_count, result.output_count), (1, 2));
        }
        other => panic!("{:?}", other),
    }
}

#[test]
fn only_a_refusal_is_retried() {
    let refused = || AttemptOutcome::Refused("pool full".to_string());
    assert!(matches!(after_attempt(&plan(), 100, 0, refused()), SendStep::Retry));
    assert!(matches!(after_attempt(&plan(), 100, 1, refused()), SendStep::Retry));
    let failures = vec![
        (refused(), 2, "wallet send failed after 3 attempts: pool full"),
        (
            AttemptOutcome::NotEnoughSlots,
            0,
            "wallet send failed after 3 attempts: not enough empty output slots available",
        ),
        (AttemptOutcome::BuildFailed("x".to_string()), 0, "wallet send failed after 3 attempts: x"),
        (
            AttemptOutcome::ProofTaskFailed("x".to_string()),
            0,
            "wallet send failed after 3 attempts: wallet proof task: x",
        ),
        (AttemptOutcome::DecodeFailed("x".to_string()), 0, "wallet send failed after 3 attempts: intent decode: x"),
        (AttemptOutcome::Invalid("x".to_string()), 0, "wallet PagedSpend: x"),
        (
            AttemptOutcome::Diverged(BuiltPayment { fee: 13, input_count: 1, output_count: 1 }),
            0,
            "wallet builder diverged from plan: expected fee/counts 12/1/2, got 13/1/1",
        ),
        (AttemptOutcome::ReserveFailed("taken".to_string()), 0, "taken"),
    ];
    for (outcome, attempt, text) in failures {
        match after_attempt(&plan(), 100, attempt, outcome) {
            SendStep::Failed(words) => assert_eq!(words, text),
            other => panic!("{:?}", other),
        }
    }
}

#[test]
fn built_payment_is_held_to_its_plan() {
    assert!(built_as_planned(&plan(), &built()));
    assert!(!built_as_planned(&plan(), &BuiltPayment { fee: 13, input_count: 1, output_count: 2 }));
    assert!(!built_as_planned(&plan(), &BuiltPayment { fee: 12, input_count: 2, output_count: 2 }));
    assert!(!built_as_planned(&plan(), &BuiltPayment { fee: 12, input_count: 1, output_count: 1 }));
    assert!(enough_slots(&plan(), 2));
    assert!(!enough_slots(&plan(), 1));
}

fn facts() -> PaymentFacts {
    PaymentFacts { txid: [5; 32], built: built() }
}

/// A run whose payment is built and read.
fn read_run() -> SendRun {
    let mut run = SendRun::new(plan(), [7; 32], 100);
    let order = run.order([3; 32], vec![20, 21], 24).unwrap();
    assert_eq!((order.to_address, order.amount_micronoid, order.fee_micronoid), ([7; 32], 100, 12));
    assert_eq!((order.epoch_anchor, order.slot_hints, order.log_slots), ([3; 32], vec![20, 21], 24));
    run.built(BuildOutcome::Built).unwrap();
    run.decoded(Ok(())).unwrap();
    run
}

fn no_slots() -> PendingSlots {
    PendingSlots { inputs: HashSet::new(), outputs: HashSet::new() }
}

#[test]
fn a_payment_goes_through_every_step() {
    let mut run = read_run();
    run.checked(Ok(facts())).unwrap();
    let mut pending = no_slots();
    let mut guard = run
        .reserve(&mut pending, vec![1], vec![20], |txid, amount, to| {
            assert_eq!((txid, amount, to), ([5; 32], 100, [7; 32]));
            Ok(())
        })
        .unwrap();
    assert_eq!(run.stage, SendStage::Reserved);
    match run.submitted(&mut guard, Ok([6; 32])) {
        SendStep::Done(result) => assert_eq!((result.txid, result.fee_micronoid), ([6; 32], 12)),
        other => panic!("{:?}", other),
    }
    assert_eq!(run.stage, SendStage::Done);
    assert!(!guard.release(&mut pending));
    assert!(pending.inputs.contains(&1) && pending.outputs.contains(&20));
}

#[test]
fn a_payment_that_left_its_plan_is_not_reserved() {
    let mut run = read_run();
    let other = PaymentFacts { txid: [5; 32], built: BuiltPayment { fee: 13, input_count: 1, output_count: 2 } };
    assert_eq!(
        run.checked(Ok(other)).unwrap_err(),
        "wallet builder diverged from plan: expected fee/counts 12/1/2, got 13/1/2"
    );
    assert_eq!(run.stage, SendStage::Failed);
    let mut run = read_run();
    assert_eq!(run.checked(Err("sum".to_string())).unwrap_err(), "wallet PagedSpend: sum");
}

#[test]
fn refused_payments_give_their_slots_back() {
    let mut run = SendRun::new(plan(), [7; 32], 100);
    let mut pending = no_slots();
    for attempt in 0..3 {
        assert_eq!(run.attempt, attempt);
        run.order([3; 32], vec![20, 21], 24).unwrap();
        run.built(BuildOutcome::Built).unwrap();
        run.decoded(Ok(())).unwrap();
        run.checked(Ok(facts())).unwrap();
        let mut guard = run.reserve(&mut pending, vec![1], vec![20], |_, _, _| Ok(())).unwrap();
        let step = run.submitted(&mut guard, Err("pool full".to_string()));
        assert!(guard.release(&mut pending));
        assert!(pending.inputs.is_empty() && pending.outputs.is_empty());
        match step {
            SendStep::Retry => assert!(attempt < 2),
            SendStep::Failed(words) => {
                assert_eq!(attempt, 2);
                assert_eq!(words, "wallet send failed after 3 attempts: pool full");
            }
            other => panic!("{:?}", other),
        }
    }
    assert_eq!(run.stage, SendStage::Failed);
}

#[test]
fn early_failures_end_the_payment() {
    let mut run = SendRun::new(plan(), [7; 32], 100);
    assert_eq!(
        run.order([3; 32], vec![20], 24).unwrap_err(),
        "wallet send failed after 3 attempts: not enough empty output slots available"
    );
    for (outcome, words) in [
        (BuildOutcome::Failed("x".to_string()), "wallet send failed after 3 attempts: x"),
        (BuildOutcome::TaskFailed("x".to_string()), "wallet send failed after 3 attempts: wallet proof task: x"),
    ] {
        let mut run = SendRun::new(plan(), [7; 32], 100);
        run.order([3; 32], vec![20, 21], 24).unwrap();
        assert_eq!(run.built(outcome).unwrap_err(), words);
    }
    let mut run = SendRun::new(plan(), [7; 32], 100);
    run.order([3; 32], vec![20, 21], 24).unwrap();
    run.built(BuildOutcome::Built).unwrap();
    assert_eq!(
        run.decoded(Err("x".to_string())).unwrap_err(),
        "wallet send failed after 3 attempts: intent decode: x"
    );
    let mut run = read_run();
    run.checked(Ok(facts())).unwrap();
    let mut pending = no_slots();
    pending.inputs.insert(1);
    let refused = run.reserve(&mut pending, vec![1], vec![20], |_, _, _| Ok(()));
    assert!(matches!(refused, Err(ReserveError::InputReserved)));
    assert_eq!(run.stage, SendStage::Failed);
    let mut run = read_run();
    run.checked(Ok(facts())).unwrap();
    assert_eq!(run.no_wallet().message(), "wallet not initialized");
    assert_eq!(run.stage, SendStage::Failed);
    assert_eq!(run.seed(&[0; 32], 5), attempt_seed(&[0; 32], 5, 0));
}
