//! What holds of planning, building, reserving and sending payments.

use vstd::prelude::*;
use std::collections::HashSet;
use crate::bytes::Digest;
use crate::send::{
    after_attempt, attempt_seed, built_as_planned, enough_slots, explicit_fee, little_endian, AttemptOutcome,
    BuiltPayment, SendStep,
};
use crate::submit::{
    build_send, next_user_epoch_anchor, overlaps, plan_send, plan_send_all, planned, quotes, quotes_fee,
    spendable_coins, worth, AnchorError, AnchorLookup, BuildData, PaymentError, PaymentOrder, PendingAdmissionGuard,
    PendingSlots, ReserveError, Selection, WalletSendPlan,
};
use crate::wallet_tables::{CoinTable, WalletUtxo};

verus! {

/// The coins of a table whose slots no pending payment spends, as often as the
/// table has them and in their order.
pub open spec fn unspent(coins: Seq<WalletUtxo>, pending: Set<u32>) -> Seq<WalletUtxo> {
    coins.filter(|coin: WalletUtxo| !pending.contains(coin.slot_index))
}

/// The values of some coins together.
pub open spec fn value_of(coins: Seq<WalletUtxo>) -> int {
    coins.fold_left(0int, |total: int, coin: WalletUtxo| total + coin.value)
}

proof fn lemma_spendable_is_unspent(coins: Seq<WalletUtxo>, pending: Set<u32>)
    ensures
        spendable_coins(coins, pending) == unspent(coins, pending),
    decreases coins.len(),
{
    reveal(Seq::filter);
    if coins.len() > 0 {
        lemma_spendable_is_unspent(coins.drop_last(), pending);
    }
}

proof fn lemma_worth_is_value(coins: Seq<WalletUtxo>)
    ensures
        worth(coins) == value_of(coins),
    decreases coins.len(),
{
    reveal_with_fuel(Seq::fold_left, 2);
    if coins.len() > 0 {
        lemma_worth_is_value(coins.drop_last());
    }
}

proof fn lemma_nothing_pending(coins: Seq<WalletUtxo>, pending: Set<u32>)
    requires
        forall|i: int| 0 <= i < coins.len() ==> !pending.contains((#[trigger] coins[i]).slot_index),
    ensures
        unspent(coins, pending) == coins,
    decreases coins.len(),
{
    reveal(Seq::filter);
    if coins.len() > 0 {
        let fewer = coins.drop_last();
        assert forall|i: int| 0 <= i < fewer.len() implies !pending.contains((#[trigger] fewer[i]).slot_index) by {
            assert(fewer[i] == coins[i]);
        }
        lemma_nothing_pending(fewer, pending);
        assert(!pending.contains(coins[coins.len() - 1].slot_index));
        assert(fewer.push(coins.last()) =~= coins);
    }
}

/// The larger of two fees.
pub open spec fn is_larger_of(fee: u64, a: u64, b: u64) -> bool {
    fee >= a && fee >= b && (fee == a || fee == b)
}

/// Sending all spends every coin that is not pending: amount and fee are their
/// whole value, each of them is an input, and there is no change. It is refused
/// exactly if there is none, if they are too many, if their value does not fit,
/// or if it does not exceed the fee.
pub proof fn lemma_sending_all_leaves_nothing_behind<F: Fn(u64, u64) -> u64>(
    utxos: CoinTable,
    pending: HashSet<u32>,
    relay_floor: u64,
    max_inputs: usize,
    required: F,
    fee_for: spec_fn(u64, u64) -> u64,
    result: Result<WalletSendPlan, PaymentError>,
)
    requires
        call_ensures(plan_send_all::<F>, (&utxos, &pending, relay_floor, max_inputs, required), result),
        forall|inputs: u64, outputs: u64, fee: u64|
            #[trigger] call_ensures(required, (inputs, outputs), fee) ==> fee == fee_for(inputs, outputs),
        utxos@.len() <= usize::MAX,
    ensures
        ({
            let coins = unspent(utxos@, pending@);
            let total = value_of(coins);
            let needed = fee_for(coins.len() as u64, 1);
            match result {
                Ok(plan) => {
                    &&& 0 < coins.len() <= max_inputs
                    &&& plan.input_count == coins.len()
                    &&& plan.output_count == 1
                    &&& plan.change_micronoid == 0
                    &&& plan.amount_micronoid > 0
                    &&& plan.amount_micronoid + plan.fee_micronoid == total
                    &&& plan.total_spend_micronoid == total
                    &&& is_larger_of(plan.fee_micronoid, relay_floor, needed)
                },
                Err(PaymentError::NothingSpendable) => coins.len() == 0,
                Err(PaymentError::TooManyInputs { needed, max }) => coins.len() > max_inputs && coins.len() > 0 && needed
                    == coins.len() && max == max_inputs,
                Err(PaymentError::BalanceOverflow) => 0 < coins.len() <= max_inputs && total > u64::MAX,
                Err(PaymentError::FeeNotCovered { spendable, fee }) => 0 < coins.len() <= max_inputs && spendable
                    == total && is_larger_of(fee, relay_floor, needed) && total < fee,
                Err(PaymentError::OnlyFeeCovered { fee }) => 0 < coins.len() <= max_inputs && is_larger_of(
                    fee,
                    relay_floor,
                    needed,
                ) && total == fee,
                Err(_) => false,
            }
        }),
{
    lemma_spendable_is_unspent(utxos@, pending@);
    lemma_worth_is_value(unspent(utxos@, pending@));
    lemma_unspent_is_no_longer(utxos@, pending@);
    assert(quotes_fee(required, fee_for));
}

proof fn lemma_unspent_is_no_longer(coins: Seq<WalletUtxo>, pending: Set<u32>)
    ensures
        unspent(coins, pending).len() <= coins.len(),
    decreases coins.len(),
{
    reveal(Seq::filter);
    if coins.len() > 0 {
        lemma_unspent_is_no_longer(coins.drop_last(), pending);
    }
}

/// With nothing pending, sending all spends every coin of the table.
pub proof fn lemma_sending_all_with_nothing_pending<F: Fn(u64, u64) -> u64>(
    utxos: CoinTable,
    pending: HashSet<u32>,
    relay_floor: u64,
    max_inputs: usize,
    required: F,
    fee_for: spec_fn(u64, u64) -> u64,
    plan: WalletSendPlan,
)
    requires
        call_ensures(
            plan_send_all::<F>,
            (&utxos, &pending, relay_floor, max_inputs, required),
            Ok::<WalletSendPlan, PaymentError>(plan),
        ),
        forall|inputs: u64, outputs: u64, fee: u64|
            #[trigger] call_ensures(required, (inputs, outputs), fee) ==> fee == fee_for(inputs, outputs),
        utxos@.len() <= usize::MAX,
        forall|i: int| 0 <= i < utxos@.len() ==> !pending@.contains((#[trigger] utxos@[i]).slot_index),
    ensures
        plan.input_count == utxos@.len(),
        plan.amount_micronoid + plan.fee_micronoid == value_of(utxos@),
{
    lemma_sending_all_leaves_nothing_behind(
        utxos,
        pending,
        relay_floor,
        max_inputs,
        required,
        fee_for,
        Ok(plan),
    );
    lemma_nothing_pending(utxos@, pending@);
}

/// A number that is held at the largest `u64`.
pub open spec fn is_held(number: u64, exact: int) -> bool {
    &&& exact <= u64::MAX ==> number == exact
    &&& exact > u64::MAX ==> number == u64::MAX
}

/// A plan spends what was selected for its amount and its fee: the fee comes on
/// top of the amount, and only change makes a second output.
pub open spec fn plans(plan: WalletSendPlan, amount: u64, fee: u64, picked: Selection) -> bool {
    &&& plan.amount_micronoid == amount
    &&& plan.fee_micronoid == fee
    &&& is_held(plan.total_spend_micronoid, amount + fee)
    &&& plan.input_count == picked.input_count
    &&& plan.change_micronoid == picked.change
    &&& plan.output_count == (if picked.change > 0 {
        2int
    } else {
        1int
    })
}

/// The least fee for what was selected: the relay floor, or what its inputs and
/// outputs cost if that is more.
pub open spec fn is_least_fee(
    fee: u64,
    relay_floor: u64,
    fee_for: spec_fn(u64, u64) -> u64,
    picked: Selection,
) -> bool {
    is_larger_of(
        fee,
        relay_floor,
        fee_for(
            picked.input_count as u64,
            if picked.change > 0 {
                2u64
            } else {
                1u64
            },
        ),
    )
}

/// Nothing is planned for an amount of zero.
pub proof fn lemma_an_amount_of_zero_is_refused<S: Fn(u64, u64) -> Option<Selection>, F: Fn(u64, u64) -> u64>(
    utxos: CoinTable,
    pending: HashSet<u32>,
    explicit: Option<u64>,
    relay_floor: u64,
    max_inputs: usize,
    select: S,
    required: F,
    result: Result<WalletSendPlan, PaymentError>,
)
    requires
        call_ensures(
            plan_send::<S, F>,
            (&utxos, &pending, 0u64, explicit, relay_floor, max_inputs, select, required),
            result,
        ),
    ensures
        result == Err::<WalletSendPlan, PaymentError>(PaymentError::ZeroAmount),
{
}

/// An explicit fee is taken as it is or refused as too low; it is never changed.
pub proof fn lemma_an_explicit_fee_is_taken_or_refused<
    S: Fn(u64, u64) -> Option<Selection>,
    F: Fn(u64, u64) -> u64,
>(
    utxos: CoinTable,
    pending: HashSet<u32>,
    amount: u64,
    explicit: u64,
    relay_floor: u64,
    max_inputs: usize,
    select: S,
    required: F,
    selection: spec_fn(u64, u64) -> Option<Selection>,
    fee_for: spec_fn(u64, u64) -> u64,
    result: Result<WalletSendPlan, PaymentError>,
)
    requires
        amount > 0,
        call_ensures(
            plan_send::<S, F>,
            (&utxos, &pending, amount, Some(explicit), relay_floor, max_inputs, select, required),
            result,
        ),
        forall|amount: u64, fee: u64, picked: Option<Selection>|
            #[trigger] call_ensures(select, (amount, fee), picked) ==> picked == selection(amount, fee),
        forall|inputs: u64, outputs: u64, fee: u64|
            #[trigger] call_ensures(required, (inputs, outputs), fee) ==> fee == fee_for(inputs, outputs),
    ensures
        ({
            let picked = selection(amount, explicit);
            match result {
                Ok(plan) => picked is Some && picked->0.input_count <= max_inputs && plans(
                    plan,
                    amount,
                    explicit,
                    picked->0,
                ) && exists|least: u64|
                    #[trigger] is_least_fee(least, relay_floor, fee_for, picked->0) && explicit >= least,
                Err(PaymentError::InsufficientFunds { need, have }) => picked is None && is_held(
                    need,
                    amount + explicit,
                ) && is_held(have, value_of(unspent(utxos@, pending@))),
                Err(PaymentError::InputLimit { max }) => picked is Some && picked->0.input_count > max_inputs && max
                    == max_inputs,
                Err(PaymentError::FeeBelowMinimum { got, need }) => picked is Some && picked->0.input_count
                    <= max_inputs && got == explicit && is_least_fee(need, relay_floor, fee_for, picked->0) && got
                    < need,
                Err(_) => false,
            }
        }),
{
    lemma_spendable_is_unspent(utxos@, pending@);
    lemma_worth_is_value(unspent(utxos@, pending@));
    assert(quotes(select, required, selection, fee_for));
    if selection(amount, explicit) is Some {
        let picked = selection(amount, explicit)->0;
        let least = crate::submit::least_fee(relay_floor, fee_for, picked);
        assert(is_least_fee(least, relay_floor, fee_for, picked));
    }
}

/// An automatic fee starts at the relay floor. Each round the fee of the
/// selection becomes the next fee, until a fee is the one that its own selection
/// costs: that fee is planned. `fees` are the fees up to some round.
pub proof fn lemma_an_automatic_fee_settles<S: Fn(u64, u64) -> Option<Selection>, F: Fn(u64, u64) -> u64>(
    utxos: CoinTable,
    pending: HashSet<u32>,
    amount: u64,
    relay_floor: u64,
    max_inputs: usize,
    select: S,
    required: F,
    selection: spec_fn(u64, u64) -> Option<Selection>,
    fee_for: spec_fn(u64, u64) -> u64,
    result: Result<WalletSendPlan, PaymentError>,
    fees: Seq<u64>,
)
    requires
        amount > 0,
        call_ensures(
            plan_send::<S, F>,
            (&utxos, &pending, amount, None::<u64>, relay_floor, max_inputs, select, required),
            result,
        ),
        forall|amount: u64, fee: u64, picked: Option<Selection>|
            #[trigger] call_ensures(select, (amount, fee), picked) ==> picked == selection(amount, fee),
        forall|inputs: u64, outputs: u64, fee: u64|
            #[trigger] call_ensures(required, (inputs, outputs), fee) ==> fee == fee_for(inputs, outputs),
        0 < fees.len() <= 16,
        fees[0] == relay_floor,
        forall|i: int|
            0 <= i < fees.len() - 1 ==> {
                &&& selection(amount, #[trigger] fees[i]) is Some
                &&& selection(amount, fees[i])->0.input_count <= max_inputs
                &&& is_least_fee(fees[i + 1], relay_floor, fee_for, selection(amount, fees[i])->0)
                &&& fees[i + 1] != fees[i]
            },
    ensures
        ({
            let fee = fees.last();
            let picked = selection(amount, fee);
            &&& picked is None ==> match result {
                Err(PaymentError::InsufficientFunds { need, have }) => is_held(need, amount + fee) && is_held(
                    have,
                    value_of(unspent(utxos@, pending@)),
                ),
                _ => false,
            }
            &&& picked is Some && picked->0.input_count > max_inputs ==> result == Err::<
                WalletSendPlan,
                PaymentError,
            >(PaymentError::InputLimit { max: max_inputs })
            &&& picked is Some && picked->0.input_count <= max_inputs && is_least_fee(
                fee,
                relay_floor,
                fee_for,
                picked->0,
            ) ==> result is Ok && plans(result->Ok_0, amount, fee, picked->0)
            &&& picked is Some && picked->0.input_count <= max_inputs && !is_least_fee(
                fee,
                relay_floor,
                fee_for,
                picked->0,
            ) && fees.len() == 16 ==> result == Err::<WalletSendPlan, PaymentError>(PaymentError::NotConverged)
        }),
{
    lemma_spendable_is_unspent(utxos@, pending@);
    lemma_worth_is_value(unspent(utxos@, pending@));
    assert(quotes(select, required, selection, fee_for));
    let spendable = crate::submit::spendable_balance(utxos@, pending@);
    lemma_rounds(amount, relay_floor, max_inputs, spendable, selection, fee_for, fees, fees.len() - 1);
    reveal_with_fuel(planned, 3);
}

proof fn lemma_rounds(
    amount: u64,
    relay_floor: u64,
    max_inputs: usize,
    spendable: u64,
    selection: spec_fn(u64, u64) -> Option<Selection>,
    fee_for: spec_fn(u64, u64) -> u64,
    fees: Seq<u64>,
    n: int,
)
    requires
        0 <= n < fees.len() <= 16,
        forall|i: int|
            0 <= i < fees.len() - 1 ==> {
                &&& selection(amount, #[trigger] fees[i]) is Some
                &&& selection(amount, fees[i])->0.input_count <= max_inputs
                &&& is_least_fee(fees[i + 1], relay_floor, fee_for, selection(amount, fees[i])->0)
                &&& fees[i + 1] != fees[i]
            },
    ensures
        planned(amount, None, relay_floor, max_inputs, spendable, selection, fee_for, fees[0], 16)
            == planned(
            amount,
            None,
            relay_floor,
            max_inputs,
            spendable,
            selection,
            fee_for,
            fees[n],
            (16 - n) as nat,
        ),
    decreases n,
{
    if n > 0 {
        lemma_rounds(amount, relay_floor, max_inputs, spendable, selection, fee_for, fees, n - 1);
        assert(selection(amount, fees[n - 1]) is Some);
        let picked = selection(amount, fees[n - 1])->0;
        assert(crate::submit::least_fee(relay_floor, fee_for, picked) == fees[n - 1 + 1]);
    }
}

/// A fee of zero asks for the automatic fee, any other is explicit.
pub proof fn lemma_only_zero_asks_for_the_automatic_fee(fee_micronoid: u64, fee: Option<u64>)
    requires
        call_ensures(explicit_fee, (fee_micronoid,), fee),
    ensures
        fee is None <==> fee_micronoid == 0,
        fee is Some ==> fee->0 == fee_micronoid,
{
}

/// Slots are reserved only where no pending payment holds any of them, and only
/// together with a record of the payment; otherwise everything stays as it was.
pub proof fn lemma_a_reservation_is_exclusive<F: FnOnce(Digest, u64, Digest) -> Result<(), String>>(
    pending: &mut PendingSlots,
    txid: Digest,
    input_slots: Vec<u32>,
    output_slots: Vec<u32>,
    amount: u64,
    peer_address: Digest,
    record: F,
    result: Result<PendingAdmissionGuard, ReserveError>,
)
    requires
        call_ensures(
            PendingAdmissionGuard::reserve::<F>,
            (pending, txid, input_slots, output_slots, amount, peer_address, record),
            result,
        ),
    ensures
        match result {
            Ok(guard) => {
                &&& call_ensures(record, (txid, amount, peer_address), Ok(()))
                &&& guard.txid == txid
                &&& guard.input_slots == input_slots
                &&& guard.output_slots == output_slots
                &&& guard.armed
                &&& forall|i: int|
                    0 <= i < input_slots@.len() ==> !old(pending).inputs@.contains(#[trigger] input_slots@[i])
                &&& forall|i: int|
                    0 <= i < output_slots@.len() ==> !old(pending).outputs@.contains(#[trigger] output_slots@[i])
                &&& forall|slot: u32|
                    #[trigger] final(pending).inputs@.contains(slot) <==> old(pending).inputs@.contains(slot)
                        || input_slots@.contains(slot)
                &&& forall|slot: u32|
                    #[trigger] final(pending).outputs@.contains(slot) <==> old(pending).outputs@.contains(slot)
                        || output_slots@.contains(slot)
            },
            Err(error) => {
                &&& final(pending).inputs@ == old(pending).inputs@
                &&& final(pending).outputs@ == old(pending).outputs@
                &&& match error {
                    ReserveError::InputReserved => exists|i: int|
                        0 <= i < input_slots@.len() && old(pending).inputs@.contains(#[trigger] input_slots@[i]),
                    ReserveError::OutputReserved => exists|i: int|
                        0 <= i < output_slots@.len() && old(pending).outputs@.contains(#[trigger] output_slots@[i]),
                    ReserveError::Record(reason) => call_ensures(
                        record,
                        (txid, amount, peer_address),
                        Err(reason),
                    ),
                    ReserveError::WalletMissing => false,
                }
            },
        },
{
    if !overlaps(old(pending).inputs@, input_slots@) && !overlaps(old(pending).outputs@, output_slots@) {
        let recorded = choose|recorded: Result<(), String>|
            {
                &&& #[trigger] call_ensures(record, (txid, amount, peer_address), recorded)
                &&& match recorded {
                    Ok(_) => {
                        &&& result == Ok::<PendingAdmissionGuard, ReserveError>(
                            PendingAdmissionGuard { txid, input_slots, output_slots, armed: true },
                        )
                        &&& final(pending).inputs@ == old(pending).inputs@.union(input_slots@.to_set())
                        &&& final(pending).outputs@ == old(pending).outputs@.union(output_slots@.to_set())
                    },
                    Err(error) => final(pending).inputs@ == old(pending).inputs@ && final(pending).outputs@ == old(
                        pending,
                    ).outputs@ && result == Err::<PendingAdmissionGuard, ReserveError>(ReserveError::Record(error)),
                }
            };
        if recorded is Ok {
            assert(recorded->Ok_0 == ());
        }
    }
}

/// What is given back of a reservation: all of its slots and no others, unless
/// it was committed. A commit changes nothing else.
pub proof fn lemma_an_uncommitted_reservation_is_given_back(
    guard: PendingAdmissionGuard,
    pending: &mut PendingSlots,
    rolled_back: bool,
    committed: &mut PendingAdmissionGuard,
)
    requires
        call_ensures(PendingAdmissionGuard::release, (&guard, pending), rolled_back),
        call_ensures(PendingAdmissionGuard::commit, (committed,), ()),
    ensures
        rolled_back <==> guard.armed,
        guard.armed ==> forall|slot: u32|
            #[trigger] final(pending).inputs@.contains(slot) <==> old(pending).inputs@.contains(slot)
                && !guard.input_slots@.contains(slot),
        guard.armed ==> forall|slot: u32|
            #[trigger] final(pending).outputs@.contains(slot) <==> old(pending).outputs@.contains(slot)
                && !guard.output_slots@.contains(slot),
        !guard.armed ==> *final(pending) == *old(pending),
        !final(committed).armed,
        final(committed).txid == old(committed).txid,
        final(committed).input_slots == old(committed).input_slots,
        final(committed).output_slots == old(committed).output_slots,
{
}

/// Reserving and giving back ends where it began.
pub proof fn lemma_giving_back_undoes_a_reservation<F: FnOnce(Digest, u64, Digest) -> Result<(), String>>(
    pending: &mut PendingSlots,
    txid: Digest,
    input_slots: Vec<u32>,
    output_slots: Vec<u32>,
    amount: u64,
    peer_address: Digest,
    record: F,
    guard: PendingAdmissionGuard,
    later: &mut PendingSlots,
    rolled_back: bool,
)
    requires
        call_ensures(
            PendingAdmissionGuard::reserve::<F>,
            (pending, txid, input_slots, output_slots, amount, peer_address, record),
            Ok::<PendingAdmissionGuard, ReserveError>(guard),
        ),
        *final(pending) == *old(later),
        call_ensures(PendingAdmissionGuard::release, (&guard, later), rolled_back),
    ensures
        rolled_back,
        final(later).inputs@ == old(pending).inputs@,
        final(later).outputs@ == old(pending).outputs@,
{
    lemma_a_reservation_is_exclusive(
        pending,
        txid,
        input_slots,
        output_slots,
        amount,
        peer_address,
        record,
        Ok(guard),
    );
    assert forall|slot: u32| final(later).inputs@.contains(slot) <==> old(pending).inputs@.contains(slot) by {
        if input_slots@.contains(slot) {
            let i = choose|i: int| 0 <= i < input_slots@.len() && input_slots@[i] == slot;
            assert(!old(pending).inputs@.contains(input_slots@[i]));
        }
    }
    assert forall|slot: u32| final(later).outputs@.contains(slot) <==> old(pending).outputs@.contains(slot) by {
        if output_slots@.contains(slot) {
            let i = choose|i: int| 0 <= i < output_slots@.len() && output_slots@[i] == slot;
            assert(!old(pending).outputs@.contains(output_slots@[i]));
        }
    }
    assert(final(later).inputs@ =~= old(pending).inputs@);
    assert(final(later).outputs@ =~= old(pending).outputs@);
}

/// Filled output slots are not pending any more, and no input slot is touched.
pub proof fn lemma_filled_outputs_are_released(pending: &mut PendingSlots, slots: Vec<u32>)
    requires
        call_ensures(PendingSlots::release_outputs, (pending, &slots), ()),
    ensures
        final(pending).inputs == old(pending).inputs,
        forall|slot: u32|
            #[trigger] final(pending).outputs@.contains(slot) <==> old(pending).outputs@.contains(slot)
                && !slots@.contains(slot),
{
}

/// A payment is anchored to the canonical block at the anchor height of the
/// block after the tip. That the block is missing, or cannot be read, is said.
pub proof fn lemma_a_payment_is_anchored_for_the_next_block<H: FnOnce(u64) -> u64, F: FnOnce(u64) -> AnchorLookup>(
    tip_height: u64,
    anchor_height: H,
    lookup: F,
    height_of: spec_fn(u64) -> u64,
    block_at: spec_fn(u64) -> AnchorLookup,
    result: Result<Digest, AnchorError>,
)
    requires
        call_ensures(next_user_epoch_anchor::<H, F>, (tip_height, anchor_height, lookup), result),
        forall|height: u64, out: u64| #[trigger] call_ensures(anchor_height, (height,), out) ==> out == height_of(height),
        forall|height: u64, out: AnchorLookup| #[trigger] call_ensures(lookup, (height,), out) ==> out == block_at(height),
    ensures
        tip_height == u64::MAX ==> result == Err::<Digest, AnchorError>(AnchorError::HeightOverflow),
        tip_height < u64::MAX ==> match block_at(height_of((tip_height + 1) as u64)) {
            AnchorLookup::Found(hash) => result == Ok::<Digest, AnchorError>(hash),
            AnchorLookup::Missing => result == Err::<Digest, AnchorError>(AnchorError::Missing),
            AnchorLookup::Failed(error) => result == Err::<Digest, AnchorError>(AnchorError::Load(error)),
        },
{
}

/// A payment is built from what was ordered: amount, fee, anchor, hints and
/// size of the slot space go to the selection, address, amount and fee to the
/// prover. It spends the slots of the coins that were selected, each in its place.
pub proof fn lemma_a_payment_is_built_as_ordered<
    D,
    E: FnOnce(u64, u64, Digest, Vec<u32>, u32) -> Result<BuildData<D>, String>,
    P: FnOnce(Digest, u64, u64, BuildData<D>) -> Result<Vec<u8>, String>,
>(
    order: PaymentOrder,
    extract: E,
    prove: P,
    data: BuildData<D>,
    bytes: Vec<u8>,
    result: Result<(Vec<u8>, Vec<u32>), String>,
)
    requires
        call_ensures(build_send::<D, E, P>, (order, extract, prove), result),
        forall|out: Result<BuildData<D>, String>|
            #[trigger] call_ensures(
                extract,
                (
                    order.amount_micronoid,
                    order.fee_micronoid,
                    order.epoch_anchor,
                    order.slot_hints,
                    order.log_slots,
                ),
                out,
            ) ==> out == Ok::<BuildData<D>, String>(data),
        forall|out: Result<Vec<u8>, String>|
            #[trigger] call_ensures(
                prove,
                (order.to_address, order.amount_micronoid, order.fee_micronoid, data),
                out,
            ) ==> out == Ok::<Vec<u8>, String>(bytes),
    ensures
        match result {
            Ok((intent, input_slots)) => {
                &&& intent == bytes
                &&& input_slots@.len() == data.selected@.len()
                &&& forall|i: int|
                    0 <= i < input_slots@.len() ==> #[trigger] input_slots@[i] == data.selected@[i].slot_index
            },
            Err(_) => false,
        },
{
}

/// A payment that could not be selected or proved fails with that reason.
pub proof fn lemma_a_payment_that_is_not_built_says_why<
    D,
    E: FnOnce(u64, u64, Digest, Vec<u32>, u32) -> Result<BuildData<D>, String>,
    P: FnOnce(Digest, u64, u64, BuildData<D>) -> Result<Vec<u8>, String>,
>(
    order: PaymentOrder,
    extract: E,
    prove: P,
    extracted: Result<BuildData<D>, String>,
    error: String,
    result: Result<(Vec<u8>, Vec<u32>), String>,
)
    requires
        call_ensures(build_send::<D, E, P>, (order, extract, prove), result),
        forall|out: Result<BuildData<D>, String>|
            #[trigger] call_ensures(
                extract,
                (
                    order.amount_micronoid,
                    order.fee_micronoid,
                    order.epoch_anchor,
                    order.slot_hints,
                    order.log_slots,
                ),
                out,
            ) ==> out == extracted,
        match extracted {
            Err(reason) => reason == error,
            Ok(data) => forall|out: Result<Vec<u8>, String>|
                #[trigger] call_ensures(
                    prove,
                    (order.to_address, order.amount_micronoid, order.fee_micronoid, data),
                    out,
                ) ==> out == Err::<Vec<u8>, String>(error),
        },
    ensures
        result == Err::<(Vec<u8>, Vec<u32>), String>(error),
{
}

/// A payment is what was planned if its fee and both counts are.
pub proof fn lemma_a_built_payment_is_held_to_its_plan(plan: WalletSendPlan, built: BuiltPayment, same: bool, found: usize, enough: bool)
    requires
        call_ensures(built_as_planned, (&plan, &built), same),
        call_ensures(enough_slots, (&plan, found), enough),
    ensures
        same <==> built.fee == plan.fee_micronoid && built.input_count == plan.input_count && built.output_count
            == plan.output_count,
        enough <==> found >= plan.output_count,
{
}

/// An admitted payment is done, and reported with the mempool's id, the amount
/// that was asked for and the planned fee and counts.
pub proof fn lemma_an_admitted_payment_is_done(
    plan: WalletSendPlan,
    amount: u64,
    attempt: u32,
    txid: Digest,
    built: BuiltPayment,
    step: SendStep,
)
    requires
        attempt < 3,
        built.fee == plan.fee_micronoid && built.input_count == plan.input_count && built.output_count
            == plan.output_count,
        call_ensures(after_attempt, (&plan, amount, attempt, AttemptOutcome::Admitted { txid, built }), step),
    ensures
        match step {
            SendStep::Done(result) => {
                &&& result.txid == txid
                &&& result.amount_micronoid == amount
                &&& result.fee_micronoid == plan.fee_micronoid
                &&& result.input_count == plan.input_count
                &&& result.output_count == plan.output_count
            },
            _ => false,
        },
{
}

/// A refused payment is tried three times in all, and then given up with the
/// mempool's last words. Every other failure gives it up at once.
pub proof fn lemma_a_payment_is_tried_three_times(
    plan: WalletSendPlan,
    amount: u64,
    attempt: u32,
    outcome: AttemptOutcome,
    step: SendStep,
)
    requires
        attempt < 3,
        !(outcome is Admitted),
        call_ensures(after_attempt, (&plan, amount, attempt, outcome), step),
    ensures
        step is Retry <==> outcome is Refused && attempt < 2,
        !(step is Retry) ==> step is Failed,
        outcome is Refused && attempt == 2 ==> step->Failed_0@ == "wallet send failed after 3 attempts: "@
            + outcome->Refused_0@,
        outcome is BuildFailed ==> step->Failed_0@ == "wallet send failed after 3 attempts: "@
            + outcome->BuildFailed_0@,
        outcome is ProofTaskFailed ==> step->Failed_0@ == "wallet send failed after 3 attempts: "@ + (
        "wallet proof task: "@ + outcome->ProofTaskFailed_0@),
        outcome is DecodeFailed ==> step->Failed_0@ == "wallet send failed after 3 attempts: "@ + ("intent decode: "@
            + outcome->DecodeFailed_0@),
        outcome is NotEnoughSlots ==> step->Failed_0@ == "wallet send failed after 3 attempts: "@
            + "not enough empty output slots available"@,
        outcome is Invalid ==> step->Failed_0@ == "wallet PagedSpend: "@ + outcome->Invalid_0@,
        outcome is ReserveFailed ==> step->Failed_0@ == outcome->ReserveFailed_0@,
{
}

/// The seed of an attempt is the first eight bytes of the state root as a
/// number, the least significant first, moved on by the same odd step for every
/// call and every attempt.
pub proof fn lemma_the_seed_of_an_attempt(state_root: Digest, call_nonce: u64, attempt: u32, seed: u64)
    requires
        call_ensures(attempt_seed, (&state_root, call_nonce, attempt), seed),
    ensures
        ({
            let turn = 0x1_0000_0000_0000_0000int;
            let b = state_root@;
            let root = b[0] + 256 * (b[1] + 256 * (b[2] + 256 * (b[3] + 256 * (b[4] + 256 * (b[5] + 256 * (b[6] + 256
                * b[7]))))));
            let moved = (((call_nonce + attempt) % turn) * 0x9e37_79b9_7f4a_7c15) % turn;
            seed == (root + moved) % turn
        }),
{
    let bytes = state_root@.take(8);
    assert forall|i: int| 0 <= i < 8 implies bytes[i] == #[trigger] state_root@[i] by {}
    reveal_with_fuel(little_endian, 9);
    assert(bytes.skip(1).skip(1) =~= bytes.skip(2));
    assert(bytes.skip(2).skip(1) =~= bytes.skip(3));
    assert(bytes.skip(3).skip(1) =~= bytes.skip(4));
    assert(bytes.skip(4).skip(1) =~= bytes.skip(5));
    assert(bytes.skip(5).skip(1) =~= bytes.skip(6));
    assert(bytes.skip(6).skip(1) =~= bytes.skip(7));
    assert(bytes.skip(7).skip(1) =~= bytes.skip(8));
}

} // verus!
