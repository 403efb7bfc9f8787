//! Planning, building and reserving payments.
//!
//! A payment spends the active address alone. Its fee is found by iteration,
//! because the fee depends on how many coins are selected and that on the fee.
//! Before it is handed to the mempool its slots are reserved; a payment that is
//! not admitted gives them back.

use vstd::prelude::*;
use std::collections::HashSet;
use crate::arith::{larger, max_u64, sat_add};
use crate::bytes::Digest;
use crate::text::{decimal, decimal_text};
use crate::wallet_tables::{CoinTable, WalletUtxo};

verus! {

broadcast use vstd::std_specs::hash::group_hash_axioms;

/// Rounds in which the automatic fee must settle.
pub const FEE_ROUNDS: u32 = 16;

/// What coin selection came to.
#[derive(Clone, Copy, Debug, PartialEq, Eq, Structural)]
pub struct Selection {
    pub input_count: usize,
    pub change: u64,
}

/// A payment before it is built.
#[derive(Clone, Copy, Debug, PartialEq, Eq, Structural)]
pub struct WalletSendPlan {
    pub amount_micronoid: u64,
    pub fee_micronoid: u64,
    pub total_spend_micronoid: u64,
    pub input_count: usize,
    pub output_count: usize,
    pub change_micronoid: u64,
}

/// Why a payment cannot be planned.
#[derive(Clone, Copy, Debug, PartialEq, Eq, Structural)]
pub enum PaymentError {
    ZeroAmount,
    InsufficientFunds { need: u64, have: u64 },
    InputLimit { max: usize },
    FeeBelowMinimum { got: u64, need: u64 },
    NotConverged,
    NothingSpendable,
    TooManyInputs { needed: usize, max: usize },
    BalanceOverflow,
    FeeNotCovered { spendable: u64, fee: u64 },
    OnlyFeeCovered { fee: u64 },
}

impl PaymentError {
    /// The words in which the error is reported.
    pub open spec fn words(self) -> Seq<char> {
        match self {
            PaymentError::ZeroAmount => "payment amount must be greater than zero"@,
            PaymentError::InsufficientFunds { need, have } => "InsufficientFunds: need "@ + decimal(need as nat)
                + " μNOID, have "@ + decimal(have as nat) + " μNOID spendable"@,
            PaymentError::InputLimit { max } => "InputLimitExceeded: canonical payments support at most "@ + decimal(
                max as nat,
            ) + " inputs"@,
            PaymentError::FeeBelowMinimum { got, need } => "fee below required minimum: got "@ + decimal(got as nat)
                + ", need "@ + decimal(need as nat),
            PaymentError::NotConverged => "wallet fee planning did not converge"@,
            PaymentError::NothingSpendable => "InsufficientFunds: active address has no spendable UTXOs"@,
            PaymentError::TooManyInputs { needed, max } => "InputLimitExceeded: SEND ALL needs "@ + decimal(
                needed as nat,
            ) + " inputs but one canonical payment supports at most "@ + decimal(max as nat)
                + "; consolidate first"@,
            PaymentError::BalanceOverflow => "wallet balance arithmetic overflow"@,
            PaymentError::FeeNotCovered { spendable, fee } => "InsufficientFunds: active balance "@ + decimal(
                spendable as nat,
            ) + " μNOID does not cover SEND ALL fee "@ + decimal(fee as nat) + " μNOID"@,
            PaymentError::OnlyFeeCovered { fee } => "InsufficientFunds: active balance equals SEND ALL fee "@ + decimal(
                fee as nat,
            ) + " μNOID"@,
        }
    }

    /// The words in which the error is reported.
    pub fn message(&self) -> (text: String)
        ensures
            text@ == self.words(),
    {
        match self {
            PaymentError::ZeroAmount => String::from_str("payment amount must be greater than zero"),
            PaymentError::InsufficientFunds { need, have } => {
                let mut text = String::from_str("InsufficientFunds: need ");
                text.append(decimal_text(*need).as_str());
                text.append(" μNOID, have ");
                text.append(decimal_text(*have).as_str());
                text.append(" μNOID spendable");
                text
            },
            PaymentError::InputLimit { max } => {
                let mut text = String::from_str("InputLimitExceeded: canonical payments support at most ");
                text.append(decimal_text(*max as u64).as_str());
                text.append(" inputs");
                text
            },
            PaymentError::FeeBelowMinimum { got, need } => {
                let mut text = String::from_str("fee below required minimum: got ");
                text.append(decimal_text(*got).as_str());
                text.append(", need ");
                text.append(decimal_text(*need).as_str());
                text
            },
            PaymentError::NotConverged => String::from_str("wallet fee planning did not converge"),
            PaymentError::NothingSpendable => String::from_str(
                "InsufficientFunds: active address has no spendable UTXOs",
            ),
            PaymentError::TooManyInputs { needed, max } => {
                let mut text = String::from_str("InputLimitExceeded: SEND ALL needs ");
                text.append(decimal_text(*needed as u64).as_str());
                text.append(" inputs but one canonical payment supports at most ");
                text.append(decimal_text(*max as u64).as_str());
                text.append("; consolidate first");
                text
            },
            PaymentError::BalanceOverflow => String::from_str("wallet balance arithmetic overflow"),
            PaymentError::FeeNotCovered { spendable, fee } => {
                let mut text = String::from_str("InsufficientFunds: active balance ");
                text.append(decimal_text(*spendable).as_str());
                text.append(" μNOID does not cover SEND ALL fee ");
                text.append(decimal_text(*fee).as_str());
                text.append(" μNOID");
                text
            },
            PaymentError::OnlyFeeCovered { fee } => {
                let mut text = String::from_str("InsufficientFunds: active balance equals SEND ALL fee ");
                text.append(decimal_text(*fee).as_str());
                text.append(" μNOID");
                text
            },
        }
    }
}

/// The coins that no pending payment spends, in their order.
pub open spec fn spendable_coins(utxos: Seq<WalletUtxo>, pending: Set<u32>) -> Seq<WalletUtxo>
    decreases utxos.len(),
{
    if utxos.len() == 0 {
        Seq::empty()
    } else {
        let rest = spendable_coins(utxos.drop_last(), pending);
        if pending.contains(utxos.last().slot_index) {
            rest
        } else {
            rest.push(utxos.last())
        }
    }
}

/// What some coins are worth together.
pub open spec fn worth(utxos: Seq<WalletUtxo>) -> nat
    decreases utxos.len(),
{
    if utxos.len() == 0 {
        0
    } else {
        worth(utxos.drop_last()) + utxos.last().value as nat
    }
}

/// What can be spent, at most the largest `u64`.
pub open spec fn spendable_balance(utxos: Seq<WalletUtxo>, pending: Set<u32>) -> u64 {
    let total = worth(spendable_coins(utxos, pending));
    if total > u64::MAX {
        u64::MAX
    } else {
        total as u64
    }
}

fn available_coins(utxos: &Vec<WalletUtxo>, pending: &HashSet<u32>) -> (coins: Vec<WalletUtxo>)
    ensures
        coins@ == spendable_coins(utxos@, pending@),
{
    let mut coins: Vec<WalletUtxo> = Vec::new();
    let mut i: usize = 0;
    while i < utxos.len()
        invariant
            i <= utxos@.len(),
            coins@ == spendable_coins(utxos@.take(i as int), pending@),
        decreases utxos@.len() - i,
    {
        assert(utxos@.take(i + 1).drop_last() =~= utxos@.take(i as int));
        if !pending.contains(&utxos[i].slot_index) {
            coins.push(utxos[i]);
        }
        i = i + 1;
    }
    assert(utxos@.take(i as int) =~= utxos@);
    coins
}

/// The first coins are never worth more than all of them.
proof fn lemma_worth_grows(coins: Seq<WalletUtxo>, n: int)
    requires
        0 <= n <= coins.len(),
    ensures
        worth(coins.take(n)) <= worth(coins),
    decreases coins.len(),
{
    if n == coins.len() {
        assert(coins.take(n) =~= coins);
    } else {
        assert(coins.take(n) =~= coins.drop_last().take(n));
        lemma_worth_grows(coins.drop_last(), n);
    }
}

/// What some coins are worth together, where that fits.
fn total_worth(coins: &Vec<WalletUtxo>) -> (total: Option<u64>)
    ensures
        total == (if worth(coins@) > u64::MAX {
            None
        } else {
            Some(worth(coins@) as u64)
        }),
{
    let mut total: u64 = 0;
    let mut i: usize = 0;
    while i < coins.len()
        invariant
            i <= coins@.len(),
            total == worth(coins@.take(i as int)),
        decreases coins@.len() - i,
    {
        assert(coins@.take(i + 1).drop_last() =~= coins@.take(i as int));
        proof {
            lemma_worth_grows(coins@, i + 1);
        }
        match total.checked_add(coins[i].value) {
            Some(sum) => {
                total = sum;
            },
            None => {
                return None;
            },
        }
        i = i + 1;
    }
    assert(coins@.take(i as int) =~= coins@);
    Some(total)
}

fn balance_of(utxos: &Vec<WalletUtxo>, pending: &HashSet<u32>) -> (balance: u64)
    ensures
        balance == spendable_balance(utxos@, pending@),
{
    let coins = available_coins(utxos, pending);
    match total_worth(&coins) {
        Some(total) => total,
        None => u64::MAX,
    }
}

/// `select` and `required` answer as `selection` and `fee_for` do.
///
/// `selection` picks coins for an amount and a fee, `fee_for` is the least fee
/// for a number of inputs and outputs.
pub open spec fn quotes<S: Fn(u64, u64) -> Option<Selection>, F: Fn(u64, u64) -> u64>(
    select: S,
    required: F,
    selection: spec_fn(u64, u64) -> Option<Selection>,
    fee_for: spec_fn(u64, u64) -> u64,
) -> bool {
    &&& forall|amount: u64, fee: u64, picked: Option<Selection>|
        #![trigger call_ensures(select, (amount, fee), picked)]
        call_ensures(select, (amount, fee), picked) ==> picked == selection(amount, fee)
    &&& forall|inputs: u64, outputs: u64, fee: u64|
        #![trigger call_ensures(required, (inputs, outputs), fee)]
        call_ensures(required, (inputs, outputs), fee) ==> fee == fee_for(inputs, outputs)
}

/// A payment with change has two outputs.
pub open spec fn outputs_of(picked: Selection) -> usize {
    if picked.change > 0 {
        2
    } else {
        1
    }
}

/// The least fee that is accepted for a selection.
pub open spec fn least_fee(relay_floor: u64, fee_for: spec_fn(u64, u64) -> u64, picked: Selection) -> u64 {
    larger(relay_floor, fee_for(picked.input_count as u64, outputs_of(picked) as u64))
}

/// The plan for a selection.
pub open spec fn plan_of(amount: u64, fee: u64, picked: Selection) -> WalletSendPlan {
    WalletSendPlan {
        amount_micronoid: amount,
        fee_micronoid: fee,
        total_spend_micronoid: sat_add(amount, fee),
        input_count: picked.input_count,
        output_count: outputs_of(picked),
        change_micronoid: picked.change,
    }
}

/// Planning from a fee on, with a number of rounds left.
///
/// An explicit fee is taken or refused in the first round. An automatic fee is
/// raised or lowered to what the selection costs until it fits.
pub open spec fn planned(
    amount: u64,
    explicit: Option<u64>,
    relay_floor: u64,
    max_inputs: usize,
    spendable: u64,
    selection: spec_fn(u64, u64) -> Option<Selection>,
    fee_for: spec_fn(u64, u64) -> u64,
    fee: u64,
    rounds: nat,
) -> Result<WalletSendPlan, PaymentError>
    decreases rounds,
{
    if rounds == 0 {
        Err(PaymentError::NotConverged)
    } else {
        match selection(amount, fee) {
            None => Err(PaymentError::InsufficientFunds { need: sat_add(amount, fee), have: spendable }),
            Some(picked) => {
                let minimum = least_fee(relay_floor, fee_for, picked);
                if picked.input_count > max_inputs {
                    Err(PaymentError::InputLimit { max: max_inputs })
                } else if explicit is Some {
                    if explicit->0 < minimum {
                        Err(PaymentError::FeeBelowMinimum { got: explicit->0, need: minimum })
                    } else {
                        Ok(plan_of(amount, explicit->0, picked))
                    }
                } else if fee == minimum {
                    Ok(plan_of(amount, fee, picked))
                } else {
                    planned(
                        amount,
                        explicit,
                        relay_floor,
                        max_inputs,
                        spendable,
                        selection,
                        fee_for,
                        minimum,
                        (rounds - 1) as nat,
                    )
                }
            },
        }
    }
}

/// The plan of a payment.
pub open spec fn send_plan(
    utxos: Seq<WalletUtxo>,
    pending: Set<u32>,
    amount: u64,
    explicit: Option<u64>,
    relay_floor: u64,
    max_inputs: usize,
    selection: spec_fn(u64, u64) -> Option<Selection>,
    fee_for: spec_fn(u64, u64) -> u64,
) -> Result<WalletSendPlan, PaymentError> {
    if amount == 0 {
        Err(PaymentError::ZeroAmount)
    } else {
        planned(
            amount,
            explicit,
            relay_floor,
            max_inputs,
            spendable_balance(utxos, pending),
            selection,
            fee_for,
            if explicit is Some {
                explicit->0
            } else {
                relay_floor
            },
            FEE_ROUNDS as nat,
        )
    }
}

/// Planning from a fee on comes to this result, with some answers of `select`
/// and `required` in each round.
pub open spec fn plan_follows<S: Fn(u64, u64) -> Option<Selection>, F: Fn(u64, u64) -> u64>(
    select: S,
    required: F,
    amount: u64,
    explicit: Option<u64>,
    relay_floor: u64,
    max_inputs: usize,
    spendable: u64,
    fee: u64,
    rounds: nat,
    result: Result<WalletSendPlan, PaymentError>,
) -> bool
    decreases rounds,
{
    if rounds == 0 {
        result == Err::<WalletSendPlan, PaymentError>(PaymentError::NotConverged)
    } else {
        exists|picked: Option<Selection>|
            {
                &&& #[trigger] call_ensures(select, (amount, fee), picked)
                &&& match picked {
                    None => result == Err::<WalletSendPlan, PaymentError>(
                        PaymentError::InsufficientFunds { need: sat_add(amount, fee), have: spendable },
                    ),
                    Some(coins) => if coins.input_count > max_inputs {
                        result == Err::<WalletSendPlan, PaymentError>(PaymentError::InputLimit { max: max_inputs })
                    } else {
                        exists|least: u64|
                            {
                                &&& #[trigger] call_ensures(
                                    required,
                                    (coins.input_count as u64, outputs_of(coins) as u64),
                                    least,
                                )
                                &&& fee_follows(
                                    amount,
                                    explicit,
                                    fee,
                                    larger(relay_floor, least),
                                    coins,
                                    result,
                                ) || (explicit is None && fee != larger(relay_floor, least) && plan_follows(
                                    select,
                                    required,
                                    amount,
                                    explicit,
                                    relay_floor,
                                    max_inputs,
                                    spendable,
                                    larger(relay_floor, least),
                                    (rounds - 1) as nat,
                                    result,
                                ))
                            }
                    },
                }
            }
    }
}

/// The fee settles in this round: an explicit fee is taken or refused, an
/// automatic one is taken if it is the least.
pub open spec fn fee_follows(
    amount: u64,
    explicit: Option<u64>,
    fee: u64,
    minimum: u64,
    picked: Selection,
    result: Result<WalletSendPlan, PaymentError>,
) -> bool {
    match explicit {
        Some(chosen) => if chosen < minimum {
            result == Err::<WalletSendPlan, PaymentError>(
                PaymentError::FeeBelowMinimum { got: chosen, need: minimum },
            )
        } else {
            result == Ok::<WalletSendPlan, PaymentError>(plan_of(amount, chosen, picked))
        },
        None => fee == minimum && result == Ok::<WalletSendPlan, PaymentError>(plan_of(amount, fee, picked)),
    }
}

/// Plan a payment from the active address.
///
/// Without an explicit fee the least fee is found. `select` picks coins for an
/// amount and a fee, `required` is the consensus fee for a number of inputs and
/// outputs.
pub fn plan_send<S: Fn(u64, u64) -> Option<Selection>, F: Fn(u64, u64) -> u64>(
    utxos: &CoinTable,
    pending: &HashSet<u32>,
    amount_micronoid: u64,
    explicit_fee_micronoid: Option<u64>,
    relay_floor: u64,
    max_inputs: usize,
    select: S,
    required: F,
) -> (result: Result<WalletSendPlan, PaymentError>)
    requires
        forall|amount: u64, fee: u64| call_requires(select, (amount, fee)),
        forall|inputs: u64, outputs: u64| call_requires(required, (inputs, outputs)),
    ensures
        amount_micronoid == 0 ==> result == Err::<WalletSendPlan, PaymentError>(PaymentError::ZeroAmount),
        amount_micronoid != 0 ==> plan_follows(
            select,
            required,
            amount_micronoid,
            explicit_fee_micronoid,
            relay_floor,
            max_inputs,
            spendable_balance(utxos@, pending@),
            if explicit_fee_micronoid is Some {
                explicit_fee_micronoid->0
            } else {
                relay_floor
            },
            FEE_ROUNDS as nat,
            result,
        ),
        forall|selection: spec_fn(u64, u64) -> Option<Selection>, fee_for: spec_fn(u64, u64) -> u64|
            #[trigger] quotes(select, required, selection, fee_for) ==> result == send_plan(
                utxos@,
                pending@,
                amount_micronoid,
                explicit_fee_micronoid,
                relay_floor,
                max_inputs,
                selection,
                fee_for,
            ),
{
    if amount_micronoid == 0 {
        return Err(PaymentError::ZeroAmount);
    }
    let spendable: u64 = balance_of(utxos.coins(), pending);
    let mut fee: u64 = match explicit_fee_micronoid {
        Some(explicit) => explicit,
        None => relay_floor,
    };
    let ghost first_fee = fee;
    let mut round: u32 = 0;
    while round < FEE_ROUNDS
        invariant
            round <= FEE_ROUNDS,
            amount_micronoid != 0,
            spendable == spendable_balance(utxos@, pending@),
            first_fee == (if explicit_fee_micronoid is Some {
                explicit_fee_micronoid->0
            } else {
                relay_floor
            }),
            forall|amount: u64, fee: u64| call_requires(select, (amount, fee)),
            forall|inputs: u64, outputs: u64| call_requires(required, (inputs, outputs)),
            forall|selection: spec_fn(u64, u64) -> Option<Selection>, fee_for: spec_fn(u64, u64) -> u64|
                #[trigger] quotes(select, required, selection, fee_for) ==> planned(
                    amount_micronoid,
                    explicit_fee_micronoid,
                    relay_floor,
                    max_inputs,
                    spendable,
                    selection,
                    fee_for,
                    first_fee,
                    FEE_ROUNDS as nat,
                ) == planned(
                    amount_micronoid,
                    explicit_fee_micronoid,
                    relay_floor,
                    max_inputs,
                    spendable,
                    selection,
                    fee_for,
                    fee,
                    (FEE_ROUNDS - round) as nat,
                ),
            forall|result: Result<WalletSendPlan, PaymentError>|
                #[trigger] plan_follows(
                    select,
                    required,
                    amount_micronoid,
                    explicit_fee_micronoid,
                    relay_floor,
                    max_inputs,
                    spendable,
                    fee,
                    (FEE_ROUNDS - round) as nat,
                    result,
                ) ==> plan_follows(
                    select,
                    required,
                    amount_micronoid,
                    explicit_fee_micronoid,
                    relay_floor,
                    max_inputs,
                    spendable,
                    first_fee,
                    FEE_ROUNDS as nat,
                    result,
                ),
        decreases FEE_ROUNDS - round,
    {
        let picked = match select(amount_micronoid, fee) {
            None => {
                assert(plan_follows(
                    select,
                    required,
                    amount_micronoid,
                    explicit_fee_micronoid,
                    relay_floor,
                    max_inputs,
                    spendable,
                    fee,
                    (FEE_ROUNDS - round) as nat,
                    Err(
                        PaymentError::InsufficientFunds { need: sat_add(amount_micronoid, fee), have: spendable },
                    ),
                ));
                return Err(
                    PaymentError::InsufficientFunds { need: amount_micronoid.saturating_add(fee), have: spendable },
                );
            },
            Some(picked) => picked,
        };
        let input_count: usize = picked.input_count;
        let output_count: usize = if picked.change > 0 {
            2
        } else {
            1
        };
        if input_count > max_inputs {
            assert(plan_follows(
                select,
                required,
                amount_micronoid,
                explicit_fee_micronoid,
                relay_floor,
                max_inputs,
                spendable,
                fee,
                (FEE_ROUNDS - round) as nat,
                Err(PaymentError::InputLimit { max: max_inputs }),
            ));
            return Err(PaymentError::InputLimit { max: max_inputs });
        }
        let least: u64 = required(input_count as u64, output_count as u64);
        let minimum: u64 = max_u64(relay_floor, least);
        if let Some(explicit) = explicit_fee_micronoid {
            if explicit < minimum {
                assert(plan_follows(
                    select,
                    required,
                    amount_micronoid,
                    explicit_fee_micronoid,
                    relay_floor,
                    max_inputs,
                    spendable,
                    fee,
                    (FEE_ROUNDS - round) as nat,
                    Err(PaymentError::FeeBelowMinimum { got: explicit, need: minimum }),
                ));
                return Err(PaymentError::FeeBelowMinimum { got: explicit, need: minimum });
            }
            assert(plan_follows(
                select,
                required,
                amount_micronoid,
                explicit_fee_micronoid,
                relay_floor,
                max_inputs,
                spendable,
                fee,
                (FEE_ROUNDS - round) as nat,
                Ok(plan_of(amount_micronoid, explicit, picked)),
            ));
            return Ok(
                WalletSendPlan {
                    amount_micronoid,
                    fee_micronoid: explicit,
                    total_spend_micronoid: amount_micronoid.saturating_add(explicit),
                    input_count,
                    output_count,
                    change_micronoid: picked.change,
                },
            );
        }
        if fee == minimum {
            assert(plan_follows(
                select,
                required,
                amount_micronoid,
                explicit_fee_micronoid,
                relay_floor,
                max_inputs,
                spendable,
                fee,
                (FEE_ROUNDS - round) as nat,
                Ok(plan_of(amount_micronoid, fee, picked)),
            ));
            return Ok(
                WalletSendPlan {
                    amount_micronoid,
                    fee_micronoid: fee,
                    total_spend_micronoid: amount_micronoid.saturating_add(fee),
                    input_count,
                    output_count,
                    change_micronoid: picked.change,
                },
            );
        }
        assert forall|result: Result<WalletSendPlan, PaymentError>|
            #[trigger] plan_follows(
                select,
                required,
                amount_micronoid,
                explicit_fee_micronoid,
                relay_floor,
                max_inputs,
                spendable,
                minimum,
                (FEE_ROUNDS - round - 1) as nat,
                result,
            ) implies plan_follows(
            select,
            required,
            amount_micronoid,
            explicit_fee_micronoid,
            relay_floor,
            max_inputs,
            spendable,
            fee,
            (FEE_ROUNDS - round) as nat,
            result,
        ) by {}
        fee = minimum;
        round = round + 1;
    }
    assert(plan_follows(
        select,
        required,
        amount_micronoid,
        explicit_fee_micronoid,
        relay_floor,
        max_inputs,
        spendable,
        fee,
        (FEE_ROUNDS - round) as nat,
        Err(PaymentError::NotConverged),
    ));
    Err(PaymentError::NotConverged)
}

/// A planned fee covers what the plan's own inputs and outputs cost, and an
/// explicit fee is never changed.
pub proof fn lemma_planned_fee_is_enough(
    utxos: Seq<WalletUtxo>,
    pending: Set<u32>,
    amount: u64,
    explicit: Option<u64>,
    relay_floor: u64,
    max_inputs: usize,
    selection: spec_fn(u64, u64) -> Option<Selection>,
    fee_for: spec_fn(u64, u64) -> u64,
)
    ensures
        match send_plan(utxos, pending, amount, explicit, relay_floor, max_inputs, selection, fee_for) {
            Ok(plan) => {
                &&& plan.amount_micronoid == amount
                &&& plan.total_spend_micronoid == sat_add(amount, plan.fee_micronoid)
                &&& plan.input_count <= max_inputs
                &&& plan.output_count == (if plan.change_micronoid > 0 {
                    2int
                } else {
                    1
                })
                &&& plan.fee_micronoid >= relay_floor
                &&& plan.fee_micronoid >= fee_for(plan.input_count as u64, plan.output_count as u64)
                &&& explicit is Some ==> plan.fee_micronoid == explicit->0
                &&& explicit is None ==> plan.fee_micronoid == larger(
                    relay_floor,
                    fee_for(plan.input_count as u64, plan.output_count as u64),
                )
            },
            Err(_) => true,
        },
{
    let first = if explicit is Some {
        explicit->0
    } else {
        relay_floor
    };
    lemma_planned(
        amount,
        explicit,
        relay_floor,
        max_inputs,
        spendable_balance(utxos, pending),
        selection,
        fee_for,
        first,
        FEE_ROUNDS as nat,
    );
}

proof fn lemma_planned(
    amount: u64,
    explicit: Option<u64>,
    relay_floor: u64,
    max_inputs: usize,
    spendable: u64,
    selection: spec_fn(u64, u64) -> Option<Selection>,
    fee_for: spec_fn(u64, u64) -> u64,
    fee: u64,
    rounds: nat,
)
    ensures
        match planned(amount, explicit, relay_floor, max_inputs, spendable, selection, fee_for, fee, rounds) {
            Ok(plan) => {
                &&& plan.amount_micronoid == amount
                &&& plan.total_spend_micronoid == sat_add(amount, plan.fee_micronoid)
                &&& plan.input_count <= max_inputs
                &&& plan.output_count == (if plan.change_micronoid > 0 {
                    2int
                } else {
                    1
                })
                &&& plan.fee_micronoid >= larger(
                    relay_floor,
                    fee_for(plan.input_count as u64, plan.output_count as u64),
                )
                &&& explicit is Some ==> plan.fee_micronoid == explicit->0
                &&& explicit is None ==> plan.fee_micronoid == larger(
                    relay_floor,
                    fee_for(plan.input_count as u64, plan.output_count as u64),
                )
            },
            Err(_) => true,
        },
    decreases rounds,
{
    if rounds > 0 && explicit is None {
        match selection(amount, fee) {
            Some(picked) => lemma_planned(
                amount,
                explicit,
                relay_floor,
                max_inputs,
                spendable,
                selection,
                fee_for,
                least_fee(relay_floor, fee_for, picked),
                (rounds - 1) as nat,
            ),
            None => {},
        }
    }
}

/// The plan that empties the active address.
pub open spec fn send_all_plan(
    utxos: Seq<WalletUtxo>,
    pending: Set<u32>,
    relay_floor: u64,
    max_inputs: usize,
    fee_for: spec_fn(u64, u64) -> u64,
) -> Result<WalletSendPlan, PaymentError> {
    let coins = spendable_coins(utxos, pending);
    let total = worth(coins);
    let fee = larger(relay_floor, fee_for(coins.len() as u64, 1));
    if coins.len() == 0 {
        Err(PaymentError::NothingSpendable)
    } else if coins.len() > max_inputs {
        Err(PaymentError::TooManyInputs { needed: coins.len() as usize, max: max_inputs })
    } else if total > u64::MAX {
        Err(PaymentError::BalanceOverflow)
    } else if total < fee {
        Err(PaymentError::FeeNotCovered { spendable: total as u64, fee })
    } else if total == fee {
        Err(PaymentError::OnlyFeeCovered { fee })
    } else {
        Ok(
            WalletSendPlan {
                amount_micronoid: (total - fee) as u64,
                fee_micronoid: fee,
                total_spend_micronoid: total as u64,
                input_count: coins.len() as usize,
                output_count: 1,
                change_micronoid: 0,
            },
        )
    }
}

/// `required` answers as `fee_for` does.
pub open spec fn quotes_fee<F: Fn(u64, u64) -> u64>(required: F, fee_for: spec_fn(u64, u64) -> u64) -> bool {
    forall|inputs: u64, outputs: u64, fee: u64|
        #![trigger call_ensures(required, (inputs, outputs), fee)]
        call_ensures(required, (inputs, outputs), fee) ==> fee == fee_for(inputs, outputs)
}

/// Plan one payment without change that spends every spendable coin of the active address.
///
/// It must fit into one payment: with more coins than that the caller has to
/// consolidate first, nothing is left behind in silence.
pub fn plan_send_all<F: Fn(u64, u64) -> u64>(
    utxos: &CoinTable,
    pending: &HashSet<u32>,
    relay_floor: u64,
    max_inputs: usize,
    required: F,
) -> (result: Result<WalletSendPlan, PaymentError>)
    requires
        forall|inputs: u64, outputs: u64| call_requires(required, (inputs, outputs)),
    ensures
        forall|fee_for: spec_fn(u64, u64) -> u64|
            #[trigger] quotes_fee(required, fee_for) ==> result == send_all_plan(
                utxos@,
                pending@,
                relay_floor,
                max_inputs,
                fee_for,
            ),
        ({
            let coins = spendable_coins(utxos@, pending@);
            if coins.len() == 0 || coins.len() > max_inputs || worth(coins) > u64::MAX {
                result == send_all_plan(utxos@, pending@, relay_floor, max_inputs, |inputs: u64, outputs: u64| 0)
            } else {
                exists|least: u64|
                    {
                        &&& #[trigger] call_ensures(required, (coins.len() as u64, 1u64), least)
                        &&& result == send_all_plan(
                            utxos@,
                            pending@,
                            relay_floor,
                            max_inputs,
                            |inputs: u64, outputs: u64| least,
                        )
                    }
            }
        }),
{
    let coins = available_coins(utxos.coins(), pending);
    if coins.len() == 0 {
        return Err(PaymentError::NothingSpendable);
    }
    if coins.len() > max_inputs {
        return Err(PaymentError::TooManyInputs { needed: coins.len(), max: max_inputs });
    }
    let spendable: u64 = match total_worth(&coins) {
        None => {
            return Err(PaymentError::BalanceOverflow);
        },
        Some(total) => total,
    };
    let fee_micronoid: u64 = max_u64(relay_floor, required(coins.len() as u64, 1));
    if spendable < fee_micronoid {
        return Err(PaymentError::FeeNotCovered { spendable, fee: fee_micronoid });
    }
    let amount_micronoid: u64 = spendable - fee_micronoid;
    if amount_micronoid == 0 {
        return Err(PaymentError::OnlyFeeCovered { fee: fee_micronoid });
    }
    Ok(
        WalletSendPlan {
            amount_micronoid,
            fee_micronoid,
            total_spend_micronoid: spendable,
            input_count: coins.len(),
            output_count: 1,
            change_micronoid: 0,
        },
    )
}

/// Sending all spends exactly what is spendable: amount and fee make up the
/// balance of the active address, every coin goes in and no change comes out.
pub proof fn lemma_send_all_empties_the_address(
    utxos: Seq<WalletUtxo>,
    pending: Set<u32>,
    relay_floor: u64,
    max_inputs: usize,
    fee_for: spec_fn(u64, u64) -> u64,
)
    ensures
        match send_all_plan(utxos, pending, relay_floor, max_inputs, fee_for) {
            Ok(plan) => {
                &&& plan.amount_micronoid > 0
                &&& plan.amount_micronoid + plan.fee_micronoid == spendable_balance(utxos, pending)
                &&& plan.total_spend_micronoid == spendable_balance(utxos, pending)
                &&& plan.input_count == spendable_coins(utxos, pending).len()
                &&& plan.change_micronoid == 0
                &&& plan.fee_micronoid >= relay_floor
            },
            Err(_) => true,
        },
{
}

/// The slots that pending payments spend and fill.
pub struct PendingSlots {
    pub inputs: HashSet<u32>,
    pub outputs: HashSet<u32>,
}

impl PendingSlots {
    /// These outputs are filled: no payment waits for them any more.
    pub fn release_outputs(&mut self, slots: &Vec<u32>)
        ensures
            final(self).inputs == old(self).inputs,
            final(self).outputs@ == old(self).outputs@.difference(slots@.to_set()),
    {
        remove_all(&mut self.outputs, slots);
    }
}

/// Some slot of the list is in the set.
pub open spec fn overlaps(set: Set<u32>, slots: Seq<u32>) -> bool {
    exists|i: int| 0 <= i < slots.len() && set.contains(#[trigger] slots[i])
}

fn any_in(set: &HashSet<u32>, slots: &Vec<u32>) -> (found: bool)
    ensures
        found == overlaps(set@, slots@),
{
    let mut i: usize = 0;
    while i < slots.len()
        invariant
            i <= slots@.len(),
            forall|j: int| 0 <= j < i ==> !set@.contains(#[trigger] slots@[j]),
        decreases slots@.len() - i,
    {
        if set.contains(&slots[i]) {
            return true;
        }
        i = i + 1;
    }
    false
}

fn insert_all(set: &mut HashSet<u32>, slots: &Vec<u32>)
    ensures
        final(set)@ == old(set)@.union(slots@.to_set()),
{
    let ghost before = set@;
    let mut i: usize = 0;
    assert(set@ =~= before.union(slots@.take(0).to_set()));
    while i < slots.len()
        invariant
            i <= slots@.len(),
            set@ == before.union(slots@.take(i as int).to_set()),
        decreases slots@.len() - i,
    {
        set.insert(slots[i]);
        proof {
            lemma_take_one_more(slots@, i as int);
        }
        assert(set@ =~= before.union(slots@.take(i + 1).to_set()));
        i = i + 1;
    }
    assert(slots@.take(i as int) =~= slots@);
}

fn remove_all(set: &mut HashSet<u32>, slots: &Vec<u32>)
    ensures
        final(set)@ == old(set)@.difference(slots@.to_set()),
{
    let ghost before = set@;
    let mut i: usize = 0;
    assert(set@ =~= before.difference(slots@.take(0).to_set()));
    while i < slots.len()
        invariant
            i <= slots@.len(),
            set@ == before.difference(slots@.take(i as int).to_set()),
        decreases slots@.len() - i,
    {
        set.remove(&slots[i]);
        proof {
            lemma_take_one_more(slots@, i as int);
        }
        assert(set@ =~= before.difference(slots@.take(i + 1).to_set()));
        i = i + 1;
    }
    assert(slots@.take(i as int) =~= slots@);
}

proof fn lemma_take_one_more(slots: Seq<u32>, i: int)
    requires
        0 <= i < slots.len(),
    ensures
        slots.take(i + 1).to_set() == slots.take(i).to_set().insert(slots[i]),
{
    let next = slots.take(i + 1);
    let head = slots.take(i);
    assert forall|slot: u32| next.contains(slot) <==> head.contains(slot) || slot == slots[i] by {
        if next.contains(slot) {
            let k = choose|k: int| 0 <= k < next.len() && next[k] == slot;
            if k < i {
                assert(head[k] == slot);
            }
        }
        if head.contains(slot) {
            let k = choose|k: int| 0 <= k < head.len() && head[k] == slot;
            assert(next[k] == slot);
        }
        assert(next[i] == slots[i]);
    }
    assert(next.to_set() =~= head.to_set().insert(slots[i]));
}

/// Giving back slots that were free before undoes their reservation.
pub proof fn lemma_release_undoes_reserve(before: Set<u32>, slots: Seq<u32>)
    requires
        !overlaps(before, slots),
    ensures
        before.union(slots.to_set()).difference(slots.to_set()) == before,
{
    let after = before.union(slots.to_set()).difference(slots.to_set());
    assert forall|slot: u32| after.contains(slot) <==> before.contains(slot) by {
        if before.contains(slot) && slots.contains(slot) {
            let k = choose|k: int| 0 <= k < slots.len() && slots[k] == slot;
            assert(before.contains(slots[k]));
        }
    }
    assert(after =~= before);
}

/// Why a payment's slots cannot be reserved.
#[derive(Debug)]
pub enum ReserveError {
    /// There is no wallet to reserve in.
    WalletMissing,
    InputReserved,
    OutputReserved,
    /// The pending payment could not be recorded.
    Record(String),
}

impl ReserveError {
    pub open spec fn words(self) -> Seq<char> {
        match self {
            ReserveError::WalletMissing => "wallet not initialized"@,
            ReserveError::InputReserved => "wallet input is already reserved by a pending transaction"@,
            ReserveError::OutputReserved => "wallet output slot is already reserved by a pending transaction"@,
            ReserveError::Record(error) => error@,
        }
    }

    /// The words in which the error is reported.
    pub fn message(&self) -> (text: String)
        ensures
            text@ == self.words(),
    {
        match self {
            ReserveError::WalletMissing => String::from_str("wallet not initialized"),
            ReserveError::InputReserved => String::from_str(
                "wallet input is already reserved by a pending transaction",
            ),
            ReserveError::OutputReserved => String::from_str(
                "wallet output slot is already reserved by a pending transaction",
            ),
            ReserveError::Record(error) => error.clone(),
        }
    }
}

/// A reservation that lasts until the mempool has admitted the payment.
///
/// It is made only after the payment was proved. Unless it is committed,
/// everything that it reserved is given back when it is released.
pub struct PendingAdmissionGuard {
    pub txid: Digest,
    pub input_slots: Vec<u32>,
    pub output_slots: Vec<u32>,
    /// Release gives the slots back.
    pub armed: bool,
}

/// What reserving the slots of a payment comes to.
///
/// Slots that another payment reserved refuse it; otherwise it is recorded as
/// pending, and if that fails the slots are free again.
pub open spec fn reservation_follows<F: FnOnce(Digest, u64, Digest) -> Result<(), String>>(
    before: PendingSlots,
    after: PendingSlots,
    txid: Digest,
    input_slots: Vec<u32>,
    output_slots: Vec<u32>,
    amount: u64,
    peer_address: Digest,
    record: F,
    result: Result<PendingAdmissionGuard, ReserveError>,
) -> bool {
    let unchanged = after.inputs@ == before.inputs@ && after.outputs@ == before.outputs@;
    if overlaps(before.inputs@, input_slots@) {
        unchanged && result == Err::<PendingAdmissionGuard, ReserveError>(ReserveError::InputReserved)
    } else if overlaps(before.outputs@, output_slots@) {
        unchanged && result == Err::<PendingAdmissionGuard, ReserveError>(ReserveError::OutputReserved)
    } else {
        exists|recorded: Result<(), String>|
            {
                &&& #[trigger] call_ensures(record, (txid, amount, peer_address), recorded)
                &&& match recorded {
                    Ok(_) => {
                        &&& result == Ok::<PendingAdmissionGuard, ReserveError>(
                            PendingAdmissionGuard { txid, input_slots, output_slots, armed: true },
                        )
                        &&& after.inputs@ == before.inputs@.union(input_slots@.to_set())
                        &&& after.outputs@ == before.outputs@.union(output_slots@.to_set())
                    },
                    Err(error) => unchanged && result == Err::<PendingAdmissionGuard, ReserveError>(
                        ReserveError::Record(error),
                    ),
                }
            }
    }
}

impl PendingAdmissionGuard {
    /// Reserve the slots of a payment and record it as pending.
    ///
    /// `record` writes the pending payment down; if that fails the slots are
    /// free again.
    pub fn reserve<F: FnOnce(Digest, u64, Digest) -> Result<(), String>>(
        pending: &mut PendingSlots,
        txid: Digest,
        input_slots: Vec<u32>,
        output_slots: Vec<u32>,
        amount_micronoid: u64,
        peer_address: Digest,
        record: F,
    ) -> (result: Result<PendingAdmissionGuard, ReserveError>)
        requires
            call_requires(record, (txid, amount_micronoid, peer_address)),
        ensures
            reservation_follows(
                *old(pending),
                *final(pending),
                txid,
                input_slots,
                output_slots,
                amount_micronoid,
                peer_address,
                record,
                result,
            ),
    {
        if any_in(&pending.inputs, &input_slots) {
            return Err(ReserveError::InputReserved);
        }
        if any_in(&pending.outputs, &output_slots) {
            return Err(ReserveError::OutputReserved);
        }
        insert_all(&mut pending.inputs, &input_slots);
        insert_all(&mut pending.outputs, &output_slots);
        match record(txid, amount_micronoid, peer_address) {
            Ok(_) => Ok(PendingAdmissionGuard { txid, input_slots, output_slots, armed: true }),
            Err(error) => {
                remove_all(&mut pending.inputs, &input_slots);
                remove_all(&mut pending.outputs, &output_slots);
                proof {
                    lemma_release_undoes_reserve(old(pending).inputs@, input_slots@);
                    lemma_release_undoes_reserve(old(pending).outputs@, output_slots@);
                }
                Err(ReserveError::Record(error))
            },
        }
    }

    /// The payment was admitted: the slots stay reserved.
    pub fn commit(&mut self)
        ensures
            *final(self) == (PendingAdmissionGuard { armed: false, ..*old(self) }),
    {
        self.armed = false;
    }

    /// Give the slots back.
    pub fn rollback(&self, pending: &mut PendingSlots)
        ensures
            final(pending).inputs@ == old(pending).inputs@.difference(self.input_slots@.to_set()),
            final(pending).outputs@ == old(pending).outputs@.difference(self.output_slots@.to_set()),
    {
        remove_all(&mut pending.inputs, &self.input_slots);
        remove_all(&mut pending.outputs, &self.output_slots);
    }

    /// The reservation ends; says whether the record of the payment is to be removed.
    pub fn release(&self, pending: &mut PendingSlots) -> (rolled_back: bool)
        ensures
            rolled_back == self.armed,
            self.armed ==> final(pending).inputs@ == old(pending).inputs@.difference(self.input_slots@.to_set())
                && final(pending).outputs@ == old(pending).outputs@.difference(self.output_slots@.to_set()),
            !self.armed ==> *final(pending) == *old(pending),
    {
        if self.armed {
            self.rollback(pending);
        }
        self.armed
    }
}

/// What the durable chain says of the block that anchors an epoch.
#[derive(Debug)]
pub enum AnchorLookup {
    Failed(String),
    Missing,
    Found(Digest),
}

/// Why there is no anchor for the next block.
#[derive(Debug)]
pub enum AnchorError {
    HeightOverflow,
    Load(String),
    Missing,
}

impl AnchorError {
    pub open spec fn words(self) -> Seq<char> {
        match self {
            AnchorError::HeightOverflow => "child height overflow"@,
            AnchorError::Load(error) => "load transaction epoch anchor: "@ + error@,
            AnchorError::Missing => "canonical transaction epoch anchor header is missing"@,
        }
    }

    /// The words in which the error is reported.
    pub fn message(&self) -> (text: String)
        ensures
            text@ == self.words(),
    {
        match self {
            AnchorError::HeightOverflow => String::from_str("child height overflow"),
            AnchorError::Load(error) => {
                let mut text = String::from_str("load transaction epoch anchor: ");
                text.append(error.as_str());
                text
            },
            AnchorError::Missing => String::from_str("canonical transaction epoch anchor header is missing"),
        }
    }
}

/// What a lookup means for the anchor.
pub open spec fn anchor_of(found: AnchorLookup) -> Result<Digest, AnchorError> {
    match found {
        AnchorLookup::Failed(error) => Err(AnchorError::Load(error)),
        AnchorLookup::Missing => Err(AnchorError::Missing),
        AnchorLookup::Found(hash) => Ok(hash),
    }
}

/// The block to which a payment in the next block must be anchored.
///
/// `anchor_height` is the height of the anchor of a block of some height, and
/// `lookup` finds the canonical block of a height; the anchor can lie far
/// behind the tip.
pub fn next_user_epoch_anchor<H: FnOnce(u64) -> u64, F: FnOnce(u64) -> AnchorLookup>(
    tip_height: u64,
    anchor_height: H,
    lookup: F,
) -> (result: Result<Digest, AnchorError>)
    requires
        forall|height: u64| call_requires(anchor_height, (height,)),
        forall|height: u64| call_requires(lookup, (height,)),
    ensures
        tip_height == u64::MAX ==> result == Err::<Digest, AnchorError>(AnchorError::HeightOverflow),
        tip_height < u64::MAX ==> exists|height: u64, found: AnchorLookup|
            {
                &&& #[trigger] call_ensures(anchor_height, ((tip_height + 1) as u64,), height)
                &&& #[trigger] call_ensures(lookup, (height,), found)
                &&& result == anchor_of(found)
            },
{
    if tip_height == u64::MAX {
        return Err(AnchorError::HeightOverflow);
    }
    let height: u64 = anchor_height(tip_height + 1);
    match lookup(height) {
        AnchorLookup::Failed(error) => Err(AnchorError::Load(error)),
        AnchorLookup::Missing => Err(AnchorError::Missing),
        AnchorLookup::Found(hash) => Ok(hash),
    }
}

/// What was taken from the wallet for the prover.
pub struct BuildData<D> {
    pub selected: Vec<WalletUtxo>,
    pub witness: D,
}

/// The slots of some coins.
pub open spec fn slots_of(coins: Seq<WalletUtxo>) -> Seq<u32> {
    Seq::new(coins.len(), |i: int| coins[i].slot_index)
}

/// What a payment is built from.
#[derive(Debug)]
pub struct PaymentOrder {
    pub to_address: Digest,
    pub amount_micronoid: u64,
    pub fee_micronoid: u64,
    pub epoch_anchor: Digest,
    pub slot_hints: Vec<u32>,
    pub log_slots: u32,
}

/// Build and prove a payment; gives its bytes and the slots it spends.
///
/// `extract` is handed amount, fee, anchor, slot hints and the size of the slot
/// space; it selects the coins and takes the witnesses while the wallet is
/// held. `prove` is handed address, amount, fee and what was taken, and works
/// without the wallet.
pub fn build_send<
    D,
    E: FnOnce(u64, u64, Digest, Vec<u32>, u32) -> Result<BuildData<D>, String>,
    P: FnOnce(Digest, u64, u64, BuildData<D>) -> Result<Vec<u8>, String>,
>(order: PaymentOrder, extract: E, prove: P) -> (result: Result<(Vec<u8>, Vec<u32>), String>)
    requires
        call_requires(
            extract,
            (
                order.amount_micronoid,
                order.fee_micronoid,
                order.epoch_anchor,
                order.slot_hints,
                order.log_slots,
            ),
        ),
        forall|data: BuildData<D>|
            call_requires(prove, (order.to_address, order.amount_micronoid, order.fee_micronoid, data)),
    ensures
        exists|extracted: Result<BuildData<D>, String>|
            {
                &&& #[trigger] call_ensures(
                    extract,
                    (
                        order.amount_micronoid,
                        order.fee_micronoid,
                        order.epoch_anchor,
                        order.slot_hints,
                        order.log_slots,
                    ),
                    extracted,
                )
                &&& match extracted {
                    Err(error) => result == Err::<(Vec<u8>, Vec<u32>), String>(error),
                    Ok(data) => exists|proved: Result<Vec<u8>, String>|
                        {
                            &&& #[trigger] call_ensures(
                                prove,
                                (order.to_address, order.amount_micronoid, order.fee_micronoid, data),
                                proved,
                            )
                            &&& match (proved, result) {
                                (Err(error), Err(reason)) => reason == error,
                                (Ok(bytes), Ok((intent, input_slots))) => intent == bytes && input_slots@ == slots_of(
                                    data.selected@,
                                ),
                                _ => false,
                            }
                        },
                }
            },
{
    let amount: u64 = order.amount_micronoid;
    let fee: u64 = order.fee_micronoid;
    let data = match extract(amount, fee, order.epoch_anchor, order.slot_hints, order.log_slots) {
        Err(error) => {
            return Err(error);
        },
        Ok(data) => data,
    };
    let mut input_slots: Vec<u32> = Vec::new();
    let mut i: usize = 0;
    while i < data.selected.len()
        invariant
            i <= data.selected@.len(),
            input_slots@ == slots_of(data.selected@).take(i as int),
        decreases data.selected@.len() - i,
    {
        input_slots.push(data.selected[i].slot_index);
        i = i + 1;
        assert(input_slots@ =~= slots_of(data.selected@).take(i as int));
    }
    assert(input_slots@ =~= slots_of(data.selected@));
    match prove(order.to_address, amount, fee, data) {
        Err(error) => Err(error),
        Ok(bytes) => Ok((bytes, input_slots)),
    }
}

} // verus!
