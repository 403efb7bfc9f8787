//! What the wallet shows: addresses, balances and recent payments.
//!
//! The available balance is for information only. A payment spends the active
//! address and no other, and making or finding an address never changes which
//! one is active.

use vstd::prelude::*;
use crate::bytes::Digest;
use crate::text::{decimal, decimal_text};
use crate::wallet::{HistoryEntry, TxDirection};

verus! {

/// Addresses that are inspected behind the last one that was generated.
pub const MOBILE_WALLET_DISCOVERY_GAP: u32 = 20;

/// Most recent payments that are shown.
pub const RECENT_MAX: usize = 20;

/// Recent payments that are shown if no number is asked for.
pub const RECENT_DEFAULT: usize = 5;

/// A payment as it is shown.
#[derive(Clone, Copy, Debug)]
pub struct MobileRecentTransaction {
    pub txid: Digest,
    pub direction: TxDirection,
    pub amount_micronoid: u64,
    pub height: u64,
    pub timestamp: u64,
    pub pending: bool,
    pub is_coinbase: bool,
}

/// An address as it is shown.
#[derive(Debug)]
pub struct MobileWalletAddressView {
    pub key_index: u32,
    pub address: String,
    pub balance_micronoid: u64,
    pub is_active: bool,
}

/// The wallet as it is shown.
#[derive(Debug)]
pub struct MobileWalletOverview {
    /// The balances of every address that was looked at.
    pub available_balance_micronoid: u64,
    /// The balance of the active address alone.
    pub active_balance_micronoid: u64,
    pub active_index: u32,
    pub address_count: u32,
    pub addresses: Vec<MobileWalletAddressView>,
}

/// Why there is no overview.
#[derive(Clone, Copy, Debug, PartialEq, Eq, Structural)]
pub enum OverviewError {
    AddressOverflow { index: u32 },
    AvailableOverflow,
}

impl OverviewError {
    pub open spec fn words(self) -> Seq<char> {
        match self {
            OverviewError::AddressOverflow { index } => "wallet address #"@ + decimal(index as nat)
                + " balance overflow"@,
            OverviewError::AvailableOverflow => "available wallet balance overflow"@,
        }
    }

    /// The words in which the error is reported.
    pub fn message(&self) -> (text: String)
        ensures
            text@ == self.words(),
    {
        match self {
            OverviewError::AddressOverflow { index } => {
                let mut text = String::from_str("wallet address #");
                text.append(decimal_text(*index as u64).as_str());
                text.append(" balance overflow");
                text
            },
            OverviewError::AvailableOverflow => String::from_str("available wallet balance overflow"),
        }
    }
}

/// Where the look-ahead ends.
pub open spec fn discovery_end(next_index: u32, max_addresses: u32) -> u32 {
    let end = next_index + MOBILE_WALLET_DISCOVERY_GAP;
    if end < max_addresses {
        end as u32
    } else {
        max_addresses
    }
}

/// How many addresses are looked at.
pub fn scan_end(next_index: u32, max_addresses: u32) -> (end: u32)
    ensures
        end == discovery_end(next_index, max_addresses),
{
    let end: u32 = next_index.saturating_add(MOBILE_WALLET_DISCOVERY_GAP);
    if end < max_addresses {
        end
    } else {
        max_addresses
    }
}

/// Some amounts together.
pub open spec fn sum(amounts: Seq<u64>) -> nat
    decreases amounts.len(),
{
    if amounts.len() == 0 {
        0
    } else {
        sum(amounts.drop_last()) + amounts.last() as nat
    }
}

proof fn lemma_sum_grows(amounts: Seq<u64>, n: int)
    requires
        0 <= n <= amounts.len(),
    ensures
        sum(amounts.take(n)) <= sum(amounts),
    decreases amounts.len(),
{
    if n == amounts.len() {
        assert(amounts.take(n) =~= amounts);
    } else {
        assert(amounts.take(n) =~= amounts.drop_last().take(n));
        lemma_sum_grows(amounts.drop_last(), n);
    }
}

fn checked_sum(amounts: &Vec<u64>) -> (total: Option<u64>)
    ensures
        total == (if sum(amounts@) > u64::MAX {
            None
        } else {
            Some(sum(amounts@) as u64)
        }),
{
    let mut total: u64 = 0;
    let mut i: usize = 0;
    while i < amounts.len()
        invariant
            i <= amounts@.len(),
            total == sum(amounts@.take(i as int)),
        decreases amounts@.len() - i,
    {
        assert(amounts@.take(i + 1).drop_last() =~= amounts@.take(i as int));
        proof {
            lemma_sum_grows(amounts@, i + 1);
        }
        match total.checked_add(amounts[i]) {
            Some(next) => {
                total = next;
            },
            None => {
                return None;
            },
        }
        i = i + 1;
    }
    assert(amounts@.take(i as int) =~= amounts@);
    Some(total)
}

/// The addresses from `from` on with a balance: the highest of them.
pub open spec fn highest_funded(balances: Seq<u64>, from: u32) -> Option<u32>
    decreases balances.len(),
{
    if balances.len() == 0 {
        None
    } else if balances.len() - 1 >= from && balances.last() != 0 {
        Some((balances.len() - 1) as u32)
    } else {
        highest_funded(balances.drop_last(), from)
    }
}

/// The balances of the addresses that were looked at so far.
pub struct OverviewScan {
    /// The next address to be generated, before the scan.
    pub original_next: u32,
    pub balances: Vec<u64>,
    pub available: u64,
    pub highest: Option<u32>,
}

impl OverviewScan {
    pub open spec fn wf(self) -> bool {
        &&& self.balances@.len() < u32::MAX
        &&& self.available == sum(self.balances@)
        &&& self.highest == highest_funded(self.balances@, self.original_next)
    }

    pub fn new(original_next: u32) -> (scan: OverviewScan)
        ensures
            scan.wf(),
            scan.original_next == original_next,
            scan.balances@ == Seq::<u64>::empty(),
    {
        OverviewScan { original_next, balances: Vec::new(), available: 0, highest: None }
    }

    /// Add the next address, which holds these amounts.
    pub fn add_address(&mut self, amounts: &Vec<u64>) -> (result: Result<(), OverviewError>)
        requires
            old(self).wf(),
            old(self).balances@.len() + 1 < u32::MAX,
        ensures
            final(self).wf(),
            final(self).original_next == old(self).original_next,
            ({
                let balance = sum(amounts@);
                let total = sum(old(self).balances@) + balance;
                if balance > u64::MAX {
                    &&& result == Err::<(), OverviewError>(
                        OverviewError::AddressOverflow { index: old(self).balances@.len() as u32 },
                    )
                    &&& final(self).balances@ == old(self).balances@
                } else if total > u64::MAX {
                    &&& result == Err::<(), OverviewError>(OverviewError::AvailableOverflow)
                    &&& final(self).balances@ == old(self).balances@
                } else {
                    &&& result == Ok::<(), OverviewError>(())
                    &&& final(self).balances@ == old(self).balances@.push(balance as u64)
                }
            }),
    {
        let index: u32 = self.balances.len() as u32;
        let balance: u64 = match checked_sum(amounts) {
            None => {
                return Err(OverviewError::AddressOverflow { index });
            },
            Some(balance) => balance,
        };
        match self.available.checked_add(balance) {
            None => {
                return Err(OverviewError::AvailableOverflow);
            },
            Some(available) => {
                self.available = available;
            },
        }
        if index >= self.original_next && balance != 0 {
            self.highest = Some(index);
        }
        self.balances.push(balance);
        assert(self.balances@.drop_last() =~= old(self).balances@);
        Ok(())
    }

    /// The next index once every address up to the highest funded one is selectable, if any was found.
    pub fn discovered_next(&self) -> (next: Option<u32>)
        requires
            self.wf(),
        ensures
            next == (match highest_funded(self.balances@, self.original_next) {
                Some(highest) => Some((highest + 1) as u32),
                None => None,
            }),
    {
        proof {
            lemma_highest_funded(self.balances@, self.original_next);
        }
        match self.highest {
            Some(highest) => Some(highest + 1),
            None => None,
        }
    }

    /// Show the addresses below `committed_next`.
    ///
    /// `addresses[i]` is the text of address `i`.
    pub fn overview(&self, committed_next: u32, active_index: u32, addresses: &Vec<String>) -> (overview:
        MobileWalletOverview)
        requires
            self.wf(),
            addresses@.len() == self.balances@.len(),
        ensures
            overview.available_balance_micronoid == sum(self.balances@),
            overview.active_index == active_index,
            overview.address_count == committed_next,
            overview.active_balance_micronoid == (if active_index < committed_next && active_index
                < self.balances@.len() {
                self.balances@[active_index as int]
            } else {
                0
            }),
            overview.addresses@.len() == (if committed_next < self.balances@.len() {
                committed_next as nat
            } else {
                self.balances@.len()
            }),
            forall|i: int|
                0 <= i < overview.addresses@.len() ==> {
                    let view = #[trigger] overview.addresses@[i];
                    &&& view.key_index == i
                    &&& view.address@ == addresses@[i]@
                    &&& view.balance_micronoid == self.balances@[i]
                    &&& view.is_active == (i == active_index)
                },
    {
        let mut views: Vec<MobileWalletAddressView> = Vec::new();
        let mut active_balance: u64 = 0;
        let mut i: usize = 0;
        while i < self.balances.len() && (i as u64) < committed_next as u64
            invariant
                i <= self.balances@.len(),
                i <= committed_next,
                self.balances@.len() < u32::MAX,
                addresses@.len() == self.balances@.len(),
                views@.len() == i,
                active_balance == (if active_index < i {
                    self.balances@[active_index as int]
                } else {
                    0
                }),
                forall|j: int|
                    0 <= j < i ==> {
                        let view = #[trigger] views@[j];
                        &&& view.key_index == j
                        &&& view.address@ == addresses@[j]@
                        &&& view.balance_micronoid == self.balances@[j]
                        &&& view.is_active == (j == active_index)
                    },
            decreases self.balances@.len() - i,
        {
            let key_index: u32 = i as u32;
            let balance: u64 = self.balances[i];
            if key_index == active_index {
                active_balance = balance;
            }
            views.push(
                MobileWalletAddressView {
                    key_index,
                    address: addresses[i].clone(),
                    balance_micronoid: balance,
                    is_active: key_index == active_index,
                },
            );
            i = i + 1;
        }
        MobileWalletOverview {
            available_balance_micronoid: self.available,
            active_balance_micronoid: active_balance,
            active_index,
            address_count: committed_next,
            addresses: views,
        }
    }
}

/// The highest funded address of the look-ahead is funded, lies in it, and no later one is funded.
pub proof fn lemma_highest_funded(balances: Seq<u64>, from: u32)
    requires
        balances.len() < u32::MAX,
    ensures
        match highest_funded(balances, from) {
            Some(highest) => {
                &&& from <= highest < balances.len()
                &&& balances[highest as int] != 0
                &&& forall|i: int| highest < i < balances.len() ==> #[trigger] balances[i] == 0
            },
            None => forall|i: int| from <= i < balances.len() ==> #[trigger] balances[i] == 0,
        },
    decreases balances.len(),
{
    if balances.len() > 0 && !(balances.len() - 1 >= from && balances.last() != 0) {
        let head = balances.drop_last();
        lemma_highest_funded(head, from);
        assert forall|i: int| 0 <= i < head.len() implies #[trigger] balances[i] == head[i] by {}
    }
}

/// A new address: empty, and not the active one.
pub fn new_address_view(key_index: u32, address: String) -> (view: MobileWalletAddressView)
    ensures
        view.key_index == key_index,
        view.address == address,
        view.balance_micronoid == 0,
        !view.is_active,
{
    MobileWalletAddressView { key_index, address, balance_micronoid: 0, is_active: false }
}

/// How a history entry is shown.
pub open spec fn shown(entry: HistoryEntry) -> MobileRecentTransaction {
    MobileRecentTransaction {
        txid: entry.tx_hash,
        direction: entry.direction,
        amount_micronoid: entry.amount_micronoid,
        height: entry.height,
        timestamp: entry.timestamp,
        pending: entry.height == 0,
        is_coinbase: entry.is_coinbase,
    }
}

/// How many payments are shown.
pub open spec fn shown_count(history: nat, limit: usize) -> nat {
    let most = if limit < RECENT_MAX {
        limit as nat
    } else {
        RECENT_MAX as nat
    };
    if history < most {
        history
    } else {
        most
    }
}

/// The newest payments, the newest first.
pub fn mobile_recent_transactions(history: &Vec<HistoryEntry>, limit: usize) -> (recent: Vec<MobileRecentTransaction>)
    ensures
        recent@ == Seq::new(
            shown_count(history@.len(), limit),
            |i: int| shown(history@[history@.len() - 1 - i]),
        ),
{
    let most: usize = if limit < RECENT_MAX {
        limit
    } else {
        RECENT_MAX
    };
    let count: usize = if history.len() < most {
        history.len()
    } else {
        most
    };
    let mut recent: Vec<MobileRecentTransaction> = Vec::new();
    let mut i: usize = 0;
    while i < count
        invariant
            i <= count,
            count == shown_count(history@.len(), limit),
            count <= history@.len(),
            recent@ == Seq::new(i as nat, |j: int| shown(history@[history@.len() - 1 - j])),
        decreases count - i,
    {
        let entry = history[history.len() - 1 - i];
        recent.push(
            MobileRecentTransaction {
                txid: entry.tx_hash,
                direction: entry.direction,
                amount_micronoid: entry.amount_micronoid,
                height: entry.height,
                timestamp: entry.timestamp,
                pending: entry.height == 0,
                is_coinbase: entry.is_coinbase,
            },
        );
        i = i + 1;
        assert(recent@ =~= Seq::new(i as nat, |j: int| shown(history@[history@.len() - 1 - j])));
    }
    recent
}

/// The number of payments for the number that was asked for.
pub fn recent_limit(asked: i32) -> (limit: usize)
    ensures
        limit == (if asked <= 0 {
            RECENT_DEFAULT as int
        } else if asked < RECENT_MAX {
            asked as int
        } else {
            RECENT_MAX as int
        }),
{
    if asked <= 0 {
        RECENT_DEFAULT
    } else if (asked as u32) < RECENT_MAX as u32 {
        asked as usize
    } else {
        RECENT_MAX
    }
}

} // verus!
