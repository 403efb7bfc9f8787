//! What the wallet keeps by key: coins by their slot, receipts by their payment.

use vstd::prelude::*;
use crate::bytes::{hash_eq, Digest};

verus! {

/// A coin of the active address.
#[derive(Clone, Copy, Debug, PartialEq, Eq, Structural)]
pub struct WalletUtxo {
    pub slot_index: u32,
    pub value: u64,
}

/// No two coins are in one slot.
pub open spec fn distinct_slots(coins: Seq<WalletUtxo>) -> bool {
    forall|i: int, j: int| 0 <= i < j < coins.len() ==> (#[trigger] coins[i]).slot_index != (#[trigger] coins[j]).slot_index
}

/// Some coin is in the slot.
pub open spec fn has_slot(coins: Seq<WalletUtxo>, slot_index: u32) -> bool {
    exists|i: int| 0 <= i < coins.len() && (#[trigger] coins[i]).slot_index == slot_index
}

/// The coins of an address, at most one in each slot.
pub struct CoinTable {
    coins: Vec<WalletUtxo>,
}

impl View for CoinTable {
    type V = Seq<WalletUtxo>;

    closed spec fn view(&self) -> Seq<WalletUtxo> {
        self.coins@
    }
}

impl CoinTable {
    #[verifier::type_invariant]
    spec fn one_per_slot(self) -> bool {
        distinct_slots(self.coins@)
    }

    pub fn new() -> (table: CoinTable)
        ensures
            table@ == Seq::<WalletUtxo>::empty(),
    {
        CoinTable { coins: Vec::new() }
    }

    /// The coins: no slot occurs twice.
    pub fn coins(&self) -> (coins: &Vec<WalletUtxo>)
        ensures
            coins@ == self@,
            distinct_slots(self@),
    {
        proof {
            use_type_invariant(self);
        }
        &self.coins
    }

    /// Put a coin into its slot, in place of the one that is there.
    pub fn insert(&mut self, coin: WalletUtxo)
        ensures
            !has_slot(old(self)@, coin.slot_index) ==> final(self)@ == old(self)@.push(coin),
            forall|i: int|
                0 <= i < old(self)@.len() && (#[trigger] old(self)@[i]).slot_index == coin.slot_index ==> final(self)@
                    == old(self)@.update(i, coin),
    {
        proof {
            use_type_invariant(&*self);
        }
        let ghost before = self@;
        let mut coins: Vec<WalletUtxo> = Vec::new();
        std::mem::swap(&mut coins, &mut self.coins);
        let mut i: usize = 0;
        while i < coins.len()
            invariant
                i <= coins@.len(),
                coins@ == before,
                distinct_slots(before),
                before == old(self)@,
                self.coins@.len() == 0,
                forall|j: int| 0 <= j < i ==> (#[trigger] before[j]).slot_index != coin.slot_index,
            decreases coins@.len() - i,
        {
            if coins[i].slot_index == coin.slot_index {
                assert(before[i as int].slot_index == coin.slot_index);
                assert(has_slot(before, coin.slot_index));
                coins.set(i, coin);
                assert(coins@ == before.update(i as int, coin));
                assert(distinct_slots(coins@)) by {
                    assert forall|a: int, b: int| 0 <= a < b < coins@.len() implies (#[trigger] coins@[a]).slot_index
                        != (#[trigger] coins@[b]).slot_index by {
                        assert(before[a].slot_index != before[b].slot_index);
                    }
                }
                assert forall|k: int|
                    0 <= k < before.len() && (#[trigger] before[k]).slot_index == coin.slot_index implies coins@
                    == before.update(k, coin) by {
                    assert(k == i) by {
                        if k < i {
                            assert(before[k].slot_index != before[i as int].slot_index);
                        } else if k > i {
                            assert(before[i as int].slot_index != before[k].slot_index);
                        }
                    }
                }
                self.coins = coins;
                return;
            }
            i = i + 1;
        }
        coins.push(coin);
        assert(distinct_slots(coins@)) by {
            assert forall|a: int, b: int| 0 <= a < b < coins@.len() implies (#[trigger] coins@[a]).slot_index
                != (#[trigger] coins@[b]).slot_index by {
                if b < before.len() {
                    assert(before[a].slot_index != before[b].slot_index);
                } else {
                    assert(before[a].slot_index != coin.slot_index);
                }
            }
        }
        self.coins = coins;
    }

    /// Forget every coin.
    pub fn clear(&mut self)
        ensures
            final(self)@ == Seq::<WalletUtxo>::empty(),
    {
        self.coins = Vec::new();
    }
}

/// A hash of the list.
pub open spec fn listed(hashes: Seq<Digest>, hash: Digest) -> bool {
    hashes.contains(hash)
}

pub(crate) fn is_listed(hashes: &Vec<Digest>, hash: &Digest) -> (found: bool)
    ensures
        found == listed(hashes@, *hash),
{
    let mut i: usize = 0;
    while i < hashes.len()
        invariant
            i <= hashes@.len(),
            forall|j: int| 0 <= j < i ==> hashes@[j] != *hash,
        decreases hashes@.len() - i,
    {
        if hash_eq(&hashes[i], hash) {
            return true;
        }
        i = i + 1;
    }
    false
}

/// The receipts without those of some payments.
pub open spec fn kept_receipts(receipts: Seq<Digest>, reclaimed: Seq<Digest>) -> Seq<Digest>
    decreases receipts.len(),
{
    if receipts.len() == 0 {
        Seq::empty()
    } else {
        let rest = kept_receipts(receipts.drop_last(), reclaimed);
        if listed(reclaimed, receipts.last()) {
            rest
        } else {
            rest.push(receipts.last())
        }
    }
}

/// The payments for which a receipt is held, each once.
pub struct ReceiptBook {
    hashes: Vec<Digest>,
}

impl View for ReceiptBook {
    type V = Seq<Digest>;

    closed spec fn view(&self) -> Seq<Digest> {
        self.hashes@
    }
}

impl ReceiptBook {
    #[verifier::type_invariant]
    spec fn one_per_payment(self) -> bool {
        self.hashes@.no_duplicates()
    }

    pub fn new() -> (book: ReceiptBook)
        ensures
            book@ == Seq::<Digest>::empty(),
    {
        ReceiptBook { hashes: Vec::new() }
    }

    /// The payments: none occurs twice.
    pub fn payments(&self) -> (hashes: &Vec<Digest>)
        ensures
            hashes@ == self@,
            self@.no_duplicates(),
    {
        proof {
            use_type_invariant(self);
        }
        &self.hashes
    }

    /// How many receipts there are.
    pub fn len(&self) -> (n: usize)
        ensures
            n == self@.len(),
    {
        self.hashes.len()
    }

    /// Note that a receipt is held for a payment.
    pub fn insert(&mut self, hash: Digest)
        ensures
            final(self)@ == (if listed(old(self)@, hash) {
                old(self)@
            } else {
                old(self)@.push(hash)
            }),
    {
        proof {
            use_type_invariant(&*self);
        }
        if is_listed(&self.hashes, &hash) {
            return;
        }
        let ghost before = self@;
        let mut hashes: Vec<Digest> = Vec::new();
        std::mem::swap(&mut hashes, &mut self.hashes);
        hashes.push(hash);
        assert(hashes@.no_duplicates()) by {
            assert forall|a: int, b: int| 0 <= a < hashes@.len() && 0 <= b < hashes@.len() && a != b implies hashes@[a]
                != hashes@[b] by {
                if a < before.len() && b == before.len() {
                    assert(before.contains(before[a]));
                } else if b < before.len() && a == before.len() {
                    assert(before.contains(before[b]));
                }
            }
        }
        self.hashes = hashes;
    }

    /// Drop the receipts of some payments.
    pub fn remove_all(&mut self, reclaimed: &Vec<Digest>)
        ensures
            final(self)@ == kept_receipts(old(self)@, reclaimed@),
    {
        proof {
            use_type_invariant(&*self);
        }
        let mut kept: Vec<Digest> = Vec::new();
        let mut r: usize = 0;
        while r < self.hashes.len()
            invariant
                r <= self.hashes@.len(),
                *self == *old(self),
                kept@ == kept_receipts(self.hashes@.take(r as int), reclaimed@),
            decreases self.hashes@.len() - r,
        {
            assert(self.hashes@.take(r + 1).drop_last() =~= self.hashes@.take(r as int));
            let hash = self.hashes[r];
            if !is_listed(reclaimed, &hash) {
                kept.push(hash);
            }
            r = r + 1;
        }
        assert(self.hashes@.take(r as int) =~= self.hashes@);
        proof {
            lemma_kept_receipts_are_distinct(self.hashes@, reclaimed@);
        }
        self.hashes = kept;
    }
}

/// Without those of some payments no receipt of them is left, and every other receipt is.
pub proof fn lemma_no_orphaned_receipt(receipts: Seq<Digest>, reclaimed: Seq<Digest>, hash: Digest)
    ensures
        kept_receipts(receipts, reclaimed).contains(hash) <==> receipts.contains(hash) && !listed(reclaimed, hash),
    decreases receipts.len(),
{
    if receipts.len() > 0 {
        let head = receipts.drop_last();
        let rest = kept_receipts(head, reclaimed);
        let kept = kept_receipts(receipts, reclaimed);
        lemma_no_orphaned_receipt(head, reclaimed, hash);
        if rest.contains(hash) {
            let k = choose|k: int| 0 <= k < rest.len() && rest[k] == hash;
            assert(kept[k] == hash);
        }
        if head.contains(hash) {
            let k = choose|k: int| 0 <= k < head.len() && head[k] == hash;
            assert(receipts[k] == hash);
        }
        if receipts.contains(hash) && !head.contains(hash) {
            let k = choose|k: int| 0 <= k < receipts.len() && receipts[k] == hash;
            assert(k == receipts.len() - 1) by {
                if k < head.len() {
                    assert(head[k] == hash);
                }
            }
            if !listed(reclaimed, hash) {
                assert(kept[kept.len() - 1] == hash);
            }
        }
        if kept.contains(hash) && !rest.contains(hash) {
            let k = choose|k: int| 0 <= k < kept.len() && kept[k] == hash;
            assert(k == kept.len() - 1) by {
                if k < rest.len() {
                    assert(rest[k] == hash);
                }
            }
            assert(receipts[receipts.len() - 1] == hash);
        }
    }
}

proof fn lemma_kept_receipts_are_distinct(receipts: Seq<Digest>, reclaimed: Seq<Digest>)
    requires
        receipts.no_duplicates(),
    ensures
        kept_receipts(receipts, reclaimed).no_duplicates(),
    decreases receipts.len(),
{
    if receipts.len() > 0 {
        let head = receipts.drop_last();
        let last = receipts.last();
        let rest = kept_receipts(head, reclaimed);
        let kept = kept_receipts(receipts, reclaimed);
        lemma_kept_receipts_are_distinct(head, reclaimed);
        lemma_no_orphaned_receipt(head, reclaimed, last);
        assert(!head.contains(last)) by {
            if head.contains(last) {
                let k = choose|k: int| 0 <= k < head.len() && head[k] == last;
                assert(receipts[k] == receipts[receipts.len() - 1]);
            }
        }
        assert(kept.no_duplicates()) by {
            assert forall|a: int, b: int| 0 <= a < kept.len() && 0 <= b < kept.len() && a != b implies kept[a]
                != kept[b] by {
                if a < rest.len() && b == rest.len() {
                    assert(rest.contains(rest[a]));
                } else if b < rest.len() && a == rest.len() {
                    assert(rest.contains(rest[b]));
                }
            }
        }
    }
}

} // verus!
