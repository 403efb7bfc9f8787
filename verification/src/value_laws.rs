//! What new and converted values hold.

use vstd::prelude::*;
use crate::arith::max_u64;
use crate::bootstrap::MobileBootstrapStage;
use crate::bytes::{hash_eq, Digest};
use crate::header_planner::{ChainPoint, HeaderInventoryRecord, ValidatedHeader};
use crate::p2p_runtime::MobileP2PRuntime;
use crate::peer::PeerTable;
use crate::submit::{PendingAdmissionGuard, PendingSlots};
use crate::sync::MobileSyncCoordinator;
use crate::wallet_tables::{CoinTable, ReceiptBook};

verus! {

/// The larger of two numbers is one of them and below neither.
pub proof fn lemma_the_larger_number(a: u64, b: u64, m: u64)
    requires
        call_ensures(max_u64, (a, b), m),
    ensures
        m >= a,
        m >= b,
        m == a || m == b,
{
}

/// Two hashes are the same exactly if each byte is.
pub proof fn lemma_equal_hashes(a: Digest, b: Digest, same: bool)
    requires
        call_ensures(hash_eq, (&a, &b), same),
    ensures
        same <==> forall|i: int| 0 <= i < 32 ==> #[trigger] a[i] == b[i],
{
    if forall|i: int| 0 <= i < 32 ==> #[trigger] a[i] == b[i] {
        assert(a =~= b);
    }
}

/// Two points are the same exactly if height and hash are.
pub proof fn lemma_points_of_the_chain(height: u64, hash: Digest, point: ChainPoint, other: ChainPoint, same: bool)
    requires
        call_ensures(ChainPoint::new, (height, hash), point),
        call_ensures(ChainPoint::same, (&point, &other), same),
    ensures
        point.height == height,
        point.hash == hash,
        same <==> other.height == height && other.hash == hash,
{
}

/// A record and a validated header stand where their height and hash say, and
/// the record that is made of a header offers nothing.
pub proof fn lemma_points_of_headers(
    record: HeaderInventoryRecord,
    header: ValidatedHeader,
    recorded: ChainPoint,
    validated: ChainPoint,
    bare: HeaderInventoryRecord,
)
    requires
        call_ensures(HeaderInventoryRecord::point, (&record,), recorded),
        call_ensures(ValidatedHeader::point, (&header,), validated),
        call_ensures(ValidatedHeader::header_only, (&header,), bare),
    ensures
        recorded.height == record.height && recorded.hash == record.hash,
        validated.height == header.height && validated.hash == header.hash,
        bare.height == header.height && bare.hash == header.hash && bare.difficulty_target == header.difficulty_target,
        bare.body is None && bare.terminal is None,
{
}

/// The snapshot bootstrap owns the control plane from the request for a
/// manifest until the snapshot is installed.
pub proof fn lemma_when_the_snapshot_bootstrap_is_active(stage: MobileBootstrapStage, active: bool)
    requires
        call_ensures(MobileBootstrapStage::snapshot_active, (&stage,), active),
    ensures
        !active <==> stage is Idle || stage is TailSync || stage is Complete,
{
}

/// A new runtime knows no peer, has asked for nothing and holds nothing of a snapshot.
pub proof fn lemma_a_new_runtime(runtime: MobileP2PRuntime)
    requires
        call_ensures(MobileP2PRuntime::new, (), runtime),
    ensures
        runtime.stage is Idle,
        runtime@.peers.len() == 0,
        runtime@.requested.len() == 0,
        runtime@.probes.len() == 0,
        runtime@.generation == 0,
        runtime@.phase == 0,
        !runtime@.apply_inflight,
        !runtime.slots.header_staging && !runtime.slots.validated_headers && !runtime.slots.offer,
        !runtime.slots.verified_boundary && !runtime.slots.transport && !runtime.slots.segment_staging,
{
}

/// New tables are empty, and a cleared one is like a new one.
pub proof fn lemma_new_tables_are_empty(
    peers: PeerTable,
    n: usize,
    coins: CoinTable,
    cleared: &mut CoinTable,
    receipts: ReceiptBook,
    m: usize,
)
    requires
        call_ensures(PeerTable::new, (), peers),
        call_ensures(PeerTable::len, (&peers,), n),
        call_ensures(CoinTable::new, (), coins),
        call_ensures(CoinTable::clear, (cleared,), ()),
        call_ensures(ReceiptBook::new, (), receipts),
        call_ensures(ReceiptBook::len, (&receipts,), m),
    ensures
        n == 0,
        peers@.len() == 0,
        coins@.len() == 0,
        final(cleared)@.len() == 0,
        m == 0,
{
}

/// A new coordinator fetches nothing and stands at the tip that it was given.
pub proof fn lemma_a_new_coordinator<S>(tip: ChainPoint, coordinator: MobileSyncCoordinator<S>)
    requires
        call_ensures(MobileSyncCoordinator::<S>::new, (tip,), coordinator),
    ensures
        coordinator.active is None,
        coordinator.committed_tip == tip,
{
}

/// Giving slots back frees exactly those of the reservation.
pub proof fn lemma_slots_are_given_back(guard: PendingAdmissionGuard, pending: &mut PendingSlots, slot: u32)
    requires
        call_ensures(PendingAdmissionGuard::rollback, (&guard, pending), ()),
    ensures
        final(pending).inputs@.contains(slot) <==> old(pending).inputs@.contains(slot) && !guard.input_slots@.contains(
            slot,
        ),
        final(pending).outputs@.contains(slot) <==> old(pending).outputs@.contains(slot)
            && !guard.output_slots@.contains(slot),
{
}

} // verus!
