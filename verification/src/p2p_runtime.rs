//! Transport runtime of the mobile node.
//!
//! This layer does not decide consensus. It keeps the table of peers, drives
//! the bootstrap stages, bounds the requests it sends and correlates what
//! comes back. Each method is one step: it takes what the node observed,
//! changes the state, and hands back the commands to send.

use vstd::prelude::*;
use crate::arith::{sat_add, sat_sub};
use crate::bootstrap::{
    gap_beyond_serving, gap_requires_snapshot_sync, header_range_count, range_count, MobileBootstrapStage,
    NetworkCommand, TailSync, HEADER_BATCH_MAX,
};
use crate::bytes::{hash_eq, zero_digest, Digest};
use crate::peer::{
    alternate_to, connected, contains_peer, eligible_peers, lemma_rows_remove, lowest_by_encoding,
    rows_insert, rows_map, rows_remove, rows_wf, FailureDomain, MobilePeer, PeerEntry, PeerId, PeerRows,
    PeerTable,
};
use crate::sequences::{lemma_filter_members, lemma_filter_no_duplicates, lemma_filter_step};

verus! {

/// Peers from which the mempool is pulled proactively.
pub const MAX_MEMPOOL_SYNC_PEERS: usize = 4;

/// Peers asked at once for the providers of one range.
pub const PROBE_FANOUT: usize = 4;

/// A range is not probed again within this time.
pub const PROBE_REPEAT_MS: u64 = 3_000;

/// A probe is forgotten after this time.
pub const PROBE_RETAIN_MS: u64 = 20_000;

pub const PHASE_MANIFEST: u8 = 1;

pub const PHASE_HEADERS: u8 = 2;

pub const PHASE_STATE: u8 = 3;

pub const PHASE_TAIL: u8 = 4;

pub const PHASE_SYNCED: u8 = 5;

/// What the user interface shows of the transport.
#[derive(Clone, Copy, Debug)]
pub struct MobileP2PStatusSnapshot {
    pub peers: usize,
    pub phase: &'static str,
    pub syncing: bool,
}

/// The label of a published phase.
pub open spec fn phase_label(peers: usize, phase: u8) -> Seq<char> {
    if phase == PHASE_MANIFEST {
        "MANIFEST"@
    } else if phase == PHASE_HEADERS {
        "HEADERS"@
    } else if phase == PHASE_STATE {
        "STATE"@
    } else if phase == PHASE_TAIL {
        "TAIL"@
    } else if phase == PHASE_SYNCED {
        "SYNCED"@
    } else if peers == 0 {
        "WAITING"@
    } else {
        "CONNECTING"@
    }
}

/// Whether a published phase means that synchronization is under way.
pub open spec fn phase_is_syncing(peers: usize, phase: u8) -> bool {
    &&& phase != PHASE_SYNCED
    &&& PHASE_MANIFEST <= phase <= PHASE_TAIL || peers != 0
}

/// The status for a published peer count and phase.
pub fn mobile_p2p_status(peers: usize, phase: u8) -> (status: MobileP2PStatusSnapshot)
    ensures
        status.peers == peers,
        status.phase@ == phase_label(peers, phase),
        status.syncing == phase_is_syncing(peers, phase),
{
    let (label, syncing): (&'static str, bool) = match phase {
        1 => ("MANIFEST", true),
        2 => ("HEADERS", true),
        3 => ("STATE", true),
        4 => ("TAIL", true),
        5 => ("SYNCED", false),
        _ => if peers == 0 {
            ("WAITING", false)
        } else {
            ("CONNECTING", true)
        },
    };
    MobileP2PStatusSnapshot { peers, phase: label, syncing }
}

/// When providers of one header range were last asked for.
#[derive(Clone, Copy, Debug)]
pub struct ProviderProbe {
    pub base_height: u64,
    pub target_height: u64,
    pub sent_ms: u64,
}

/// The exact suffix that is being fetched.
#[derive(Clone, Copy, Debug)]
pub struct ActiveSuffix {
    /// Height of its first header, if it has headers.
    pub first_height: Option<u64>,
    pub header_count: usize,
    pub target_height: u64,
}

/// Which of the objects of a snapshot bootstrap are held.
#[derive(Clone, Copy, Debug, PartialEq, Eq, Structural)]
pub struct SnapshotSlots {
    pub header_staging: bool,
    pub validated_headers: bool,
    pub offer: bool,
    pub verified_boundary: bool,
    pub transport: bool,
    pub segment_staging: bool,
}

/// The runtime as the proofs see it.
pub struct RuntimeView {
    pub peers: PeerRows,
    pub requested: Seq<PeerId>,
    pub stage: MobileBootstrapStage,
    pub complete: bool,
    pub slots: SnapshotSlots,
    pub generation: u64,
    pub apply_inflight: bool,
    pub probes: Seq<ProviderProbe>,
    pub phase: u8,
    pub published_peers: usize,
}

/// Peers, bootstrap stage and request bookkeeping of a running node.
pub struct MobileP2PRuntime {
    pub peers: PeerTable,
    /// Peers from which the mempool was requested.
    pub requested: Vec<PeerId>,
    pub stage: MobileBootstrapStage,
    /// The bootstrap has completed.
    pub complete: bool,
    pub slots: SnapshotSlots,
    /// Correlates the requests of one snapshot bootstrap.
    pub generation: u64,
    /// A complete suffix is being applied.
    pub apply_inflight: bool,
    pub probes: Vec<ProviderProbe>,
    pub phase: u8,
    pub published_peers: usize,
}

impl View for MobileP2PRuntime {
    type V = RuntimeView;

    open spec fn view(&self) -> RuntimeView {
        RuntimeView {
            peers: self.peers@,
            requested: self.requested@,
            stage: self.stage,
            complete: self.complete,
            slots: self.slots,
            generation: self.generation,
            apply_inflight: self.apply_inflight,
            probes: self.probes@,
            phase: self.phase,
            published_peers: self.published_peers,
        }
    }
}

/// The published phase that belongs to a stage.
pub open spec fn phase_fits(stage: MobileBootstrapStage, phase: u8) -> bool {
    match stage {
        MobileBootstrapStage::WaitingManifest { .. } => phase == PHASE_MANIFEST,
        MobileBootstrapStage::ManifestReceived { .. } => phase == PHASE_HEADERS,
        MobileBootstrapStage::StagingHeaders { .. } => phase == PHASE_HEADERS,
        MobileBootstrapStage::WaitingTerminal { .. } => phase == PHASE_HEADERS,
        MobileBootstrapStage::SyncingSnapshot { .. } => phase == PHASE_STATE,
        MobileBootstrapStage::Installing => phase == PHASE_STATE,
        MobileBootstrapStage::TailSync(_) => phase == PHASE_TAIL,
        MobileBootstrapStage::Complete => phase == PHASE_SYNCED,
        MobileBootstrapStage::Idle => phase < PHASE_SYNCED,
    }
}

/// The peer that a stage waits for.
pub open spec fn stage_peer_wf(stage: MobileBootstrapStage) -> bool {
    match stage {
        MobileBootstrapStage::WaitingManifest { peer, .. } => peer.wf(),
        MobileBootstrapStage::ManifestReceived { peer, .. } => peer.wf(),
        MobileBootstrapStage::StagingHeaders { peer, .. } => peer.wf(),
        MobileBootstrapStage::WaitingTerminal { peer, .. } => peer.wf(),
        MobileBootstrapStage::TailSync(tail) => tail.peer.wf(),
        _ => true,
    }
}

/// A probe that is still remembered.
pub open spec fn probe_retained(probe: ProviderProbe, now_ms: u64) -> bool {
    sat_sub(now_ms, probe.sent_ms) < PROBE_RETAIN_MS
}

pub open spec fn probe_is(probe: ProviderProbe, base_height: u64, target_height: u64) -> bool {
    probe.base_height == base_height && probe.target_height == target_height
}

/// The range was probed too recently to be probed again.
pub open spec fn probed_recently(
    probes: Seq<ProviderProbe>,
    base_height: u64,
    target_height: u64,
    now_ms: u64,
) -> bool {
    exists|i: int|
        0 <= i < probes.len() && probe_is(#[trigger] probes[i], base_height, target_height) && sat_sub(
            now_ms,
            probes[i].sent_ms,
        ) < PROBE_REPEAT_MS
}

/// The probes once the old ones are forgotten.
pub open spec fn probes_fresh(probes: Seq<ProviderProbe>, now_ms: u64) -> Seq<ProviderProbe> {
    probes.filter(|probe: ProviderProbe| probe_retained(probe, now_ms))
}

/// The probes without the one of this range.
pub open spec fn probes_without(probes: Seq<ProviderProbe>, base_height: u64, target_height: u64) -> Seq<
    ProviderProbe,
> {
    probes.filter(|probe: ProviderProbe| !probe_is(probe, base_height, target_height))
}

/// Requests for one header range to the first peers of the table, some left out.
pub open spec fn range_requests(
    peers: PeerRows,
    skip: Seq<PeerId>,
    start_height: u64,
    count: u16,
) -> Seq<NetworkCommand> {
    let asked = peers.filter(|entry: PeerEntry| !skip.contains(entry.peer));
    asked.take(
        if asked.len() < PROBE_FANOUT {
            asked.len() as int
        } else {
            PROBE_FANOUT as int
        },
    ).map_values(|entry: PeerEntry| NetworkCommand::FetchHeaders { peer: entry.peer, start_height, count })
}

/// Headers to ask for so that `headers` of them and their parent are covered.
pub open spec fn covering_count(headers: usize) -> u16 {
    if headers < HEADER_BATCH_MAX {
        (headers + 1) as u16
    } else {
        HEADER_BATCH_MAX
    }
}

pub open spec fn other_than(peer: PeerId) -> spec_fn(PeerId) -> bool {
    |p: PeerId| p != peer
}

/// The list without one peer.
pub open spec fn peers_without(peers: Seq<PeerId>, peer: PeerId) -> Seq<PeerId> {
    peers.filter(other_than(peer))
}

/// What the driver of the tail does next.
#[derive(Clone, Copy, Debug)]
pub enum TailStep {
    Nothing,
    /// The gap is too wide: a snapshot bootstrap starts.
    Snapshot(NetworkCommand),
    /// The tail is caught up: publish the completion.
    Complete,
    /// Ask this peer for the next headers.
    Request { peer: PeerId, start_height: u64 },
}

impl RuntimeView {
    pub open spec fn wf(self) -> bool {
        &&& rows_wf(self.peers)
        &&& self.requested.no_duplicates()
        &&& self.requested.len() <= MAX_MEMPOOL_SYNC_PEERS
        &&& forall|i: int| 0 <= i < self.requested.len() ==> connected(self.peers, #[trigger] self.requested[i])
        &&& self.published_peers == self.peers.len()
        &&& self.complete == self.stage is Complete
        &&& phase_fits(self.stage, self.phase)
        &&& stage_peer_wf(self.stage)
        &&& self.slots.transport == self.stage is SyncingSnapshot
        &&& self.stage is SyncingSnapshot ==> self.slots.validated_headers && self.slots.verified_boundary
            && self.slots.segment_staging
        &&& forall|i: int, j: int|
            0 <= i < j < self.probes.len() ==> !probe_is(
                #[trigger] self.probes[i],
                #[trigger] self.probes[j].base_height,
                self.probes[j].target_height,
            )
    }

    pub open spec fn at(self, stage: MobileBootstrapStage) -> RuntimeView {
        RuntimeView { stage, ..self }
    }

    /// A snapshot bootstrap is requested from `peer`.
    ///
    /// The generation advances in any case; a snapshot bootstrap that is
    /// already under way is left alone.
    pub open spec fn begin_snapshot(self, peer: PeerId) -> RuntimeView {
        let next = RuntimeView { generation: sat_add(self.generation, 1), ..self };
        if self.stage.owns_snapshot() {
            next
        } else {
            RuntimeView {
                stage: MobileBootstrapStage::WaitingManifest { generation: next.generation, peer },
                complete: false,
                probes: Seq::empty(),
                phase: PHASE_MANIFEST,
                ..next
            }
        }
    }

    pub open spec fn begin_snapshot_command(self, peer: PeerId, local_height: u64) -> Option<NetworkCommand> {
        if self.stage.owns_snapshot() {
            None
        } else {
            Some(
                NetworkCommand::RequestStateManifest {
                    generation: sat_add(self.generation, 1),
                    peer,
                    requester_height: local_height,
                    requested_manifest_digest: zero_digest(),
                },
            )
        }
    }

    /// The bootstrap starts with `peer`: from a snapshot for an empty chain, else at the durable tip.
    pub open spec fn begin_initial(self, peer: PeerId, local_height: u64) -> RuntimeView {
        if local_height == 0 {
            self.begin_snapshot(peer)
        } else if self.stage is Idle {
            RuntimeView {
                stage: MobileBootstrapStage::TailSync(TailSync::fresh(local_height, peer)),
                complete: false,
                phase: PHASE_TAIL,
                ..self
            }
        } else {
            self
        }
    }

    pub open spec fn begin_initial_command(self, peer: PeerId, local_height: u64) -> Option<NetworkCommand> {
        if local_height == 0 {
            self.begin_snapshot_command(peer, local_height)
        } else {
            None
        }
    }

    /// The tail after some change of it; any other stage is left alone.
    pub open spec fn with_tail(self, tail: TailSync) -> RuntimeView {
        self.at(MobileBootstrapStage::TailSync(tail))
    }

    /// The providers of a range are probed, unless they were a moment ago.
    pub open spec fn probe_range(self, base_height: u64, target_height: u64, now_ms: u64) -> RuntimeView {
        let fresh = probes_fresh(self.probes, now_ms);
        if probed_recently(fresh, base_height, target_height, now_ms) {
            RuntimeView { probes: fresh, ..self }
        } else {
            RuntimeView {
                probes: probes_without(fresh, base_height, target_height).push(
                    ProviderProbe { base_height, target_height, sent_ms: now_ms },
                ),
                ..self
            }
        }
    }

    pub open spec fn probe_range_commands(
        self,
        base_height: u64,
        target_height: u64,
        now_ms: u64,
        skip: Seq<PeerId>,
        headers: usize,
    ) -> Seq<NetworkCommand> {
        if probed_recently(probes_fresh(self.probes, now_ms), base_height, target_height, now_ms) {
            Seq::empty()
        } else {
            range_requests(self.peers, skip, base_height, covering_count(headers))
        }
    }

    /// The providers of the active suffix are probed.
    pub open spec fn probe_active(self, active: Option<ActiveSuffix>, now_ms: u64) -> RuntimeView {
        match active {
            Some(suffix) => match suffix.first_height {
                Some(first) => self.probe_range(sat_sub(first, 1), suffix.target_height, now_ms),
                None => self,
            },
            None => self,
        }
    }

    pub open spec fn probe_active_commands(self, active: Option<ActiveSuffix>, now_ms: u64) -> Seq<NetworkCommand> {
        match active {
            Some(suffix) => match suffix.first_height {
                Some(first) => self.probe_range_commands(
                    sat_sub(first, 1),
                    suffix.target_height,
                    now_ms,
                    Seq::empty(),
                    suffix.header_count,
                ),
                None => Seq::empty(),
            },
            None => Seq::empty(),
        }
    }

    /// The mempool may be pulled from `peer`.
    pub open spec fn may_pull_mempool(self, peer: PeerId, locally_selected: bool) -> bool {
        &&& locally_selected
        &&& self.stage is Complete
        &&& self.requested.len() < MAX_MEMPOOL_SYNC_PEERS
        &&& !self.requested.contains(peer)
    }

    /// A peer connected.
    pub open spec fn connect(self, peer: PeerId, info: MobilePeer, local_height: u64) -> RuntimeView {
        let peers = rows_insert(self.peers, peer, info);
        RuntimeView { peers, published_peers: peers.len() as usize, ..self }.begin_initial(peer, local_height)
    }

    /// A peer disconnected.
    pub open spec fn disconnect(self, peer: PeerId) -> RuntimeView {
        let peers = rows_remove(self.peers, peer);
        RuntimeView {
            peers,
            published_peers: peers.len() as usize,
            requested: peers_without(self.requested, peer),
            stage: match self.stage {
                MobileBootstrapStage::TailSync(tail) => MobileBootstrapStage::TailSync(tail.after_disconnect(peer)),
                stage => stage,
            },
            ..self
        }
    }

    /// The tail once the driver has released what it no longer waits for.
    pub open spec fn tail_released(self, tail: TailSync, local_height: u64) -> TailSync {
        let probed = tail.without_probe();
        if tail.waiting_start is None {
            probed
        } else if local_height >= tail.waiting_start->0 {
            probed.without_wait()
        } else {
            TailSync {
                peer: match alternate_to(self.peers, tail.peer) {
                    Some(other) => other,
                    None => tail.peer,
                },
                ..probed.without_wait()
            }
        }
    }

    /// One turn of the driver of the tail.
    pub open spec fn drive_tail(
        self,
        exact_active: bool,
        local_height: u64,
        now_ms: u64,
        serving_depth: u64,
    ) -> (RuntimeView, TailStep) {
        if exact_active || self.apply_inflight {
            (self, TailStep::Nothing)
        } else {
            match self.stage {
                MobileBootstrapStage::TailSync(tail) => if gap_beyond_serving(
                    local_height,
                    tail.observed_frontier,
                    serving_depth,
                ) {
                    let idle = self.at(MobileBootstrapStage::Idle);
                    (
                        idle.begin_snapshot(tail.peer),
                        TailStep::Snapshot(idle.begin_snapshot_command(tail.peer, local_height)->0),
                    )
                } else if tail.caught_up(local_height) {
                    (self, TailStep::Complete)
                } else if tail.holds_for_progress(local_height, now_ms) {
                    (self.with_tail(tail.without_probe()), TailStep::Nothing)
                } else {
                    let released = self.tail_released(tail, local_height);
                    if tail.awaits_reply(now_ms) {
                        (self.with_tail(released), TailStep::Nothing)
                    } else {
                        let next = self.with_tail(released.without_request());
                        if connected(self.peers, released.peer) {
                            (
                                next,
                                TailStep::Request { peer: released.peer, start_height: sat_add(local_height, 1) },
                            )
                        } else if self.peers.len() > 0 {
                            (
                                next,
                                TailStep::Request {
                                    peer: self.peers[0].peer,
                                    start_height: sat_add(local_height, 1),
                                },
                            )
                        } else {
                            (next, TailStep::Nothing)
                        }
                    }
                },
                _ => (self, TailStep::Nothing),
            }
        }
    }
}

impl MobileP2PRuntime {
    pub fn new() -> (runtime: MobileP2PRuntime)
        ensures
            runtime@.wf(),
            runtime@.stage is Idle,
            runtime@.peers == PeerRows::empty(),
            runtime@.requested == Seq::<PeerId>::empty(),
            runtime@.probes == Seq::<ProviderProbe>::empty(),
            runtime@.generation == 0,
            runtime@.phase == 0,
            !runtime@.apply_inflight,
            runtime@.slots == (SnapshotSlots {
                header_staging: false,
                validated_headers: false,
                offer: false,
                verified_boundary: false,
                transport: false,
                segment_staging: false,
            }),
    {
        MobileP2PRuntime {
            peers: PeerTable::new(),
            requested: Vec::new(),
            stage: MobileBootstrapStage::Idle,
            complete: false,
            slots: SnapshotSlots {
                header_staging: false,
                validated_headers: false,
                offer: false,
                verified_boundary: false,
                transport: false,
                segment_staging: false,
            },
            generation: 0,
            apply_inflight: false,
            probes: Vec::new(),
            phase: 0,
            published_peers: 0,
        }
    }

    /// The number of connected peers.
    pub fn peer_count(&self) -> (n: usize)
        ensures
            n == self@.peers.len(),
    {
        self.peers.len()
    }

    /// The failure domain of a connected peer.
    pub fn peer_failure_domain(&self, peer: &PeerId) -> (domain: Option<FailureDomain>)
        requires
            self@.wf(),
        ensures
            domain == (if rows_map(self@.peers).contains_key(*peer) {
                Some(rows_map(self@.peers)[*peer].failure_domain)
            } else {
                None
            }),
    {
        match self.peers.get(peer) {
            Some(info) => Some(info.failure_domain),
            None => None,
        }
    }

    /// The failure domain that a peer's objects count under: its own while it is
    /// connected, else the one at hand.
    pub fn failure_domain_or(&self, peer: &PeerId, fallback: FailureDomain) -> (domain: FailureDomain)
        requires
            self@.wf(),
        ensures
            domain == (if rows_map(self@.peers).contains_key(*peer) {
                rows_map(self@.peers)[*peer].failure_domain
            } else {
                fallback
            }),
    {
        match self.peer_failure_domain(peer) {
            Some(domain) => domain,
            None => fallback,
        }
    }

    /// Whether the bootstrap has completed.
    pub fn bootstrap_complete_flag(&self) -> (complete: bool)
        requires
            self@.wf(),
        ensures
            complete == self@.stage is Complete,
    {
        self.complete
    }

    /// Whether a snapshot bootstrap owns the control plane.
    ///
    /// Header and tail events must not replace it.
    pub fn snapshot_bootstrap_active(&self) -> (active: bool)
        ensures
            active == self@.stage.owns_snapshot(),
    {
        self.stage.snapshot_active()
    }

    /// Ask `peer` for a snapshot manifest, unless a snapshot bootstrap is under way.
    pub fn begin_snapshot_bootstrap(&mut self, peer: PeerId, local_height: u64) -> (command: Option<NetworkCommand>)
        requires
            old(self)@.wf(),
            peer.wf(),
        ensures
            final(self)@ == old(self)@.begin_snapshot(peer),
            command == old(self)@.begin_snapshot_command(peer, local_height),
            final(self)@.wf(),
    {
        self.generation = self.generation.saturating_add(1);
        if self.stage.snapshot_active() {
            return None;
        }
        let generation: u64 = self.generation;
        self.stage = MobileBootstrapStage::WaitingManifest { generation, peer };
        self.complete = false;
        self.probes.clear();
        self.phase = PHASE_MANIFEST;
        Some(
            NetworkCommand::RequestStateManifest {
                generation,
                peer,
                requester_height: local_height,
                requested_manifest_digest: [0u8; 32],
            },
        )
    }

    /// The manifest request of this generation failed, or could not be queued.
    pub fn manifest_request_failed(&mut self, generation: u64, from: &PeerId)
        requires
            old(self)@.wf(),
        ensures
            final(self)@ == (if old(self)@.stage == (MobileBootstrapStage::WaitingManifest {
                generation,
                peer: *from,
            }) {
                old(self)@.at(MobileBootstrapStage::Idle)
            } else {
                old(self)@
            }),
            final(self)@.wf(),
    {
        if let MobileBootstrapStage::WaitingManifest { generation: expected, peer } = self.stage {
            if expected == generation && peer.same(from) {
                self.stage = MobileBootstrapStage::Idle;
            }
        }
    }

    /// Start the bootstrap with the first peer.
    pub fn begin_initial_bootstrap(&mut self, peer: PeerId, local_height: u64) -> (command: Option<NetworkCommand>)
        requires
            old(self)@.wf(),
            peer.wf(),
        ensures
            final(self)@ == old(self)@.begin_initial(peer, local_height),
            command == old(self)@.begin_initial_command(peer, local_height),
            final(self)@.wf(),
    {
        if local_height == 0 {
            return self.begin_snapshot_bootstrap(peer, local_height);
        }
        if let MobileBootstrapStage::Idle = self.stage {
            self.stage = MobileBootstrapStage::TailSync(TailSync::new(local_height, peer));
            self.complete = false;
            self.phase = PHASE_TAIL;
        }
        None
    }
}

/// Forgetting old probes keeps the ranges of the others distinct.
proof fn lemma_probes_distinct(probes: Seq<ProviderProbe>, keep: spec_fn(ProviderProbe) -> bool)
    requires
        forall|i: int, j: int|
            0 <= i < j < probes.len() ==> !probe_is(
                #[trigger] probes[i],
                #[trigger] probes[j].base_height,
                probes[j].target_height,
            ),
    ensures
        forall|i: int, j: int|
            0 <= i < j < probes.filter(keep).len() ==> !probe_is(
                #[trigger] probes.filter(keep)[i],
                #[trigger] probes.filter(keep)[j].base_height,
                probes.filter(keep)[j].target_height,
            ),
    decreases probes.len(),
{
    reveal(Seq::filter);
    if probes.len() > 0 {
        let rest = probes.drop_last();
        lemma_probes_distinct(rest, keep);
        lemma_filter_members(rest, keep);
        let out = probes.filter(keep);
        let kept = rest.filter(keep);
        assert forall|i: int, j: int| 0 <= i < j < out.len() implies !probe_is(
            #[trigger] out[i],
            #[trigger] out[j].base_height,
            out[j].target_height,
        ) by {
            if j < kept.len() {
                assert(!probe_is(kept[i], kept[j].base_height, kept[j].target_height));
            } else {
                assert(kept.contains(kept[i]));
                let m = choose|m: int| 0 <= m < rest.len() && rest[m] == kept[i];
                let last = probes[probes.len() - 1];
                assert(!probe_is(probes[m], last.base_height, last.target_height));
            }
        }
    }
}

impl MobileP2PRuntime {
    /// Forget the probes that are too old to matter.
    fn forget_old_probes(&mut self, now_ms: u64)
        requires
            old(self)@.wf(),
        ensures
            final(self)@ == (RuntimeView { probes: probes_fresh(old(self)@.probes, now_ms), ..old(self)@ }),
            final(self)@.wf(),
    {
        let ghost keep = |probe: ProviderProbe| probe_retained(probe, now_ms);
        let ghost before = self.probes@;
        let mut kept: Vec<ProviderProbe> = Vec::new();
        let mut i: usize = 0;
        while i < self.probes.len()
            invariant
                i <= self.probes@.len(),
                self.probes@ == before,
                keep == (|probe: ProviderProbe| probe_retained(probe, now_ms)),
                kept@ == before.take(i as int).filter(keep),
            decreases self.probes@.len() - i,
        {
            proof {
                lemma_filter_step(before, keep, i as int);
            }
            let probe = self.probes[i];
            if now_ms.saturating_sub(probe.sent_ms) < PROBE_RETAIN_MS {
                kept.push(probe);
            }
            i += 1;
        }
        assert(before.take(i as int) =~= before);
        proof {
            lemma_probes_distinct(before, keep);
        }
        self.probes = kept;
    }

    /// Forget the probe of one range.
    pub fn forget_probe(&mut self, base_height: u64, target_height: u64)
        requires
            old(self)@.wf(),
        ensures
            final(self)@ == (RuntimeView {
                probes: probes_without(old(self)@.probes, base_height, target_height),
                ..old(self)@
            }),
            final(self)@.wf(),
    {
        let ghost keep = |probe: ProviderProbe| !probe_is(probe, base_height, target_height);
        let ghost before = self.probes@;
        let mut kept: Vec<ProviderProbe> = Vec::new();
        let mut i: usize = 0;
        while i < self.probes.len()
            invariant
                i <= self.probes@.len(),
                self.probes@ == before,
                keep == (|probe: ProviderProbe| !probe_is(probe, base_height, target_height)),
                kept@ == before.take(i as int).filter(keep),
            decreases self.probes@.len() - i,
        {
            proof {
                lemma_filter_step(before, keep, i as int);
            }
            let probe = self.probes[i];
            if probe.base_height != base_height || probe.target_height != target_height {
                kept.push(probe);
            }
            i += 1;
        }
        assert(before.take(i as int) =~= before);
        proof {
            lemma_probes_distinct(before, keep);
        }
        self.probes = kept;
    }

    /// Requests for one header range to the first peers of the table, some left out.
    fn requests_for_range(&self, skip: &Vec<PeerId>, start_height: u64, count: u16) -> (commands: Vec<NetworkCommand>)
        ensures
            commands@ == range_requests(self@.peers, skip@, start_height, count),
    {
        let ghost pass = |entry: PeerEntry| !skip@.contains(entry.peer);
        let ghost ask = |entry: PeerEntry| NetworkCommand::FetchHeaders { peer: entry.peer, start_height, count };
        let ghost rows = self.peers@;
        let mut commands: Vec<NetworkCommand> = Vec::new();
        let mut i: usize = 0;
        while i < self.peers.entries.len() && commands.len() < PROBE_FANOUT
            invariant
                i <= rows.len(),
                rows == self.peers@,
                pass == (|entry: PeerEntry| !skip@.contains(entry.peer)),
                ask == (|entry: PeerEntry| NetworkCommand::FetchHeaders { peer: entry.peer, start_height, count }),
                commands@ == rows.take(i as int).filter(pass).map_values(ask),
                commands@.len() <= PROBE_FANOUT,
            decreases rows.len() - i,
        {
            proof {
                lemma_filter_step(rows, pass, i as int);
                let done = rows.take(i as int).filter(pass);
                assert(done.push(rows[i as int]).map_values(ask) =~= done.map_values(ask).push(ask(rows[i as int])));
            }
            let peer = self.peers.entries[i].peer;
            if !contains_peer(skip, &peer) {
                commands.push(NetworkCommand::FetchHeaders { peer, start_height, count });
            }
            i += 1;
        }
        proof {
            let done = rows.take(i as int).filter(pass);
            let all = rows.filter(pass);
            assert(rows =~= rows.take(i as int) + rows.skip(i as int));
            Seq::filter_distributes_over_add(rows.take(i as int), rows.skip(i as int), pass);
            assert(all.len() >= done.len());
            if i == rows.len() {
                assert(rows.take(i as int) =~= rows);
            }
            let n = if all.len() < PROBE_FANOUT {
                all.len() as int
            } else {
                PROBE_FANOUT as int
            };
            assert(n == done.len());
            assert(all.take(n) =~= done);
        }
        commands
    }

    /// Whether the range was probed too recently to be probed again.
    fn was_probed_recently(&self, base_height: u64, target_height: u64, now_ms: u64) -> (recent: bool)
        ensures
            recent == probed_recently(self@.probes, base_height, target_height, now_ms),
    {
        let mut i: usize = 0;
        while i < self.probes.len()
            invariant
                i <= self.probes@.len(),
                forall|j: int|
                    0 <= j < i ==> !(probe_is(#[trigger] self.probes@[j], base_height, target_height)
                        && sat_sub(now_ms, self.probes@[j].sent_ms) < PROBE_REPEAT_MS),
            decreases self.probes@.len() - i,
        {
            let probe = self.probes[i];
            if probe.base_height == base_height && probe.target_height == target_height
                && now_ms.saturating_sub(probe.sent_ms) < PROBE_REPEAT_MS {
                assert(probe_is(self.probes@[i as int], base_height, target_height));
                return true;
            }
            i += 1;
        }
        false
    }

    /// Probe the providers of a range, unless they were probed a moment ago.
    pub fn probe_providers(
        &mut self,
        base_height: u64,
        target_height: u64,
        now_ms: u64,
        skip: &Vec<PeerId>,
        headers: usize,
    ) -> (commands: Vec<NetworkCommand>)
        requires
            old(self)@.wf(),
        ensures
            final(self)@ == old(self)@.probe_range(base_height, target_height, now_ms),
            commands@ == old(self)@.probe_range_commands(base_height, target_height, now_ms, skip@, headers),
            final(self)@.wf(),
    {
        self.forget_old_probes(now_ms);
        let ghost fresh = self.probes@;
        if self.was_probed_recently(base_height, target_height, now_ms) {
            return Vec::new();
        }
        self.forget_probe(base_height, target_height);
        let ghost kept = self@;
        let ghost others = kept.probes;
        proof {
            let keep = |probe: ProviderProbe| !probe_is(probe, base_height, target_height);
            lemma_filter_members(fresh, keep);
            assert forall|j: int| 0 <= j < others.len() implies !probe_is(
                #[trigger] others[j],
                base_height,
                target_height,
            ) by {
                assert(others.contains(others[j]));
            }
        }
        self.probes.push(ProviderProbe { base_height, target_height, sent_ms: now_ms });
        assert forall|i: int, j: int| 0 <= i < j < self.probes@.len() implies !probe_is(
            #[trigger] self.probes@[i],
            #[trigger] self.probes@[j].base_height,
            self.probes@[j].target_height,
        ) by {
            if j == others.len() {
                assert(!probe_is(others[i], base_height, target_height));
            } else {
                assert(kept.wf());
                assert(!probe_is(kept.probes[i], kept.probes[j].base_height, kept.probes[j].target_height));
            }
        }
        let count: u16 = if headers < HEADER_BATCH_MAX as usize {
            (headers + 1) as u16
        } else {
            HEADER_BATCH_MAX
        };
        self.requests_for_range(skip, base_height, count)
    }

    /// Ask a few peers for the exact range of the active suffix.
    ///
    /// This recovers providers for the suffix that is already being fetched;
    /// it starts no other plan.
    pub fn probe_active_suffix_providers(&mut self, active: Option<ActiveSuffix>, now_ms: u64) -> (commands: Vec<
        NetworkCommand,
    >)
        requires
            old(self)@.wf(),
        ensures
            final(self)@ == old(self)@.probe_active(active, now_ms),
            commands@ == old(self)@.probe_active_commands(active, now_ms),
            final(self)@.wf(),
    {
        match active {
            Some(suffix) => match suffix.first_height {
                Some(first) => {
                    let none: Vec<PeerId> = Vec::new();
                    self.probe_providers(
                        first.saturating_sub(1),
                        suffix.target_height,
                        now_ms,
                        &none,
                        suffix.header_count,
                    )
                },
                None => Vec::new(),
            },
            None => Vec::new(),
        }
    }
}

/// Header requests that follow an event.
#[derive(Debug)]
pub struct HeaderRequests {
    /// Sent as far as the request lane has room.
    pub probes: Vec<NetworkCommand>,
    /// Waits for room in the request lane.
    pub fetch: Option<NetworkCommand>,
}

impl HeaderRequests {
    /// No request.
    pub open spec fn are_none(self) -> bool {
        self.probes@.len() == 0 && self.fetch is None
    }

    /// These probes and nothing else.
    pub open spec fn are_probes(self, probes: Seq<NetworkCommand>) -> bool {
        self.probes@ == probes && self.fetch is None
    }

    /// One request for a header range and nothing else.
    pub open spec fn are_fetch(self, peer: PeerId, start_height: u64, count: u16) -> bool {
        &&& self.probes@.len() == 0
        &&& self.fetch == Some(NetworkCommand::FetchHeaders { peer, start_height, count })
    }

    fn none() -> (requests: HeaderRequests)
        ensures
            requests.are_none(),
    {
        HeaderRequests { probes: Vec::new(), fetch: None }
    }

    fn one(peer: PeerId, start_height: u64, count: u16) -> (requests: HeaderRequests)
        ensures
            requests.are_fetch(peer, start_height, count),
    {
        HeaderRequests {
            probes: Vec::new(),
            fetch: Some(NetworkCommand::FetchHeaders { peer, start_height, count }),
        }
    }
}

/// What a newly connected peer gives rise to.
#[derive(Debug)]
pub struct ConnectActions {
    /// Request a snapshot manifest.
    pub manifest: Option<NetworkCommand>,
    /// Pull the mempool from the new peer.
    pub pull_mempool: bool,
    pub headers: HeaderRequests,
}

/// What may be shown about the lost transport of the active suffix.
#[derive(Clone, Copy, Debug, PartialEq, Eq, Structural)]
pub enum RecoveryReason {
    Stalled,
    Extinct,
}

/// Dropping one peer from a list leaves the others, still distinct.
proof fn lemma_without_peer(peers: Seq<PeerId>, peer: PeerId)
    requires
        peers.no_duplicates(),
    ensures
        peers_without(peers, peer).no_duplicates(),
        peers_without(peers, peer).len() <= peers.len(),
        forall|p: PeerId| #[trigger] peers_without(peers, peer).contains(p) <==> peers.contains(p) && p != peer,
{
    let keep = other_than(peer);
    lemma_filter_no_duplicates(peers, keep);
    lemma_filter_members(peers, keep);
    peers.lemma_filter_len(keep);
}

impl MobileP2PRuntime {
    /// A peer connected.
    ///
    /// The bootstrap starts if it has not. While the tail or an exact suffix
    /// owns header acquisition, the new peer is not asked for headers of its own.
    pub fn peer_connected(
        &mut self,
        peer: PeerId,
        info: MobilePeer,
        local_height: u64,
        active: Option<ActiveSuffix>,
        now_ms: u64,
    ) -> (actions: ConnectActions)
        requires
            old(self)@.wf(),
            peer.wf(),
        ensures
            ({
                let joined = old(self)@.connect(peer, info, local_height);
                let table = RuntimeView {
                    peers: joined.peers,
                    published_peers: joined.published_peers,
                    ..old(self)@
                };
                &&& final(self)@ == (if active is Some {
                    joined.probe_active(active, now_ms)
                } else {
                    joined
                })
                &&& actions.manifest == table.begin_initial_command(peer, local_height)
                &&& actions.pull_mempool == joined.may_pull_mempool(peer, info.locally_selected)
                &&& if active is Some {
                    actions.headers.are_probes(joined.probe_active_commands(active, now_ms))
                } else if joined.stage is TailSync {
                    actions.headers.are_none()
                } else {
                    actions.headers.are_fetch(peer, sat_add(local_height, 1), HEADER_BATCH_MAX)
                }
            }),
            final(self)@.wf(),
    {
        let ghost before = self@;
        self.peers.insert(peer, info);
        self.published_peers = self.peers.len();
        proof {
            assert forall|i: int| 0 <= i < before.requested.len() implies connected(
                self@.peers,
                #[trigger] before.requested[i],
            ) by {
                let p = before.requested[i];
                assert(connected(before.peers, p));
                let r = choose|r: int| 0 <= r < before.peers.len() && #[trigger] before.peers[r].peer == p;
                assert(self@.peers[r].peer == p);
            }
        }
        let manifest = self.begin_initial_bootstrap(peer, local_height);
        let complete: bool = match self.stage {
            MobileBootstrapStage::Complete => true,
            _ => false,
        };
        let pull_mempool: bool = info.locally_selected && complete && self.requested.len()
            < MAX_MEMPOOL_SYNC_PEERS && !contains_peer(&self.requested, &peer);
        let tail_active: bool = match self.stage {
            MobileBootstrapStage::TailSync(_) => true,
            _ => false,
        };
        let headers = if active.is_some() {
            HeaderRequests { probes: self.probe_active_suffix_providers(active, now_ms), fetch: None }
        } else if tail_active {
            HeaderRequests::none()
        } else {
            HeaderRequests::one(peer, local_height.saturating_add(1), HEADER_BATCH_MAX)
        };
        ConnectActions { manifest, pull_mempool, headers }
    }

    /// The request to pull the mempool from a connected peer was queued.
    pub fn mempool_sync_queued(&mut self, peer: PeerId)
        requires
            old(self)@.wf(),
            connected(old(self)@.peers, peer),
            old(self)@.requested.contains(peer) || old(self)@.requested.len() < MAX_MEMPOOL_SYNC_PEERS,
        ensures
            final(self)@ == (RuntimeView {
                requested: if old(self)@.requested.contains(peer) {
                    old(self)@.requested
                } else {
                    old(self)@.requested.push(peer)
                },
                ..old(self)@
            }),
            final(self)@.wf(),
    {
        if !contains_peer(&self.requested, &peer) {
            self.requested.push(peer);
        }
    }

    /// A peer disconnected.
    pub fn peer_disconnected(&mut self, peer: &PeerId)
        requires
            old(self)@.wf(),
        ensures
            final(self)@ == old(self)@.disconnect(*peer),
            final(self)@.wf(),
    {
        let ghost before = self@;
        let ghost keep = other_than(*peer);
        if let MobileBootstrapStage::TailSync(tail) = &mut self.stage {
            tail.note_disconnect(peer);
        }
        self.peers.remove(peer);
        let mut kept: Vec<PeerId> = Vec::new();
        let mut i: usize = 0;
        while i < self.requested.len()
            invariant
                i <= self.requested@.len(),
                keep == other_than(*peer),
                kept@ == self.requested@.take(i as int).filter(keep),
            decreases self.requested@.len() - i,
        {
            proof {
                lemma_filter_step(self.requested@, keep, i as int);
            }
            if !self.requested[i].same(peer) {
                kept.push(self.requested[i]);
            }
            i += 1;
        }
        assert(self.requested@.take(i as int) =~= self.requested@);
        proof {
            lemma_without_peer(before.requested, *peer);
            lemma_rows_remove(before.peers, *peer);
            assert forall|k: int| 0 <= k < kept@.len() implies connected(self.peers@, #[trigger] kept@[k]) by {
                assert(kept@.contains(kept@[k]));
                let m = choose|m: int| 0 <= m < before.requested.len() && before.requested[m] == kept@[k];
                assert(connected(before.peers, before.requested[m]));
            }
        }
        self.requested = kept;
        self.published_peers = self.peers.len();
    }

    /// A header batch arrived; the tail takes it if it answers its request.
    pub fn note_tail_header_batch(&mut self, from: &PeerId, heights: &Vec<u64>, now_ms: u64)
        requires
            old(self)@.wf(),
        ensures
            final(self)@ == (match old(self)@.stage {
                MobileBootstrapStage::TailSync(tail) => old(self)@.with_tail(
                    tail.after_batch(*from, heights@, now_ms),
                ),
                _ => old(self)@,
            }),
            final(self)@.wf(),
    {
        if let MobileBootstrapStage::TailSync(tail) = &mut self.stage {
            tail.note_batch(from, heights, now_ms);
        }
    }

    /// A header request failed; the tail may ask again.
    pub fn headers_request_failed(&mut self, from: &PeerId, start_height: u64)
        requires
            old(self)@.wf(),
        ensures
            final(self)@ == (match old(self)@.stage {
                MobileBootstrapStage::TailSync(tail) => old(self)@.with_tail(
                    tail.after_failure(*from, start_height),
                ),
                _ => old(self)@,
            }),
            final(self)@.wf(),
    {
        if let MobileBootstrapStage::TailSync(tail) = &mut self.stage {
            tail.note_failure(from, start_height);
        }
    }

    /// Once the bootstrap is complete, whether the active suffix lost its transport.
    ///
    /// If so, providers of the same range are to be probed.
    pub fn drive_live_suffix_recovery(&self, exact_active: bool, stalled: bool, extinct: bool) -> (reason: Option<
        RecoveryReason,
    >)
        ensures
            reason == (if self@.stage is Complete && exact_active {
                if stalled {
                    Some(RecoveryReason::Stalled)
                } else if extinct {
                    Some(RecoveryReason::Extinct)
                } else {
                    None
                }
            } else {
                None
            }),
    {
        match self.stage {
            MobileBootstrapStage::Complete => {
                if !exact_active {
                    None
                } else if stalled {
                    Some(RecoveryReason::Stalled)
                } else if extinct {
                    Some(RecoveryReason::Extinct)
                } else {
                    None
                }
            },
            _ => None,
        }
    }

    /// One turn of the driver of the tail.
    ///
    /// An exact suffix, or its application, always comes first. The tail is
    /// complete only when a probe right above the durable tip came back empty
    /// and nothing higher was observed. A batch that did not become canonical
    /// in time is asked for again, through another connected peer if there is
    /// one.
    pub fn drive_bootstrap_tail(
        &mut self,
        exact_active: bool,
        local_height: u64,
        now_ms: u64,
        serving_depth: u64,
    ) -> (step: TailStep)
        requires
            old(self)@.wf(),
        ensures
            (final(self)@, step) == old(self)@.drive_tail(exact_active, local_height, now_ms, serving_depth),
            final(self)@.wf(),
    {
        if exact_active || self.apply_inflight {
            return TailStep::Nothing;
        }
        let tail = match self.stage {
            MobileBootstrapStage::TailSync(tail) => tail,
            _ => {
                return TailStep::Nothing;
            },
        };
        if gap_requires_snapshot_sync(local_height, tail.observed_frontier, serving_depth) {
            self.stage = MobileBootstrapStage::Idle;
            return match self.begin_snapshot_bootstrap(tail.peer, local_height) {
                Some(command) => TailStep::Snapshot(command),
                None => TailStep::Nothing,
            };
        }
        if tail.is_caught_up(local_height) {
            return TailStep::Complete;
        }
        let mut next = tail;
        next.empty_probe_start = None;
        if tail.is_holding(local_height, now_ms) {
            self.stage = MobileBootstrapStage::TailSync(next);
            return TailStep::Nothing;
        }
        if let Some(start) = tail.waiting_start {
            next.waiting_start = None;
            next.waiting_since = None;
            if local_height < start {
                if let Some(other) = self.peers.alternate(&tail.peer) {
                    proof {
                        lemma_rows_remove(self.peers@, tail.peer);
                        assert(rows_remove(self.peers@, tail.peer)[0].peer.wf());
                    }
                    next.peer = other;
                }
            }
        }
        if tail.is_awaiting(now_ms) {
            self.stage = MobileBootstrapStage::TailSync(next);
            return TailStep::Nothing;
        }
        next.inflight_start = None;
        next.inflight_since = None;
        self.stage = MobileBootstrapStage::TailSync(next);
        assert(self@ == old(self)@.with_tail(
            old(self)@.tail_released(tail, local_height).without_request(),
        ));
        let start_height: u64 = local_height.saturating_add(1);
        if self.peers.find(&next.peer).is_some() {
            TailStep::Request { peer: next.peer, start_height }
        } else if self.peers.len() > 0 {
            TailStep::Request { peer: self.peers.entries[0].peer, start_height }
        } else {
            TailStep::Nothing
        }
    }

    /// The next tail request was queued, or found no room.
    pub fn tail_request_sent(&mut self, peer: PeerId, start_height: u64, queued: bool, now_ms: u64)
        requires
            old(self)@.wf(),
            peer.wf(),
        ensures
            final(self)@ == (match old(self)@.stage {
                MobileBootstrapStage::TailSync(tail) => old(self)@.with_tail(
                    tail.after_request(peer, start_height, queued, now_ms),
                ),
                _ => old(self)@,
            }),
            final(self)@.wf(),
    {
        if let MobileBootstrapStage::TailSync(tail) = &mut self.stage {
            tail.note_request(peer, start_height, queued, now_ms);
        }
    }

    /// The completion of the tail was published.
    ///
    /// The mempool may now be pulled: the peers to ask are locally selected,
    /// were not asked before, and come in the order of their encodings.
    pub fn bootstrap_published(&mut self) -> (pull_from: Vec<PeerId>)
        requires
            old(self)@.wf(),
            old(self)@.stage is TailSync,
        ensures
            final(self)@ == (RuntimeView {
                stage: MobileBootstrapStage::Complete,
                complete: true,
                phase: PHASE_SYNCED,
                ..old(self)@
            }),
            lowest_by_encoding(
                pull_from@,
                eligible_peers(old(self)@.peers, old(self)@.requested),
                MAX_MEMPOOL_SYNC_PEERS - old(self)@.requested.len(),
            ),
            final(self)@.wf(),
    {
        self.stage = MobileBootstrapStage::Complete;
        self.complete = true;
        self.phase = PHASE_SYNCED;
        let room: usize = MAX_MEMPOOL_SYNC_PEERS - self.requested.len();
        self.peers.lowest_unrequested(&self.requested, room)
    }

    /// Whether a fetched suffix may be applied now; if so, no other one may until it is finished.
    pub fn begin_apply(&mut self, suffix_complete: bool) -> (start: bool)
        requires
            old(self)@.wf(),
        ensures
            start == (suffix_complete && !old(self)@.apply_inflight),
            final(self)@ == (if start {
                RuntimeView { apply_inflight: true, ..old(self)@ }
            } else {
                old(self)@
            }),
            final(self)@.wf(),
    {
        if !suffix_complete || self.apply_inflight {
            return false;
        }
        self.apply_inflight = true;
        true
    }

    /// An applied suffix made `committed_height` canonical.
    pub fn suffix_committed(&mut self, committed_height: u64)
        requires
            old(self)@.wf(),
        ensures
            final(self)@ == (RuntimeView {
                probes: Seq::empty(),
                stage: match old(self)@.stage {
                    MobileBootstrapStage::TailSync(tail) => MobileBootstrapStage::TailSync(
                        tail.after_commit(committed_height),
                    ),
                    stage => stage,
                },
                ..old(self)@
            }),
            final(self)@.wf(),
    {
        if let MobileBootstrapStage::TailSync(tail) = &mut self.stage {
            tail.note_commit(committed_height);
        }
        self.probes.clear();
    }

    /// The application of a suffix is over, whatever came of it.
    pub fn finish_apply(&mut self)
        requires
            old(self)@.wf(),
        ensures
            final(self)@ == (RuntimeView { apply_inflight: false, ..old(self)@ }),
            final(self)@.wf(),
    {
        self.apply_inflight = false;
    }

    /// A block was announced by `from`.
    ///
    /// A higher block is a hint for the tail, or a reason to look for
    /// providers of the suffix that is being fetched; otherwise its range is
    /// asked for. A competing block at or below the tip calls for one bounded
    /// window of ancestry.
    pub fn header_announcement(
        &mut self,
        from: PeerId,
        height: u64,
        hash: &Digest,
        local_height: u64,
        local_hash: &Digest,
        active: Option<ActiveSuffix>,
        now_ms: u64,
    ) -> (requests: HeaderRequests)
        requires
            old(self)@.wf(),
        ensures
            final(self)@ == (if height <= local_height {
                old(self)@
            } else {
                match old(self)@.stage {
                    MobileBootstrapStage::TailSync(tail) => old(self)@.with_tail(tail.after_announcement(height)),
                    _ => old(self)@.probe_active(active, now_ms),
                }
            }),
            if height > local_height {
                if old(self)@.stage is TailSync {
                    requests.are_none()
                } else if active is Some {
                    requests.are_probes(old(self)@.probe_active_commands(active, now_ms))
                } else {
                    let start_height = sat_add(local_height, 1);
                    requests.are_fetch(from, start_height, range_count(start_height, height))
                }
            } else if height == local_height && *hash == *local_hash {
                requests.are_none()
            } else {
                let start_height = sat_sub(local_height, 511);
                requests.are_fetch(from, start_height, range_count(start_height, local_height))
            },
            final(self)@.wf(),
    {
        if height > local_height {
            if let MobileBootstrapStage::TailSync(tail) = &mut self.stage {
                tail.note_announcement(height);
                return HeaderRequests::none();
            }
            if active.is_some() {
                return HeaderRequests {
                    probes: self.probe_active_suffix_providers(active, now_ms),
                    fetch: None,
                };
            }
            let start_height: u64 = local_height.saturating_add(1);
            HeaderRequests::one(from, start_height, header_range_count(start_height, height))
        } else if height == local_height && hash_eq(hash, local_hash) {
            HeaderRequests::none()
        } else {
            let start_height: u64 = local_height.saturating_sub(511);
            HeaderRequests::one(from, start_height, header_range_count(start_height, local_height))
        }
    }
}

} // verus!
