//! What each step of the snapshot bootstrap comes to.

use vstd::prelude::*;
use crate::bootstrap::{MobileBootstrapStage, NetworkCommand};
use crate::bytes::Digest;
use crate::p2p_runtime::{MobileP2PRuntime, RuntimeView, SnapshotSlots};
use crate::peer::PeerId;
use crate::snapshot::{
    post_install_request, HeaderBatchStep, HeadersFailure, HeadersStep, InstallError, ManifestStep,
    RequestFailureKind, SnapshotBoundary, TerminalStep,
};

verus! {

/// A manifest counts only from the peer and under the generation that were
/// asked, and only if it promises a block.
pub proof fn lemma_only_the_awaited_manifest_is_accepted(
    runtime: MobileP2PRuntime,
    generation: u64,
    from: PeerId,
    tip_height: u64,
    step: ManifestStep,
)
    requires
        call_ensures(MobileP2PRuntime::state_manifest, (&runtime, generation, &from, tip_height), step),
    ensures
        step is Accept <==> runtime.stage == (MobileBootstrapStage::WaitingManifest { generation, peer: from })
            && tip_height > 0,
        step is EmptySnapshot <==> runtime.stage == (MobileBootstrapStage::WaitingManifest { generation, peer: from })
            && tip_height == 0,
{
}

/// An accepted manifest fixes the boundary. If the chain ends there nothing is
/// missing; otherwise the headers right above the tip are asked for, up to the
/// boundary or one batch.
pub proof fn lemma_a_manifest_fixes_the_boundary(
    runtime: &mut MobileP2PRuntime,
    generation: u64,
    peer: PeerId,
    boundary: SnapshotBoundary,
    local_height: u64,
    step: HeadersStep,
)
    requires
        old(runtime)@.stage == (MobileBootstrapStage::WaitingManifest { generation, peer }),
        local_height < u64::MAX,
        call_ensures(MobileP2PRuntime::manifest_staged, (runtime, &boundary, local_height), step),
    ensures
        final(runtime)@.stage == (MobileBootstrapStage::ManifestReceived {
            generation,
            peer,
            boundary_height: boundary.height,
            boundary_hash: boundary.hash,
            manifest_digest: boundary.manifest_digest,
        }),
        final(runtime)@.phase == 2,
        final(runtime)@.slots.offer,
        final(runtime)@.slots.header_staging <==> boundary.height != local_height,
        final(runtime)@.peers == old(runtime)@.peers,
        final(runtime)@.generation == old(runtime)@.generation,
        boundary.height == local_height <==> step is Seal,
        step matches HeadersStep::Fetch(command) ==> match command {
            NetworkCommand::FetchSnapshotHeaders { generation: g, token, peer: asked, start_height, count } => {
                &&& g == generation
                &&& token == generation
                &&& asked == peer
                &&& start_height == local_height + 1
                &&& local_height < boundary.height <= local_height + 512 ==> count == boundary.height - local_height
                &&& boundary.height > local_height + 512 ==> count == 512
            },
            _ => false,
        },
{
}

/// Once the first headers are asked for, they are staged from their start height.
pub proof fn lemma_headers_are_staged_from_their_start(
    runtime: &mut MobileP2PRuntime,
    generation: u64,
    peer: PeerId,
    boundary_height: u64,
    boundary_hash: Digest,
    manifest_digest: Digest,
    start_height: u64,
    boundary_chainwork: Digest,
)
    requires
        old(runtime)@.stage == (MobileBootstrapStage::ManifestReceived {
            generation,
            peer,
            boundary_height,
            boundary_hash,
            manifest_digest,
        }),
        call_ensures(MobileP2PRuntime::first_headers_queued, (runtime, start_height, boundary_chainwork), ()),
    ensures
        final(runtime)@ == (RuntimeView {
            stage: MobileBootstrapStage::StagingHeaders {
                generation,
                token: generation,
                peer,
                next_height: start_height,
                boundary_height,
                boundary_hash,
                boundary_chainwork,
                manifest_digest,
            },
            ..old(runtime)@
        }),
{
}

/// A header batch is appended only if it is the answer to the very request that
/// is outstanding; another generation is passed over, any other difference is
/// an error.
pub proof fn lemma_only_the_awaited_headers_are_appended(
    runtime: MobileP2PRuntime,
    generation: u64,
    token: u64,
    from: PeerId,
    start_height: u64,
    received: usize,
    step: HeaderBatchStep,
)
    requires
        call_ensures(
            MobileP2PRuntime::snapshot_headers_batch,
            (&runtime, generation, token, &from, start_height, received),
            step,
        ),
    ensures
        match runtime.stage {
            MobileBootstrapStage::StagingHeaders { generation: g, token: t, peer, next_height, .. } => {
                let fits = t == token && peer == from && next_height == start_height;
                &&& step is Stale <==> g != generation
                &&& step is Mismatch <==> g == generation && !fits
                &&& step is Empty <==> g == generation && fits && received == 0
                &&& step is StagingMissing <==> g == generation && fits && received > 0
                    && !runtime.slots.header_staging
                &&& step is Append <==> g == generation && fits && received > 0 && runtime.slots.header_staging
            },
            _ => step is Stale,
        },
{
}

/// Headers are asked for up to the boundary, from where the staging stands; the
/// staging is sealed only once it is beyond the boundary.
pub proof fn lemma_headers_are_fetched_up_to_the_boundary(
    runtime: &mut MobileP2PRuntime,
    generation: u64,
    token: u64,
    peer: PeerId,
    at: u64,
    boundary_height: u64,
    boundary_hash: Digest,
    boundary_chainwork: Digest,
    manifest_digest: Digest,
    next_height: u64,
    step: HeadersStep,
    queued: &mut MobileP2PRuntime,
)
    requires
        old(runtime)@.stage == (MobileBootstrapStage::StagingHeaders {
            generation,
            token,
            peer,
            next_height: at,
            boundary_height,
            boundary_hash,
            boundary_chainwork,
            manifest_digest,
        }),
        *old(queued) == *final(runtime),
        token < u64::MAX,
        call_ensures(MobileP2PRuntime::snapshot_headers_appended, (runtime, next_height), step),
        call_ensures(MobileP2PRuntime::next_headers_queued, (queued, next_height), ()),
    ensures
        step is Seal <==> next_height > boundary_height,
        step is Seal ==> !final(runtime)@.slots.header_staging,
        step is Fetch ==> final(runtime)@ == old(runtime)@,
        final(runtime)@.stage == old(runtime)@.stage,
        step matches HeadersStep::Fetch(command) ==> match command {
            NetworkCommand::FetchSnapshotHeaders { generation: g, token: t, peer: asked, start_height, count } => {
                &&& g == generation
                &&& t == token + 1
                &&& asked == peer
                &&& start_height == next_height
                &&& boundary_height - next_height < 512 ==> count == boundary_height - next_height + 1
                &&& boundary_height - next_height >= 512 ==> count == 512
            },
            _ => false,
        },
        final(queued)@ == (RuntimeView {
            stage: MobileBootstrapStage::StagingHeaders {
                generation,
                token: (token + 1) as u64,
                peer,
                next_height,
                boundary_height,
                boundary_hash,
                boundary_chainwork,
                manifest_digest,
            },
            ..old(queued)@
        }),
{
}

/// With the headers sealed, the terminal of the boundary is asked for from the
/// peer of the bootstrap and under its generation.
pub proof fn lemma_sealed_headers_ask_for_the_terminal(
    sealed: &mut MobileP2PRuntime,
    requested: &mut MobileP2PRuntime,
    command: NetworkCommand,
)
    requires
        old(sealed)@.stage is ManifestReceived || old(sealed)@.stage is StagingHeaders,
        old(requested)@.stage == old(sealed)@.stage,
        call_ensures(MobileP2PRuntime::snapshot_headers_sealed, (sealed,), command),
        call_ensures(MobileP2PRuntime::terminal_requested, (requested,), ()),
    ensures
        final(sealed)@ == (RuntimeView {
            slots: SnapshotSlots { validated_headers: true, ..old(sealed)@.slots },
            ..old(sealed)@
        }),
        final(requested)@ == (RuntimeView { stage: final(requested)@.stage, ..old(requested)@ }),
        match old(sealed)@.stage {
            MobileBootstrapStage::ManifestReceived {
                generation,
                peer,
                boundary_height,
                boundary_hash,
                manifest_digest,
            } => {
                &&& command == (NetworkCommand::RequestHistoryStepTerminal {
                    token: generation,
                    peer,
                    height: boundary_height,
                    block_hash: boundary_hash,
                })
                &&& final(requested)@.stage == (MobileBootstrapStage::WaitingTerminal {
                    generation,
                    peer,
                    boundary_height,
                    boundary_hash,
                    manifest_digest,
                })
            },
            MobileBootstrapStage::StagingHeaders {
                generation,
                peer,
                boundary_height,
                boundary_hash,
                manifest_digest,
                ..
            } => {
                &&& command == (NetworkCommand::RequestHistoryStepTerminal {
                    token: generation,
                    peer,
                    height: boundary_height,
                    block_hash: boundary_hash,
                })
                &&& final(requested)@.stage == (MobileBootstrapStage::WaitingTerminal {
                    generation,
                    peer,
                    boundary_height,
                    boundary_hash,
                    manifest_digest,
                })
            },
            _ => true,
        },
{
}

/// A full local lane is nobody's failure: the same request is repeated. The
/// failure of the outstanding request gives the bootstrap up and discards what
/// was staged; any other failure does not matter.
pub proof fn lemma_a_failed_header_request_is_told_apart(
    runtime: &mut MobileP2PRuntime,
    generation: u64,
    token: u64,
    from: PeerId,
    start_height: u64,
    count: u16,
    kind: RequestFailureKind,
    failure: HeadersFailure,
)
    requires
        call_ensures(
            MobileP2PRuntime::snapshot_headers_failed,
            (runtime, generation, token, from, start_height, count, kind),
            failure,
        ),
    ensures
        ({
            let ours = match old(runtime)@.stage {
                MobileBootstrapStage::StagingHeaders { generation: g, token: t, peer, .. } => g == generation && t
                    == token && peer == from,
                _ => false,
            };
            &&& failure is Retry <==> kind is LocalCapacity
            &&& failure is Discard <==> !(kind is LocalCapacity) && ours
            &&& failure is Discard ==> final(runtime)@.stage is Idle && !final(runtime)@.slots.header_staging && !final(runtime)@.slots.offer
            &&& !(failure is Discard) ==> final(runtime)@ == old(runtime)@
        }),
        failure matches HeadersFailure::Retry(command) ==> command == (NetworkCommand::FetchSnapshotHeaders {
            generation,
            token,
            peer: from,
            start_height,
            count,
        }),
{
}

/// Only the failure of the outstanding terminal request ends the wait for it.
pub proof fn lemma_only_the_awaited_terminal_request_can_fail(runtime: &mut MobileP2PRuntime, token: u64, from: PeerId)
    requires
        call_ensures(MobileP2PRuntime::terminal_request_failed, (runtime, token, &from), ()),
    ensures
        match old(runtime)@.stage {
            MobileBootstrapStage::WaitingTerminal { generation, peer, .. } => if generation == token && peer == from {
                final(runtime)@ == (RuntimeView { stage: MobileBootstrapStage::Idle, ..old(runtime)@ })
            } else {
                final(runtime)@ == old(runtime)@
            },
            _ => final(runtime)@ == old(runtime)@,
        },
{
}

/// A terminal is verified only if it is the answer to the outstanding request,
/// for the boundary that was promised, and the sealed headers are there; they
/// are handed out for it.
pub proof fn lemma_only_the_awaited_terminal_is_verified(
    runtime: &mut MobileP2PRuntime,
    token: u64,
    from: PeerId,
    height: u64,
    block_hash: Digest,
    terminal_len: usize,
    step: TerminalStep,
)
    requires
        call_ensures(
            MobileP2PRuntime::history_step_terminal,
            (runtime, token, &from, height, &block_hash, terminal_len),
            step,
        ),
    ensures
        ({
            let ours = match old(runtime)@.stage {
                MobileBootstrapStage::WaitingTerminal { generation, peer, boundary_height, boundary_hash, .. } => generation
                    == token && peer == from && boundary_height == height && boundary_hash == block_hash,
                _ => false,
            };
            &&& step is Stale <==> !ours
            &&& step is Empty <==> ours && terminal_len == 0
            &&& step is HeadersMissing <==> ours && terminal_len > 0 && !old(runtime)@.slots.validated_headers
            &&& step is Verify <==> ours && terminal_len > 0 && old(runtime)@.slots.validated_headers
            &&& step is Verify ==> !final(runtime)@.slots.validated_headers && final(runtime)@.stage == old(runtime)@.stage
            &&& !(step is Verify) ==> final(runtime)@ == old(runtime)@
        }),
{
}

/// Sealed headers fit only if they end at the boundary that was promised.
pub proof fn lemma_headers_end_at_the_boundary(
    runtime: MobileP2PRuntime,
    tip_height: u64,
    tip_hash: Digest,
    fits: bool,
)
    requires
        call_ensures(MobileP2PRuntime::boundary_matches, (&runtime, tip_height, &tip_hash), fits),
    ensures
        fits <==> runtime.stage is WaitingTerminal && runtime.stage->WaitingTerminal_boundary_height == tip_height
            && runtime.stage->WaitingTerminal_boundary_hash == tip_hash,
{
}

/// The manifest is handed out once.
pub proof fn lemma_the_manifest_is_handed_out_once(runtime: &mut MobileP2PRuntime, present: bool)
    requires
        call_ensures(MobileP2PRuntime::take_snapshot_offer, (runtime,), present),
    ensures
        present <==> old(runtime)@.slots.offer,
        !final(runtime)@.slots.offer,
        final(runtime)@.stage == old(runtime)@.stage,
        final(runtime)@.slots.validated_headers == old(runtime)@.slots.validated_headers,
        final(runtime)@.slots.verified_boundary == old(runtime)@.slots.verified_boundary,
{
}

/// A verified boundary is kept with the headers and the staging of segments, and
/// then the segments are transferred.
pub proof fn lemma_segments_follow_a_verified_boundary(
    authorized: &mut MobileP2PRuntime,
    started: &mut MobileP2PRuntime,
    generation: u64,
    peer: PeerId,
    boundary_height: u64,
    boundary_hash: Digest,
    manifest_digest: Digest,
)
    requires
        old(started)@.stage == (MobileBootstrapStage::WaitingTerminal {
            generation,
            peer,
            boundary_height,
            boundary_hash,
            manifest_digest,
        }),
        call_ensures(MobileP2PRuntime::snapshot_authorized, (authorized,), ()),
        call_ensures(MobileP2PRuntime::snapshot_sync_started, (started,), ()),
    ensures
        final(authorized)@.slots.validated_headers,
        final(authorized)@.slots.verified_boundary,
        final(authorized)@.slots.segment_staging,
        final(authorized)@.stage == old(authorized)@.stage,
        final(started)@.stage == (MobileBootstrapStage::SyncingSnapshot { generation, boundary_height, boundary_hash }),
        final(started)@.slots.transport,
        final(started)@.phase == 3,
        final(started)@.peers == old(started)@.peers,
{
}

/// A snapshot is installed only while its segments are transferred and once
/// every one of them is verified; what is missing is named, the first thing
/// first. An installation uses everything up.
pub proof fn lemma_only_a_complete_snapshot_is_installed(
    runtime: &mut MobileP2PRuntime,
    verified: bool,
    result: Result<(), InstallError>,
)
    requires
        old(runtime)@.wf(),
        call_ensures(MobileP2PRuntime::begin_install, (runtime, verified), result),
    ensures
        result is Ok <==> old(runtime)@.stage is SyncingSnapshot && verified,
        result is Ok ==> final(runtime)@.stage is Installing && !final(runtime)@.slots.transport && !final(runtime)@.slots.segment_staging && !final(runtime)@.slots.verified_boundary && !final(runtime)@.slots.validated_headers,
        result is Err ==> final(runtime)@ == old(runtime)@,
        !(old(runtime)@.stage is SyncingSnapshot) ==> result == Err::<(), InstallError>(
            InstallError::TransportMissing,
        ),
        old(runtime)@.stage is SyncingSnapshot && !verified ==> result == Err::<(), InstallError>(
            InstallError::SegmentsUnverified,
        ),
{
}

/// After an installation the tail goes on right above the snapshot, with the
/// peer that was asked for the first headers there.
pub proof fn lemma_the_tail_starts_above_the_snapshot(
    runtime: &mut MobileP2PRuntime,
    target_height: u64,
    observer: PeerId,
    queued: bool,
    now_ms: u64,
    command: NetworkCommand,
)
    requires
        target_height < u64::MAX,
        call_ensures(MobileP2PRuntime::finish_install, (runtime, target_height, observer, queued, now_ms), ()),
        call_ensures(post_install_request, (target_height, observer), command),
    ensures
        command == (NetworkCommand::FetchHeaders {
            peer: observer,
            start_height: (target_height + 1) as u64,
            count: 512,
        }),
        final(runtime)@.phase == 4,
        match final(runtime)@.stage {
            MobileBootstrapStage::TailSync(tail) => {
                &&& tail.boundary_height == target_height
                &&& tail.peer == observer
                &&& tail.observed_frontier == target_height
                &&& tail.waiting_start is None
                &&& tail.empty_probe_start is None
                &&& queued ==> tail.inflight_start == Some((target_height + 1) as u64) && tail.inflight_since == Some(
                    now_ms,
                )
                &&& !queued ==> tail.inflight_start is None
            },
            _ => false,
        },
{
}

} // verus!
