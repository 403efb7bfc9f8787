//! What the transfer of the state segments comes to.

use vstd::prelude::*;
use crate::bytes::Digest;
use crate::p2p_runtime::MobileP2PRuntime;
use crate::peer::PeerId;
use crate::bootstrap::NetworkCommand;
use crate::segments::{
    segment_followup, BoundaryHeader, ManifestError, SegmentDescriptor, SegmentFailure, SegmentFollowup, SegmentKey,
    SegmentReply, SegmentStep, SnapshotManifest,
};
use crate::snapshot::RequestFailureKind;

verus! {

/// A manifest is bound to a header only if it repeats every field of it, and
/// only if each of its segments has an id, a root and a length. The segments
/// are then listed one by one, in the order of the manifest.
pub proof fn lemma_a_bound_manifest_lists_its_segments(
    manifest: SnapshotManifest,
    header: BoundaryHeader,
    result: Result<Vec<SegmentDescriptor>, ManifestError>,
)
    requires
        call_ensures(SnapshotManifest::bind, (&manifest, &header), result),
    ensures
        result is Err && result->Err_0 is HeaderMismatch <==> (header.hash != manifest.tip_hash || header.height
            != manifest.tip_height || header.state_root != manifest.state_root || header.log_slots
            != manifest.log_slots || header.active_slot_count != manifest.active_slot_count || header.alloc_counter
            != manifest.alloc_counter),
        result is Ok ==> manifest.segment_ids@.len() == manifest.segment_roots@.len()
            && manifest.segment_ids@.len() == manifest.segment_lengths@.len(),
        result is Err && result->Err_0 is Malformed ==> manifest.segment_ids@.len() != manifest.segment_roots@.len()
            || manifest.segment_ids@.len() != manifest.segment_lengths@.len(),
        result matches Ok(list) ==> list@.len() == manifest.segment_ids@.len() && forall|i: int|
            0 <= i < list@.len() ==> {
                &&& (#[trigger] list@[i]).segment_id == manifest.segment_ids@[i]
                &&& list@[i].segment_root == manifest.segment_roots@[i]
                &&& list@[i].encoded_len == manifest.segment_lengths@[i]
            },
{
}

/// A reply speaks of a segment's snapshot exactly if tip and manifest are the same.
pub proof fn lemma_a_snapshot_is_its_tip_and_its_manifest(
    key: SegmentKey,
    tip_height: u64,
    tip_hash: Digest,
    manifest_digest: Digest,
    same: bool,
)
    requires
        call_ensures(SegmentKey::matches_snapshot, (&key, tip_height, &tip_hash, &manifest_digest), same),
    ensures
        same <==> key.tip_height == tip_height && key.tip_hash == tip_hash && key.manifest_digest == manifest_digest,
{
}

/// The answer to a request for a segment, sent back with what was asked for,
/// is never taken for that of another snapshot.
pub proof fn lemma_the_answer_to_a_request_belongs_to_it(
    runtime: MobileP2PRuntime,
    key: SegmentKey,
    peer: PeerId,
    command: NetworkCommand,
    reply: SegmentReply,
    now_ms: u64,
    step: SegmentStep,
)
    requires
        runtime.slots.transport,
        call_ensures(SegmentKey::request, (&key, peer), command),
        call_ensures(MobileP2PRuntime::state_segment, (&runtime, Some(key), &reply, now_ms), step),
        command matches NetworkCommand::RequestStateSegment {
            expected_tip_height,
            expected_tip_hash,
            manifest_digest,
            ..
        } ==> reply.expected_tip_height == expected_tip_height && reply.expected_tip_hash == expected_tip_hash
            && reply.manifest_digest == manifest_digest,
    ensures
        command matches NetworkCommand::RequestStateSegment { peer: asked, segment_id, .. } && asked == peer
            && segment_id == key.segment_id,
        step is Busy || step is Unavailable || step is Admit,
{
}

/// A reply is looked at only while a snapshot is transferred, only for a
/// segment that the snapshot has, and only if it speaks of that snapshot. A
/// busy provider is asked again after the time that it named, whatever else it
/// sent; otherwise all the data that came is admitted.
pub proof fn lemma_what_becomes_of_a_segment(
    runtime: MobileP2PRuntime,
    segment: Option<SegmentKey>,
    reply: SegmentReply,
    now_ms: u64,
    step: SegmentStep,
)
    requires
        reply.busy_for_ms matches Some(wait) ==> now_ms + wait <= u64::MAX,
        call_ensures(MobileP2PRuntime::state_segment, (&runtime, segment, &reply, now_ms), step),
    ensures
        step is NoTransfer <==> !runtime.slots.transport,
        step is Unknown <==> runtime.slots.transport && segment is None,
        step is Stale <==> runtime.slots.transport && (segment matches Some(key) && (key.tip_height
            != reply.expected_tip_height || key.tip_hash != reply.expected_tip_hash || key.manifest_digest
            != reply.manifest_digest)),
        step matches SegmentStep::Busy { retry_at_ms } ==> reply.busy_for_ms is Some && retry_at_ms == now_ms
            + reply.busy_for_ms->0,
        step is Unavailable ==> reply.busy_for_ms is None && reply.data_len is None,
        step matches SegmentStep::Admit { len } ==> reply.busy_for_ms is None && reply.data_len == Some(len),
{
}

/// A failed request counts only for a segment of the snapshot that is
/// transferred. A provider is dropped only for a response that is invalid.
pub proof fn lemma_a_failed_segment_request(
    runtime: MobileP2PRuntime,
    segment: Option<SegmentKey>,
    tip_height: u64,
    tip_hash: Digest,
    manifest_digest: Digest,
    kind: RequestFailureKind,
    failure: SegmentFailure,
)
    requires
        call_ensures(
            MobileP2PRuntime::segment_request_failed,
            (&runtime, segment, tip_height, &tip_hash, &manifest_digest, kind),
            failure,
        ),
    ensures
        ({
            let wanted = runtime.slots.transport && (segment matches Some(key) && key.tip_height == tip_height
                && key.tip_hash == tip_hash && key.manifest_digest == manifest_digest);
            &&& failure is Ignore <==> !wanted
            &&& failure is Defer <==> wanted && kind is LocalCapacity
            &&& failure is Unavailable <==> wanted && kind is Unavailable
            &&& failure is RejectProvider <==> wanted && kind is InvalidResponse
            &&& failure is RequestFailed <==> wanted && kind is Other
        }),
{
}

/// A busy provider of a wanted segment may be asked again after the time that it named.
pub proof fn lemma_a_busy_segment_provider(
    runtime: MobileP2PRuntime,
    segment: Option<SegmentKey>,
    tip_height: u64,
    tip_hash: Digest,
    manifest_digest: Digest,
    retry_after_ms: u32,
    now_ms: u64,
    retry_at_ms: Option<u64>,
)
    requires
        now_ms + retry_after_ms <= u64::MAX,
        call_ensures(
            MobileP2PRuntime::segment_request_busy,
            (&runtime, segment, tip_height, &tip_hash, &manifest_digest, retry_after_ms, now_ms),
            retry_at_ms,
        ),
    ensures
        retry_at_ms is Some <==> runtime.slots.transport && (segment matches Some(key) && key.tip_height == tip_height
            && key.tip_hash == tip_hash && key.manifest_digest == manifest_digest),
        retry_at_ms matches Some(at) ==> at == now_ms + retry_after_ms,
{
}

/// Bytes that the transport or the staging refuses cost their provider the
/// transfer, also where they would have been the last ones.
pub proof fn lemma_only_good_bytes_install_a_snapshot(
    accepted: bool,
    stored: bool,
    all_segments_verified: bool,
    followup: SegmentFollowup,
)
    requires
        call_ensures(segment_followup, (accepted, stored, all_segments_verified), followup),
    ensures
        followup is Install <==> accepted && stored && all_segments_verified,
        followup is RequestNext <==> accepted && stored && !all_segments_verified,
{
}

} // verus!
