//! Transfer of the state segments of an authenticated snapshot.
//!
//! One large segment is in flight at a time. Every reply is matched against
//! the immutable snapshot before its bytes are looked at, and a provider that
//! sends bad bytes loses only this transfer: verified segments survive.

use vstd::prelude::*;
use crate::bootstrap::NetworkCommand;
use crate::bytes::{hash_eq, Digest};
use crate::p2p_runtime::MobileP2PRuntime;
use crate::peer::PeerId;
use crate::snapshot::RequestFailureKind;

verus! {

/// The fields of an authenticated boundary header that a manifest repeats.
#[derive(Clone, Copy, Debug)]
pub struct BoundaryHeader {
    pub hash: Digest,
    pub height: u64,
    pub state_root: Digest,
    pub log_slots: u32,
    pub active_slot_count: u64,
    pub alloc_counter: u64,
}

/// What a manifest says of a snapshot.
#[derive(Debug)]
pub struct SnapshotManifest {
    pub tip_hash: Digest,
    pub tip_height: u64,
    pub state_root: Digest,
    pub log_slots: u32,
    pub active_slot_count: u64,
    pub alloc_counter: u64,
    pub segment_ids: Vec<u16>,
    pub segment_roots: Vec<Digest>,
    pub segment_lengths: Vec<u64>,
}

/// One segment that a snapshot consists of.
#[derive(Clone, Copy, Debug)]
pub struct SegmentDescriptor {
    pub segment_id: u16,
    pub segment_root: Digest,
    pub encoded_len: u64,
}

/// Why a manifest is refused.
#[derive(Clone, Copy, Debug, PartialEq, Eq, Structural)]
pub enum ManifestError {
    /// It does not describe the authenticated header.
    HeaderMismatch,
    /// The lists of its segments have different lengths.
    Malformed,
}

impl ManifestError {
    /// The words in which it is reported.
    pub open spec fn words(self) -> Seq<char> {
        match self {
            ManifestError::HeaderMismatch => "mobile snapshot manifest metadata does not match authenticated boundary header"@,
            ManifestError::Malformed => "mobile snapshot manifest segment descriptor vectors are malformed"@,
        }
    }

    /// The words in which it is reported.
    pub fn message(&self) -> (text: &'static str)
        ensures
            text@ == self.words(),
    {
        match self {
            ManifestError::HeaderMismatch => "mobile snapshot manifest metadata does not match authenticated boundary header",
            ManifestError::Malformed => "mobile snapshot manifest segment descriptor vectors are malformed",
        }
    }
}

impl SnapshotManifest {
    /// The manifest repeats the authenticated header exactly.
    pub open spec fn describes(self, header: BoundaryHeader) -> bool {
        &&& header.hash == self.tip_hash
        &&& header.height == self.tip_height
        &&& header.state_root == self.state_root
        &&& header.log_slots == self.log_slots
        &&& header.active_slot_count == self.active_slot_count
        &&& header.alloc_counter == self.alloc_counter
    }

    /// The three lists describe the same segments.
    pub open spec fn aligned(self) -> bool {
        &&& self.segment_ids@.len() == self.segment_roots@.len()
        &&& self.segment_ids@.len() == self.segment_lengths@.len()
    }

    /// The segments, in the order of the manifest.
    pub open spec fn descriptors(self) -> Seq<SegmentDescriptor> {
        Seq::new(
            self.segment_ids@.len(),
            |i: int|
                SegmentDescriptor {
                    segment_id: self.segment_ids@[i],
                    segment_root: self.segment_roots@[i],
                    encoded_len: self.segment_lengths@[i],
                },
        )
    }

    /// Bind the manifest to the authenticated header and list its segments.
    pub fn bind(&self, header: &BoundaryHeader) -> (result: Result<Vec<SegmentDescriptor>, ManifestError>)
        ensures
            match result {
                Ok(descriptors) => self.describes(*header) && self.aligned() && descriptors@ == self.descriptors(),
                Err(ManifestError::HeaderMismatch) => !self.describes(*header),
                Err(ManifestError::Malformed) => self.describes(*header) && !self.aligned(),
            },
    {
        if !hash_eq(&header.hash, &self.tip_hash) || header.height != self.tip_height || !hash_eq(
            &header.state_root,
            &self.state_root,
        ) || header.log_slots != self.log_slots || header.active_slot_count != self.active_slot_count
            || header.alloc_counter != self.alloc_counter {
            return Err(ManifestError::HeaderMismatch);
        }
        if self.segment_ids.len() != self.segment_roots.len() || self.segment_ids.len()
            != self.segment_lengths.len() {
            return Err(ManifestError::Malformed);
        }
        let mut descriptors: Vec<SegmentDescriptor> = Vec::new();
        let mut i: usize = 0;
        while i < self.segment_ids.len()
            invariant
                self.aligned(),
                i <= self.segment_ids@.len(),
                descriptors@ == self.descriptors().take(i as int),
            decreases self.segment_ids@.len() - i,
        {
            descriptors.push(
                SegmentDescriptor {
                    segment_id: self.segment_ids[i],
                    segment_root: self.segment_roots[i],
                    encoded_len: self.segment_lengths[i],
                },
            );
            i = i + 1;
            assert(descriptors@ =~= self.descriptors().take(i as int));
        }
        assert(self.descriptors().take(i as int) =~= self.descriptors());
        Ok(descriptors)
    }
}

/// A segment of one immutable snapshot.
#[derive(Clone, Copy, Debug)]
pub struct SegmentKey {
    pub segment_id: u16,
    pub tip_height: u64,
    pub tip_hash: Digest,
    pub manifest_digest: Digest,
}

impl SegmentKey {
    /// Whether a reply speaks of this segment's snapshot.
    pub open spec fn is_of(self, tip_height: u64, tip_hash: Digest, manifest_digest: Digest) -> bool {
        &&& self.tip_height == tip_height
        &&& self.tip_hash == tip_hash
        &&& self.manifest_digest == manifest_digest
    }

    pub fn matches_snapshot(&self, tip_height: u64, tip_hash: &Digest, manifest_digest: &Digest) -> (same: bool)
        ensures
            same == self.is_of(tip_height, *tip_hash, *manifest_digest),
    {
        self.tip_height == tip_height && hash_eq(&self.tip_hash, tip_hash) && hash_eq(
            &self.manifest_digest,
            manifest_digest,
        )
    }

    /// The request for this segment.
    pub fn request(&self, peer: PeerId) -> (command: NetworkCommand)
        ensures
            command == (NetworkCommand::RequestStateSegment {
                peer,
                segment_id: self.segment_id,
                expected_tip_height: self.tip_height,
                expected_tip_hash: self.tip_hash,
                manifest_digest: self.manifest_digest,
            }),
    {
        NetworkCommand::RequestStateSegment {
            peer,
            segment_id: self.segment_id,
            expected_tip_height: self.tip_height,
            expected_tip_hash: self.tip_hash,
            manifest_digest: self.manifest_digest,
        }
    }
}

/// A reply to the request for a segment.
#[derive(Clone, Copy, Debug)]
pub struct SegmentReply {
    pub expected_tip_height: u64,
    pub expected_tip_hash: Digest,
    pub manifest_digest: Digest,
    /// The provider is busy for this many milliseconds.
    pub busy_for_ms: Option<u32>,
    /// Length of the data that came along.
    pub data_len: Option<usize>,
}

/// What becomes of a reply.
#[derive(Clone, Copy, Debug, PartialEq, Eq, Structural)]
pub enum SegmentStep {
    /// No snapshot is being transferred.
    NoTransfer,
    /// The snapshot has no such segment.
    Unknown,
    /// The reply speaks of another snapshot.
    Stale,
    /// The provider asks to wait; the plan is kept.
    Busy { retry_at_ms: u64 },
    /// The provider does not hold the segment.
    Unavailable,
    /// Admit this many bytes.
    Admit { len: usize },
}

/// What follows once a segment was offered to the transport and the staging.
#[derive(Clone, Copy, Debug, PartialEq, Eq, Structural)]
pub enum SegmentFollowup {
    /// Drop the provider and ask for the next segment.
    RejectProvider,
    /// Ask for the next segment.
    RequestNext,
    /// Every segment is verified: install the snapshot.
    Install,
}

/// How a failed request for a segment is recorded.
#[derive(Clone, Copy, Debug, PartialEq, Eq, Structural)]
pub enum SegmentFailure {
    /// It belongs to no segment of the active snapshot.
    Ignore,
    Defer,
    Unavailable,
    RejectProvider,
    /// Rotate to another provider.
    RequestFailed,
}

/// Whether a reply belongs to `segment`, where there is one.
pub open spec fn correlates(
    segment: Option<SegmentKey>,
    tip_height: u64,
    tip_hash: Digest,
    manifest_digest: Digest,
) -> bool {
    match segment {
        Some(key) => key.is_of(tip_height, tip_hash, manifest_digest),
        None => false,
    }
}

impl MobileP2PRuntime {
    /// A reply arrived; `segment` is what the active transfer knows under its id.
    pub fn state_segment(&self, segment: Option<SegmentKey>, reply: &SegmentReply, now_ms: u64) -> (step:
        SegmentStep)
        requires
            reply.busy_for_ms matches Some(wait) ==> now_ms + wait <= u64::MAX,
        ensures
            step == (if !self@.slots.transport {
                SegmentStep::NoTransfer
            } else if segment is None {
                SegmentStep::Unknown
            } else if !correlates(segment, reply.expected_tip_height, reply.expected_tip_hash, reply.manifest_digest) {
                SegmentStep::Stale
            } else {
                match (reply.busy_for_ms, reply.data_len) {
                    (Some(wait), _) => SegmentStep::Busy { retry_at_ms: (now_ms + wait) as u64 },
                    (None, None) => SegmentStep::Unavailable,
                    (None, Some(len)) => SegmentStep::Admit { len },
                }
            }),
    {
        if !self.slots.transport {
            return SegmentStep::NoTransfer;
        }
        match segment {
            None => SegmentStep::Unknown,
            Some(key) => {
                if !key.matches_snapshot(
                    reply.expected_tip_height,
                    &reply.expected_tip_hash,
                    &reply.manifest_digest,
                ) {
                    return SegmentStep::Stale;
                }
                match (reply.busy_for_ms, reply.data_len) {
                    (Some(wait), _) => SegmentStep::Busy { retry_at_ms: now_ms + wait as u64 },
                    (None, None) => SegmentStep::Unavailable,
                    (None, Some(len)) => SegmentStep::Admit { len },
                }
            },
        }
    }

    /// A request for a segment failed.
    pub fn segment_request_failed(
        &self,
        segment: Option<SegmentKey>,
        tip_height: u64,
        tip_hash: &Digest,
        manifest_digest: &Digest,
        kind: RequestFailureKind,
    ) -> (failure: SegmentFailure)
        ensures
            failure == (if !self@.slots.transport || !correlates(segment, tip_height, *tip_hash, *manifest_digest) {
                SegmentFailure::Ignore
            } else {
                match kind {
                    RequestFailureKind::LocalCapacity => SegmentFailure::Defer,
                    RequestFailureKind::Unavailable => SegmentFailure::Unavailable,
                    RequestFailureKind::InvalidResponse => SegmentFailure::RejectProvider,
                    RequestFailureKind::Other => SegmentFailure::RequestFailed,
                }
            }),
    {
        if !self.slots.transport {
            return SegmentFailure::Ignore;
        }
        match segment {
            None => SegmentFailure::Ignore,
            Some(key) => {
                if !key.matches_snapshot(tip_height, tip_hash, manifest_digest) {
                    return SegmentFailure::Ignore;
                }
                match kind {
                    RequestFailureKind::LocalCapacity => SegmentFailure::Defer,
                    RequestFailureKind::Unavailable => SegmentFailure::Unavailable,
                    RequestFailureKind::InvalidResponse => SegmentFailure::RejectProvider,
                    RequestFailureKind::Other => SegmentFailure::RequestFailed,
                }
            },
        }
    }

    /// A provider of a segment is busy: when it may be asked again, if the segment is wanted.
    pub fn segment_request_busy(
        &self,
        segment: Option<SegmentKey>,
        tip_height: u64,
        tip_hash: &Digest,
        manifest_digest: &Digest,
        retry_after_ms: u32,
        now_ms: u64,
    ) -> (retry_at_ms: Option<u64>)
        requires
            now_ms + retry_after_ms <= u64::MAX,
        ensures
            retry_at_ms == (if self@.slots.transport && correlates(segment, tip_height, *tip_hash, *manifest_digest) {
                Some((now_ms + retry_after_ms) as u64)
            } else {
                None
            }),
    {
        if !self.slots.transport {
            return None;
        }
        match segment {
            None => None,
            Some(key) => if key.matches_snapshot(tip_height, tip_hash, manifest_digest) {
                Some(now_ms + retry_after_ms as u64)
            } else {
                None
            },
        }
    }
}

/// What follows a segment: `accepted` by the transport, `staged` on disk, and the whole snapshot verified.
pub fn segment_followup(accepted: bool, staged: bool, all_segments_verified: bool) -> (followup: SegmentFollowup)
    ensures
        followup == SegmentFollowup::RejectProvider <==> !accepted || !staged,
        followup == SegmentFollowup::Install <==> accepted && staged && all_segments_verified,
{
    if !accepted || !staged {
        SegmentFollowup::RejectProvider
    } else if all_segments_verified {
        SegmentFollowup::Install
    } else {
        SegmentFollowup::RequestNext
    }
}

} // verus!
