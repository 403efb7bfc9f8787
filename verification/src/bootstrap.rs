//! The stages of the initial state bootstrap and the commands they send.

use vstd::prelude::*;
use crate::arith::{larger, max_u64, sat_add, sat_sub};
use crate::bytes::Digest;
use crate::peer::PeerId;

verus! {

/// Largest header range asked of a peer at once.
pub const HEADER_BATCH_MAX: u16 = 512;

/// How long an admitted tail batch may wait for canonical progress.
pub const TAIL_WAIT_MS: u64 = 15_000;

/// How long a tail header request may stay unanswered.
pub const TAIL_REQUEST_TIMEOUT_MS: u64 = 10_000;

/// A request to the transport layer.
#[derive(Clone, Copy, Debug)]
pub enum NetworkCommand {
    RequestStateManifest {
        generation: u64,
        peer: PeerId,
        requester_height: u64,
        requested_manifest_digest: Digest,
    },
    FetchHeaders { peer: PeerId, start_height: u64, count: u16 },
    FetchSnapshotHeaders { generation: u64, token: u64, peer: PeerId, start_height: u64, count: u16 },
    RequestHistoryStepTerminal { token: u64, peer: PeerId, height: u64, block_hash: Digest },
    RequestStateSegment {
        peer: PeerId,
        segment_id: u16,
        expected_tip_height: u64,
        expected_tip_hash: Digest,
        manifest_digest: Digest,
    },
    RequestMempoolSync { peer: PeerId },
    BootstrapComplete,
}

/// Forward header acquisition above the durable tip.
///
/// At most one header request is outstanding, and a batch that was accepted
/// is given time to become canonical before its range is asked for again.
#[derive(Clone, Copy, Debug)]
pub struct TailSync {
    pub boundary_height: u64,
    pub peer: PeerId,
    pub inflight_start: Option<u64>,
    pub inflight_since: Option<u64>,
    pub waiting_start: Option<u64>,
    pub waiting_since: Option<u64>,
    /// Highest network height observed. A hint, never consensus authority.
    pub observed_frontier: u64,
    /// Start height of the last probe that came back empty.
    pub empty_probe_start: Option<u64>,
}

/// Where the initial bootstrap stands.
#[derive(Clone, Copy, Debug)]
pub enum MobileBootstrapStage {
    Idle,
    WaitingManifest { generation: u64, peer: PeerId },
    ManifestReceived {
        generation: u64,
        peer: PeerId,
        boundary_height: u64,
        boundary_hash: Digest,
        manifest_digest: Digest,
    },
    StagingHeaders {
        generation: u64,
        token: u64,
        peer: PeerId,
        next_height: u64,
        boundary_height: u64,
        boundary_hash: Digest,
        boundary_chainwork: Digest,
        manifest_digest: Digest,
    },
    WaitingTerminal {
        generation: u64,
        peer: PeerId,
        boundary_height: u64,
        boundary_hash: Digest,
        manifest_digest: Digest,
    },
    SyncingSnapshot { generation: u64, boundary_height: u64, boundary_hash: Digest },
    Installing,
    TailSync(TailSync),
    Complete,
}

impl MobileBootstrapStage {
    /// The snapshot bootstrap owns the control plane.
    pub open spec fn owns_snapshot(self) -> bool {
        ||| self is WaitingManifest
        ||| self is ManifestReceived
        ||| self is StagingHeaders
        ||| self is WaitingTerminal
        ||| self is SyncingSnapshot
        ||| self is Installing
    }

    /// Whether the snapshot bootstrap owns the control plane.
    pub fn snapshot_active(&self) -> (active: bool)
        ensures
            active == self.owns_snapshot(),
    {
        match self {
            MobileBootstrapStage::WaitingManifest { .. } => true,
            MobileBootstrapStage::ManifestReceived { .. } => true,
            MobileBootstrapStage::StagingHeaders { .. } => true,
            MobileBootstrapStage::WaitingTerminal { .. } => true,
            MobileBootstrapStage::SyncingSnapshot { .. } => true,
            MobileBootstrapStage::Installing => true,
            _ => false,
        }
    }
}

impl Default for MobileBootstrapStage {
    fn default() -> (stage: MobileBootstrapStage)
        ensures
            stage == MobileBootstrapStage::Idle,
    {
        MobileBootstrapStage::Idle
    }
}

/// Whether a peer is so far ahead that block bodies are no longer served.
pub open spec fn gap_beyond_serving(local_height: u64, peer_height: u64, serving_depth: u64) -> bool {
    peer_height > sat_add(local_height, serving_depth)
}

/// Whether the gap to the peer is beyond the retained block-serving depth.
pub fn gap_requires_snapshot_sync(local_height: u64, peer_height: u64, serving_depth: u64) -> (needed: bool)
    ensures
        needed == gap_beyond_serving(local_height, peer_height, serving_depth),
{
    peer_height > local_height.saturating_add(serving_depth)
}

/// The size of the header range `first..=last`, at most one batch.
pub open spec fn range_count(first: u64, last: u64) -> u16 {
    let n = sat_add(sat_sub(last, first), 1);
    if n < HEADER_BATCH_MAX {
        n as u16
    } else {
        HEADER_BATCH_MAX
    }
}

/// The size of the header range `first..=last`, at most one batch; never zero.
pub fn header_range_count(first: u64, last: u64) -> (count: u16)
    ensures
        count == range_count(first, last),
        1 <= count <= HEADER_BATCH_MAX,
{
    let n: u64 = last.saturating_sub(first).saturating_add(1);
    if n < HEADER_BATCH_MAX as u64 {
        n as u16
    } else {
        HEADER_BATCH_MAX
    }
}

impl TailSync {
    /// A fresh tail above `height`.
    pub open spec fn fresh(height: u64, peer: PeerId) -> TailSync {
        TailSync {
            boundary_height: height,
            peer,
            inflight_start: None,
            inflight_since: None,
            waiting_start: None,
            waiting_since: None,
            observed_frontier: height,
            empty_probe_start: None,
        }
    }

    pub fn new(height: u64, peer: PeerId) -> (tail: TailSync)
        ensures
            tail == TailSync::fresh(height, peer),
    {
        TailSync {
            boundary_height: height,
            peer,
            inflight_start: None,
            inflight_since: None,
            waiting_start: None,
            waiting_since: None,
            observed_frontier: height,
            empty_probe_start: None,
        }
    }

    pub open spec fn without_request(self) -> TailSync {
        TailSync { inflight_start: None, inflight_since: None, ..self }
    }

    pub open spec fn without_wait(self) -> TailSync {
        TailSync { waiting_start: None, waiting_since: None, ..self }
    }

    pub open spec fn without_probe(self) -> TailSync {
        TailSync { empty_probe_start: None, ..self }
    }

    /// A batch with these heights came from `from`.
    ///
    /// Only the answer to the outstanding request counts: from the tail peer,
    /// and empty or starting at the requested height.
    pub open spec fn after_batch(self, from: PeerId, heights: Seq<u64>, now_ms: u64) -> TailSync {
        if self.peer != from || self.inflight_start is None {
            self
        } else {
            let start = self.inflight_start->0;
            if heights.len() == 0 {
                TailSync { empty_probe_start: Some(start), ..self.without_request().without_wait() }
            } else if heights[0] != start {
                self
            } else {
                TailSync {
                    waiting_start: Some(start),
                    waiting_since: Some(now_ms),
                    observed_frontier: larger(self.observed_frontier, heights.last()),
                    empty_probe_start: None,
                    ..self.without_request()
                }
            }
        }
    }

    pub fn note_batch(&mut self, from: &PeerId, heights: &Vec<u64>, now_ms: u64)
        ensures
            *final(self) == old(self).after_batch(*from, heights@, now_ms),
    {
        if !self.peer.same(from) {
            return;
        }
        let start: u64 = match self.inflight_start {
            Some(start) => start,
            None => {
                return;
            },
        };
        if heights.len() > 0 && heights[0] != start {
            return;
        }
        self.inflight_start = None;
        self.inflight_since = None;
        if heights.len() == 0 {
            self.waiting_start = None;
            self.waiting_since = None;
            self.empty_probe_start = Some(start);
            return;
        }
        self.observed_frontier = max_u64(self.observed_frontier, heights[heights.len() - 1]);
        self.waiting_start = Some(start);
        self.waiting_since = Some(now_ms);
        self.empty_probe_start = None;
    }

    /// A higher block was announced.
    pub open spec fn after_announcement(self, height: u64) -> TailSync {
        TailSync {
            observed_frontier: larger(self.observed_frontier, height),
            empty_probe_start: None,
            ..self
        }
    }

    pub fn note_announcement(&mut self, height: u64)
        ensures
            *final(self) == old(self).after_announcement(height),
    {
        self.observed_frontier = max_u64(self.observed_frontier, height);
        self.empty_probe_start = None;
    }

    /// The canonical chain reached `height`.
    pub open spec fn after_commit(self, height: u64) -> TailSync {
        let released = if self.waiting_start is Some && height >= self.waiting_start->0 {
            self.without_wait()
        } else {
            self
        };
        TailSync {
            empty_probe_start: None,
            observed_frontier: larger(self.observed_frontier, height),
            ..released
        }
    }

    pub fn note_commit(&mut self, height: u64)
        ensures
            *final(self) == old(self).after_commit(height),
    {
        if let Some(start) = self.waiting_start {
            if height >= start {
                self.waiting_start = None;
                self.waiting_since = None;
            }
        }
        self.empty_probe_start = None;
        self.observed_frontier = max_u64(self.observed_frontier, height);
    }

    /// Some peer disconnected.
    pub open spec fn after_disconnect(self, peer: PeerId) -> TailSync {
        if self.peer == peer {
            self.without_request().without_wait().without_probe()
        } else {
            self
        }
    }

    pub fn note_disconnect(&mut self, peer: &PeerId)
        ensures
            *final(self) == old(self).after_disconnect(*peer),
    {
        if self.peer.same(peer) {
            self.inflight_start = None;
            self.inflight_since = None;
            self.waiting_start = None;
            self.waiting_since = None;
            self.empty_probe_start = None;
        }
    }

    /// A header request to `from` failed.
    pub open spec fn after_failure(self, from: PeerId, start_height: u64) -> TailSync {
        if self.peer == from && self.inflight_start == Some(start_height) {
            self.without_request()
        } else {
            self
        }
    }

    pub fn note_failure(&mut self, from: &PeerId, start_height: u64)
        ensures
            *final(self) == old(self).after_failure(*from, start_height),
    {
        if self.peer.same(from) {
            if let Some(start) = self.inflight_start {
                if start == start_height {
                    self.inflight_start = None;
                    self.inflight_since = None;
                }
            }
        }
    }

    /// A header request to `peer` was queued, or could not be.
    pub open spec fn after_request(self, peer: PeerId, start_height: u64, queued: bool, now_ms: u64) -> TailSync {
        TailSync {
            peer,
            inflight_start: if queued {
                Some(start_height)
            } else {
                None
            },
            inflight_since: if queued {
                Some(now_ms)
            } else {
                None
            },
            empty_probe_start: None,
            ..self
        }
    }

    pub fn note_request(&mut self, peer: PeerId, start_height: u64, queued: bool, now_ms: u64)
        ensures
            *final(self) == old(self).after_request(peer, start_height, queued, now_ms),
    {
        self.peer = peer;
        if queued {
            self.inflight_start = Some(start_height);
            self.inflight_since = Some(now_ms);
        } else {
            self.inflight_start = None;
            self.inflight_since = None;
        }
        self.empty_probe_start = None;
    }

    /// The last probe was empty right above the durable tip and nothing higher was seen.
    pub open spec fn caught_up(self, local_height: u64) -> bool {
        &&& self.empty_probe_start == Some(sat_add(local_height, 1))
        &&& self.observed_frontier <= local_height
    }

    pub fn is_caught_up(&self, local_height: u64) -> (done: bool)
        ensures
            done == self.caught_up(local_height),
    {
        match self.empty_probe_start {
            Some(start) => start == local_height.saturating_add(1) && self.observed_frontier
                <= local_height,
            None => false,
        }
    }

    /// An accepted batch still has time to become canonical.
    pub open spec fn holds_for_progress(self, local_height: u64, now_ms: u64) -> bool {
        &&& self.waiting_start is Some
        &&& local_height < self.waiting_start->0
        &&& self.waiting_since is Some
        &&& sat_sub(now_ms, self.waiting_since->0) < TAIL_WAIT_MS
    }

    pub fn is_holding(&self, local_height: u64, now_ms: u64) -> (holding: bool)
        ensures
            holding == self.holds_for_progress(local_height, now_ms),
    {
        match (self.waiting_start, self.waiting_since) {
            (Some(start), Some(since)) => local_height < start && now_ms.saturating_sub(since)
                < TAIL_WAIT_MS,
            _ => false,
        }
    }

    /// The outstanding request may still be answered.
    pub open spec fn awaits_reply(self, now_ms: u64) -> bool {
        &&& self.inflight_start is Some
        &&& self.inflight_since is Some ==> sat_sub(now_ms, self.inflight_since->0)
            < TAIL_REQUEST_TIMEOUT_MS
    }

    pub fn is_awaiting(&self, now_ms: u64) -> (awaiting: bool)
        ensures
            awaiting == self.awaits_reply(now_ms),
    {
        match (self.inflight_start, self.inflight_since) {
            (None, _) => false,
            (Some(_), None) => true,
            (Some(_), Some(since)) => now_ms.saturating_sub(since) < TAIL_REQUEST_TIMEOUT_MS,
        }
    }
}

} // verus!
