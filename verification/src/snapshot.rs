//! Snapshot bootstrap: manifest, header staging, terminal, state segments and installation.

use vstd::prelude::*;
use crate::arith::sat_add;
use crate::bootstrap::{
    header_range_count, range_count, MobileBootstrapStage, NetworkCommand, TailSync, HEADER_BATCH_MAX,
};
use crate::bytes::{hash_eq, Digest};
use crate::p2p_runtime::{MobileP2PRuntime, RuntimeView, SnapshotSlots, PHASE_HEADERS, PHASE_STATE, PHASE_TAIL};
use crate::peer::PeerId;

verus! {

/// Why a request came back without an answer.
#[derive(Clone, Copy, Debug, PartialEq, Eq, Structural)]
pub enum RequestFailureKind {
    /// The local request lane was full; the peer is not at fault.
    LocalCapacity,
    Unavailable,
    InvalidResponse,
    Other,
}

/// The tip that a manifest promises.
#[derive(Clone, Copy, Debug)]
pub struct SnapshotBoundary {
    pub height: u64,
    pub hash: Digest,
    pub chainwork: Digest,
    pub manifest_digest: Digest,
}

/// What becomes of a manifest.
#[derive(Clone, Copy, Debug, PartialEq, Eq, Structural)]
pub enum ManifestStep {
    /// It answers no outstanding request.
    Stale,
    /// It promises no block at all.
    EmptySnapshot,
    Accept,
}

impl ManifestStep {
    /// The words in which it is reported, if it is an error.
    pub open spec fn words(self) -> Option<Seq<char>> {
        match self {
            ManifestStep::Stale => None,
            ManifestStep::EmptySnapshot => Some("mobile bootstrap peer returned empty snapshot manifest"@),
            ManifestStep::Accept => None,
        }
    }

    /// The words in which it is reported, if it is an error.
    pub fn complaint(&self) -> (text: Option<&'static str>)
        ensures
            match text {
                Some(words) => self.words() == Some(words@),
                None => self.words() is None,
            },
    {
        match self {
            ManifestStep::Stale => None,
            ManifestStep::EmptySnapshot => Some("mobile bootstrap peer returned empty snapshot manifest"),
            ManifestStep::Accept => None,
        }
    }
}

/// What a staged manifest, or a staged header batch, calls for.
#[derive(Clone, Copy, Debug)]
pub enum HeadersStep {
    /// All headers are here: seal them.
    Seal,
    /// Ask for the next headers.
    Fetch(NetworkCommand),
}

/// What becomes of a batch of snapshot headers.
#[derive(Clone, Copy, Debug, PartialEq, Eq, Structural)]
pub enum HeaderBatchStep {
    /// Another generation asked for it.
    Stale,
    /// It does not answer the outstanding request.
    Mismatch,
    Empty,
    /// The header staging is gone.
    StagingMissing,
    Append,
}

impl HeaderBatchStep {
    /// The words in which it is reported, if it is an error.
    pub open spec fn words(self) -> Option<Seq<char>> {
        match self {
            HeaderBatchStep::Stale => None,
            HeaderBatchStep::Mismatch => Some("mobile snapshot header response correlation mismatch"@),
            HeaderBatchStep::Empty => Some("mobile snapshot header peer returned empty range"@),
            HeaderBatchStep::StagingMissing => Some("mobile snapshot header staging missing"@),
            HeaderBatchStep::Append => None,
        }
    }

    /// The words in which it is reported, if it is an error.
    pub fn complaint(&self) -> (text: Option<&'static str>)
        ensures
            match text {
                Some(words) => self.words() == Some(words@),
                None => self.words() is None,
            },
    {
        match self {
            HeaderBatchStep::Stale => None,
            HeaderBatchStep::Mismatch => Some("mobile snapshot header response correlation mismatch"),
            HeaderBatchStep::Empty => Some("mobile snapshot header peer returned empty range"),
            HeaderBatchStep::StagingMissing => Some("mobile snapshot header staging missing"),
            HeaderBatchStep::Append => None,
        }
    }
}

/// What a failed request for snapshot headers calls for.
#[derive(Clone, Copy, Debug)]
pub enum HeadersFailure {
    /// Repeat the same request after a pause; what was staged is kept.
    Retry(NetworkCommand),
    /// The bootstrap is given up and what was staged is discarded.
    Discard,
    Ignore,
}

/// What becomes of a history terminal.
#[derive(Clone, Copy, Debug, PartialEq, Eq, Structural)]
pub enum TerminalStep {
    /// It answers no outstanding request.
    Stale,
    Empty,
    /// The sealed headers are gone.
    HeadersMissing,
    /// Verify it against the sealed headers, which are handed out.
    Verify,
}

impl TerminalStep {
    /// The words in which it is reported, if it is an error.
    pub open spec fn words(self) -> Option<Seq<char>> {
        match self {
            TerminalStep::Stale => None,
            TerminalStep::Empty => Some("mobile bootstrap peer returned empty HistoryStep terminal"@),
            TerminalStep::HeadersMissing => Some("validated mobile snapshot headers missing"@),
            TerminalStep::Verify => None,
        }
    }

    /// The words in which it is reported, if it is an error.
    pub fn complaint(&self) -> (text: Option<&'static str>)
        ensures
            match text {
                Some(words) => self.words() == Some(words@),
                None => self.words() is None,
            },
    {
        match self {
            TerminalStep::Stale => None,
            TerminalStep::Empty => Some("mobile bootstrap peer returned empty HistoryStep terminal"),
            TerminalStep::HeadersMissing => Some("validated mobile snapshot headers missing"),
            TerminalStep::Verify => None,
        }
    }
}

/// Why a complete snapshot cannot be installed.
#[derive(Clone, Copy, Debug, PartialEq, Eq, Structural)]
pub enum InstallError {
    TransportMissing,
    SegmentsUnverified,
    StagingMissing,
    BoundaryMissing,
    HeadersMissing,
}

impl InstallError {
    /// The words in which it is reported.
    pub open spec fn words(self) -> Seq<char> {
        match self {
            InstallError::TransportMissing => "mobile snapshot transport disappeared before install"@,
            InstallError::SegmentsUnverified => "mobile snapshot install attempted before every segment was verified"@,
            InstallError::StagingMissing => "completed mobile State staging missing"@,
            InstallError::BoundaryMissing => "verified mobile snapshot boundary missing"@,
            InstallError::HeadersMissing => "validated mobile snapshot headers missing"@,
        }
    }

    /// The words in which it is reported.
    pub fn message(&self) -> (text: &'static str)
        ensures
            text@ == self.words(),
    {
        match self {
            InstallError::TransportMissing => "mobile snapshot transport disappeared before install",
            InstallError::SegmentsUnverified => "mobile snapshot install attempted before every segment was verified",
            InstallError::StagingMissing => "completed mobile State staging missing",
            InstallError::BoundaryMissing => "verified mobile snapshot boundary missing",
            InstallError::HeadersMissing => "validated mobile snapshot headers missing",
        }
    }
}

/// The stage once the headers are sealed and the terminal is requested.
pub open spec fn awaiting_terminal(stage: MobileBootstrapStage) -> MobileBootstrapStage {
    match stage {
        MobileBootstrapStage::ManifestReceived {
            generation,
            peer,
            boundary_height,
            boundary_hash,
            manifest_digest,
        } => MobileBootstrapStage::WaitingTerminal {
            generation,
            peer,
            boundary_height,
            boundary_hash,
            manifest_digest,
        },
        MobileBootstrapStage::StagingHeaders {
            generation,
            peer,
            boundary_height,
            boundary_hash,
            manifest_digest,
            ..
        } => MobileBootstrapStage::WaitingTerminal {
            generation,
            peer,
            boundary_height,
            boundary_hash,
            manifest_digest,
        },
        other => other,
    }
}

/// The request for the terminal of the sealed headers.
pub open spec fn terminal_request(stage: MobileBootstrapStage) -> NetworkCommand {
    let waiting = awaiting_terminal(stage);
    NetworkCommand::RequestHistoryStepTerminal {
        token: waiting->WaitingTerminal_generation,
        peer: waiting->WaitingTerminal_peer,
        height: waiting->WaitingTerminal_boundary_height,
        block_hash: waiting->WaitingTerminal_boundary_hash,
    }
}

impl RuntimeView {
    pub open spec fn with_slots(self, slots: SnapshotSlots) -> RuntimeView {
        RuntimeView { slots, ..self }
    }

    /// What a complete snapshot lacks for its installation, in the order in which it is asked.
    pub open spec fn install_error(self, all_segments_verified: bool) -> Option<InstallError> {
        if !self.slots.transport {
            Some(InstallError::TransportMissing)
        } else if !all_segments_verified {
            Some(InstallError::SegmentsUnverified)
        } else if !self.slots.segment_staging {
            Some(InstallError::StagingMissing)
        } else if !self.slots.verified_boundary {
            Some(InstallError::BoundaryMissing)
        } else if !self.slots.validated_headers {
            Some(InstallError::HeadersMissing)
        } else {
            None
        }
    }
}

impl MobileP2PRuntime {
    /// A manifest arrived.
    pub fn state_manifest(&self, generation: u64, from: &PeerId, tip_height: u64) -> (step: ManifestStep)
        ensures
            step == (if self@.stage != (MobileBootstrapStage::WaitingManifest { generation, peer: *from }) {
                ManifestStep::Stale
            } else if tip_height == 0 {
                ManifestStep::EmptySnapshot
            } else {
                ManifestStep::Accept
            }),
    {
        match self.stage {
            MobileBootstrapStage::WaitingManifest { generation: expected, peer } => {
                if expected != generation || !peer.same(from) {
                    ManifestStep::Stale
                } else if tip_height == 0 {
                    ManifestStep::EmptySnapshot
                } else {
                    ManifestStep::Accept
                }
            },
            _ => ManifestStep::Stale,
        }
    }

    /// The accepted manifest is stored and header staging opened at the local tip.
    ///
    /// With no header missing the staging is sealed at once; otherwise the
    /// first range above the tip is asked for.
    pub fn manifest_staged(&mut self, boundary: &SnapshotBoundary, local_height: u64) -> (step: HeadersStep)
        requires
            old(self)@.wf(),
            old(self)@.stage is WaitingManifest,
        ensures
            ({
                let generation = old(self)@.stage->WaitingManifest_generation;
                let peer = old(self)@.stage->WaitingManifest_peer;
                let start_height = sat_add(local_height, 1);
                &&& final(self)@ == (RuntimeView {
                    stage: MobileBootstrapStage::ManifestReceived {
                        generation,
                        peer,
                        boundary_height: boundary.height,
                        boundary_hash: boundary.hash,
                        manifest_digest: boundary.manifest_digest,
                    },
                    phase: PHASE_HEADERS,
                    slots: SnapshotSlots {
                        header_staging: boundary.height != local_height,
                        offer: true,
                        ..old(self)@.slots
                    },
                    ..old(self)@
                })
                &&& step == (if boundary.height == local_height {
                    HeadersStep::Seal
                } else {
                    HeadersStep::Fetch(
                        NetworkCommand::FetchSnapshotHeaders {
                            generation,
                            token: generation,
                            peer,
                            start_height,
                            count: range_count(start_height, boundary.height),
                        },
                    )
                })
            }),
            final(self)@.wf(),
    {
        if let MobileBootstrapStage::WaitingManifest { generation, peer } = self.stage {
            self.slots.header_staging = boundary.height != local_height;
            self.slots.offer = true;
            self.stage = MobileBootstrapStage::ManifestReceived {
                generation,
                peer,
                boundary_height: boundary.height,
                boundary_hash: boundary.hash,
                manifest_digest: boundary.manifest_digest,
            };
            self.phase = PHASE_HEADERS;
            if boundary.height != local_height {
                let start_height: u64 = local_height.saturating_add(1);
                return HeadersStep::Fetch(
                    NetworkCommand::FetchSnapshotHeaders {
                        generation,
                        token: generation,
                        peer,
                        start_height,
                        count: header_range_count(start_height, boundary.height),
                    },
                );
            }
        }
        HeadersStep::Seal
    }

    /// The first request for snapshot headers was queued.
    pub fn first_headers_queued(&mut self, start_height: u64, boundary_chainwork: Digest)
        requires
            old(self)@.wf(),
            old(self)@.stage is ManifestReceived,
        ensures
            ({
                let stage = old(self)@.stage;
                final(self)@ == old(self)@.at(
                    MobileBootstrapStage::StagingHeaders {
                        generation: stage->ManifestReceived_generation,
                        token: stage->ManifestReceived_generation,
                        peer: stage->ManifestReceived_peer,
                        next_height: start_height,
                        boundary_height: stage->ManifestReceived_boundary_height,
                        boundary_hash: stage->ManifestReceived_boundary_hash,
                        boundary_chainwork,
                        manifest_digest: stage->ManifestReceived_manifest_digest,
                    },
                )
            }),
            final(self)@.wf(),
    {
        if let MobileBootstrapStage::ManifestReceived {
            generation,
            peer,
            boundary_height,
            boundary_hash,
            manifest_digest,
        } = self.stage {
            self.stage = MobileBootstrapStage::StagingHeaders {
                generation,
                token: generation,
                peer,
                next_height: start_height,
                boundary_height,
                boundary_hash,
                boundary_chainwork,
                manifest_digest,
            };
        }
    }

    /// A batch of snapshot headers arrived.
    pub fn snapshot_headers_batch(
        &self,
        generation: u64,
        token: u64,
        from: &PeerId,
        start_height: u64,
        received: usize,
    ) -> (step: HeaderBatchStep)
        ensures
            step == (match self@.stage {
                MobileBootstrapStage::StagingHeaders { generation: g, token: t, peer, next_height, .. } => if g
                    != generation {
                    HeaderBatchStep::Stale
                } else if t != token || peer != *from || next_height != start_height {
                    HeaderBatchStep::Mismatch
                } else if received == 0 {
                    HeaderBatchStep::Empty
                } else if !self@.slots.header_staging {
                    HeaderBatchStep::StagingMissing
                } else {
                    HeaderBatchStep::Append
                },
                _ => HeaderBatchStep::Stale,
            }),
    {
        match self.stage {
            MobileBootstrapStage::StagingHeaders { generation: g, token: t, peer, next_height, .. } => {
                if g != generation {
                    HeaderBatchStep::Stale
                } else if t != token || !peer.same(from) || next_height != start_height {
                    HeaderBatchStep::Mismatch
                } else if received == 0 {
                    HeaderBatchStep::Empty
                } else if !self.slots.header_staging {
                    HeaderBatchStep::StagingMissing
                } else {
                    HeaderBatchStep::Append
                }
            },
            _ => HeaderBatchStep::Stale,
        }
    }

    /// A batch was appended and the staging now wants `next_height`.
    pub fn snapshot_headers_appended(&mut self, next_height: u64) -> (step: HeadersStep)
        requires
            old(self)@.wf(),
            old(self)@.stage is StagingHeaders,
        ensures
            ({
                let stage = old(self)@.stage;
                let boundary_height = stage->StagingHeaders_boundary_height;
                &&& final(self)@ == (if next_height > boundary_height {
                    old(self)@.with_slots(SnapshotSlots { header_staging: false, ..old(self)@.slots })
                } else {
                    old(self)@
                })
                &&& step == (if next_height > boundary_height {
                    HeadersStep::Seal
                } else {
                    HeadersStep::Fetch(
                        NetworkCommand::FetchSnapshotHeaders {
                            generation: stage->StagingHeaders_generation,
                            token: sat_add(stage->StagingHeaders_token, 1),
                            peer: stage->StagingHeaders_peer,
                            start_height: next_height,
                            count: range_count(next_height, boundary_height),
                        },
                    )
                })
            }),
            final(self)@.wf(),
    {
        if let MobileBootstrapStage::StagingHeaders { generation, token, peer, boundary_height, .. } = self.stage {
            if next_height <= boundary_height {
                return HeadersStep::Fetch(
                    NetworkCommand::FetchSnapshotHeaders {
                        generation,
                        token: token.saturating_add(1),
                        peer,
                        start_height: next_height,
                        count: header_range_count(next_height, boundary_height),
                    },
                );
            }
            self.slots.header_staging = false;
        }
        HeadersStep::Seal
    }

    /// The request for the next snapshot headers was queued.
    pub fn next_headers_queued(&mut self, start_height: u64)
        requires
            old(self)@.wf(),
            old(self)@.stage is StagingHeaders,
        ensures
            ({
                let stage = old(self)@.stage;
                final(self)@ == old(self)@.at(
                    MobileBootstrapStage::StagingHeaders {
                        generation: stage->StagingHeaders_generation,
                        token: sat_add(stage->StagingHeaders_token, 1),
                        peer: stage->StagingHeaders_peer,
                        next_height: start_height,
                        boundary_height: stage->StagingHeaders_boundary_height,
                        boundary_hash: stage->StagingHeaders_boundary_hash,
                        boundary_chainwork: stage->StagingHeaders_boundary_chainwork,
                        manifest_digest: stage->StagingHeaders_manifest_digest,
                    },
                )
            }),
            final(self)@.wf(),
    {
        if let MobileBootstrapStage::StagingHeaders {
            generation,
            token,
            peer,
            boundary_height,
            boundary_hash,
            boundary_chainwork,
            manifest_digest,
            ..
        } = self.stage {
            self.stage = MobileBootstrapStage::StagingHeaders {
                generation,
                token: token.saturating_add(1),
                peer,
                next_height: start_height,
                boundary_height,
                boundary_hash,
                boundary_chainwork,
                manifest_digest,
            };
        }
    }

    /// The headers up to the boundary are sealed: the terminal is to be requested.
    pub fn snapshot_headers_sealed(&mut self) -> (command: NetworkCommand)
        requires
            old(self)@.wf(),
            old(self)@.stage is ManifestReceived || old(self)@.stage is StagingHeaders,
        ensures
            final(self)@ == old(self)@.with_slots(SnapshotSlots { validated_headers: true, ..old(self)@.slots }),
            command == terminal_request(old(self)@.stage),
            final(self)@.wf(),
    {
        self.slots.validated_headers = true;
        match self.stage {
            MobileBootstrapStage::ManifestReceived { generation, peer, boundary_height, boundary_hash, .. } => {
                NetworkCommand::RequestHistoryStepTerminal {
                    token: generation,
                    peer,
                    height: boundary_height,
                    block_hash: boundary_hash,
                }
            },
            MobileBootstrapStage::StagingHeaders { generation, peer, boundary_height, boundary_hash, .. } => {
                NetworkCommand::RequestHistoryStepTerminal {
                    token: generation,
                    peer,
                    height: boundary_height,
                    block_hash: boundary_hash,
                }
            },
            _ => NetworkCommand::BootstrapComplete,
        }
    }

    /// The request for the terminal was queued.
    pub fn terminal_requested(&mut self)
        requires
            old(self)@.wf(),
            old(self)@.stage is ManifestReceived || old(self)@.stage is StagingHeaders,
        ensures
            final(self)@ == old(self)@.at(awaiting_terminal(old(self)@.stage)),
            final(self)@.wf(),
    {
        match self.stage {
            MobileBootstrapStage::ManifestReceived {
                generation,
                peer,
                boundary_height,
                boundary_hash,
                manifest_digest,
            } => {
                self.stage = MobileBootstrapStage::WaitingTerminal {
                    generation,
                    peer,
                    boundary_height,
                    boundary_hash,
                    manifest_digest,
                };
            },
            MobileBootstrapStage::StagingHeaders {
                generation,
                peer,
                boundary_height,
                boundary_hash,
                manifest_digest,
                ..
            } => {
                self.stage = MobileBootstrapStage::WaitingTerminal {
                    generation,
                    peer,
                    boundary_height,
                    boundary_hash,
                    manifest_digest,
                };
            },
            _ => {},
        }
    }

    /// A request for snapshot headers failed.
    ///
    /// A full local lane is no failure of the peer: the same range is asked
    /// for again and the authenticated headers are kept.
    pub fn snapshot_headers_failed(
        &mut self,
        generation: u64,
        token: u64,
        from: PeerId,
        start_height: u64,
        count: u16,
        kind: RequestFailureKind,
    ) -> (failure: HeadersFailure)
        requires
            old(self)@.wf(),
        ensures
            ({
                let correlated = match old(self)@.stage {
                    MobileBootstrapStage::StagingHeaders { generation: g, token: t, peer, .. } => g == generation
                        && t == token && peer == from,
                    _ => false,
                };
                if kind == RequestFailureKind::LocalCapacity {
                    &&& final(self)@ == old(self)@
                    &&& failure == HeadersFailure::Retry(
                        NetworkCommand::FetchSnapshotHeaders { generation, token, peer: from, start_height, count },
                    )
                } else if correlated {
                    &&& final(self)@ == old(self)@.at(MobileBootstrapStage::Idle).with_slots(
                        SnapshotSlots { header_staging: false, offer: false, ..old(self)@.slots },
                    )
                    &&& failure == HeadersFailure::Discard
                } else {
                    &&& final(self)@ == old(self)@
                    &&& failure == HeadersFailure::Ignore
                }
            }),
            final(self)@.wf(),
    {
        if let RequestFailureKind::LocalCapacity = kind {
            return HeadersFailure::Retry(
                NetworkCommand::FetchSnapshotHeaders { generation, token, peer: from, start_height, count },
            );
        }
        if let MobileBootstrapStage::StagingHeaders { generation: g, token: t, peer, .. } = self.stage {
            if g == generation && t == token && peer.same(&from) {
                self.stage = MobileBootstrapStage::Idle;
                self.slots.header_staging = false;
                self.slots.offer = false;
                return HeadersFailure::Discard;
            }
        }
        HeadersFailure::Ignore
    }

    /// A request for the terminal failed, or the peer was busy.
    pub fn terminal_request_failed(&mut self, token: u64, from: &PeerId)
        requires
            old(self)@.wf(),
        ensures
            final(self)@ == (match old(self)@.stage {
                MobileBootstrapStage::WaitingTerminal { generation, peer, .. } => if generation == token && peer
                    == *from {
                    old(self)@.at(MobileBootstrapStage::Idle)
                } else {
                    old(self)@
                },
                _ => old(self)@,
            }),
            final(self)@.wf(),
    {
        if let MobileBootstrapStage::WaitingTerminal { generation, peer, .. } = self.stage {
            if generation == token && peer.same(from) {
                self.stage = MobileBootstrapStage::Idle;
            }
        }
    }

    /// A terminal arrived.
    ///
    /// Only the exact answer to the outstanding request is looked at. For its
    /// verification the sealed headers are handed out.
    pub fn history_step_terminal(
        &mut self,
        token: u64,
        from: &PeerId,
        height: u64,
        block_hash: &Digest,
        terminal_len: usize,
    ) -> (step: TerminalStep)
        requires
            old(self)@.wf(),
        ensures
            ({
                let expected = match old(self)@.stage {
                    MobileBootstrapStage::WaitingTerminal {
                        generation,
                        peer,
                        boundary_height,
                        boundary_hash,
                        ..
                    } => generation == token && peer == *from && boundary_height == height && boundary_hash
                        == *block_hash,
                    _ => false,
                };
                &&& step == (if !expected {
                    TerminalStep::Stale
                } else if terminal_len == 0 {
                    TerminalStep::Empty
                } else if !old(self)@.slots.validated_headers {
                    TerminalStep::HeadersMissing
                } else {
                    TerminalStep::Verify
                })
                &&& final(self)@ == (if step == TerminalStep::Verify {
                    old(self)@.with_slots(SnapshotSlots { validated_headers: false, ..old(self)@.slots })
                } else {
                    old(self)@
                })
            }),
            final(self)@.wf(),
    {
        let expected: bool = match self.stage {
            MobileBootstrapStage::WaitingTerminal { generation, peer, boundary_height, boundary_hash, .. } => {
                generation == token && peer.same(from) && boundary_height == height && hash_eq(
                    &boundary_hash,
                    block_hash,
                )
            },
            _ => false,
        };
        if !expected {
            return TerminalStep::Stale;
        }
        if terminal_len == 0 {
            return TerminalStep::Empty;
        }
        if !self.slots.validated_headers {
            return TerminalStep::HeadersMissing;
        }
        self.slots.validated_headers = false;
        TerminalStep::Verify
    }

    /// Whether the sealed headers end at the requested boundary.
    pub fn boundary_matches(&self, tip_height: u64, tip_hash: &Digest) -> (matches: bool)
        ensures
            matches == (match self@.stage {
                MobileBootstrapStage::WaitingTerminal { boundary_height, boundary_hash, .. } => boundary_height
                    == tip_height && boundary_hash == *tip_hash,
                _ => false,
            }),
    {
        match self.stage {
            MobileBootstrapStage::WaitingTerminal { boundary_height, boundary_hash, .. } => boundary_height
                == tip_height && hash_eq(&boundary_hash, tip_hash),
            _ => false,
        }
    }

    /// Hand out the manifest that was selected, if it is still there.
    pub fn take_snapshot_offer(&mut self) -> (present: bool)
        requires
            old(self)@.wf(),
        ensures
            present == old(self)@.slots.offer,
            final(self)@ == old(self)@.with_slots(SnapshotSlots { offer: false, ..old(self)@.slots }),
            final(self)@.wf(),
    {
        let present: bool = self.slots.offer;
        self.slots.offer = false;
        present
    }

    /// The boundary is verified: it, the sealed headers and the staging of state segments are kept.
    pub fn snapshot_authorized(&mut self)
        requires
            old(self)@.wf(),
            old(self)@.stage is WaitingTerminal,
        ensures
            final(self)@ == old(self)@.with_slots(
                SnapshotSlots {
                    validated_headers: true,
                    verified_boundary: true,
                    segment_staging: true,
                    ..old(self)@.slots
                },
            ),
            final(self)@.wf(),
    {
        self.slots.validated_headers = true;
        self.slots.verified_boundary = true;
        self.slots.segment_staging = true;
    }

    /// The transfer of the state segments of an authorized snapshot has started.
    pub fn snapshot_sync_started(&mut self)
        requires
            old(self)@.wf(),
            old(self)@.stage is WaitingTerminal,
            old(self)@.slots.validated_headers,
            old(self)@.slots.verified_boundary,
            old(self)@.slots.segment_staging,
        ensures
            ({
                let stage = old(self)@.stage;
                final(self)@ == (RuntimeView {
                    stage: MobileBootstrapStage::SyncingSnapshot {
                        generation: stage->WaitingTerminal_generation,
                        boundary_height: stage->WaitingTerminal_boundary_height,
                        boundary_hash: stage->WaitingTerminal_boundary_hash,
                    },
                    phase: PHASE_STATE,
                    slots: SnapshotSlots { transport: true, ..old(self)@.slots },
                    ..old(self)@
                })
            }),
            final(self)@.wf(),
    {
        if let MobileBootstrapStage::WaitingTerminal { generation, boundary_height, boundary_hash, .. } = self.stage {
            self.slots.transport = true;
            self.stage = MobileBootstrapStage::SyncingSnapshot { generation, boundary_height, boundary_hash };
            self.phase = PHASE_STATE;
        }
    }

    /// Take everything that the installation of a complete snapshot consumes.
    ///
    /// Nothing is installed before every segment is verified.
    pub fn begin_install(&mut self, all_segments_verified: bool) -> (result: Result<(), InstallError>)
        requires
            old(self)@.wf(),
        ensures
            result == (match old(self)@.install_error(all_segments_verified) {
                Some(error) => Err::<(), InstallError>(error),
                None => Ok::<(), InstallError>(()),
            }),
            result is Ok <==> old(self)@.stage is SyncingSnapshot && all_segments_verified,
            final(self)@ == (if result is Ok {
                old(self)@.at(MobileBootstrapStage::Installing).with_slots(
                    SnapshotSlots {
                        transport: false,
                        segment_staging: false,
                        verified_boundary: false,
                        validated_headers: false,
                        ..old(self)@.slots
                    },
                )
            } else {
                old(self)@
            }),
            final(self)@.wf(),
    {
        if !self.slots.transport {
            return Err(InstallError::TransportMissing);
        }
        if !all_segments_verified {
            return Err(InstallError::SegmentsUnverified);
        }
        self.stage = MobileBootstrapStage::Installing;
        self.slots.transport = false;
        if !self.slots.segment_staging {
            return Err(InstallError::StagingMissing);
        }
        self.slots.segment_staging = false;
        if !self.slots.verified_boundary {
            return Err(InstallError::BoundaryMissing);
        }
        self.slots.verified_boundary = false;
        if !self.slots.validated_headers {
            return Err(InstallError::HeadersMissing);
        }
        self.slots.validated_headers = false;
        Ok(())
    }

    /// The snapshot up to `target_height` is canonical: the tail starts right above it.
    pub fn finish_install(&mut self, target_height: u64, observer: PeerId, queued: bool, now_ms: u64)
        requires
            old(self)@.wf(),
            old(self)@.stage is Installing,
            observer.wf(),
        ensures
            final(self)@ == (RuntimeView {
                stage: MobileBootstrapStage::TailSync(
                    TailSync::fresh(target_height, observer).after_request(
                        observer,
                        sat_add(target_height, 1),
                        queued,
                        now_ms,
                    ),
                ),
                phase: PHASE_TAIL,
                ..old(self)@
            }),
            final(self)@.wf(),
    {
        let mut tail = TailSync::new(target_height, observer);
        tail.note_request(observer, target_height.saturating_add(1), queued, now_ms);
        self.stage = MobileBootstrapStage::TailSync(tail);
        self.phase = PHASE_TAIL;
    }
}

/// The first header request of the tail above an installed snapshot.
pub fn post_install_request(target_height: u64, observer: PeerId) -> (command: NetworkCommand)
    ensures
        command == (NetworkCommand::FetchHeaders {
            peer: observer,
            start_height: sat_add(target_height, 1),
            count: HEADER_BATCH_MAX,
        }),
{
    NetworkCommand::FetchHeaders {
        peer: observer,
        start_height: target_height.saturating_add(1),
        count: HEADER_BATCH_MAX,
    }
}

} // verus!
