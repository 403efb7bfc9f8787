//! The application of a fetched suffix, from its bodies to the mempool.
//!
//! The steps come in one order: the bodies are bound to the plan, the epoch
//! anchor is found, the terminal is verified, the writer decides the path, the
//! chain authorizes it, and only then are blocks committed. A step that fails
//! ends the application with nothing written.

use vstd::prelude::*;
use crate::bytes::Digest;
use crate::header_planner::ChainPoint;
use crate::peer::PeerId;
use crate::sync_apply::{
    anchor_missing, anchor_of, anchor_source, append_all, blames_body, blames_nobody, blames_terminal, bodies_checked,
    body_error_is_peer_fault, body_fault, body_problem, check_bodies, concatenated, confirmed_by, joined,
    payload_bytes, reorg_failure, terminal_failure, terminal_fault, terminal_use_words, total_len, AnchorSource,
    AppliedCompactSuffix, AppliedReorg, Blame, CommitPath, ContextFailure, DecodedBody,
    ExactSuffixApplyError, SyncPlanKind, TerminalUse, WalletFollowup,
};
use crate::text::{decimal, decimal_text};

verus! {

/// How far the application of a suffix has come.
#[derive(Clone, Copy, Debug, PartialEq, Eq, Structural)]
pub enum ApplyStage {
    /// Bodies and terminal are there, and nothing is known of them.
    Fetched,
    /// The bodies belong to the headers of the plan and end at its target.
    Bound,
    /// The epoch anchor is known.
    Anchored,
    /// The terminal is verified.
    Verified,
    /// The writer took the suffix as an extension of the tip.
    LiveAdmitted,
    /// The writer took the suffix as a replacement.
    ReorgAdmitted,
    /// Blocks are being committed.
    Live,
    /// The replacement may be committed.
    Reorg,
    /// As many blocks as could be are committed.
    Committed,
    /// The replacement is committed.
    Reorganized,
    /// Given up with nothing written.
    Refused,
}

/// One stage follows another.
pub open spec fn follows(before: ApplyStage, after: ApplyStage) -> bool {
    match before {
        ApplyStage::Fetched => after is Bound || after is Refused,
        ApplyStage::Bound => after is Anchored || after is Refused,
        ApplyStage::Anchored => after is Verified || after is Refused,
        ApplyStage::Verified => after is LiveAdmitted || after is ReorgAdmitted || after is Refused,
        ApplyStage::LiveAdmitted => after is Live || after is Refused,
        ApplyStage::ReorgAdmitted => after is Reorg || after is Refused,
        ApplyStage::Live => after is Live || after is Committed,
        ApplyStage::Reorg => after is Reorganized || after is Refused,
        ApplyStage::Committed => false,
        ApplyStage::Reorganized => false,
        ApplyStage::Refused => false,
    }
}

/// The chain is written only in these stages.
pub open spec fn writes(stage: ApplyStage) -> bool {
    stage is Live || stage is Reorg
}

/// What canonical storage holds of the epoch anchor.
#[derive(Debug)]
pub enum AnchorLookup {
    Found,
    Absent,
    Failed(String),
}

/// A refused reorganization: what went wrong, and in which body.
#[derive(Debug)]
pub struct ReorgFailure {
    pub failure: ContextFailure,
    pub body_index: Option<usize>,
}

/// The application as the proofs see it.
#[verifier::ext_equal]
pub struct ApplyView {
    pub stage: ApplyStage,
    pub kind: SyncPlanKind,
    pub base: ChainPoint,
    pub target: ChainPoint,
    pub planned: usize,
    pub sources: Seq<PeerId>,
    pub terminal_source: PeerId,
    pub points: Seq<ChainPoint>,
    pub applied: usize,
    pub confirmed: Seq<Digest>,
    pub trailing: Option<Blame>,
}

/// A suffix while it is applied.
pub struct SuffixApply {
    pub stage: ApplyStage,
    pub kind: SyncPlanKind,
    /// The block on which the suffix stands.
    pub base: ChainPoint,
    /// The block with which it ends.
    pub target: ChainPoint,
    /// How many headers the plan has.
    pub planned: usize,
    /// Who sent each body.
    pub sources: Vec<PeerId>,
    pub terminal_source: PeerId,
    /// The blocks of the bodies, once they are bound.
    pub points: Vec<ChainPoint>,
    /// How many blocks are committed.
    pub applied: usize,
    pub confirmed_tx_hashes: Vec<Digest>,
    /// Why the commit ended early.
    pub trailing_error: Option<ExactSuffixApplyError>,
}

impl View for SuffixApply {
    type V = ApplyView;

    open spec fn view(&self) -> ApplyView {
        ApplyView {
            stage: self.stage,
            kind: self.kind,
            base: self.base,
            target: self.target,
            planned: self.planned,
            sources: self.sources@,
            terminal_source: self.terminal_source,
            points: self.points@,
            applied: self.applied,
            confirmed: self.confirmed_tx_hashes@,
            trailing: match self.trailing_error {
                Some(error) => Some(error@),
                None => None,
            },
        }
    }
}

/// The block of a body.
pub open spec fn body_point(body: DecodedBody) -> ChainPoint {
    ChainPoint { height: body->height, hash: body->hash }
}

pub open spec fn body_points(bodies: Seq<DecodedBody>) -> Seq<ChainPoint> {
    bodies.map_values(|body: DecodedBody| body_point(body))
}

impl ApplyView {
    pub open spec fn wf(self) -> bool {
        &&& self.applied <= self.planned
        &&& !(self.stage is Fetched || self.stage is Refused) ==> {
            &&& self.planned > 0
            &&& self.sources.len() == self.planned
            &&& self.points.len() == self.planned
            &&& self.points.last().hash == self.target.hash
        }
        &&& !(self.stage is Live || self.stage is Committed) ==> {
            &&& self.applied == 0
            &&& self.confirmed.len() == 0
            &&& self.trailing is None
        }
        &&& self.stage is LiveAdmitted || self.stage is Live || self.stage is Committed ==> self.kind is LiveSuffix
        &&& self.stage is ReorgAdmitted || self.stage is Reorg || self.stage is Reorganized ==> self.kind is Reorg
        &&& self.stage is Committed && self.trailing is None ==> self.applied == self.planned
    }

    pub open spec fn at(self, stage: ApplyStage) -> ApplyView {
        ApplyView { stage, ..self }
    }

    /// The block that is committed next.
    pub open spec fn next(self) -> Option<usize> {
        if self.stage is Live && self.trailing is None && self.applied < self.planned {
            Some(self.applied)
        } else {
            None
        }
    }

    /// How many blocks of the plan the application has made canonical.
    pub open spec fn written(self) -> nat {
        match self.stage {
            ApplyStage::Live => self.applied as nat,
            ApplyStage::Committed => self.applied as nat,
            ApplyStage::Reorganized => self.planned as nat,
            _ => 0,
        }
    }

    /// The last block that was committed, or the base.
    pub open spec fn reached(self) -> ChainPoint {
        if self.applied == 0 {
            self.base
        } else {
            self.points[self.applied - 1]
        }
    }

    /// The blocks stand one on the other above the base.
    pub open spec fn rises(self) -> bool {
        forall|i: int| 0 <= i < self.points.len() ==> (#[trigger] self.points[i]).height == self.base.height + 1 + i
    }

    /// The commit ends before the next block.
    pub open spec fn stopped(self, blame: Blame) -> ApplyView {
        ApplyView { trailing: Some(blame), ..self }
    }

    /// The next block is committed and confirms these transactions.
    pub open spec fn committed(self, txids: Seq<Digest>) -> ApplyView {
        ApplyView { applied: (self.applied + 1) as usize, confirmed: self.confirmed + txids, ..self }
    }

    /// No further block is committed.
    pub open spec fn finished(self, complete: bool) -> ApplyView {
        ApplyView {
            stage: ApplyStage::Committed,
            trailing: if self.trailing is Some {
                self.trailing
            } else if complete && self.applied == self.planned {
                None
            } else {
                Some(blames_nobody("exact suffix ended before verified tip"@))
            },
            ..self
        }
    }

    /// What a terminal that the chain did not take comes to.
    pub open spec fn terminal_blame(self, usage: TerminalUse, failure: ContextFailure) -> Blame {
        let words = terminal_use_words(usage) + failure.text@;
        if terminal_fault(failure.kind) {
            blames_terminal(self.terminal_source, words)
        } else {
            blames_nobody(words)
        }
    }

    /// What a block that the chain did not take comes to.
    pub open spec fn block_blame(self, failure: ContextFailure) -> Blame {
        let words = "apply exact suffix block "@ + decimal(self.points[self.applied as int].height as nat) + ": "@
            + failure.text@;
        if body_fault(failure.kind) {
            blames_body(self.sources[self.applied as int], words)
        } else {
            blames_nobody(words)
        }
    }

    /// What a replacement that the chain did not take comes to.
    pub open spec fn reorg_blame(self, refused: ReorgFailure) -> Blame {
        let words = "apply atomic exact reorg suffix: "@ + refused.failure.text@;
        if refused.body_index is Some && refused.body_index->0 < self.sources.len() && body_fault(
            refused.failure.kind,
        ) {
            blames_body(self.sources[refused.body_index->0 as int], words)
        } else {
            blames_nobody(words)
        }
    }

    /// What looking for the epoch anchor comes to.
    pub open spec fn anchor_blame(self, epoch_height: u64, stored: AnchorLookup) -> Option<Blame> {
        match anchor_of(epoch_height, self.base.height, self.points) {
            AnchorSource::Canonical => match stored {
                AnchorLookup::Found => None,
                AnchorLookup::Absent => Some(
                    blames_nobody("exact suffix epoch anchor missing from canonical storage"@),
                ),
                AnchorLookup::Failed(error) => Some(blames_nobody("load exact suffix epoch anchor: "@ + error@)),
            },
            AnchorSource::Body(_) => None,
            AnchorSource::Missing => Some(blames_nobody("exact suffix epoch anchor missing from candidate bodies"@)),
        }
    }

    /// The stage that a step leads to: the named one, or the end if it failed.
    pub open spec fn led_to<T>(
        self,
        stage: ApplyStage,
        after: ApplyView,
        result: Result<T, ExactSuffixApplyError>,
    ) -> bool {
        &&& after == self.at(
            if result is Ok {
                stage
            } else {
                ApplyStage::Refused
            },
        )
        &&& follows(self.stage, after.stage)
        &&& result is Err ==> after.written() == 0
        &&& after.wf()
    }
}

impl SuffixApply {
    /// Take up a fetched suffix.
    pub fn new(
        kind: SyncPlanKind,
        base: ChainPoint,
        target: ChainPoint,
        planned: usize,
        sources: Vec<PeerId>,
        terminal_source: PeerId,
    ) -> (apply: SuffixApply)
        ensures
            apply@ == (ApplyView {
                stage: ApplyStage::Fetched,
                kind,
                base,
                target,
                planned,
                sources: sources@,
                terminal_source,
                points: Seq::empty(),
                applied: 0,
                confirmed: Seq::empty(),
                trailing: None,
            }),
            apply@.wf(),
    {
        SuffixApply {
            stage: ApplyStage::Fetched,
            kind,
            base,
            target,
            planned,
            sources,
            terminal_source,
            points: Vec::new(),
            applied: 0,
            confirmed_tx_hashes: Vec::new(),
            trailing_error: None,
        }
    }

    /// Bind the decoded bodies to the plan.
    pub fn bodies(&mut self, bodies: &Vec<DecodedBody>) -> (result: Result<(), ExactSuffixApplyError>)
        requires
            old(self)@.wf(),
            old(self)@.stage is Fetched,
        ensures
            bodies_checked(old(self)@.planned as nat, old(self)@.target, bodies@, old(self)@.sources, result),
            result is Ok ==> final(self)@ == (ApplyView {
                stage: ApplyStage::Bound,
                points: body_points(bodies@),
                ..old(self)@
            }),
            result is Err ==> final(self)@ == old(self)@.at(ApplyStage::Refused) && final(self)@.written() == 0,
            follows(old(self)@.stage, final(self)@.stage),
            final(self)@.wf(),
    {
        let result = check_bodies(self.planned, &self.target, bodies, &self.sources);
        if result.is_err() {
            self.stage = ApplyStage::Refused;
            return result;
        }
        proof {
            assert forall|i: int| 0 <= i < bodies@.len() implies body_problem(#[trigger] bodies@[i]) is None by {}
        }
        let mut points: Vec<ChainPoint> = Vec::new();
        let mut i: usize = 0;
        while i < bodies.len()
            invariant
                i <= bodies@.len(),
                points@.len() == i,
                forall|j: int| 0 <= j < bodies@.len() ==> body_problem(#[trigger] bodies@[j]) is None,
                forall|j: int| 0 <= j < i ==> #[trigger] points@[j] == body_point(bodies@[j]),
            decreases bodies@.len() - i,
        {
            assert(body_problem(bodies@[i as int]) is None);
            if let DecodedBody::Block { height, hash, .. } = &bodies[i] {
                points.push(ChainPoint { height: *height, hash: *hash });
            }
            i = i + 1;
        }
        assert(points@ =~= body_points(bodies@));
        self.points = points;
        self.stage = ApplyStage::Bound;
        result
    }

    /// Where the epoch anchor of this height is to be looked for.
    pub fn anchor_source(&self, epoch_height: u64) -> (source: AnchorSource)
        requires
            self@.stage is Bound,
        ensures
            source == anchor_of(epoch_height, self@.base.height, self@.points),
    {
        anchor_source(epoch_height, self.base.height, &self.points)
    }

    /// The epoch anchor was looked for.
    ///
    /// `stored` is what canonical storage holds of it, where it is to be
    /// looked for there.
    pub fn anchor(&mut self, epoch_height: u64, stored: AnchorLookup) -> (result: Result<
        AnchorSource,
        ExactSuffixApplyError,
    >)
        requires
            old(self)@.wf(),
            old(self)@.stage is Bound,
        ensures
            match old(self)@.anchor_blame(epoch_height, stored) {
                None => result == Ok::<AnchorSource, ExactSuffixApplyError>(
                    anchor_of(epoch_height, old(self)@.base.height, old(self)@.points),
                ),
                Some(blame) => result is Err && result->Err_0@ == blame,
            },
            old(self)@.led_to(ApplyStage::Anchored, final(self)@, result),
    {
        let source = self.anchor_source(epoch_height);
        let result = match source {
            AnchorSource::Canonical => match stored {
                AnchorLookup::Found => Ok(source),
                AnchorLookup::Absent => Err(anchor_missing(true)),
                AnchorLookup::Failed(error) => Err(
                    ExactSuffixApplyError::Other(joined("load exact suffix epoch anchor: ", error.as_str())),
                ),
            },
            AnchorSource::Body(_) => Ok(source),
            AnchorSource::Missing => Err(anchor_missing(false)),
        };
        self.stage = if result.is_ok() {
            ApplyStage::Anchored
        } else {
            ApplyStage::Refused
        };
        result
    }

    /// The chain verified the terminal, or did not.
    pub fn terminal_verified(&mut self, outcome: Result<(), ContextFailure>) -> (result: Result<
        (),
        ExactSuffixApplyError,
    >)
        requires
            old(self)@.wf(),
            old(self)@.stage is Anchored,
        ensures
            match outcome {
                Ok(()) => result is Ok,
                Err(failure) => result is Err && result->Err_0@ == old(self)@.terminal_blame(
                    TerminalUse::Verify,
                    failure,
                ),
            },
            old(self)@.led_to(ApplyStage::Verified, final(self)@, result),
    {
        match outcome {
            Ok(()) => {
                self.stage = ApplyStage::Verified;
                Ok(())
            },
            Err(failure) => {
                self.stage = ApplyStage::Refused;
                Err(terminal_failure(TerminalUse::Verify, self.terminal_source, &failure))
            },
        }
    }

    /// Decide how the suffix is committed, now that the chain, at `tip`, is held for writing.
    pub fn commit_path(&mut self, tip: &ChainPoint) -> (result: Result<CommitPath, ExactSuffixApplyError>)
        requires
            old(self)@.wf(),
            old(self)@.stage is Verified,
        ensures
            match old(self)@.kind {
                SyncPlanKind::LiveSuffix => if *tip == old(self)@.base {
                    result == Ok::<CommitPath, ExactSuffixApplyError>(CommitPath::Live)
                } else {
                    result is Err && result->Err_0@ == blames_nobody("exact live suffix base changed before commit"@)
                },
                SyncPlanKind::Reorg => result == Ok::<CommitPath, ExactSuffixApplyError>(CommitPath::Reorg),
                SyncPlanKind::Snapshot => result is Err && result->Err_0@ == blames_nobody(
                    "snapshot plan reached live suffix committer"@,
                ),
            },
            old(self)@.led_to(
                if old(self)@.kind is LiveSuffix {
                    ApplyStage::LiveAdmitted
                } else {
                    ApplyStage::ReorgAdmitted
                },
                final(self)@,
                result,
            ),
    {
        match self.kind {
            SyncPlanKind::LiveSuffix => if tip.same(&self.base) {
                self.stage = ApplyStage::LiveAdmitted;
                Ok(CommitPath::Live)
            } else {
                self.stage = ApplyStage::Refused;
                Err(ExactSuffixApplyError::other("exact live suffix base changed before commit"))
            },
            SyncPlanKind::Reorg => {
                self.stage = ApplyStage::ReorgAdmitted;
                Ok(CommitPath::Reorg)
            },
            SyncPlanKind::Snapshot => {
                self.stage = ApplyStage::Refused;
                Err(ExactSuffixApplyError::other("snapshot plan reached live suffix committer"))
            },
        }
    }

    /// The chain authorized the commit by the verified terminal, or did not.
    pub fn authorized(&mut self, outcome: Result<(), ContextFailure>) -> (result: Result<(), ExactSuffixApplyError>)
        requires
            old(self)@.wf(),
            old(self)@.stage is LiveAdmitted || old(self)@.stage is ReorgAdmitted,
        ensures
            match outcome {
                Ok(()) => result is Ok,
                Err(failure) => result is Err && result->Err_0@ == old(self)@.terminal_blame(
                    if old(self)@.stage is LiveAdmitted {
                        TerminalUse::AuthorizeLive
                    } else {
                        TerminalUse::AuthorizeReorg
                    },
                    failure,
                ),
            },
            old(self)@.led_to(
                if old(self)@.stage is LiveAdmitted {
                    ApplyStage::Live
                } else {
                    ApplyStage::Reorg
                },
                final(self)@,
                result,
            ),
    {
        let live = matches!(self.stage, ApplyStage::LiveAdmitted);
        match outcome {
            Ok(()) => {
                self.stage = if live {
                    ApplyStage::Live
                } else {
                    ApplyStage::Reorg
                };
                Ok(())
            },
            Err(failure) => {
                self.stage = ApplyStage::Refused;
                let usage = if live {
                    TerminalUse::AuthorizeLive
                } else {
                    TerminalUse::AuthorizeReorg
                };
                Err(terminal_failure(usage, self.terminal_source, &failure))
            },
        }
    }

    /// The block to commit next: the blocks come in their order, each once,
    /// and none after one that failed.
    pub fn next_block(&self) -> (index: Option<usize>)
        requires
            self@.wf(),
        ensures
            index == self@.next(),
            index matches Some(i) ==> self@.stage is Live && i == self@.applied < self@.planned,
    {
        match self.stage {
            ApplyStage::Live => if self.trailing_error.is_none() && self.applied < self.planned {
                Some(self.applied)
            } else {
                None
            },
            _ => None,
        }
    }

    /// The transactions of the next block cannot be read: the commit ends before it.
    pub fn bad_transactions(&mut self, error: &str)
        requires
            old(self)@.wf(),
            old(self)@.next() is Some,
        ensures
            final(self)@ == old(self)@.stopped(
                blames_body(
                    old(self)@.sources[old(self)@.applied as int],
                    "exact suffix logical transaction stream: "@ + error@,
                ),
            ),
            follows(old(self)@.stage, final(self)@.stage),
            final(self)@.wf(),
    {
        let message = joined("exact suffix logical transaction stream: ", error);
        self.trailing_error = Some(ExactSuffixApplyError::body(self.sources[self.applied], message));
    }

    /// The next block was not applied: the commit ends before it.
    pub fn block_refused(&mut self, failure: &ContextFailure)
        requires
            old(self)@.wf(),
            old(self)@.next() is Some,
        ensures
            final(self)@ == old(self)@.stopped(old(self)@.block_blame(*failure)),
            follows(old(self)@.stage, final(self)@.stage),
            final(self)@.wf(),
    {
        let height: u64 = self.points[self.applied].height;
        let mut message = joined("apply exact suffix block ", decimal_text(height).as_str());
        message.append(": ");
        message.append(failure.text.as_str());
        self.trailing_error = Some(
            if body_error_is_peer_fault(&failure.kind) {
                ExactSuffixApplyError::body(self.sources[self.applied], message)
            } else {
                ExactSuffixApplyError::Other(message)
            },
        );
    }

    /// The next block was applied and confirms these transactions.
    pub fn block_applied(&mut self, txids: &Vec<Digest>)
        requires
            old(self)@.wf(),
            old(self)@.next() is Some,
        ensures
            final(self)@ == old(self)@.committed(txids@),
            follows(old(self)@.stage, final(self)@.stage),
            final(self)@.wf(),
    {
        append_all(&mut self.confirmed_tx_hashes, txids);
        self.applied = self.applied + 1;
    }

    /// No further block is tried; `complete` says whether the chain reached the verified tip.
    ///
    /// Without an error every block of the plan was applied.
    pub fn finish(&mut self, complete: bool)
        requires
            old(self)@.wf(),
            old(self)@.stage is Live,
        ensures
            final(self)@ == old(self)@.finished(complete),
            final(self)@.trailing is None ==> final(self)@.applied == final(self)@.planned,
            follows(old(self)@.stage, final(self)@.stage),
            final(self)@.wf(),
    {
        if self.trailing_error.is_none() && !(complete && self.applied == self.planned) {
            self.trailing_error = Some(ExactSuffixApplyError::other("exact suffix ended before verified tip"));
        }
        self.stage = ApplyStage::Committed;
    }

    /// The outcome of a live commit, with the tip that the chain reports after it.
    pub fn live_applied<V>(
        self,
        tip: &ChainPoint,
        view: V,
        body_lengths: &Vec<usize>,
        apply_elapsed_ms: u64,
    ) -> (outcome: AppliedCompactSuffix<V>)
        requires
            self@.wf(),
            self@.stage is Committed,
        ensures
            outcome.height == tip.height,
            outcome.block_hash == tip.hash,
            outcome.confirmed_tx_hashes@ == self@.confirmed,
            outcome.view == view,
            outcome.applied_blocks == self@.applied,
            outcome.applied_blocks <= self@.planned,
            outcome.payload_bytes == (if total_len(body_lengths@) > u64::MAX {
                u64::MAX as nat
            } else {
                total_len(body_lengths@)
            }),
            outcome.apply_elapsed_ms == apply_elapsed_ms,
            match outcome.trailing_error {
                Some(error) => self@.trailing == Some(error@),
                None => self@.trailing is None && outcome.applied_blocks == self@.planned,
            },
            *tip == self@.reached() && self@.rises() ==> outcome.height == self@.base.height
                + outcome.applied_blocks,
    {
        AppliedCompactSuffix {
            height: tip.height,
            block_hash: tip.hash,
            confirmed_tx_hashes: self.confirmed_tx_hashes,
            view,
            applied_blocks: self.applied as u64,
            payload_bytes: payload_bytes(body_lengths),
            apply_elapsed_ms,
            trailing_error: self.trailing_error,
        }
    }

    /// The chain committed the replacement as a whole, or nothing of it.
    pub fn reorganized(&mut self, outcome: Result<(), ReorgFailure>) -> (result: Result<(), ExactSuffixApplyError>)
        requires
            old(self)@.wf(),
            old(self)@.stage is Reorg,
        ensures
            match outcome {
                Ok(()) => result is Ok,
                Err(refused) => result is Err && result->Err_0@ == old(self)@.reorg_blame(refused),
            },
            old(self)@.led_to(ApplyStage::Reorganized, final(self)@, result),
    {
        match outcome {
            Ok(()) => {
                self.stage = ApplyStage::Reorganized;
                Ok(())
            },
            Err(refused) => {
                self.stage = ApplyStage::Refused;
                Err(reorg_failure(&refused.failure, refused.body_index, &self.sources))
            },
        }
    }

    /// Decide what the wallet does after the reorganization: it fails closed.
    pub fn wallet_after_reorg(&self, wallet_loaded: bool, owner_found: bool, installed: bool) -> (followup:
        WalletFollowup)
        requires
            self@.stage is Reorganized,
        ensures
            followup == (if !wallet_loaded {
                WalletFollowup::Nothing
            } else if owner_found && installed {
                WalletFollowup::Installed
            } else {
                WalletFollowup::Invalidate
            }),
    {
        if !wallet_loaded {
            WalletFollowup::Nothing
        } else if owner_found && installed {
            WalletFollowup::Installed
        } else {
            WalletFollowup::Invalidate
        }
    }

    /// The outcome of the reorganization: `txids` has the transactions of each of its blocks.
    pub fn reorg_applied<V>(
        self,
        tip: ChainPoint,
        reclaimed_tx_hashes: Vec<Digest>,
        txids: &Vec<Vec<Digest>>,
        view: V,
    ) -> (outcome: AppliedReorg<V>)
        requires
            self@.wf(),
            self@.stage is Reorganized,
            txids@.len() == self@.planned,
        ensures
            outcome.tip == tip,
            outcome.reclaimed_tx_hashes == reclaimed_tx_hashes,
            outcome.confirmed_tx_hashes@ == concatenated(txids@),
            outcome.view == view,
    {
        AppliedReorg { tip, reclaimed_tx_hashes, confirmed_tx_hashes: confirmed_by(txids), view }
    }
}

/// The chain is written only after every check, and in their order: before the
/// first stage that writes stand, one after the other, the bound bodies, the
/// epoch anchor, the verified terminal and the writer's decision.
pub proof fn lemma_checks_come_before_the_commit(stages: Seq<ApplyStage>)
    requires
        stages.len() > 0,
        stages[0] is Fetched,
        forall|i: int| 0 <= i < stages.len() - 1 ==> follows(#[trigger] stages[i], stages[i + 1]),
        writes(stages.last()) || stages.last() is Committed || stages.last() is Reorganized,
    ensures
        stages.len() >= 6,
        stages[1] is Bound,
        stages[2] is Anchored,
        stages[3] is Verified,
        stages[4] is LiveAdmitted || stages[4] is ReorgAdmitted,
        writes(stages[5]),
        forall|i: int| 0 <= i < 5 ==> !writes(#[trigger] stages[i]),
{
    let last = stages.len() - 1;
    assert(last > 0);
    assert(follows(stages[0], stages[1]));
    assert(last > 1);
    assert(follows(stages[1], stages[2]));
    assert(last > 2);
    assert(follows(stages[2], stages[3]));
    assert(last > 3);
    assert(follows(stages[3], stages[4]));
    assert(last > 4);
    assert(follows(stages[4], stages[5]));
}

/// An application that was given up wrote nothing, and nothing follows it.
pub proof fn lemma_refusal_leaves_nothing_written(view: ApplyView, after: ApplyStage)
    requires
        view.wf(),
        view.stage is Refused,
    ensures
        view.written() == 0,
        view.applied == 0,
        view.confirmed.len() == 0,
        view.next() is None,
        !follows(view.stage, after),
{
}

/// The live commit once it has applied blocks with these transactions.
pub open spec fn run(view: ApplyView, txids: Seq<Seq<Digest>>) -> ApplyView
    decreases txids.len(),
{
    if txids.len() == 0 {
        view
    } else {
        run(view, txids.drop_last()).committed(txids.last())
    }
}

/// The transactions of some blocks, one block after the other.
pub open spec fn joined_txids(txids: Seq<Seq<Digest>>) -> Seq<Digest>
    decreases txids.len(),
{
    if txids.len() == 0 {
        Seq::empty()
    } else {
        joined_txids(txids.drop_last()) + txids.last()
    }
}

/// A live commit confirms the transactions of the blocks that it applied, in
/// the order of the blocks, and counts each block once.
pub proof fn lemma_commit_confirms_what_it_applied(view: ApplyView, txids: Seq<Seq<Digest>>)
    requires
        view.wf(),
        view.stage is Live,
        view.trailing is None,
        view.applied + txids.len() <= view.planned,
    ensures
        run(view, txids).wf(),
        run(view, txids).stage is Live,
        run(view, txids).trailing is None,
        run(view, txids).planned == view.planned,
        run(view, txids).applied == view.applied + txids.len(),
        run(view, txids).confirmed == view.confirmed + joined_txids(txids),
        run(view, txids).finished(true).trailing is None <==> view.applied + txids.len() == view.planned,
    decreases txids.len(),
{
    if txids.len() > 0 {
        lemma_commit_confirms_what_it_applied(view, txids.drop_last());
    }
    assert(run(view, txids).confirmed =~= view.confirmed + joined_txids(txids));
}

} // verus!
