//! What follows a planned inventory, and what peers send besides blocks.

use vstd::prelude::*;
use crate::bootstrap::{gap_beyond_serving, gap_requires_snapshot_sync, MobileBootstrapStage, NetworkCommand};
use crate::header_planner::HeaderInventoryPlan;
use crate::p2p_runtime::{probes_without, ActiveSuffix, MobileP2PRuntime, RuntimeView};
use crate::peer::PeerId;
use crate::sync::MobileSuffixAdmission;

verus! {

/// What an inventory calls for.
#[derive(Clone, Copy, Debug)]
pub enum InventoryAction {
    /// Keep its hints and offer them to the active suffix.
    ///
    /// Also known headers can come with the objects that the suffix lacks.
    MergeHints,
    /// Ask the peer for older headers.
    Fetch(NetworkCommand),
    /// Judge the validated branch.
    Consider,
    /// Forget what the peer offers and take it off the active suffix.
    ///
    /// The healthy local chain stays: no snapshot is installed for this.
    DropAndDisconnect,
    /// Forget what the peer offers.
    Drop,
}

/// Decide what an inventory from a peer calls for; no plan means that it failed validation.
pub fn inventory_action(plan: Option<&HeaderInventoryPlan>, from: PeerId) -> (action: InventoryAction)
    ensures
        action == (match plan {
            None => InventoryAction::Drop,
            Some(plan) => match *plan {
                HeaderInventoryPlan::Confirmed { .. } => InventoryAction::MergeHints,
                HeaderInventoryPlan::Behind => InventoryAction::MergeHints,
                HeaderInventoryPlan::NeedOlder { start_height, count } => InventoryAction::Fetch(
                    NetworkCommand::FetchHeaders { peer: from, start_height, count },
                ),
                HeaderInventoryPlan::Candidate { .. } => InventoryAction::Consider,
                HeaderInventoryPlan::FinalizedDivergence => InventoryAction::DropAndDisconnect,
            },
        }),
{
    match plan {
        None => InventoryAction::Drop,
        Some(plan) => match plan {
            HeaderInventoryPlan::Confirmed { .. } => InventoryAction::MergeHints,
            HeaderInventoryPlan::Behind => InventoryAction::MergeHints,
            HeaderInventoryPlan::NeedOlder { start_height, count } => InventoryAction::Fetch(
                NetworkCommand::FetchHeaders { peer: from, start_height: *start_height, count: *count },
            ),
            HeaderInventoryPlan::Candidate { .. } => InventoryAction::Consider,
            HeaderInventoryPlan::FinalizedDivergence => InventoryAction::DropAndDisconnect,
        },
    }
}

/// What becomes of a validated branch.
#[derive(Clone, Copy, Debug)]
pub enum CandidateStep {
    /// It is not the branch to follow, or there is nothing to fetch.
    Leave,
    /// It is too far ahead for its bodies to be served: a snapshot is asked for.
    Snapshot(NetworkCommand),
    /// Make an exact plan of it.
    Plan,
}

/// What the header store says of a validated branch.
#[derive(Clone, Copy, Debug)]
pub struct CandidateFacts {
    /// Headers that the planner validated.
    pub headers: usize,
    /// The branch ends at the best tip.
    pub is_best: bool,
    /// Headers of the selected path from the durable tip.
    pub selected: usize,
    pub old_tip_height: u64,
    pub target_height: u64,
}

/// The branch is worth following.
pub open spec fn is_followed(facts: CandidateFacts) -> bool {
    facts.headers > 0 && facts.is_best && facts.selected > 0
}

impl MobileP2PRuntime {
    /// Judge a validated branch.
    ///
    /// Bodies far behind a peer's tip are not served any more: then a snapshot
    /// is asked for, unless a suffix is being fetched or a snapshot bootstrap
    /// is under way.
    pub fn consider_candidate(
        &mut self,
        from: PeerId,
        facts: &CandidateFacts,
        exact_active: bool,
        local_height: u64,
        serving_depth: u64,
    ) -> (step: CandidateStep)
        requires
            old(self)@.wf(),
            from.wf(),
        ensures
            ({
                let far = gap_beyond_serving(facts.old_tip_height, facts.target_height, serving_depth) && !exact_active;
                if !is_followed(*facts) || (far && old(self)@.stage.owns_snapshot()) {
                    step == CandidateStep::Leave && final(self)@ == old(self)@
                } else if far {
                    &&& step == CandidateStep::Snapshot(old(self)@.begin_snapshot_command(from, local_height)->0)
                    &&& final(self)@ == old(self)@.begin_snapshot(from)
                } else {
                    step == CandidateStep::Plan && final(self)@ == old(self)@
                }
            }),
            final(self)@.wf(),
    {
        if facts.headers == 0 || !facts.is_best || facts.selected == 0 {
            return CandidateStep::Leave;
        }
        if gap_requires_snapshot_sync(facts.old_tip_height, facts.target_height, serving_depth) && !exact_active {
            if self.snapshot_bootstrap_active() {
                return CandidateStep::Leave;
            }
            match self.begin_snapshot_bootstrap(from, local_height) {
                Some(command) => CandidateStep::Snapshot(command),
                None => CandidateStep::Leave,
            }
        } else {
            CandidateStep::Plan
        }
    }

    /// An exact plan was admitted, or put behind the active one.
    ///
    /// `active` is the suffix that is active now. If it is still the older one,
    /// its providers are probed: it has to finish first.
    pub fn suffix_admitted(
        &mut self,
        admission: MobileSuffixAdmission,
        base_height: u64,
        target_height: u64,
        active: Option<ActiveSuffix>,
        now_ms: u64,
    ) -> (commands: Vec<NetworkCommand>)
        requires
            old(self)@.wf(),
        ensures
            ({
                let waits = admission == MobileSuffixAdmission::DeferredExtension || admission
                    == MobileSuffixAdmission::KeptStrongerActive;
                &&& final(self)@ == (if waits {
                    old(self)@.probe_active(active, now_ms)
                } else {
                    RuntimeView {
                        probes: probes_without(old(self)@.probes, base_height, target_height),
                        ..old(self)@
                    }
                })
                &&& commands@ == (if waits {
                    old(self)@.probe_active_commands(active, now_ms)
                } else {
                    Seq::empty()
                })
            }),
            final(self)@.wf(),
    {
        match admission {
            MobileSuffixAdmission::DeferredExtension => self.probe_active_suffix_providers(active, now_ms),
            MobileSuffixAdmission::KeptStrongerActive => self.probe_active_suffix_providers(active, now_ms),
            _ => {
                self.forget_probe(base_height, target_height);
                Vec::new()
            },
        }
    }

    /// The peers that are not asked for the providers of a branch: who sent it, and the peer of the tail.
    pub open spec fn not_probed(self, from: PeerId) -> Seq<PeerId> {
        match self.stage {
            MobileBootstrapStage::TailSync(tail) => seq![from, tail.peer],
            _ => seq![from],
        }
    }

    /// No exact plan can be made yet: the branch is kept and other peers are asked for its objects.
    pub fn providers_missing(
        &mut self,
        from: PeerId,
        base_height: u64,
        target_height: u64,
        selected: usize,
        now_ms: u64,
    ) -> (commands: Vec<NetworkCommand>)
        requires
            old(self)@.wf(),
        ensures
            final(self)@ == old(self)@.probe_range(base_height, target_height, now_ms),
            commands@ == old(self)@.probe_range_commands(
                base_height,
                target_height,
                now_ms,
                old(self).not_probed(from),
                selected,
            ),
            final(self)@.wf(),
    {
        let mut skip: Vec<PeerId> = Vec::new();
        skip.push(from);
        if let MobileBootstrapStage::TailSync(tail) = self.stage {
            skip.push(tail.peer);
        }
        assert(skip@ =~= self.not_probed(from));
        self.probe_providers(base_height, target_height, now_ms, &skip, selected)
    }
}

/// The headers that inventories are merged onto.
///
/// While a suffix is active its headers are pinned: an inventory counts toward
/// them, not toward a newer branch that has to wait.
pub fn merge_headers<H>(active: Option<Vec<H>>, selected: Vec<H>) -> (headers: Vec<H>)
    ensures
        headers == (match active {
            Some(pinned) => pinned,
            None => selected,
        }),
{
    match active {
        Some(pinned) => pinned,
        None => selected,
    }
}

/// What is reported on a gossiped transaction.
#[derive(Clone, Copy, Debug, PartialEq, Eq, Structural)]
pub enum GossipVerdict {
    Accept,
    Reject,
    Ignore,
}

/// What the mempool made of a transaction.
#[derive(Clone, Copy, Debug, PartialEq, Eq, Structural)]
pub enum SubmitOutcome {
    Admitted,
    AlreadyAdmitted,
    /// Refused for a reason that does not show a fault of the sender.
    Soft,
    /// Refused as invalid.
    Hard,
}

/// How far a received transaction came.
#[derive(Clone, Copy, Debug, PartialEq, Eq, Structural)]
pub enum TxOutcome {
    /// It is longer than any transaction may be.
    TooLarge,
    /// It cannot be read.
    Malformed,
    Submitted(SubmitOutcome),
}

/// Whether a transaction may be decoded at all: the cheap bound before any costly work.
pub fn within_wire_limit(len: usize, max: usize) -> (within: bool)
    ensures
        within == (len <= max),
{
    len <= max
}

/// The report on a gossiped transaction.
///
/// A peer is not penalized for what does not prove it wrong: a transaction that
/// is known already, or for which there is no room now.
pub fn gossip_verdict(outcome: TxOutcome) -> (verdict: GossipVerdict)
    ensures
        verdict == (match outcome {
            TxOutcome::TooLarge => GossipVerdict::Reject,
            TxOutcome::Malformed => GossipVerdict::Reject,
            TxOutcome::Submitted(SubmitOutcome::Admitted) => GossipVerdict::Accept,
            TxOutcome::Submitted(SubmitOutcome::AlreadyAdmitted) => GossipVerdict::Ignore,
            TxOutcome::Submitted(SubmitOutcome::Soft) => GossipVerdict::Ignore,
            TxOutcome::Submitted(SubmitOutcome::Hard) => GossipVerdict::Reject,
        }),
{
    match outcome {
        TxOutcome::TooLarge => GossipVerdict::Reject,
        TxOutcome::Malformed => GossipVerdict::Reject,
        TxOutcome::Submitted(SubmitOutcome::Admitted) => GossipVerdict::Accept,
        TxOutcome::Submitted(SubmitOutcome::AlreadyAdmitted) => GossipVerdict::Ignore,
        TxOutcome::Submitted(SubmitOutcome::Soft) => GossipVerdict::Ignore,
        TxOutcome::Submitted(SubmitOutcome::Hard) => GossipVerdict::Reject,
    }
}

/// What became of the transactions of a mempool response.
#[derive(Clone, Copy, Debug, PartialEq, Eq, Structural)]
pub struct MempoolTally {
    pub admitted: usize,
    pub already_known: usize,
    pub rejected: usize,
}

/// How many outcomes of a list are admissions, repetitions and rejections.
pub open spec fn tally_of(outcomes: Seq<TxOutcome>) -> (nat, nat, nat)
    decreases outcomes.len(),
{
    if outcomes.len() == 0 {
        (0, 0, 0)
    } else {
        let (admitted, known, rejected) = tally_of(outcomes.drop_last());
        match outcomes.last() {
            TxOutcome::Submitted(SubmitOutcome::Admitted) => (admitted + 1, known, rejected),
            TxOutcome::Submitted(SubmitOutcome::AlreadyAdmitted) => (admitted, known + 1, rejected),
            _ => (admitted, known, rejected + 1),
        }
    }
}

/// Count the outcomes of a mempool response.
pub fn tally(outcomes: &Vec<TxOutcome>) -> (tally: MempoolTally)
    ensures
        (tally.admitted as nat, tally.already_known as nat, tally.rejected as nat) == tally_of(outcomes@),
        tally.admitted + tally.already_known + tally.rejected == outcomes@.len(),
{
    let mut counted = MempoolTally { admitted: 0, already_known: 0, rejected: 0 };
    let mut i: usize = 0;
    while i < outcomes.len()
        invariant
            i <= outcomes@.len(),
            (counted.admitted as nat, counted.already_known as nat, counted.rejected as nat) == tally_of(
                outcomes@.take(i as int),
            ),
            counted.admitted + counted.already_known + counted.rejected == i,
        decreases outcomes@.len() - i,
    {
        assert(outcomes@.take(i + 1).drop_last() =~= outcomes@.take(i as int));
        match outcomes[i] {
            TxOutcome::Submitted(SubmitOutcome::Admitted) => {
                counted.admitted = counted.admitted + 1;
            },
            TxOutcome::Submitted(SubmitOutcome::AlreadyAdmitted) => {
                counted.already_known = counted.already_known + 1;
            },
            _ => {
                counted.rejected = counted.rejected + 1;
            },
        }
        i = i + 1;
    }
    assert(outcomes@.take(i as int) =~= outcomes@);
    counted
}

} // verus!
