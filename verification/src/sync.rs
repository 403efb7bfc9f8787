//! Synchronization core: which exact suffix is fetched, and how the header store follows the chain.
//!
//! The durable chain is the authority; validated headers choose a branch by
//! cumulative work; one immutable suffix at a time is fetched from whoever
//! holds its objects.

use vstd::prelude::*;
use crate::arith::{larger, max_u64, sat_add};
use crate::bytes::{hash_eq, Digest};
use crate::header_planner::{ChainPoint, ValidatedHeader};
use crate::text::{decimal, decimal_text};

verus! {

/// A finalized jump beyond this rebuilds the header store.
pub const MAX_INCREMENTAL_FINALITY_ADVANCE: u64 = 64;

/// A busy provider is not asked again before this time has passed.
pub const MIN_BUSY_RETRY_MS: u64 = 100;

/// What became of an offered suffix.
#[derive(Clone, Copy, Debug, PartialEq, Eq, Structural)]
pub enum MobileSuffixAdmission {
    Started,
    Merged,
    Duplicate,
    DeferredExtension,
    Replaced,
    KeptStrongerActive,
}

/// What the admission reads of a plan.
#[derive(Clone, Copy, Debug)]
pub struct PlanSummary {
    pub id: Digest,
    pub target: ChainPoint,
    pub target_work: Option<Digest>,
}

/// What to do with an offered suffix.
#[derive(Clone, Copy, Debug)]
pub enum AdmissionStep {
    /// Nothing is active: start it.
    Start,
    /// It is the active plan: merge its sources.
    Merge,
    /// It extends the active plan, which is to finish first.
    Defer,
    /// Compare the two branches by work.
    Compare { candidate_work: Digest, candidate_hash: Digest, active_work: Digest, active_hash: Digest },
}

/// Why an offered suffix cannot be judged.
#[derive(Clone, Copy, Debug, PartialEq, Eq, Structural)]
pub enum AdmissionError {
    CandidateWorkMissing,
    ActiveWorkMissing,
}

impl AdmissionError {
    /// The words in which it is reported.
    pub open spec fn words(self) -> Seq<char> {
        match self {
            AdmissionError::CandidateWorkMissing => "candidate mobile suffix has no cumulative work"@,
            AdmissionError::ActiveWorkMissing => "active mobile suffix has no cumulative work"@,
        }
    }

    /// The words in which it is reported.
    pub fn message(&self) -> (text: &'static str)
        ensures
            text@ == self.words(),
    {
        match self {
            AdmissionError::CandidateWorkMissing => "candidate mobile suffix has no cumulative work",
            AdmissionError::ActiveWorkMissing => "active mobile suffix has no cumulative work",
        }
    }
}

/// An offered plan ends beyond the active one and runs through its target.
pub open spec fn extends_active(offer: PlanSummary, current: PlanSummary, offer_contains_target: bool) -> bool {
    offer.target != current.target && offer_contains_target
}

/// How an offered suffix is judged against the active one.
pub open spec fn admission_step(
    current: Option<PlanSummary>,
    offer: PlanSummary,
    offer_contains_target: bool,
) -> Result<AdmissionStep, AdmissionError> {
    match current {
        None => Ok(AdmissionStep::Start),
        Some(active) => if active.id == offer.id {
            Ok(AdmissionStep::Merge)
        } else if extends_active(offer, active, offer_contains_target) {
            Ok(AdmissionStep::Defer)
        } else {
            match (offer.target_work, active.target_work) {
                (None, _) => Err(AdmissionError::CandidateWorkMissing),
                (Some(_), None) => Err(AdmissionError::ActiveWorkMissing),
                (Some(candidate_work), Some(active_work)) => Ok(
                    AdmissionStep::Compare {
                        candidate_work,
                        candidate_hash: offer.target.hash,
                        active_work,
                        active_hash: active.target.hash,
                    },
                ),
            }
        },
    }
}

/// The admission once a step is carried out.
///
/// `added` counts the sources that a merge brought, `candidate_wins` is the
/// verdict of a comparison by work.
pub open spec fn admission_of(step: AdmissionStep, added: usize, candidate_wins: bool) -> MobileSuffixAdmission {
    match step {
        AdmissionStep::Start => MobileSuffixAdmission::Started,
        AdmissionStep::Merge => if added > 0 {
            MobileSuffixAdmission::Merged
        } else {
            MobileSuffixAdmission::Duplicate
        },
        AdmissionStep::Defer => MobileSuffixAdmission::DeferredExtension,
        AdmissionStep::Compare { .. } => if candidate_wins {
            MobileSuffixAdmission::Replaced
        } else {
            MobileSuffixAdmission::KeptStrongerActive
        },
    }
}

/// The admission once a step is carried out.
pub fn admission_after(step: &AdmissionStep, added: usize, candidate_wins: bool) -> (admission: MobileSuffixAdmission)
    ensures
        admission == admission_of(*step, added, candidate_wins),
{
    match step {
        AdmissionStep::Start => MobileSuffixAdmission::Started,
        AdmissionStep::Merge => if added > 0 {
            MobileSuffixAdmission::Merged
        } else {
            MobileSuffixAdmission::Duplicate
        },
        AdmissionStep::Defer => MobileSuffixAdmission::DeferredExtension,
        AdmissionStep::Compare { .. } => if candidate_wins {
            MobileSuffixAdmission::Replaced
        } else {
            MobileSuffixAdmission::KeptStrongerActive
        },
    }
}

/// Whether an admission makes the offered suffix the active one.
pub open spec fn takes_over(admission: MobileSuffixAdmission) -> bool {
    admission == MobileSuffixAdmission::Started || admission == MobileSuffixAdmission::Replaced
}

/// Whether an admission makes the offered suffix the active one.
pub fn admission_takes_over(admission: MobileSuffixAdmission) -> (taken: bool)
    ensures
        taken == takes_over(admission),
{
    match admission {
        MobileSuffixAdmission::Started => true,
        MobileSuffixAdmission::Replaced => true,
        _ => false,
    }
}

/// An active suffix gives way to nothing but a competing branch that wins by work.
pub proof fn lemma_active_suffix_is_kept(
    active: PlanSummary,
    offer: PlanSummary,
    offer_contains_target: bool,
    added: usize,
    candidate_wins: bool,
)
    ensures
        match admission_step(Some(active), offer, offer_contains_target) {
            Ok(step) => takes_over(admission_of(step, added, candidate_wins)) <==> active.id != offer.id
                && !extends_active(offer, active, offer_contains_target) && candidate_wins,
            Err(_) => true,
        },
{
}

/// When a busy provider may be asked again.
pub open spec fn busy_until(now_ms: u64, retry_after_ms: u64) -> u64 {
    sat_add(now_ms, larger(retry_after_ms, MIN_BUSY_RETRY_MS))
}

pub fn busy_retry_at(now_ms: u64, retry_after_ms: u64) -> (retry_at_ms: u64)
    ensures
        retry_at_ms == busy_until(now_ms, retry_after_ms),
{
    now_ms.saturating_add(max_u64(retry_after_ms, MIN_BUSY_RETRY_MS))
}

/// How the header store follows the finalized block.
#[derive(Clone, Copy, Debug, PartialEq, Eq, Structural)]
pub enum ReconcileStep {
    /// The durable chain and the header store contradict each other.
    Conflict,
    /// The jump is too large: rebuild from the durable chain.
    Rebuild,
    /// Add the canonical headers from here on, then advance the finalized block.
    Advance { from_height: u64 },
}

/// Compare the finalized block of the durable chain with that of the header store.
pub fn reconcile_finalized(finalized: &ChainPoint, dag_finalized: &ChainPoint) -> (step: ReconcileStep)
    ensures
        step == (if finalized.height < dag_finalized.height || finalized.height == dag_finalized.height && *finalized
            != *dag_finalized {
            ReconcileStep::Conflict
        } else if finalized.height - dag_finalized.height > MAX_INCREMENTAL_FINALITY_ADVANCE {
            ReconcileStep::Rebuild
        } else {
            ReconcileStep::Advance { from_height: sat_add(dag_finalized.height, 1) }
        }),
{
    if finalized.height < dag_finalized.height || (finalized.height == dag_finalized.height && !finalized.same(
        dag_finalized,
    )) {
        return ReconcileStep::Conflict;
    }
    if finalized.height.saturating_sub(dag_finalized.height) > MAX_INCREMENTAL_FINALITY_ADVANCE {
        return ReconcileStep::Rebuild;
    }
    ReconcileStep::Advance { from_height: dag_finalized.height.saturating_add(1) }
}

/// A canonical header as the durable chain holds it.
#[derive(Clone, Copy, Debug)]
pub struct CanonicalRow {
    pub hash: Digest,
    pub difficulty_target: Digest,
}

/// What was read of one canonical height.
#[derive(Clone, Copy, Debug)]
pub struct StoredRow {
    pub header: Option<CanonicalRow>,
    /// The header store holds this header already.
    pub known: bool,
    /// Cumulative work; it is not needed for a header that is known.
    pub work: Option<Digest>,
}

/// Why the canonical headers could not be followed up to the tip.
#[derive(Clone, Copy, Debug, PartialEq, Eq, Structural)]
pub enum RowError {
    HeaderMissing { height: u64 },
    WorkMissing { height: u64 },
}

impl RowError {
    /// The words in which it is reported.
    pub open spec fn words(self) -> Seq<char> {
        match self {
            RowError::HeaderMissing { height } => "canonical mobile HeaderDag row "@ + decimal(height as nat)
                + " is missing"@,
            RowError::WorkMissing { height } => "canonical mobile HeaderDag work "@ + decimal(height as nat)
                + " is missing"@,
        }
    }

    /// The words in which it is reported.
    pub fn message(&self) -> (text: String)
        ensures
            text@ == self.words(),
    {
        match self {
            RowError::HeaderMissing { height } => {
                let mut text = String::from_str("canonical mobile HeaderDag row ");
                text.append(decimal_text(*height).as_str());
                text.append(" is missing");
                text
            },
            RowError::WorkMissing { height } => {
                let mut text = String::from_str("canonical mobile HeaderDag work ");
                text.append(decimal_text(*height).as_str());
                text.append(" is missing");
                text
            },
        }
    }
}

/// What is missing at a height.
pub open spec fn row_error(height: u64, row: StoredRow) -> Option<RowError> {
    if row.header is None {
        Some(RowError::HeaderMissing { height })
    } else if !row.known && row.work is None {
        Some(RowError::WorkMissing { height })
    } else {
        None
    }
}

/// The header of a complete row.
pub open spec fn row_header(height: u64, row: StoredRow) -> ValidatedHeader {
    ValidatedHeader {
        height,
        hash: row.header->0.hash,
        difficulty_target: row.header->0.difficulty_target,
        cumulative_work: row.work->0,
    }
}

/// The headers of complete rows that the header store lacks, in ascending height.
pub open spec fn missing_headers(start_height: u64, rows: Seq<StoredRow>) -> Seq<ValidatedHeader>
    decreases rows.len(),
{
    if rows.len() == 0 {
        Seq::empty()
    } else {
        let rest = missing_headers(start_height, rows.drop_last());
        if rows.last().known {
            rest
        } else {
            rest.push(row_header((start_height + rows.len() - 1) as u64, rows.last()))
        }
    }
}

/// The headers to add for the canonical rows from `start_height` on.
///
/// A gap ends the list: what lies below it is still to be added, and then the
/// gap is reported.
pub fn canonical_headers(start_height: u64, rows: &Vec<StoredRow>) -> (outcome: (Vec<ValidatedHeader>, Option<RowError>))
    requires
        start_height + rows@.len() <= u64::MAX + 1,
    ensures
        match outcome.1 {
            None => {
                &&& outcome.0@ == missing_headers(start_height, rows@)
                &&& forall|i: int|
                    0 <= i < rows@.len() ==> row_error((start_height + i) as u64, #[trigger] rows@[i]) is None
            },
            Some(error) => exists|gap: int|
                {
                    &&& 0 <= gap < rows@.len()
                    &&& row_error((start_height + gap) as u64, #[trigger] rows@[gap]) == Some(error)
                    &&& outcome.0@ == missing_headers(start_height, rows@.take(gap))
                    &&& forall|i: int|
                        0 <= i < gap ==> row_error((start_height + i) as u64, #[trigger] rows@[i]) is None
                },
        },
{
    let mut headers: Vec<ValidatedHeader> = Vec::new();
    let mut i: usize = 0;
    while i < rows.len()
        invariant
            i <= rows@.len(),
            start_height + rows@.len() <= u64::MAX + 1,
            headers@ == missing_headers(start_height, rows@.take(i as int)),
            forall|j: int| 0 <= j < i ==> row_error((start_height + j) as u64, #[trigger] rows@[j]) is None,
        decreases rows@.len() - i,
    {
        assert(rows@.take(i + 1).drop_last() =~= rows@.take(i as int));
        let row = rows[i];
        let height: u64 = start_height + i as u64;
        match (row.header, row.known, row.work) {
            (None, _, _) => {
                assert(row_error((start_height + i) as u64, rows@[i as int]) == Some(
                    RowError::HeaderMissing { height },
                ));
                return (headers, Some(RowError::HeaderMissing { height }));
            },
            (Some(_), true, _) => {},
            (Some(_), false, None) => {
                assert(row_error((start_height + i) as u64, rows@[i as int]) == Some(
                    RowError::WorkMissing { height },
                ));
                return (headers, Some(RowError::WorkMissing { height }));
            },
            (Some(header), false, Some(cumulative_work)) => {
                headers.push(
                    ValidatedHeader {
                        height,
                        hash: header.hash,
                        difficulty_target: header.difficulty_target,
                        cumulative_work,
                    },
                );
            },
        }
        i = i + 1;
    }
    assert(rows@.take(i as int) =~= rows@);
    (headers, None)
}

/// The suffix that is being fetched, and the tip that was committed last.
///
/// `S` is the transfer of one immutable suffix. It survives the loss of any
/// peer: only a commit or a stronger branch ends it.
pub struct MobileSyncCoordinator<S> {
    pub active: Option<S>,
    pub committed_tip: ChainPoint,
}

impl<S> MobileSyncCoordinator<S> {
    pub fn new(committed_tip: ChainPoint) -> (coordinator: MobileSyncCoordinator<S>)
        ensures
            coordinator.active is None,
            coordinator.committed_tip == committed_tip,
    {
        MobileSyncCoordinator { active: None, committed_tip }
    }

    /// The chain was committed up to `tip`.
    pub fn reconcile_from_chain(&mut self, tip: ChainPoint)
        ensures
            final(self).committed_tip == tip,
            final(self).active == old(self).active,
    {
        self.committed_tip = tip;
    }

    pub fn active_plan(&self) -> (suffix: Option<&S>)
        ensures
            match suffix {
                Some(s) => self.active == Some(*s),
                None => self.active is None,
            },
    {
        match &self.active {
            Some(suffix) => Some(suffix),
            None => None,
        }
    }

    pub fn is_active(&self) -> (active: bool)
        ensures
            active == self.active is Some,
    {
        self.active.is_some()
    }

    pub fn clear_active(&mut self)
        ensures
            final(self).active is None,
            final(self).committed_tip == old(self).committed_tip,
    {
        self.active = None;
    }

    /// Judge an offered suffix against the active one, of whose plan `current` tells.
    ///
    /// `offer_contains_target` says whether the offered plan runs through the
    /// active target. Bytes already fetched are not thrown away because the
    /// headers of a descendant are known.
    pub fn admit_offer(
        &self,
        current: Option<PlanSummary>,
        offer: &PlanSummary,
        offer_contains_target: bool,
    ) -> (result: Result<AdmissionStep, AdmissionError>)
        requires
            current is Some <==> self.active is Some,
        ensures
            result == admission_step(current, *offer, offer_contains_target),
    {
        match current {
            None => Ok(AdmissionStep::Start),
            Some(active) => {
                if hash_eq(&active.id, &offer.id) {
                    return Ok(AdmissionStep::Merge);
                }
                if !offer.target.same(&active.target) && offer_contains_target {
                    return Ok(AdmissionStep::Defer);
                }
                match (offer.target_work, active.target_work) {
                    (None, _) => Err(AdmissionError::CandidateWorkMissing),
                    (Some(_), None) => Err(AdmissionError::ActiveWorkMissing),
                    (Some(candidate_work), Some(active_work)) => Ok(
                        AdmissionStep::Compare {
                            candidate_work,
                            candidate_hash: offer.target.hash,
                            active_work,
                            active_hash: active.target.hash,
                        },
                    ),
                }
            },
        }
    }

    /// Take up an offered suffix if its admission says so.
    pub fn take_up(&mut self, admission: MobileSuffixAdmission, suffix: S)
        ensures
            final(self).active == (if takes_over(admission) {
                Some(suffix)
            } else {
                old(self).active
            }),
            final(self).committed_tip == old(self).committed_tip,
    {
        if admission_takes_over(admission) {
            self.active = Some(suffix);
        }
    }

    /// Hand out a completely fetched suffix; what is not complete stays.
    pub fn take_fetched(&mut self, complete: bool) -> (suffix: Option<S>)
        ensures
            suffix == (if complete {
                old(self).active
            } else {
                None
            }),
            final(self).active == (if complete {
                None
            } else {
                old(self).active
            }),
            final(self).committed_tip == old(self).committed_tip,
    {
        if complete {
            self.active.take()
        } else {
            None
        }
    }
}

} // verus!
