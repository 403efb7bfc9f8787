//! What holds of the suffix that is being fetched, and of how the header store
//! follows the chain.

use vstd::prelude::*;
use crate::header_planner::{ChainPoint, ValidatedHeader};
use crate::sync::{
    admission_after, admission_takes_over, busy_retry_at, canonical_headers, missing_headers, reconcile_finalized,
    row_error, AdmissionError, AdmissionStep, MobileSuffixAdmission, MobileSyncCoordinator, PlanSummary,
    ReconcileStep, RowError, StoredRow,
};

verus! {

/// With nothing active every offered suffix is started.
pub proof fn lemma_the_first_offer_is_started<S>(
    coordinator: MobileSyncCoordinator<S>,
    offer: PlanSummary,
    offer_contains_target: bool,
    result: Result<AdmissionStep, AdmissionError>,
)
    requires
        coordinator.active is None,
        call_ensures(
            MobileSyncCoordinator::<S>::admit_offer,
            (&coordinator, None, &offer, offer_contains_target),
            result,
        ),
    ensures
        result == Ok::<AdmissionStep, AdmissionError>(AdmissionStep::Start),
{
}

/// An offer of the very plan that is active is merged into it, whatever else it says.
pub proof fn lemma_the_active_plan_is_merged<S>(
    coordinator: MobileSyncCoordinator<S>,
    active: PlanSummary,
    offer: PlanSummary,
    offer_contains_target: bool,
    result: Result<AdmissionStep, AdmissionError>,
)
    requires
        coordinator.active is Some,
        call_ensures(
            MobileSyncCoordinator::<S>::admit_offer,
            (&coordinator, Some(active), &offer, offer_contains_target),
            result,
        ),
        offer.id == active.id,
    ensures
        result == Ok::<AdmissionStep, AdmissionError>(AdmissionStep::Merge),
{
}

/// A plan that runs through the active target to another one waits: the active
/// suffix finishes first, by however little the new one is longer and however
/// much work it has.
pub proof fn lemma_an_extension_of_the_active_suffix_waits<S>(
    coordinator: MobileSyncCoordinator<S>,
    active: PlanSummary,
    offer: PlanSummary,
    result: Result<AdmissionStep, AdmissionError>,
)
    requires
        coordinator.active is Some,
        call_ensures(MobileSyncCoordinator::<S>::admit_offer, (&coordinator, Some(active), &offer, true), result),
        offer.id != active.id,
        offer.target != active.target,
    ensures
        result == Ok::<AdmissionStep, AdmissionError>(AdmissionStep::Defer),
{
}

/// Any other plan is compared with the active one, each by its own work and the
/// hash of its own target; without work it cannot be.
pub proof fn lemma_a_competing_suffix_is_compared_by_work<S>(
    coordinator: MobileSyncCoordinator<S>,
    active: PlanSummary,
    offer: PlanSummary,
    offer_contains_target: bool,
    result: Result<AdmissionStep, AdmissionError>,
)
    requires
        coordinator.active is Some,
        call_ensures(
            MobileSyncCoordinator::<S>::admit_offer,
            (&coordinator, Some(active), &offer, offer_contains_target),
            result,
        ),
        offer.id != active.id,
        offer.target == active.target || !offer_contains_target,
    ensures
        match result {
            Ok(AdmissionStep::Compare { candidate_work, candidate_hash, active_work, active_hash }) => {
                &&& offer.target_work == Some(candidate_work)
                &&& candidate_hash == offer.target.hash
                &&& active.target_work == Some(active_work)
                &&& active_hash == active.target.hash
            },
            Ok(_) => false,
            Err(AdmissionError::CandidateWorkMissing) => offer.target_work is None,
            Err(AdmissionError::ActiveWorkMissing) => offer.target_work is Some && active.target_work is None,
        },
{
}

/// An offered suffix becomes the active one exactly if nothing was active or it
/// won a comparison; every other admission leaves the active suffix, and the
/// bytes that were fetched for it, as they were.
pub proof fn lemma_only_a_start_or_a_win_takes_over<S>(
    coordinator: &mut MobileSyncCoordinator<S>,
    step: AdmissionStep,
    added: usize,
    candidate_wins: bool,
    admission: MobileSuffixAdmission,
    taken: bool,
    suffix: S,
)
    requires
        call_ensures(admission_after, (&step, added, candidate_wins), admission),
        call_ensures(admission_takes_over, (admission,), taken),
        call_ensures(MobileSyncCoordinator::<S>::take_up, (coordinator, admission, suffix), ()),
    ensures
        final(coordinator).committed_tip == old(coordinator).committed_tip,
        step is Start ==> taken && admission is Started && final(coordinator).active == Some(suffix),
        step is Merge && added > 0 ==> admission is Merged,
        step is Merge && added == 0 ==> admission is Duplicate,
        step is Defer ==> admission is DeferredExtension,
        step is Compare && candidate_wins ==> taken && admission is Replaced && final(coordinator).active == Some(
            suffix,
        ),
        step is Compare && !candidate_wins ==> admission is KeptStrongerActive,
        !(step is Start) && !(step is Compare && candidate_wins) ==> !taken && final(coordinator).active == old(
            coordinator,
        ).active,
{
}

/// A suffix is handed out once, and only when it is complete; a commit or the
/// loss of a peer does not touch it.
pub proof fn lemma_a_suffix_stays_until_it_is_complete<S>(
    fetching: &mut MobileSyncCoordinator<S>,
    complete: bool,
    handed_out: Option<S>,
    reconciled: &mut MobileSyncCoordinator<S>,
    tip: ChainPoint,
    cleared: &mut MobileSyncCoordinator<S>,
)
    requires
        call_ensures(MobileSyncCoordinator::<S>::take_fetched, (fetching, complete), handed_out),
        call_ensures(MobileSyncCoordinator::<S>::reconcile_from_chain, (reconciled, tip), ()),
        call_ensures(MobileSyncCoordinator::<S>::clear_active, (cleared,), ()),
    ensures
        complete ==> handed_out == old(fetching).active && final(fetching).active is None,
        !complete ==> handed_out is None && final(fetching).active == old(fetching).active,
        final(fetching).committed_tip == old(fetching).committed_tip,
        final(reconciled).active == old(reconciled).active,
        final(reconciled).committed_tip == tip,
        final(cleared).active is None,
        final(cleared).committed_tip == old(cleared).committed_tip,
{
}

/// What is said of the active suffix is what is there.
pub proof fn lemma_the_active_suffix_is_shown<S>(
    coordinator: MobileSyncCoordinator<S>,
    shown: Option<&S>,
    is_active: bool,
)
    requires
        call_ensures(MobileSyncCoordinator::<S>::active_plan, (&coordinator,), shown),
        call_ensures(MobileSyncCoordinator::<S>::is_active, (&coordinator,), is_active),
    ensures
        is_active <==> coordinator.active is Some,
        shown is Some <==> coordinator.active is Some,
        shown is Some ==> *(shown->0) == coordinator.active->0,
{
}

/// A busy provider is left alone for as long as it asks, and for a tenth of a
/// second at least.
pub proof fn lemma_a_busy_provider_is_left_alone(now_ms: u64, retry_after_ms: u64, retry_at_ms: u64)
    requires
        call_ensures(busy_retry_at, (now_ms, retry_after_ms), retry_at_ms),
    ensures
        now_ms + retry_after_ms <= u64::MAX && retry_after_ms >= 100 ==> retry_at_ms == now_ms + retry_after_ms,
        now_ms + 100 <= u64::MAX && retry_after_ms < 100 ==> retry_at_ms == now_ms + 100,
        now_ms + retry_after_ms > u64::MAX || now_ms + 100 > u64::MAX ==> retry_at_ms == u64::MAX,
{
}

/// The header store follows the finalized block upward only. At one height the
/// two must be the same block; up to sixty-four blocks are added one by one
/// from right above, and a larger jump rebuilds the store.
pub proof fn lemma_the_header_store_follows_upward(
    finalized: ChainPoint,
    dag_finalized: ChainPoint,
    step: ReconcileStep,
)
    requires
        call_ensures(reconcile_finalized, (&finalized, &dag_finalized), step),
    ensures
        finalized.height < dag_finalized.height ==> step is Conflict,
        finalized.height == dag_finalized.height && finalized.hash != dag_finalized.hash ==> step is Conflict,
        finalized.height == dag_finalized.height && finalized.hash == dag_finalized.hash && finalized.height < u64::MAX
            ==> step == (ReconcileStep::Advance { from_height: (finalized.height + 1) as u64 }),
        dag_finalized.height < finalized.height <= dag_finalized.height + 64 ==> step == (ReconcileStep::Advance {
            from_height: (dag_finalized.height + 1) as u64,
        }),
        finalized.height > dag_finalized.height + 64 ==> step is Rebuild,
{
}

/// Every canonical header below the first gap that the header store lacks is
/// added, with its own height, hash, target and work, in ascending order; the
/// gap is reported, and nothing above it is added.
pub proof fn lemma_canonical_headers_are_added_up_to_a_gap(
    start_height: u64,
    rows: Vec<StoredRow>,
    outcome: (Vec<ValidatedHeader>, Option<RowError>),
    end: int,
) -> (places: Seq<int>)
    requires
        start_height + rows@.len() <= u64::MAX + 1,
        call_ensures(canonical_headers, (start_height, &rows), outcome),
        0 <= end <= rows@.len(),
        forall|i: int|
            0 <= i < end ==> (#[trigger] rows@[i]).header is Some && (rows@[i].known || rows@[i].work is Some),
        end < rows@.len() ==> rows@[end].header is None || (!rows@[end].known && rows@[end].work is None),
    ensures
        outcome.1 is None <==> end == rows@.len(),
        end < rows@.len() && rows@[end].header is None ==> outcome.1 == Some(
            RowError::HeaderMissing { height: (start_height + end) as u64 },
        ),
        end < rows@.len() && rows@[end].header is Some ==> outcome.1 == Some(
            RowError::WorkMissing { height: (start_height + end) as u64 },
        ),
        places.len() == outcome.0@.len(),
        forall|a: int, b: int| 0 <= a < b < places.len() ==> places[a] < places[b],
        forall|a: int|
            0 <= a < places.len() ==> {
                &&& 0 <= #[trigger] places[a] < end
                &&& outcome.0@[a].height == start_height + places[a]
                &&& outcome.0@[a].hash == rows@[places[a]].header->0.hash
                &&& outcome.0@[a].difficulty_target == rows@[places[a]].header->0.difficulty_target
                &&& rows@[places[a]].work == Some(outcome.0@[a].cumulative_work)
            },
        forall|i: int| 0 <= i < end ==> (places.contains(i) <==> !(#[trigger] rows@[i]).known),
{
    match outcome.1 {
        None => {
            if end < rows@.len() {
                assert(row_error((start_height + end) as u64, rows@[end]) is None);
            }
        },
        Some(error) => {
            let gap = choose|gap: int|
                {
                    &&& 0 <= gap < rows@.len()
                    &&& row_error((start_height + gap) as u64, #[trigger] rows@[gap]) == Some(error)
                    &&& outcome.0@ == missing_headers(start_height, rows@.take(gap))
                    &&& forall|i: int|
                        0 <= i < gap ==> row_error((start_height + i) as u64, #[trigger] rows@[i]) is None
                };
            if gap < end {
                assert(rows@[gap].header is Some);
            }
            if end < gap {
                assert(row_error((start_height + end) as u64, rows@[end]) is None);
            }
        },
    }
    assert(rows@.take(rows@.len() as int) =~= rows@);
    let kept = rows@.take(end);
    assert forall|i: int| 0 <= i < kept.len() implies (#[trigger] kept[i]).header is Some && (kept[i].known
        || kept[i].work is Some) by {
        assert(kept[i] == rows@[i]);
    }
    let places = lemma_missing_places(start_height, kept);
    assert forall|i: int| 0 <= i < end implies (places.contains(i) <==> !(#[trigger] rows@[i]).known) by {
        assert(kept[i] == rows@[i]);
    }
    places
}

proof fn lemma_missing_places(start_height: u64, rows: Seq<StoredRow>) -> (places: Seq<int>)
    requires
        start_height + rows.len() <= u64::MAX + 1,
        forall|i: int|
            0 <= i < rows.len() ==> (#[trigger] rows[i]).header is Some && (rows[i].known || rows[i].work is Some),
    ensures
        places.len() == missing_headers(start_height, rows).len(),
        forall|a: int, b: int| 0 <= a < b < places.len() ==> places[a] < places[b],
        forall|a: int|
            0 <= a < places.len() ==> {
                &&& 0 <= #[trigger] places[a] < rows.len()
                &&& missing_headers(start_height, rows)[a].height == start_height + places[a]
                &&& missing_headers(start_height, rows)[a].hash == rows[places[a]].header->0.hash
                &&& missing_headers(start_height, rows)[a].difficulty_target
                    == rows[places[a]].header->0.difficulty_target
                &&& rows[places[a]].work == Some(missing_headers(start_height, rows)[a].cumulative_work)
            },
        forall|i: int| 0 <= i < rows.len() ==> (places.contains(i) <==> !(#[trigger] rows[i]).known),
    decreases rows.len(),
{
    if rows.len() == 0 {
        Seq::empty()
    } else {
        let last = rows.len() - 1;
        let fewer = rows.drop_last();
        assert forall|i: int| 0 <= i < fewer.len() implies (#[trigger] fewer[i]).header is Some && (fewer[i].known
            || fewer[i].work is Some) by {
            assert(fewer[i] == rows[i]);
        }
        let before = lemma_missing_places(start_height, fewer);
        assert(rows[last].header is Some);
        let places = if rows[last].known {
            before
        } else {
            before.push(last)
        };
        assert forall|i: int| 0 <= i < rows.len() implies (places.contains(i) <==> !(#[trigger] rows[i]).known) by {
            if i < last {
                assert(fewer[i] == rows[i]);
                if before.contains(i) {
                    let j = choose|j: int| 0 <= j < before.len() && before[j] == i;
                    assert(places[j] == i);
                }
            } else if !rows[last].known {
                assert(places[places.len() - 1] == i);
            } else if places.contains(i) {
                let j = choose|j: int| 0 <= j < before.len() && before[j] == i;
                assert(before[j] < last);
            }
        }
        places
    }
}

} // verus!
