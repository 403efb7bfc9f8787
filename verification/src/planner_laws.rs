//! What holds of planning from header inventories.

use vstd::prelude::*;
use crate::bytes::Digest;
use crate::header_planner::{
    advertise_inventory_for_known_headers, advertised, bodies_covered, body_has_source, bootstrap_records,
    canonical_points, finalized_header_search_floor,
    header_batch_exhausts_nonfinal_window, header_inventory_validation_anchor, highest, known_points, lemma_highest,
    nonfinal_header_discovery_range, plan_header_inventory, plan_validated_candidate, record_validated_headers,
    recorded, records_above, serves_body, source_independent_suffix_offer, suffix_kind, validation_path, work_chain, ChainPoint, HeaderInventoryPlan,
    HeaderInventoryRecord, InventoryStep, ObjectClaim, PlanError, ProviderInventory, SuffixKind, SuffixSyncError,
    ValidatedHeader,
};
use crate::peer::PeerId;

verus! {

/// The highest point is the last of those that none is above.
proof fn lemma_highest_is_the_last_highest(points: Seq<Option<ChainPoint>>, k: int)
    requires
        0 <= k < points.len(),
        points[k] is Some,
        forall|i: int|
            0 <= i < points.len() && (#[trigger] points[i]) is Some ==> points[i]->0.height <= points[k]->0.height && (i
                > k ==> points[i]->0.height < points[k]->0.height),
    ensures
        highest(points) == points[k],
    decreases points.len(),
{
    let rest = points.drop_last();
    let last = points.len() - 1;
    lemma_highest(rest);
    assert forall|i: int| 0 <= i < rest.len() implies #[trigger] rest[i] == points[i] by {}
    if k == last {
        if highest(rest) is Some {
            let j = choose|j: int| 0 <= j < rest.len() && rest[j] == highest(rest);
            assert(points[j]->0.height <= points[k]->0.height);
        }
    } else {
        lemma_highest_is_the_last_highest(rest, k);
        assert(points.last() == points[last]);
    }
}

/// The records above a height are those that pass the test, in their order.
proof fn lemma_records_above_are_filtered(records: Seq<HeaderInventoryRecord>, height: u64)
    ensures
        records_above(records, height) == records.filter(|r: HeaderInventoryRecord| r.height > height),
    decreases records.len(),
{
    reveal(Seq::filter);
    if records.len() > 0 {
        lemma_records_above_are_filtered(records.drop_last(), height);
    }
}

/// An inventory that touches the canonical chain is judged from the highest
/// record that the chain holds: what lies above it is validated, all of it and
/// in its order. Only an inventory with nothing above it is called known, and
/// only at the tip does it confirm the tip.
pub proof fn lemma_all_above_a_canonical_record_is_validated(
    tip: ChainPoint,
    finalized: ChainPoint,
    records: Vec<HeaderInventoryRecord>,
    found: Vec<Option<u64>>,
    known: Vec<bool>,
    finality_depth: u64,
    step: InventoryStep,
    k: int,
)
    requires
        found@.len() == records@.len(),
        known@.len() == records@.len(),
        finality_depth * 2 <= u16::MAX,
        call_ensures(plan_header_inventory, (tip, finalized, &records, &found, &known, finality_depth), step),
        0 <= k < records@.len(),
        found@[k] is Some,
        found@[k]->0 >= finalized.height,
        forall|i: int|
            0 <= i < found@.len() && (#[trigger] found@[i]) is Some ==> found@[i]->0 <= found@[k]->0 && (i > k
                ==> found@[i]->0 < found@[k]->0),
    ensures
        ({
            let ancestor = ChainPoint { height: found@[k]->0, hash: records@[k].hash };
            let above = records@.filter(|r: HeaderInventoryRecord| r.height > ancestor.height);
            match step {
                InventoryStep::Validate { ancestor: from, competing } => above.len() > 0 && from == ancestor
                    && competing@ == above,
                InventoryStep::Planned(HeaderInventoryPlan::Confirmed { tip: confirmed }) => above.len() == 0
                    && ancestor == tip && confirmed == tip,
                InventoryStep::Planned(HeaderInventoryPlan::Behind) => above.len() == 0 && ancestor != tip,
                _ => false,
            }
        }),
{
    let points = canonical_points(records@, found@, finalized);
    assert(points[k] == Some(ChainPoint { height: found@[k]->0, hash: records@[k].hash }));
    assert forall|i: int| 0 <= i < points.len() && (#[trigger] points[i]) is Some implies points[i]->0.height
        <= points[k]->0.height && (i > k ==> points[i]->0.height < points[k]->0.height) by {
        assert(found@[i] is Some);
    }
    lemma_highest_is_the_last_highest(points, k);
    lemma_records_above_are_filtered(records@, found@[k]->0);
}

/// An inventory that the canonical chain does not hold a record of is judged
/// from its highest record that is validated already, or final. If that lies
/// below the finalized block the peer left our chain for good.
pub proof fn lemma_all_above_a_known_record_is_validated(
    tip: ChainPoint,
    finalized: ChainPoint,
    records: Vec<HeaderInventoryRecord>,
    found: Vec<Option<u64>>,
    known: Vec<bool>,
    finality_depth: u64,
    step: InventoryStep,
    k: int,
)
    requires
        found@.len() == records@.len(),
        known@.len() == records@.len(),
        finality_depth * 2 <= u16::MAX,
        call_ensures(plan_header_inventory, (tip, finalized, &records, &found, &known, finality_depth), step),
        forall|i: int|
            0 <= i < found@.len() && (#[trigger] found@[i]) is Some ==> found@[i]->0 < finalized.height,
        0 <= k < records@.len(),
        known@[k] || (records@[k].height == finalized.height && records@[k].hash == finalized.hash),
        forall|i: int|
            0 <= i < records@.len() && (known@[i] || (records@[i].height == finalized.height && records@[i].hash
                == finalized.hash)) ==> (#[trigger] records@[i]).height <= records@[k].height && (i > k
                ==> records@[i].height < records@[k].height),
    ensures
        ({
            let ancestor = ChainPoint { height: records@[k].height, hash: records@[k].hash };
            let above = records@.filter(|r: HeaderInventoryRecord| r.height > ancestor.height);
            match step {
                InventoryStep::Validate { ancestor: from, competing } => above.len() > 0 && ancestor.height
                    >= finalized.height && from == ancestor && competing@ == above,
                InventoryStep::Planned(HeaderInventoryPlan::FinalizedDivergence) => ancestor.height
                    < finalized.height,
                InventoryStep::Planned(HeaderInventoryPlan::Confirmed { tip: confirmed }) => above.len() == 0
                    && ancestor.height >= finalized.height && ancestor == tip && confirmed == tip,
                InventoryStep::Planned(HeaderInventoryPlan::Behind) => above.len() == 0 && ancestor.height
                    >= finalized.height && ancestor != tip,
                _ => false,
            }
        }),
{
    let canonical = canonical_points(records@, found@, finalized);
    lemma_highest(canonical);
    if highest(canonical) is Some {
        let j = choose|j: int| 0 <= j < canonical.len() && canonical[j] == highest(canonical);
        assert(found@[j] is Some);
    }
    let points = known_points(records@, known@, finalized);
    assert(points[k] == Some(ChainPoint { height: records@[k].height, hash: records@[k].hash }));
    assert forall|i: int| 0 <= i < points.len() && (#[trigger] points[i]) is Some implies points[i]->0.height
        <= points[k]->0.height && (i > k ==> points[i]->0.height < points[k]->0.height) by {
        assert(records@[i].height <= records@[k].height);
    }
    lemma_highest_is_the_last_highest(points, k);
    lemma_records_above_are_filtered(records@, records@[k].height);
}

/// An inventory that touches nothing we know is asked to be continued downward
/// from the lowest height that may still change, unless it reaches down there
/// already: then the peer left our chain for good.
pub proof fn lemma_an_unconnected_inventory_needs_older_headers(
    tip: ChainPoint,
    finalized: ChainPoint,
    records: Vec<HeaderInventoryRecord>,
    found: Vec<Option<u64>>,
    known: Vec<bool>,
    finality_depth: u64,
    step: InventoryStep,
)
    requires
        found@.len() == records@.len(),
        known@.len() == records@.len(),
        finality_depth * 2 <= u16::MAX,
        call_ensures(plan_header_inventory, (tip, finalized, &records, &found, &known, finality_depth), step),
        records@.len() > 0,
        forall|i: int|
            0 <= i < found@.len() && (#[trigger] found@[i]) is Some ==> found@[i]->0 < finalized.height,
        forall|i: int|
            0 <= i < records@.len() ==> !known@[i] && !((#[trigger] records@[i]).height == finalized.height
                && records@[i].hash == finalized.hash),
    ensures
        match step {
            InventoryStep::Planned(HeaderInventoryPlan::FinalizedDivergence) => records@[0].height == 0
                || records@[0].height + finality_depth <= tip.height,
            InventoryStep::Planned(HeaderInventoryPlan::NeedOlder { start_height, count }) => {
                &&& records@[0].height > 0
                &&& records@[0].height + finality_depth > tip.height
                &&& start_height + finality_depth == tip.height || (start_height == 0 && tip.height < finality_depth)
                &&& count == finality_depth * 2 || (count == 512 && finality_depth * 2 > 512)
                &&& count <= 512
            },
            _ => false,
        },
{
    let canonical = canonical_points(records@, found@, finalized);
    lemma_highest(canonical);
    if highest(canonical) is Some {
        let j = choose|j: int| 0 <= j < canonical.len() && canonical[j] == highest(canonical);
        assert(found@[j] is Some);
    }
    let points = known_points(records@, known@, finalized);
    lemma_highest(points);
    if highest(points) is Some {
        let j = choose|j: int| 0 <= j < points.len() && points[j] == highest(points);
        assert(records@[j].height == records@[j].height);
    }
}

/// An empty inventory is answered by asking for everything that may still
/// change, up to the tip; at height zero there is nothing to ask for.
pub proof fn lemma_an_empty_inventory_asks_for_the_open_range(
    tip: ChainPoint,
    finalized: ChainPoint,
    records: Vec<HeaderInventoryRecord>,
    found: Vec<Option<u64>>,
    known: Vec<bool>,
    finality_depth: u64,
    step: InventoryStep,
)
    requires
        found@.len() == records@.len(),
        known@.len() == records@.len(),
        finality_depth * 2 <= u16::MAX,
        call_ensures(plan_header_inventory, (tip, finalized, &records, &found, &known, finality_depth), step),
        records@.len() == 0,
    ensures
        match step {
            InventoryStep::Planned(HeaderInventoryPlan::Behind) => tip.height == 0,
            InventoryStep::Planned(HeaderInventoryPlan::NeedOlder { start_height, count }) => {
                &&& tip.height > 0
                &&& start_height + finality_depth == tip.height || (start_height == 0 && tip.height < finality_depth)
                &&& start_height + count == tip.height + 1
            },
            _ => false,
        },
{
}

/// A peer that is said to be at our tip sent no header above it: a block on
/// top of the tip is never passed over.
pub proof fn lemma_a_confirmed_tip_has_nothing_above_it(
    tip: ChainPoint,
    finalized: ChainPoint,
    records: Vec<HeaderInventoryRecord>,
    found: Vec<Option<u64>>,
    known: Vec<bool>,
    finality_depth: u64,
    step: InventoryStep,
)
    requires
        found@.len() == records@.len(),
        known@.len() == records@.len(),
        finality_depth * 2 <= u16::MAX,
        call_ensures(plan_header_inventory, (tip, finalized, &records, &found, &known, finality_depth), step),
        step is Planned,
        step->Planned_0 is Confirmed,
    ensures
        step->Planned_0->Confirmed_tip == tip,
        tip.height >= finalized.height,
        forall|i: int| 0 <= i < records@.len() ==> (#[trigger] records@[i]).height <= tip.height,
        exists|i: int| 0 <= i < records@.len() && (#[trigger] records@[i]).hash == tip.hash,
{
    crate::header_planner::lemma_records_above(records@, tip.height);
    let canonical = canonical_points(records@, found@, finalized);
    let points = known_points(records@, known@, finalized);
    lemma_highest(canonical);
    lemma_highest(points);
    if highest(canonical) is Some {
        let j = choose|j: int| 0 <= j < canonical.len() && canonical[j] == highest(canonical);
        assert(records@[j].hash == tip.hash);
    } else {
        let j = choose|j: int| 0 <= j < points.len() && points[j] == highest(points);
        assert(records@[j].hash == tip.hash);
    }
}

/// The range that may still change starts a finality depth below the tip and
/// ends at the tip, and a batch exhausts it if its oldest header is not above
/// that start.
pub proof fn lemma_the_open_range(
    local_height: u64,
    oldest_height: u64,
    finality_depth: u64,
    floor: u64,
    range: Option<(u64, u16)>,
    reaches: bool,
)
    requires
        finality_depth < u16::MAX,
        call_ensures(finalized_header_search_floor, (local_height, finality_depth), floor),
        call_ensures(nonfinal_header_discovery_range, (local_height, finality_depth), range),
        call_ensures(
            header_batch_exhausts_nonfinal_window,
            (local_height, oldest_height, finality_depth),
            reaches,
        ),
    ensures
        floor + finality_depth == local_height || (floor == 0 && local_height < finality_depth),
        range is None <==> local_height == 0,
        range matches Some((start, count)) ==> start == floor && start + count == local_height + 1,
        reaches <==> oldest_height <= floor,
{
}

/// A canonical point is always preferred; without one the validated point is taken.
pub proof fn lemma_the_canonical_anchor_is_preferred(
    canonical: Option<ChainPoint>,
    validated: Option<ChainPoint>,
    anchor: Option<ChainPoint>,
)
    requires
        call_ensures(header_inventory_validation_anchor, (canonical, validated), anchor),
    ensures
        canonical is Some ==> anchor == canonical,
        canonical is None ==> anchor == validated,
{
}

/// A validated branch becomes a candidate exactly if its summed work is what
/// validation reported, where every header adds the work of its own difficulty
/// target to that of the header before it. The candidate holds every header,
/// in its order, and ends at the last one.
pub proof fn lemma_a_candidate_sums_its_work<F: Fn(Digest, Digest) -> Digest>(
    old_tip: ChainPoint,
    ancestor_work: Digest,
    competing: Vec<HeaderInventoryRecord>,
    target_work: Digest,
    add_work: F,
    sum: spec_fn(Digest, Digest) -> Digest,
    result: Result<HeaderInventoryPlan, PlanError>,
)
    requires
        competing@.len() > 0,
        call_ensures(
            plan_validated_candidate::<F>,
            (old_tip, ancestor_work, competing, target_work, add_work),
            result,
        ),
        forall|work: Digest, target: Digest, out: Digest|
            #[trigger] call_ensures(add_work, (work, target), out) ==> out == sum(work, target),
    ensures
        ({
            let total = competing@.fold_left(
                ancestor_work,
                |work: Digest, r: HeaderInventoryRecord| sum(work, r.difficulty_target),
            );
            match result {
                Ok(HeaderInventoryPlan::Candidate { headers, records, old_tip: from, target }) => {
                    &&& total == target_work
                    &&& records@ == competing@
                    &&& from == old_tip
                    &&& target.height == competing@.last().height
                    &&& target.hash == competing@.last().hash
                    &&& headers@.len() == competing@.len()
                    &&& forall|i: int|
                        0 <= i < headers@.len() ==> {
                            &&& (#[trigger] headers@[i]).height == competing@[i].height
                            &&& headers@[i].hash == competing@[i].hash
                            &&& headers@[i].difficulty_target == competing@[i].difficulty_target
                            &&& headers@[i].cumulative_work == sum(
                                if i == 0 {
                                    ancestor_work
                                } else {
                                    headers@[i - 1].cumulative_work
                                },
                                competing@[i].difficulty_target,
                            )
                        }
                    &&& headers@.last().cumulative_work == target_work
                },
                Ok(_) => false,
                Err(_) => total != target_work,
            }
        }),
{
    let summed = choose|summed: Seq<ValidatedHeader>|
        {
            &&& #[trigger] work_chain(add_work, ancestor_work, competing@, summed)
            &&& match result {
                Ok(HeaderInventoryPlan::Candidate { headers, records, old_tip: from, target }) => {
                    &&& headers@ == summed
                    &&& summed.last().cumulative_work == target_work
                    &&& records@ == competing@
                    &&& from == old_tip
                    &&& target == competing@.last().spec_point()
                },
                Ok(_) => false,
                Err(PlanError::ChainworkDisagrees) => summed.last().cumulative_work != target_work,
            }
        };
    lemma_work_is_folded(add_work, ancestor_work, competing@, summed, sum);
    assert forall|i: int| 0 <= i < summed.len() implies (#[trigger] summed[i]).height == competing@[i].height
        && summed[i].hash == competing@[i].hash by {
        assert(summed[i].spec_point() == competing@[i].spec_point());
    }
}

proof fn lemma_work_is_folded<F: Fn(Digest, Digest) -> Digest>(
    add_work: F,
    ancestor_work: Digest,
    records: Seq<HeaderInventoryRecord>,
    headers: Seq<ValidatedHeader>,
    sum: spec_fn(Digest, Digest) -> Digest,
)
    requires
        work_chain(add_work, ancestor_work, records, headers),
        forall|work: Digest, target: Digest, out: Digest|
            #[trigger] call_ensures(add_work, (work, target), out) ==> out == sum(work, target),
    ensures
        records.fold_left(ancestor_work, |work: Digest, r: HeaderInventoryRecord| sum(work, r.difficulty_target)) == (
        if headers.len() == 0 {
            ancestor_work
        } else {
            headers.last().cumulative_work
        }),
    decreases records.len(),
{
    reveal_with_fuel(Seq::fold_left, 2);
    if records.len() > 0 {
        let fewer = records.drop_last();
        let before = headers.drop_last();
        assert forall|i: int| 0 <= i < before.len() implies {
            let header = #[trigger] before[i];
            &&& header.spec_point() == fewer[i].spec_point()
            &&& header.difficulty_target == fewer[i].difficulty_target
            &&& call_ensures(
                add_work,
                (
                    if i == 0 {
                        ancestor_work
                    } else {
                        before[i - 1].cumulative_work
                    },
                    fewer[i].difficulty_target,
                ),
                header.cumulative_work,
            )
        } by {
            assert(before[i] == headers[i]);
        }
        lemma_work_is_folded(add_work, ancestor_work, fewer, before, sum);
        assert(headers.last() == headers[headers.len() - 1]);
    }
}

/// Headers enter the store one after the other: with no refusal the store holds
/// what inserting all of them in order gives.
pub proof fn lemma_accepted_headers_are_all_recorded<D, E, F: Fn(D, ValidatedHeader) -> (D, Result<(), E>)>(
    dag: D,
    headers: Vec<ValidatedHeader>,
    insert: F,
    put: spec_fn(D, ValidatedHeader) -> D,
    outcome: (D, Result<(), E>),
)
    requires
        call_ensures(record_validated_headers::<D, E, F>, (dag, &headers, insert), outcome),
        forall|store: D, header: ValidatedHeader, after: D, verdict: Result<(), E>|
            #[trigger] call_ensures(insert, (store, header), (after, verdict)) ==> verdict is Ok && after == put(
                store,
                header,
            ),
    ensures
        outcome.1 is Ok,
        outcome.0 == headers@.fold_left(dag, |store: D, header: ValidatedHeader| put(store, header)),
{
    lemma_recorded_is_folded(dag, headers@, insert, put, outcome.0, outcome.1);
}

proof fn lemma_recorded_is_folded<D, E, F: Fn(D, ValidatedHeader) -> (D, Result<(), E>)>(
    dag: D,
    headers: Seq<ValidatedHeader>,
    insert: F,
    put: spec_fn(D, ValidatedHeader) -> D,
    after: D,
    result: Result<(), E>,
)
    requires
        recorded(insert, dag, headers, after, result),
        forall|store: D, header: ValidatedHeader, after: D, verdict: Result<(), E>|
            #[trigger] call_ensures(insert, (store, header), (after, verdict)) ==> verdict is Ok && after == put(
                store,
                header,
            ),
    ensures
        result is Ok,
        after == headers.fold_left(dag, |store: D, header: ValidatedHeader| put(store, header)),
    decreases headers.len(),
{
    let f = |store: D, header: ValidatedHeader| put(store, header);
    if headers.len() == 0 {
        reveal_with_fuel(Seq::fold_left, 2);
    } else {
        let next = put(dag, headers[0]);
        lemma_recorded_is_folded(next, headers.skip(1), insert, put, after, result);
        headers.lemma_fold_left_split(dag, f, 1);
        assert(headers.subrange(0, 1) =~= seq![headers[0]]);
        assert(headers.subrange(1, headers.len() as int) =~= headers.skip(1));
        reveal_with_fuel(Seq::fold_left, 3);
        assert(seq![headers[0]].drop_last() =~= Seq::<ValidatedHeader>::empty());
        assert(seq![headers[0]].fold_left(dag, f) == next);
    }
}

/// The first header that is refused ends it, with the reason of the refusal.
pub proof fn lemma_a_refused_header_ends_the_recording<D, E, F: Fn(D, ValidatedHeader) -> (D, Result<(), E>)>(
    dag: D,
    headers: Vec<ValidatedHeader>,
    insert: F,
    put: spec_fn(D, ValidatedHeader) -> (D, Result<(), E>),
    outcome: (D, Result<(), E>),
    stores: Seq<D>,
    k: int,
)
    requires
        call_ensures(record_validated_headers::<D, E, F>, (dag, &headers, insert), outcome),
        forall|store: D, header: ValidatedHeader, out: (D, Result<(), E>)|
            #[trigger] call_ensures(insert, (store, header), out) ==> out == put(store, header),
        0 <= k < headers@.len(),
        stores.len() == k + 1,
        stores[0] == dag,
        forall|i: int|
            0 <= i < k ==> (#[trigger] put(stores[i], headers@[i])).1 is Ok && put(stores[i], headers@[i]).0
                == stores[i + 1],
        put(stores[k], headers@[k]).1 is Err,
    ensures
        outcome == put(stores[k], headers@[k]),
{
    lemma_recording_stops(dag, headers@, insert, put, outcome, stores, k);
}

proof fn lemma_recording_stops<D, E, F: Fn(D, ValidatedHeader) -> (D, Result<(), E>)>(
    dag: D,
    headers: Seq<ValidatedHeader>,
    insert: F,
    put: spec_fn(D, ValidatedHeader) -> (D, Result<(), E>),
    outcome: (D, Result<(), E>),
    stores: Seq<D>,
    k: int,
)
    requires
        recorded(insert, dag, headers, outcome.0, outcome.1),
        forall|store: D, header: ValidatedHeader, out: (D, Result<(), E>)|
            #[trigger] call_ensures(insert, (store, header), out) ==> out == put(store, header),
        0 <= k < headers.len(),
        stores.len() == k + 1,
        stores[0] == dag,
        forall|i: int|
            0 <= i < k ==> (#[trigger] put(stores[i], headers[i])).1 is Ok && put(stores[i], headers[i]).0 == stores[i
                + 1],
        put(stores[k], headers[k]).1 is Err,
    ensures
        outcome == put(stores[k], headers[k]),
    decreases k,
{
    if k > 0 {
        let rest = headers.skip(1);
        let later = stores.skip(1);
        assert(put(stores[0], headers[0]).1 is Ok);
        assert forall|i: int| 0 <= i < k - 1 implies (#[trigger] put(later[i], rest[i])).1 is Ok && put(
            later[i],
            rest[i],
        ).0 == later[i + 1] by {
            assert(put(stores[i + 1], headers[i + 1]).1 is Ok);
        }
        lemma_recording_stops(stores[1], rest, insert, put, outcome, later, k - 1);
    }
}

/// The hints that are kept are the records of known headers that advertise an
/// object: each of them, no other, and in their order.
pub proof fn lemma_hints_of_known_headers_are_kept(
    records: Vec<HeaderInventoryRecord>,
    known: Vec<bool>,
    hints: Option<Vec<HeaderInventoryRecord>>,
)
    requires
        known@.len() == records@.len(),
        call_ensures(advertise_inventory_for_known_headers, (&records, &known), hints),
    ensures
        hints is None <==> forall|i: int|
            0 <= i < records@.len() ==> !known@[i] || ((#[trigger] records@[i]).body is None
                && records@[i].terminal is None),
        hints is Some ==> exists|places: Seq<int>|
            {
                &&& #[trigger] places.len() == hints->0@.len()
                &&& forall|a: int, b: int| 0 <= a < b < places.len() ==> places[a] < places[b]
                &&& forall|a: int|
                    0 <= a < places.len() ==> 0 <= #[trigger] places[a] < records@.len() && hints->0@[a]
                        == records@[places[a]]
                &&& forall|i: int|
                    0 <= i < records@.len() ==> (places.contains(i) <==> known@[i] && ((#[trigger] records@[i]).body is Some
                        || records@[i].terminal is Some))
            },
{
    let places = lemma_advertised_places(records@, known@);
    let list = advertised(records@, known@);
    if hints is Some {
        assert(places.len() == hints->0@.len());
        assert(places.contains(places[0]));
        assert(known@[places[0]] && (records@[places[0]].body is Some || records@[places[0]].terminal is Some));
    } else {
        assert forall|i: int| 0 <= i < records@.len() implies !known@[i] || ((#[trigger] records@[i]).body is None
            && records@[i].terminal is None) by {
            assert(!places.contains(i));
        }
    }
}

proof fn lemma_advertised_places(records: Seq<HeaderInventoryRecord>, known: Seq<bool>) -> (places: Seq<int>)
    requires
        known.len() == records.len(),
    ensures
        places.len() == advertised(records, known).len(),
        forall|a: int, b: int| 0 <= a < b < places.len() ==> places[a] < places[b],
        forall|a: int|
            0 <= a < places.len() ==> 0 <= #[trigger] places[a] < records.len() && advertised(records, known)[a]
                == records[places[a]],
        forall|i: int|
            0 <= i < records.len() ==> (places.contains(i) <==> known[i] && ((#[trigger] records[i]).body is Some
                || records[i].terminal is Some)),
    decreases records.len(),
{
    if records.len() == 0 {
        Seq::empty()
    } else {
        let last = records.len() - 1;
        let before = lemma_advertised_places(records.drop_last(), known.drop_last());
        let kept = known[last] && (records[last].body is Some || records[last].terminal is Some);
        let places = if kept {
            before.push(last)
        } else {
            before
        };
        assert forall|i: int| 0 <= i < records.len() implies (places.contains(i) <==> known[i] && ((
        #[trigger] records[i]).body is Some || records[i].terminal is Some)) by {
            if i < last {
                assert(records.drop_last()[i] == records[i]);
                assert(before.contains(i) <==> known[i] && (records[i].body is Some || records[i].terminal is Some));
                if before.contains(i) {
                    let j = choose|j: int| 0 <= j < before.len() && before[j] == i;
                    assert(places[j] == i);
                }
            } else {
                if kept {
                    assert(places[places.len() - 1] == i);
                } else if places.contains(i) {
                    let j = choose|j: int| 0 <= j < before.len() && before[j] == i;
                    assert(before[j] < last);
                }
            }
        }
        places
    }
}

/// A provider's `i`-th record advertises the body of a block.
pub open spec fn offers_body(inventory: ProviderInventory, i: int, height: u64, hash: Digest) -> bool {
    &&& 0 <= i < inventory.records@.len()
    &&& inventory.records@[i].body is Some
    &&& inventory.records@[i].body->0.height == height
    &&& inventory.records@[i].body->0.block_hash == hash
}

/// Some provider's `i`-th record advertises the body of a block.
pub open spec fn has_body_offer(inventories: Seq<ProviderInventory>, i: int, height: u64, hash: Digest) -> bool {
    exists|p: int| 0 <= p < inventories.len() && #[trigger] offers_body(inventories[p], i, height, hash)
}

/// A suffix is planned only if every one of its bodies is advertised by
/// somebody for that very block. The plan is made from one bare record for each
/// header, and the tip's record alone carries the terminal; a suffix from the
/// tip extends it, any other replaces blocks.
pub proof fn lemma_a_planned_suffix_can_be_fetched<
    O,
    E,
    F: FnOnce(SuffixKind, Vec<HeaderInventoryRecord>) -> Result<O, E>,
>(
    terminal: Option<(PeerId, ObjectClaim)>,
    old_tip: ChainPoint,
    base: ChainPoint,
    headers: Vec<ValidatedHeader>,
    inventories: Vec<ProviderInventory>,
    offer: F,
    result: Result<(PeerId, O), SuffixSyncError<E>>,
) -> (made_from: (SuffixKind, Vec<HeaderInventoryRecord>, Result<O, E>))
    requires
        call_ensures(
            source_independent_suffix_offer::<O, E, F>,
            (terminal, old_tip, base, &headers, &inventories, offer),
            result,
        ),
    ensures
        headers@.len() == 0 ==> result == Err::<(PeerId, O), SuffixSyncError<E>>(SuffixSyncError::EmptySuffix),
        headers@.len() > 0 && terminal is None ==> result == Err::<(PeerId, O), SuffixSyncError<E>>(
            SuffixSyncError::MissingTipTerminal,
        ),
        headers@.len() > 0 && terminal is Some ==> ({
            let (kind, records, made) = made_from;
            &&& call_ensures(offer, (kind, records), made)
            &&& kind == SuffixKind::Live <==> base.height == old_tip.height && base.hash == old_tip.hash
            &&& records@.len() == headers@.len()
            &&& forall|i: int|
                0 <= i < records@.len() ==> {
                    &&& (#[trigger] records@[i]).height == headers@[i].height
                    &&& records@[i].hash == headers@[i].hash
                    &&& records@[i].difficulty_target == headers@[i].difficulty_target
                    &&& records@[i].body is None
                    &&& records@[i].terminal == (if i == records@.len() - 1 {
                        Some((terminal->0).1)
                    } else {
                        None
                    })
                }
            &&& match result {
                Ok((peer, plan)) => {
                    &&& peer == (terminal->0).0
                    &&& made == Ok::<O, E>(plan)
                    &&& forall|i: int|
                        0 <= i < headers@.len() ==> has_body_offer(
                            inventories@,
                            i,
                            (#[trigger] headers@[i]).height,
                            headers@[i].hash,
                        )
                },
                Err(SuffixSyncError::Offer(error)) => made == Err::<O, E>(error),
                Err(SuffixSyncError::MissingBodySource) => {
                    &&& made is Ok
                    &&& exists|i: int|
                        0 <= i < headers@.len() && !has_body_offer(
                            inventories@,
                            i,
                            (#[trigger] headers@[i]).height,
                            headers@[i].hash,
                        )
                },
                Err(_) => false,
            }
        }),
{
    if headers@.len() > 0 && terminal is Some {
        let (peer, claim) = terminal->0;
        let kind = suffix_kind(base, old_tip);
        let (records, made) = choose|records: Vec<HeaderInventoryRecord>, made: Result<O, E>|
            {
                &&& #[trigger] call_ensures(offer, (kind, records), made)
                &&& records@ == bootstrap_records(headers@, claim)
                &&& result == (match made {
                    Err(error) => Err::<(PeerId, O), SuffixSyncError<E>>(SuffixSyncError::Offer(error)),
                    Ok(plan) => if bodies_covered(inventories@, headers@) {
                        Ok::<(PeerId, O), SuffixSyncError<E>>((peer, plan))
                    } else {
                        Err::<(PeerId, O), SuffixSyncError<E>>(SuffixSyncError::MissingBodySource)
                    },
                })
            };
        if bodies_covered(inventories@, headers@) {
            assert forall|i: int| 0 <= i < headers@.len() implies has_body_offer(
                inventories@,
                i,
                (#[trigger] headers@[i]).height,
                headers@[i].hash,
            ) by {
                assert(body_has_source(inventories@, i, headers@[i]));
                let p = choose|p: int|
                    0 <= p < inventories@.len() && serves_body(#[trigger] inventories@[p], i, headers@[i]);
                assert(offers_body(inventories@[p], i, headers@[i].height, headers@[i].hash));
            }
        } else {
            let i = choose|i: int|
                0 <= i < headers@.len() && !body_has_source(inventories@, i, #[trigger] headers@[i]);
            assert forall|p: int| 0 <= p < inventories@.len() implies !#[trigger] offers_body(
                inventories@[p],
                i,
                headers@[i].height,
                headers@[i].hash,
            ) by {
                assert(!serves_body(inventories@[p], i, headers@[i]));
            }
            assert(!has_body_offer(inventories@, i, headers@[i].height, headers@[i].hash));
        }
        (kind, records, made)
    } else {
        arbitrary()
    }
}

/// Native validation is handed every header from right above the final block up
/// to the last competing one: the path to the ancestor first, if the ancestor
/// is not the final block itself.
pub proof fn lemma_validation_covers_the_whole_branch<H, E, P: FnOnce(ChainPoint, ChainPoint) -> Result<Vec<H>, E>>(
    finalized: ChainPoint,
    ancestor: ChainPoint,
    competing: Vec<H>,
    path_from: P,
    path: Vec<H>,
    result: Result<Vec<H>, E>,
)
    requires
        call_ensures(validation_path::<H, E, P>, (finalized, ancestor, competing, path_from), result),
        forall|loaded: Result<Vec<H>, E>|
            #[trigger] call_ensures(path_from, (finalized, ancestor), loaded) ==> loaded == Ok::<Vec<H>, E>(path),
    ensures
        result is Ok,
        finalized.height == ancestor.height && finalized.hash == ancestor.hash ==> result->Ok_0@ == competing@,
        finalized.height != ancestor.height || finalized.hash != ancestor.hash ==> result->Ok_0@.len() == path@.len()
            + competing@.len() && (forall|i: int| 0 <= i < path@.len() ==> #[trigger] result->Ok_0@[i] == path@[i]) && (
        forall|i: int| 0 <= i < competing@.len() ==> result->Ok_0@[path@.len() + i] == #[trigger] competing@[i]),
{
}

/// A branch whose lower part cannot be loaded is not validated at all: the
/// error is handed on. Nothing is loaded for a branch off the finalized block.
pub proof fn lemma_an_unreadable_branch_is_not_validated<
    H,
    E,
    P: FnOnce(ChainPoint, ChainPoint) -> Result<Vec<H>, E>,
>(
    finalized: ChainPoint,
    ancestor: ChainPoint,
    competing: Vec<H>,
    path_from: P,
    error: E,
    result: Result<Vec<H>, E>,
)
    requires
        call_ensures(validation_path::<H, E, P>, (finalized, ancestor, competing, path_from), result),
        forall|loaded: Result<Vec<H>, E>|
            #[trigger] call_ensures(path_from, (finalized, ancestor), loaded) ==> loaded == Err::<Vec<H>, E>(error),
    ensures
        finalized.height == ancestor.height && finalized.hash == ancestor.hash ==> result is Ok && result->Ok_0@
            == competing@,
        finalized.height != ancestor.height || finalized.hash != ancestor.hash ==> result == Err::<Vec<H>, E>(error),
{
}

} // verus!
