//! What a whole search for empty slots comes to.

use vstd::prelude::*;
use std::collections::HashSet;
use crate::hint_laws::{
    can_be_judged, holds_nothing, lemma_hints_are_taken_in_order, lemma_slots_are_numbered_segment_by_segment,
    lemma_where_a_slot_is_judged, size_of_segment,
};
use crate::order_laws::{
    has_holes, lemma_holes_come_before_new_segments, lemma_the_densest_segment_is_filled_up_first,
};
use crate::segment_source::SegmentSource;
use crate::slot_laws::{
    addressable, lemma_candidates, lemma_collect_empty, lemma_collect_fills, lemma_fresh, lemma_fresh_count,
    lemma_fresh_members, lemma_hints_are_usable, lemma_scan_meets_every_slot,
    lemma_segments_are_read_once, slots_of,
};
use crate::slot_search::collect_empty_slot_hints_streaming;
use crate::slots::{
    collect, collect_empty_slot_hints, emptiness, extends_hints, fresh, is_evicted, lemma_searched_extends, loads,
    observes, outcome_is, refill_order, search_stages, searched, stage_candidates, stage_outcome, staged, steady,
    SearchStage, SegmentInfo, SegmentView, SlotError, SlotFault, SlotSpace, StoredSegment,
};

verus! {

broadcast use vstd::std_specs::hash::group_hash_axioms;

/// The hints that are there with as many of the others as are missing.
pub open spec fn filled_up(hints: Seq<u32>, others: Seq<u32>, count: usize) -> Seq<u32> {
    if hints.len() + others.len() < count {
        hints + others
    } else {
        hints + others.take(count - hints.len())
    }
}

/// The error names the segment of the slot and says what the disk holds of it.
pub open spec fn names_what_is_wrong(error: SlotError, space: SlotSpace, index: u32, stored: SegmentView) -> bool {
    let id = index as int / size_of_segment(space);
    match stored {
        SegmentView::Failed(text) => error matches SlotError::Store(told) && told@ == text,
        SegmentView::Missing => error matches SlotError::MissingSegment { segment_id } && segment_id == id,
        SegmentView::Found { log, .. } => if log != space.segment_log {
            error matches SlotError::DepthMismatch { segment_id, stored: found, expected } && segment_id == id && found
                == log && expected == space.segment_log
        } else {
            error matches SlotError::TooShort { segment_id, local_index } && segment_id == id && local_index
                == index as int % size_of_segment(space)
        },
    }
}

proof fn lemma_filter_alike(s: Seq<u32>, p: spec_fn(u32) -> bool, q: spec_fn(u32) -> bool)
    requires
        forall|i: int| 0 <= i < s.len() ==> p(#[trigger] s[i]) == q(s[i]),
    ensures
        s.filter(p) == s.filter(q),
    decreases s.len(),
{
    reveal(Seq::filter);
    if s.len() > 0 {
        let head = s.drop_last();
        assert forall|i: int| 0 <= i < head.len() implies p(#[trigger] head[i]) == q(head[i]) by {
            assert(head[i] == s[i]);
        }
        lemma_filter_alike(head, p, q);
        assert(s.last() == s[s.len() - 1]);
    }
}

/// A list of candidates is searched in its order: behind the hints that are
/// there come the empty slots among the candidates, as many as are missing. A
/// slot that cannot be judged fails the search if it is met before there are
/// enough, with an error that names its segment, and does no harm behind them.
///
/// Every slot lies in a segment that has a number.
pub proof fn lemma_a_list_of_candidates_is_searched<R: Fn(u32) -> bool, L: Fn(u16) -> StoredSegment>(
    space: SlotSpace,
    segments: Vec<SegmentInfo>,
    reserved: HashSet<u32>,
    count: usize,
    hints: Vec<u32>,
    candidates: Vec<u32>,
    read: R,
    source: &mut SegmentSource<L>,
    outcome: Result<Vec<u32>, SlotError>,
    resident: spec_fn(u32) -> bool,
    stored: spec_fn(u16) -> SegmentView,
    n: int,
)
    requires
        space.segment_log < 32,
        space.num_slots <= 65536 * size_of_segment(space),
        hints@.len() <= count,
        observes(read, old(source).loader(), resident, stored),
        call_ensures(
            collect_empty_slot_hints_streaming::<R, L>,
            (&space, &segments, &reserved, count, hints, &candidates, &read, source),
            outcome,
        ),
        0 <= n <= fresh(space.num_slots, reserved@.union(hints@.to_set()), candidates@).len(),
        forall|k: int|
            0 <= k < n ==> can_be_judged(
                space,
                segments@,
                stored,
                #[trigger] fresh(space.num_slots, reserved@.union(hints@.to_set()), candidates@)[k],
            ),
    ensures
        ({
            let kept = fresh(space.num_slots, reserved@.union(hints@.to_set()), candidates@);
            let found = kept.take(n).filter(|index: u32| holds_nothing(space, segments@, resident, stored, index));
            &&& n == kept.len() || hints@.len() + found.len() >= count ==> (outcome matches Ok(all) && all@ == filled_up(
                hints@,
                found,
                count,
            ))
            &&& n < kept.len() && !can_be_judged(space, segments@, stored, kept[n]) && hints@.len() + found.len()
                < count ==> outcome is Err && names_what_is_wrong(
                outcome->Err_0,
                space,
                kept[n],
                stored((kept[n] as int / size_of_segment(space)) as u16),
            )
        }),
{
    let kept = fresh(space.num_slots, reserved@.union(hints@.to_set()), candidates@);
    let good = |index: u32| emptiness(space, segments@, resident, stored, index) == Ok::<bool, SlotFault>(true);
    let empty = |index: u32| holds_nothing(space, segments@, resident, stored, index);
    lemma_fresh(space.num_slots, reserved@.union(hints@.to_set()), candidates@);
    lemma_slots_are_numbered_segment_by_segment(space, 0);
    let size = size_of_segment(space);
    assert forall|k: int| 0 <= k < kept.len() implies (#[trigger] kept[k]) as int / size <= u16::MAX by {
        let index = kept[k] as int;
        assert(index < 65536 * size);
        assert(index / size <= 65535) by (nonlinear_arith)
            requires
                0 <= index < 65536 * size,
                size > 0,
        ;
    }
    assert forall|k: int| 0 <= k < n implies emptiness(space, segments@, resident, stored, #[trigger] kept[k]) is Ok by {
        lemma_where_a_slot_is_judged(space, segments@, resident, stored, kept[k]);
    }
    lemma_hints_are_taken_in_order(space, segments@, resident, stored, count, hints@, kept, n);
    let first = kept.take(n);
    assert forall|i: int| 0 <= i < first.len() implies good(#[trigger] first[i]) == empty(first[i]) by {
        assert(first[i] == kept[i]);
        lemma_where_a_slot_is_judged(space, segments@, resident, stored, kept[i]);
    }
    lemma_filter_alike(first, good, empty);
    assert(outcome_is(
        outcome,
        searched(space, segments@, resident, stored, reserved@, count, hints@, candidates@),
    ));
    let found = first.filter(empty);
    assert(found == first.filter(good));
    if n < kept.len() {
        assert(kept.skip(n)[0] == kept[n]);
        lemma_slots_are_numbered_segment_by_segment(space, kept[n]);
        lemma_where_a_slot_is_judged(space, segments@, resident, stored, kept[n]);
    }
}

/// Where hints are still missing, every candidate was judged, and the empty
/// ones are hints.
proof fn lemma_nothing_is_passed_over(
    space: SlotSpace,
    segments: Seq<SegmentInfo>,
    resident: spec_fn(u32) -> bool,
    stored: spec_fn(u16) -> SegmentView,
    count: usize,
    hints: Seq<u32>,
    candidates: Seq<u32>,
    more: Seq<u32>,
)
    requires
        collect(space, segments, resident, stored, count, hints, candidates) == Ok::<Seq<u32>, SlotFault>(more),
    ensures
        forall|i: int| 0 <= i < hints.len() ==> i < more.len() && #[trigger] more[i] == hints[i],
        hints.len() <= more.len(),
        forall|i: int| hints.len() <= i < more.len() ==> candidates.contains(#[trigger] more[i]),
        more.len() < count ==> forall|index: u32| #[trigger]
            candidates.contains(index) ==> emptiness(space, segments, resident, stored, index) is Ok && (emptiness(
                space,
                segments,
                resident,
                stored,
                index,
            ) == Ok::<bool, SlotFault>(true) ==> more.contains(index)),
    decreases candidates.len(),
{
    if hints.len() < count && candidates.len() > 0 {
        let rest = candidates.skip(1);
        let here = candidates[0];
        let next = if emptiness(space, segments, resident, stored, here) == Ok::<bool, SlotFault>(true) {
            hints.push(here)
        } else {
            hints
        };
        lemma_nothing_is_passed_over(space, segments, resident, stored, count, next, rest, more);
        assert forall|i: int| 0 <= i < hints.len() implies i < more.len() && #[trigger] more[i] == hints[i] by {
            assert(more[i] == next[i]);
        }
        assert forall|i: int| hints.len() <= i < more.len() implies candidates.contains(#[trigger] more[i]) by {
            if i < next.len() {
                assert(more[i] == here);
            } else {
                assert(rest.contains(more[i]));
                let k = choose|k: int| 0 <= k < rest.len() && rest[k] == more[i];
                assert(candidates[k + 1] == more[i]);
            }
        }
        if more.len() < count {
            assert forall|index: u32| #[trigger] candidates.contains(index) implies emptiness(
                space,
                segments,
                resident,
                stored,
                index,
            ) is Ok && (emptiness(space, segments, resident, stored, index) == Ok::<bool, SlotFault>(true)
                ==> more.contains(index)) by {
                let k = choose|k: int| 0 <= k < candidates.len() && candidates[k] == index;
                if k == 0 {
                    if next.len() > hints.len() {
                        assert(more[hints.len() as int] == next[hints.len() as int]);
                    }
                } else {
                    assert(rest[k - 1] == index);
                    assert(rest.contains(index));
                }
            }
        }
    }
}

/// What one segment adds to the hints lies in that segment.
proof fn lemma_a_segment_gives_its_own_slots(
    space: SlotSpace,
    segments: Seq<SegmentInfo>,
    resident: spec_fn(u32) -> bool,
    stored: spec_fn(u16) -> SegmentView,
    reserved: Set<u32>,
    count: usize,
    hints: Seq<u32>,
    stage: SearchStage,
    more: Seq<u32>,
)
    requires
        addressable(space, stage.segment_id),
        hints.len() < count,
        searched(
            space,
            segments,
            resident,
            stored,
            reserved,
            count,
            hints,
            stage_candidates(space, reserved, count, hints, stage),
        ) == Ok::<Seq<u32>, SlotFault>(more),
    ensures
        hints.len() <= more.len(),
        forall|i: int| 0 <= i < hints.len() ==> i < more.len() && #[trigger] more[i] == hints[i],
        forall|i: int| hints.len() <= i < more.len() ==> slots_of(space, stage.segment_id).contains(#[trigger] more[i]),
        more.len() < count && stage.whole ==> forall|index: u32| #[trigger]
            slots_of(space, stage.segment_id).contains(index) && index < space.num_slots && !reserved.contains(index)
                && !hints.contains(index) ==> emptiness(space, segments, resident, stored, index) is Ok && (emptiness(
                space,
                segments,
                resident,
                stored,
                index,
            ) == Ok::<bool, SlotFault>(true) ==> more.contains(index)),
{
    let candidates = stage_candidates(space, reserved, count, hints, stage);
    let taken = reserved.union(hints.to_set());
    let kept = fresh(space.num_slots, taken, candidates);
    lemma_nothing_is_passed_over(space, segments, resident, stored, count, hints, kept, more);
    assert forall|i: int| hints.len() <= i < more.len() implies slots_of(space, stage.segment_id).contains(
        #[trigger] more[i],
    ) by {
        lemma_fresh_members(space.num_slots, taken, candidates, more[i]);
        let k = choose|k: int| 0 <= k < candidates.len() && candidates[k] == more[i];
        lemma_scan_meets_every_slot(space, stage.segment_id, stage.start, k as u32, 0);
    }
    if more.len() < count && stage.whole {
        assert forall|index: u32| #[trigger]
            slots_of(space, stage.segment_id).contains(index) && index < space.num_slots && !reserved.contains(index)
                && !hints.contains(index) implies emptiness(space, segments, resident, stored, index) is Ok && (
        emptiness(space, segments, resident, stored, index) == Ok::<bool, SlotFault>(true) ==> more.contains(index)) by {
            lemma_scan_meets_every_slot(space, stage.segment_id, stage.start, 0, index);
            let k = choose|k: u32|
                k < space.segment_size() && #[trigger] space.candidate(stage.segment_id, stage.start, k) == index;
            assert(candidates[k as int] == index);
            assert(candidates.contains(index));
            lemma_fresh_members(space.num_slots, taken, candidates, index);
            assert(kept.contains(index));
        }
    }
}

/// A slot that a search leaves out though hints are missing: it can be judged,
/// and it is not empty.
spec fn is_settled(
    space: SlotSpace,
    segments: Seq<SegmentInfo>,
    resident: spec_fn(u32) -> bool,
    stored: spec_fn(u16) -> SegmentView,
    hints: Seq<u32>,
    index: u32,
) -> bool {
    &&& emptiness(space, segments, resident, stored, index) is Ok
    &&& emptiness(space, segments, resident, stored, index) == Ok::<bool, SlotFault>(true) ==> hints.contains(index)
}

proof fn lemma_searched_segments_are_used_up(
    space: SlotSpace,
    segments: Seq<SegmentInfo>,
    resident: spec_fn(u32) -> bool,
    stored: spec_fn(u16) -> SegmentView,
    reserved: Set<u32>,
    count: usize,
    stages: Seq<SearchStage>,
    hints: Seq<u32>,
    i: int,
    last: Seq<u32>,
)
    requires
        0 <= i,
        forall|k: int| 0 <= k < stages.len() ==> addressable(space, (#[trigger] stages[k]).segment_id),
        forall|k: int|
            0 <= k < hints.len() ==> emptiness(space, segments, resident, stored, #[trigger] hints[k]) == Ok::<
                bool,
                SlotFault,
            >(true),
        staged(space, segments, reserved, count, stages, steady(resident, stored), hints, i) == Ok::<
            Seq<u32>,
            SlotFault,
        >(last),
    ensures
        forall|k: int| 0 <= k < hints.len() ==> k < last.len() && #[trigger] last[k] == hints[k],
        last.len() < count ==> forall|k: int, index: u32|
            i <= k < stages.len() && stages[k].whole && #[trigger] slots_of(space, (#[trigger] stages[k]).segment_id).contains(
                index,
            ) && index < space.num_slots && !reserved.contains(index) ==> is_settled(
                space,
                segments,
                resident,
                stored,
                last,
                index,
            ),
    decreases stages.len() - i,
{
    let answers = steady(resident, stored);
    if hints.len() < count && i < stages.len() {
        let stage = stages[i];
        let candidates = stage_candidates(space, reserved, count, hints, stage);
        match stage_outcome(space, segments, reserved, count, stage, answers(i), hints) {
            Ok(more) => {
                lemma_a_segment_gives_its_own_slots(
                    space,
                    segments,
                    resident,
                    stored,
                    reserved,
                    count,
                    hints,
                    stage,
                    more,
                );
                lemma_collect_empty(
                    space,
                    segments,
                    resident,
                    stored,
                    count,
                    hints,
                    hints,
                    fresh(space.num_slots, reserved.union(hints.to_set()), candidates),
                );
                assert forall|k: int| 0 <= k < more.len() implies emptiness(
                    space,
                    segments,
                    resident,
                    stored,
                    #[trigger] more[k],
                ) == Ok::<bool, SlotFault>(true) by {
                    if k < hints.len() {
                        assert(more[k] == hints[k]);
                    }
                }
                lemma_searched_segments_are_used_up(
                    space,
                    segments,
                    resident,
                    stored,
                    reserved,
                    count,
                    stages,
                    more,
                    i + 1,
                    last,
                );
                assert forall|k: int| 0 <= k < hints.len() implies k < last.len() && #[trigger] last[k] == hints[k] by {
                    assert(more[k] == hints[k]);
                    assert(last[k] == more[k]);
                }
                if last.len() < count {
                    assert(more.len() <= last.len()) by {
                        if more.len() > last.len() {
                            assert(more[last.len() as int] == last[last.len() as int]);
                        }
                    }
                    assert forall|k: int, index: u32|
                        i <= k < stages.len() && stages[k].whole && #[trigger] slots_of(
                            space,
                            (#[trigger] stages[k]).segment_id,
                        ).contains(index) && index < space.num_slots && !reserved.contains(index) implies is_settled(
                        space,
                        segments,
                        resident,
                        stored,
                        last,
                        index,
                    ) by {
                        if k == i {
                            if hints.contains(index) {
                                let h = choose|h: int| 0 <= h < hints.len() && hints[h] == index;
                                assert(last[h] == index);
                            } else if more.contains(index) {
                                let h = choose|h: int| 0 <= h < more.len() && more[h] == index;
                                assert(last[h] == more[h]);
                            }
                        }
                    }
                }
            },
            Err(_) => {},
        }
    }
}

/// The segment of a slot has numbers for all its slots.
proof fn lemma_the_segment_of_a_slot(space: SlotSpace, index: u32, segment_id: u16)
    requires
        space.segment_log < 32,
    ensures
        slots_of(space, segment_id).contains(index) <==> index as int / size_of_segment(space) == segment_id,
        slots_of(space, segment_id).contains(index) ==> addressable(space, segment_id),
{
    let log = space.segment_log as u32;
    vstd::bits::lemma_u32_shr_is_div(index, log);
    let top = 0xffff_ffffu32 >> log;
    let home = index >> log;
    assert(home <= top) by (bit_vector)
        requires
            home == index >> log,
            top == 0xffff_ffffu32 >> log,
    ;
}

/// Every segment of the table has numbers for its slots.
pub open spec fn table_fits(space: SlotSpace, segments: Seq<SegmentInfo>) -> bool {
    forall|id: u16| id < segments.len() ==> #[trigger] addressable(space, id)
}

proof fn lemma_the_segments_of_a_search(
    space: SlotSpace,
    segments: Seq<SegmentInfo>,
    zone_order: Seq<u16>,
    draws: Seq<u64>,
)
    requires
        space.segment_log < 32,
        segments.len() <= 65536,
        forall|i: int| 0 <= i < zone_order.len() ==> (#[trigger] zone_order[i]) < segments.len(),
        draws.len() > segments.len() + zone_order.len(),
    ensures
        ({
            let stages = search_stages(space, segments, zone_order, draws);
            &&& forall|k: int| 0 <= k < stages.len() ==> (#[trigger] stages[k]).segment_id < segments.len()
            &&& forall|i: int, j: int|
                0 <= i <= j < stages.len() ==> segments[(#[trigger] stages[i]).segment_id as int].live
                    >= segments[(#[trigger] stages[j]).segment_id as int].live
            &&& forall|id: u16|
                #[trigger] has_holes(space, segments, id as int) ==> exists|k: int|
                    0 <= k < stages.len() && (#[trigger] stages[k]).segment_id == id && stages[k].whole
            &&& forall|z: int|
                0 <= z < zone_order.len() && segments[#[trigger] zone_order[z] as int].live == 0
                    && !segments[zone_order[z] as int].evicted ==> exists|k: int|
                    0 <= k < stages.len() && (#[trigger] stages[k]).segment_id == zone_order[z] && !stages[k].whole
        }),
{
    broadcast use vstd::seq_lib::group_filter_ensures;

    let stages = search_stages(space, segments, zone_order, draws);
    let order = refill_order(space, segments, draws);
    let fits = |id: u16| segments[id as int].live == 0 && !segments[id as int].evicted;
    let opened = zone_order.filter(fits);
    lemma_holes_come_before_new_segments(space, segments, zone_order, draws);
    lemma_the_densest_segment_is_filled_up_first(space, segments, draws, 0);
    assert forall|k: int| 0 <= k < stages.len() implies (#[trigger] stages[k]).segment_id < segments.len() by {
        if k < order.len() {
            assert(order.contains(order[k]));
            assert(has_holes(space, segments, order[k] as int));
        } else {
            let o = k - order.len();
            lemma_filter_comes_from(zone_order, fits, o);
        }
    }
    assert forall|i: int, j: int| 0 <= i <= j < stages.len() implies segments[(
    #[trigger] stages[i]).segment_id as int].live >= segments[(#[trigger] stages[j]).segment_id as int].live by {
        if j >= order.len() {
            let o = j - order.len();
            assert(fits(opened[o]));
        } else {
            assert(segments[order[i] as int].live >= segments[order[j] as int].live);
        }
    }
    assert forall|id: u16| #[trigger] has_holes(space, segments, id as int) implies exists|k: int|
        0 <= k < stages.len() && (#[trigger] stages[k]).segment_id == id && stages[k].whole by {
        assert(order.contains(id));
        let k = choose|k: int| 0 <= k < order.len() && order[k] == id;
        assert(stages[k].segment_id == id && stages[k].whole);
    }
    assert forall|z: int|
        0 <= z < zone_order.len() && segments[#[trigger] zone_order[z] as int].live == 0
            && !segments[zone_order[z] as int].evicted implies exists|k: int|
        0 <= k < stages.len() && (#[trigger] stages[k]).segment_id == zone_order[z] && !stages[k].whole by {
        assert(fits(zone_order[z]));
        assert(opened.contains(zone_order[z]));
        let o = choose|o: int| 0 <= o < opened.len() && opened[o] == zone_order[z];
        let k = o + order.len();
        assert(stages[k].segment_id == zone_order[z] && !stages[k].whole);
    }
}

proof fn lemma_filter_comes_from(s: Seq<u16>, p: spec_fn(u16) -> bool, i: int)
    requires
        0 <= i < s.filter(p).len(),
    ensures
        s.contains(s.filter(p)[i]),
    decreases s.len(),
{
    reveal(Seq::filter);
    if s.len() > 0 {
        let head = s.drop_last();
        let rest = head.filter(p);
        if i < rest.len() {
            lemma_filter_comes_from(head, p, i);
            let k = choose|k: int| 0 <= k < head.len() && head[k] == rest[i];
            assert(s[k] == rest[i]);
        } else {
            assert(s[s.len() - 1] == s.filter(p)[i]);
        }
    }
}

/// No hole is passed over: if a search gives fewer hints than were asked for,
/// then every slot of every segment with holes was judged, from disk where the
/// segment is not in memory, and each empty one that is not reserved is a hint.
pub proof fn lemma_no_hole_is_passed_over<R: Fn(u32) -> bool, L: Fn(u16) -> StoredSegment>(
    space: SlotSpace,
    segments: Vec<SegmentInfo>,
    reserved: HashSet<u32>,
    count: usize,
    zone_order: Vec<u16>,
    draws: Vec<u64>,
    read: R,
    source: &mut SegmentSource<L>,
    outcome: Result<Vec<u32>, SlotError>,
    resident: spec_fn(u32) -> bool,
    stored: spec_fn(u16) -> SegmentView,
    index: u32,
)
    requires
        space.segment_log < 32,
        segments@.len() <= 65536,
        table_fits(space, segments@),
        forall|i: int| 0 <= i < zone_order@.len() ==> (#[trigger] zone_order@[i]) < segments@.len(),
        draws@.len() > segments@.len() + zone_order@.len(),
        observes(read, old(source).loader(), resident, stored),
        call_ensures(
            collect_empty_slot_hints::<R, L>,
            (&space, &segments, &reserved, count, &zone_order, &draws, &read, source),
            outcome,
        ),
        outcome matches Ok(hints) && hints@.len() < count,
        index < space.num_slots,
        !reserved@.contains(index),
        has_holes(space, segments@, index as int / size_of_segment(space)),
    ensures
        can_be_judged(space, segments@, stored, index),
        holds_nothing(space, segments@, resident, stored, index) ==> outcome->Ok_0@.contains(index),
{
    let size = size_of_segment(space);
    let id = (index as int / size) as u16;
    lemma_slots_are_numbered_segment_by_segment(space, index);
    lemma_the_segment_of_a_slot(space, index, id);
    lemma_the_segments_of_a_search(space, segments@, zone_order@, draws@);
    let stages = search_stages(space, segments@, zone_order@, draws@);
    let none = Seq::<u32>::empty();
    lemma_searched_segments_are_used_up(
        space,
        segments@,
        resident,
        stored,
        reserved@,
        count,
        stages,
        none,
        0,
        outcome->Ok_0@,
    );
    assert(has_holes(space, segments@, id as int));
    let k = choose|k: int| 0 <= k < stages.len() && (#[trigger] stages[k]).segment_id == id && stages[k].whole;
    assert(slots_of(space, stages[k].segment_id).contains(index));
    assert(is_settled(space, segments@, resident, stored, outcome->Ok_0@, index));
    lemma_where_a_slot_is_judged(space, segments@, resident, stored, index);
}

/// Hints stand in the order of the density of their segments.
spec fn fall_in_density(space: SlotSpace, segments: Seq<SegmentInfo>, hints: Seq<u32>) -> bool {
    forall|i: int, j: int|
        0 <= i <= j < hints.len() ==> segments[(#[trigger] hints[i]) as int / size_of_segment(space)].live
            >= segments[(#[trigger] hints[j]) as int / size_of_segment(space)].live
}

proof fn lemma_hints_fall_in_density(
    space: SlotSpace,
    segments: Seq<SegmentInfo>,
    resident: spec_fn(u32) -> bool,
    stored: spec_fn(u16) -> SegmentView,
    reserved: Set<u32>,
    count: usize,
    stages: Seq<SearchStage>,
    hints: Seq<u32>,
    i: int,
    last: Seq<u32>,
)
    requires
        0 <= i,
        space.segment_log < 32,
        forall|k: int| 0 <= k < stages.len() ==> addressable(space, (#[trigger] stages[k]).segment_id),
        forall|a: int, b: int|
            0 <= a <= b < stages.len() ==> segments[(#[trigger] stages[a]).segment_id as int].live >= segments[(
            #[trigger] stages[b]).segment_id as int].live,
        fall_in_density(space, segments, hints),
        forall|h: int, k: int|
            0 <= h < hints.len() && i <= k < stages.len() ==> segments[(#[trigger] hints[h]) as int / size_of_segment(
                space,
            )].live >= segments[(#[trigger] stages[k]).segment_id as int].live,
        staged(space, segments, reserved, count, stages, steady(resident, stored), hints, i) == Ok::<
            Seq<u32>,
            SlotFault,
        >(last),
    ensures
        fall_in_density(space, segments, last),
    decreases stages.len() - i,
{
    let answers = steady(resident, stored);
    if hints.len() < count && i < stages.len() {
        let stage = stages[i];
        match stage_outcome(space, segments, reserved, count, stage, answers(i), hints) {
            Ok(more) => {
                lemma_a_segment_gives_its_own_slots(
                    space,
                    segments,
                    resident,
                    stored,
                    reserved,
                    count,
                    hints,
                    stage,
                    more,
                );
                assert forall|h: int| hints.len() <= h < more.len() implies (#[trigger] more[h]) as int
                    / size_of_segment(space) == stage.segment_id by {
                    lemma_the_segment_of_a_slot(space, more[h], stage.segment_id);
                }
                assert forall|h: int, k: int| 0 <= h < more.len() && i + 1 <= k < stages.len() implies segments[(
                #[trigger] more[h]) as int / size_of_segment(space)].live >= segments[(
                #[trigger] stages[k]).segment_id as int].live by {
                    if h < hints.len() {
                        assert(more[h] == hints[h]);
                    } else {
                        assert(stages[i] == stage);
                    }
                }
                assert(fall_in_density(space, segments, more)) by {
                    assert forall|a: int, b: int| 0 <= a <= b < more.len() implies segments[(
                    #[trigger] more[a]) as int / size_of_segment(space)].live >= segments[(#[trigger] more[b]) as int
                        / size_of_segment(space)].live by {
                        if b < hints.len() {
                            assert(more[a] == hints[a] && more[b] == hints[b]);
                        } else if a < hints.len() {
                            assert(more[a] == hints[a]);
                            assert(stages[i] == stage);
                        }
                    }
                }
                lemma_hints_fall_in_density(
                    space,
                    segments,
                    resident,
                    stored,
                    reserved,
                    count,
                    stages,
                    more,
                    i + 1,
                    last,
                );
            },
            Err(_) => {},
        }
    }
}

/// A hint never lies in a denser segment than one before it, so that dense
/// segments are filled up first and new ones are opened last.
pub proof fn lemma_dense_segments_are_filled_up_first<R: Fn(u32) -> bool, L: Fn(u16) -> StoredSegment>(
    space: SlotSpace,
    segments: Vec<SegmentInfo>,
    reserved: HashSet<u32>,
    count: usize,
    zone_order: Vec<u16>,
    draws: Vec<u64>,
    read: R,
    source: &mut SegmentSource<L>,
    outcome: Result<Vec<u32>, SlotError>,
    resident: spec_fn(u32) -> bool,
    stored: spec_fn(u16) -> SegmentView,
    a: int,
    b: int,
)
    requires
        space.segment_log < 32,
        segments@.len() <= 65536,
        table_fits(space, segments@),
        forall|i: int| 0 <= i < zone_order@.len() ==> (#[trigger] zone_order@[i]) < segments@.len(),
        draws@.len() > segments@.len() + zone_order@.len(),
        observes(read, old(source).loader(), resident, stored),
        call_ensures(
            collect_empty_slot_hints::<R, L>,
            (&space, &segments, &reserved, count, &zone_order, &draws, &read, source),
            outcome,
        ),
        outcome matches Ok(hints) && 0 <= a <= b < hints@.len(),
    ensures
        segments@[outcome->Ok_0@[a] as int / size_of_segment(space)].live >= segments@[outcome->Ok_0@[b] as int
            / size_of_segment(space)].live,
{
    lemma_the_segments_of_a_search(space, segments@, zone_order@, draws@);
    let stages = search_stages(space, segments@, zone_order@, draws@);
    lemma_hints_fall_in_density(
        space,
        segments@,
        resident,
        stored,
        reserved@,
        count,
        stages,
        Seq::empty(),
        0,
        outcome->Ok_0@,
    );
}

/// A search that can judge every slot does not fail.
proof fn lemma_staged_succeeds(
    space: SlotSpace,
    segments: Seq<SegmentInfo>,
    resident: spec_fn(u32) -> bool,
    stored: spec_fn(u16) -> SegmentView,
    reserved: Set<u32>,
    count: usize,
    stages: Seq<SearchStage>,
    hints: Seq<u32>,
    i: int,
)
    requires
        0 <= i,
        forall|index: u32|
            index < space.num_slots ==> #[trigger] emptiness(space, segments, resident, stored, index) is Ok,
    ensures
        staged(space, segments, reserved, count, stages, steady(resident, stored), hints, i) is Ok,
    decreases stages.len() - i,
{
    let answers = steady(resident, stored);
    if hints.len() < count && i < stages.len() {
        let candidates = stage_candidates(space, reserved, count, hints, stages[i]);
        let taken = reserved.union(hints.to_set());
        let kept = fresh(space.num_slots, taken, candidates);
        lemma_fresh(space.num_slots, taken, candidates);
        lemma_hints_are_taken_in_order(space, segments, resident, stored, count, hints, kept, kept.len() as int);
        match stage_outcome(space, segments, reserved, count, stages[i], answers(i), hints) {
            Ok(more) => {
                lemma_staged_succeeds(space, segments, resident, stored, reserved, count, stages, more, i + 1);
            },
            Err(_) => {},
        }
    }
}

/// A search fails only over a slot that cannot be judged. What it gives are
/// slots that exist, are not reserved and hold nothing, each once, and never
/// more than were asked for.
///
/// Every slot lies in a segment that has a number.
pub proof fn lemma_hints_hold_nothing<R: Fn(u32) -> bool, L: Fn(u16) -> StoredSegment>(
    space: SlotSpace,
    segments: Vec<SegmentInfo>,
    reserved: HashSet<u32>,
    count: usize,
    zone_order: Vec<u16>,
    draws: Vec<u64>,
    read: R,
    source: &mut SegmentSource<L>,
    outcome: Result<Vec<u32>, SlotError>,
    resident: spec_fn(u32) -> bool,
    stored: spec_fn(u16) -> SegmentView,
)
    requires
        space.segment_log < 32,
        space.num_slots <= 65536 * size_of_segment(space),
        observes(read, old(source).loader(), resident, stored),
        call_ensures(
            collect_empty_slot_hints::<R, L>,
            (&space, &segments, &reserved, count, &zone_order, &draws, &read, source),
            outcome,
        ),
    ensures
        (forall|index: u32| index < space.num_slots ==> #[trigger] can_be_judged(space, segments@, stored, index))
            ==> outcome is Ok,
        outcome matches Ok(hints) ==> hints@.len() <= count && hints@.no_duplicates() && forall|i: int|
            0 <= i < hints@.len() ==> (#[trigger] hints@[i]) < space.num_slots && !reserved@.contains(hints@[i])
                && holds_nothing(space, segments@, resident, stored, hints@[i]),
{
    let size = size_of_segment(space);
    lemma_slots_are_numbered_segment_by_segment(space, 0);
    assert forall|index: u32| index < space.num_slots implies (#[trigger] emptiness(
        space,
        segments@,
        resident,
        stored,
        index,
    ) is Ok <==> can_be_judged(space, segments@, stored, index)) && (emptiness(space, segments@, resident, stored, index)
        == Ok::<bool, SlotFault>(true) <==> holds_nothing(space, segments@, resident, stored, index)) by {
        assert(index as int / size <= 65535) by (nonlinear_arith)
            requires
                0 <= index < 65536 * size,
                size > 0,
        ;
        lemma_where_a_slot_is_judged(space, segments@, resident, stored, index);
    }
    let stages = search_stages(space, segments@, zone_order@, draws@);
    if forall|index: u32| index < space.num_slots ==> #[trigger] can_be_judged(space, segments@, stored, index) {
        lemma_staged_succeeds(space, segments@, resident, stored, reserved@, count, stages, Seq::empty(), 0);
    }
    lemma_hints_are_usable(
        space,
        segments@,
        reserved@,
        count,
        zone_order@,
        draws@,
        steady(resident, stored),
    );
}

/// A new segment gives all that is missing.
proof fn lemma_a_new_segment_is_enough(
    space: SlotSpace,
    segments: Seq<SegmentInfo>,
    resident: spec_fn(u32) -> bool,
    stored: spec_fn(u16) -> SegmentView,
    reserved: Set<u32>,
    count: usize,
    hints: Seq<u32>,
    stage: SearchStage,
)
    requires
        addressable(space, stage.segment_id),
        !stage.whole,
        stage.segment_id < segments.len(),
        !segments[stage.segment_id as int].evicted,
        forall|index: u32| #[trigger]
            slots_of(space, stage.segment_id).contains(index) ==> index < space.num_slots && resident(index),
        reserved.finite(),
        hints.len() < count,
        forall|i: int| 0 <= i < hints.len() ==> !slots_of(space, stage.segment_id).contains(#[trigger] hints[i]),
        reserved.len() + count <= size_of_segment(space),
    ensures
        searched(
            space,
            segments,
            resident,
            stored,
            reserved,
            count,
            hints,
            stage_candidates(space, reserved, count, hints, stage),
        ) matches Ok(more) && more.len() == count,
{
    let id = stage.segment_id;
    let missing = (count - hints.len()) as nat;
    let candidates = stage_candidates(space, reserved, count, hints, stage);
    let taken = reserved.union(hints.to_set());
    let kept = fresh(space.num_slots, taken, candidates);
    lemma_slots_are_numbered_segment_by_segment(space, 0);
    assert(candidates.len() == reserved.len() + missing);
    assert forall|i: int| 0 <= i < candidates.len() implies slots_of(space, id).contains(#[trigger] candidates[i])
        && candidates[i] < space.num_slots by {
        lemma_scan_meets_every_slot(space, id, stage.start, i as u32, 0);
    }
    assert(candidates.no_duplicates()) by {
        assert forall|i: int, j: int| 0 <= i < candidates.len() && 0 <= j < candidates.len() && i
            != j implies candidates[i] != candidates[j] by {
            lemma_candidates(space, id, stage.start, i as u32, j as u32);
        }
    }
    vstd::seq_lib::seq_to_set_is_finite(hints);
    lemma_fresh_count(space.num_slots, taken, candidates);
    let met = taken.intersect(candidates.to_set());
    assert(met.subset_of(reserved)) by {
        assert forall|index: u32| met.contains(index) implies reserved.contains(index) by {
            let k = choose|k: int| 0 <= k < candidates.len() && candidates[k] == index;
            assert(slots_of(space, id).contains(candidates[k]));
            if hints.contains(index) {
                let h = choose|h: int| 0 <= h < hints.len() && hints[h] == index;
                assert(!slots_of(space, id).contains(hints[h]));
            }
        }
    }
    vstd::set_lib::lemma_len_subset(met, reserved);
    assert forall|i: int| 0 <= i < kept.len() implies emptiness(space, segments, resident, stored, #[trigger] kept[i])
        == Ok::<bool, SlotFault>(true) by {
        assert(candidates.contains(kept[i]));
        let k = choose|k: int| 0 <= k < candidates.len() && candidates[k] == kept[i];
        assert(slots_of(space, id).contains(candidates[k]));
        lemma_the_segment_of_a_slot(space, kept[i], id);
        lemma_where_a_slot_is_judged(space, segments, resident, stored, kept[i]);
    }
    lemma_collect_fills(space, segments, resident, stored, count, hints, kept);
}

proof fn lemma_staged_reaches_a_new_segment(
    space: SlotSpace,
    segments: Seq<SegmentInfo>,
    resident: spec_fn(u32) -> bool,
    stored: spec_fn(u16) -> SegmentView,
    reserved: Set<u32>,
    count: usize,
    stages: Seq<SearchStage>,
    hints: Seq<u32>,
    i: int,
    n: int,
    last: Seq<u32>,
)
    requires
        0 <= i <= n < stages.len(),
        forall|k: int| 0 <= k < stages.len() ==> addressable(space, (#[trigger] stages[k]).segment_id),
        forall|k: int| i <= k < n ==> (#[trigger] stages[k]).segment_id != stages[n].segment_id,
        !stages[n].whole,
        stages[n].segment_id < segments.len(),
        !segments[stages[n].segment_id as int].evicted,
        forall|index: u32| #[trigger]
            slots_of(space, stages[n].segment_id).contains(index) ==> index < space.num_slots && resident(index),
        reserved.finite(),
        hints.len() <= count,
        forall|h: int| 0 <= h < hints.len() ==> !slots_of(space, stages[n].segment_id).contains(#[trigger] hints[h]),
        reserved.len() + count <= size_of_segment(space),
        staged(space, segments, reserved, count, stages, steady(resident, stored), hints, i) == Ok::<
            Seq<u32>,
            SlotFault,
        >(last),
    ensures
        last.len() == count,
    decreases stages.len() - i,
{
    let answers = steady(resident, stored);
    if hints.len() < count {
        let stage = stages[i];
        if i == n {
            lemma_a_new_segment_is_enough(space, segments, resident, stored, reserved, count, hints, stage);
        }
        match stage_outcome(space, segments, reserved, count, stage, answers(i), hints) {
            Ok(more) => {
                if i == n {
                    assert(more.len() == count);
                } else {
                    let candidates = stage_candidates(space, reserved, count, hints, stage);
                    lemma_searched_extends(space, segments, resident, stored, reserved, count, hints, candidates);
                    assert(extends_hints(space, reserved, count, hints, more));
                    lemma_a_segment_gives_its_own_slots(
                        space,
                        segments,
                        resident,
                        stored,
                        reserved,
                        count,
                        hints,
                        stage,
                        more,
                    );
                    assert forall|h: int| 0 <= h < more.len() implies !slots_of(
                        space,
                        stages[n].segment_id,
                    ).contains(#[trigger] more[h]) by {
                        if h < hints.len() {
                            assert(more[h] == hints[h]);
                        } else {
                            assert(slots_of(space, stage.segment_id).contains(more[h]));
                            assert(stages[i].segment_id != stages[n].segment_id);
                        }
                    }
                    lemma_staged_reaches_a_new_segment(
                        space,
                        segments,
                        resident,
                        stored,
                        reserved,
                        count,
                        stages,
                        more,
                        i + 1,
                        n,
                        last,
                    );
                }
            },
            Err(_) => {},
        }
    }
}

/// The first segment of a search that has this id.
proof fn lemma_first_with_id(stages: Seq<SearchStage>, id: u16, k: int) -> (first: int)
    requires
        0 <= k < stages.len(),
        stages[k].segment_id == id,
    ensures
        0 <= first <= k,
        stages[first].segment_id == id,
        forall|j: int| 0 <= j < first ==> (#[trigger] stages[j]).segment_id != id,
    decreases k,
{
    if exists|j: int| 0 <= j < k && (#[trigger] stages[j]).segment_id == id {
        let j = choose|j: int| 0 <= j < k && (#[trigger] stages[j]).segment_id == id;
        lemma_first_with_id(stages, id, j)
    } else {
        k
    }
}

/// The slot is one of the segment's.
pub open spec fn lies_in(space: SlotSpace, index: u32, segment_id: u16) -> bool {
    index as int / size_of_segment(space) == segment_id
}

/// All the hints that were asked for are found where the allocator has a new
/// segment that is large enough for them and the reservations: a search that
/// does not fail gives no fewer.
pub proof fn lemma_a_new_segment_gives_all_hints<R: Fn(u32) -> bool, L: Fn(u16) -> StoredSegment>(
    space: SlotSpace,
    segments: Vec<SegmentInfo>,
    reserved: HashSet<u32>,
    count: usize,
    zone_order: Vec<u16>,
    draws: Vec<u64>,
    read: R,
    source: &mut SegmentSource<L>,
    outcome: Result<Vec<u32>, SlotError>,
    resident: spec_fn(u32) -> bool,
    stored: spec_fn(u16) -> SegmentView,
    z: int,
)
    requires
        space.segment_log < 32,
        segments@.len() <= 65536,
        table_fits(space, segments@),
        forall|i: int| 0 <= i < zone_order@.len() ==> (#[trigger] zone_order@[i]) < segments@.len(),
        draws@.len() > segments@.len() + zone_order@.len(),
        observes(read, old(source).loader(), resident, stored),
        call_ensures(
            collect_empty_slot_hints::<R, L>,
            (&space, &segments, &reserved, count, &zone_order, &draws, &read, source),
            outcome,
        ),
        0 <= z < zone_order@.len(),
        segments@[zone_order@[z] as int].live == 0,
        !segments@[zone_order@[z] as int].evicted,
        forall|index: u32| #[trigger]
            lies_in(space, index, zone_order@[z]) ==> index < space.num_slots && resident(index),
        reserved@.finite(),
        reserved@.len() + count <= size_of_segment(space),
    ensures
        outcome matches Ok(hints) ==> hints@.len() == count,
{
    if outcome is Ok {
        let id = zone_order@[z];
        let stages = search_stages(space, segments@, zone_order@, draws@);
        lemma_the_segments_of_a_search(space, segments@, zone_order@, draws@);
        let k = choose|k: int|
            0 <= k < stages.len() && (#[trigger] stages[k]).segment_id == zone_order@[z] && !stages[k].whole;
        let n = lemma_first_with_id(stages, id, k);
        lemma_holes_come_before_new_segments(space, segments@, zone_order@, draws@);
        lemma_the_densest_segment_is_filled_up_first(space, segments@, draws@, 0);
        let order = refill_order(space, segments@, draws@);
        assert(!stages[n].whole) by {
            if n < order.len() {
                assert(order.contains(order[n]));
                assert(has_holes(space, segments@, order[n] as int));
            }
        }
        assert forall|index: u32| #[trigger] slots_of(space, stages[n].segment_id).contains(index) implies index
            < space.num_slots && resident(index) by {
            lemma_the_segment_of_a_slot(space, index, id);
            assert(lies_in(space, index, id));
        }
        lemma_staged_reaches_a_new_segment(
            space,
            segments@,
            resident,
            stored,
            reserved@,
            count,
            stages,
            Seq::empty(),
            0,
            n,
            outcome->Ok_0@,
        );
    }
}

/// A segment on disk is needed: one of the candidates lies in it, and the empty
/// slots before that candidate are not enough.
pub open spec fn is_needed(
    space: SlotSpace,
    segments: Seq<SegmentInfo>,
    resident: spec_fn(u32) -> bool,
    stored: spec_fn(u16) -> SegmentView,
    count: usize,
    hints: Seq<u32>,
    candidates: Seq<u32>,
    segment_id: u16,
    n: int,
) -> bool {
    let before = candidates.take(n).filter(
        |index: u32| emptiness(space, segments, resident, stored, index) == Ok::<bool, SlotFault>(true),
    );
    &&& 0 <= n < candidates.len()
    &&& space.segment_of(candidates[n]) == segment_id
    &&& segment_id < segments.len() && segments[segment_id as int].evicted
    &&& hints.len() + before.len() < count
}

/// Some candidate needs the segment.
pub open spec fn some_candidate_needs(
    space: SlotSpace,
    segments: Seq<SegmentInfo>,
    resident: spec_fn(u32) -> bool,
    stored: spec_fn(u16) -> SegmentView,
    count: usize,
    hints: Seq<u32>,
    candidates: Seq<u32>,
    segment_id: u16,
) -> bool {
    exists|n: int|
        #[trigger] is_needed(space, segments, resident, stored, count, hints, candidates, segment_id, n)
}

proof fn lemma_loads_are_needed(
    space: SlotSpace,
    segments: Seq<SegmentInfo>,
    resident: spec_fn(u32) -> bool,
    stored: spec_fn(u16) -> SegmentView,
    count: usize,
    hints: Seq<u32>,
    candidates: Seq<u32>,
    done: Seq<u16>,
)
    ensures
        ({
            let all = loads(space, segments, resident, stored, count, hints, candidates, done);
            &&& done.len() <= all.len()
            &&& forall|i: int| 0 <= i < done.len() ==> #[trigger] all[i] == done[i]
            &&& forall|i: int|
                done.len() <= i < all.len() ==> some_candidate_needs(
                    space,
                    segments,
                    resident,
                    stored,
                    count,
                    hints,
                    candidates,
                    #[trigger] all[i],
                )
            &&& match collect(space, segments, resident, stored, count, hints, candidates) {
                Ok(more) => more.len() < count ==> forall|k: int|
                    0 <= k < candidates.len() && is_evicted(
                        segments,
                        space.segment_of(#[trigger] candidates[k]),
                    ) ==> all.contains(space.segment_of(candidates[k])),
                Err(_) => true,
            }
        }),
    decreases candidates.len(),
{
    let all = loads(space, segments, resident, stored, count, hints, candidates, done);
    let good = |index: u32| emptiness(space, segments, resident, stored, index) == Ok::<bool, SlotFault>(true);
    reveal(Seq::filter);
    if hints.len() < count && candidates.len() > 0 {
        let here = candidates[0];
        let home = space.segment_of(here);
        let rest = candidates.skip(1);
        let next = if is_evicted(segments, home) && !done.contains(home) {
            done.push(home)
        } else {
            done
        };
        assert(candidates.take(0).filter(good) =~= Seq::<u32>::empty());
        assert(next.len() > done.len() ==> is_needed(
            space,
            segments,
            resident,
            stored,
            count,
            hints,
            candidates,
            home,
            0,
        ));
        if emptiness(space, segments, resident, stored, here) is Ok {
            let then_hints = if good(here) {
                hints.push(here)
            } else {
                hints
            };
            lemma_loads_are_needed(space, segments, resident, stored, count, then_hints, rest, next);
            assert forall|i: int| 0 <= i < done.len() implies #[trigger] all[i] == done[i] by {
                assert(next[i] == done[i]);
                assert(all[i] == next[i]);
            }
            assert forall|i: int| done.len() <= i < all.len() implies some_candidate_needs(
                space,
                segments,
                resident,
                stored,
                count,
                hints,
                candidates,
                #[trigger] all[i],
            ) by {
                if i < next.len() {
                    assert(all[i] == next[i]);
                    assert(is_needed(space, segments, resident, stored, count, hints, candidates, all[i], 0));
                } else {
                    let n = choose|n: int|
                        is_needed(space, segments, resident, stored, count, then_hints, rest, all[i], n);
                    assert(rest[n] == candidates[n + 1]);
                    assert(candidates.take(n + 1) =~= seq![here] + rest.take(n));
                    Seq::filter_distributes_over_add(seq![here], rest.take(n), good);
                    assert(seq![here].drop_last().filter(good) =~= Seq::<u32>::empty());
                    assert(seq![here].filter(good).len() == if good(here) {
                        1int
                    } else {
                        0int
                    });
                    assert(is_needed(space, segments, resident, stored, count, hints, candidates, all[i], n + 1));
                }
            }
            match collect(space, segments, resident, stored, count, hints, candidates) {
                Ok(more) => {
                    if more.len() < count {
                        assert forall|k: int|
                            0 <= k < candidates.len() && is_evicted(
                                segments,
                                space.segment_of(#[trigger] candidates[k]),
                            ) implies all.contains(space.segment_of(candidates[k])) by {
                            if k == 0 {
                                if done.contains(home) {
                                    let d = choose|d: int| 0 <= d < done.len() && done[d] == home;
                                    assert(all[d] == home);
                                } else {
                                    assert(all[done.len() as int] == next[done.len() as int]);
                                }
                            } else {
                                assert(rest[k - 1] == candidates[k]);
                            }
                        }
                    }
                },
                Err(_) => {},
            }
        } else {
            assert forall|i: int| done.len() <= i < all.len() implies some_candidate_needs(
                space,
                segments,
                resident,
                stored,
                count,
                hints,
                candidates,
                #[trigger] all[i],
            ) by {
                assert(is_needed(space, segments, resident, stored, count, hints, candidates, all[i], 0));
            }
        }
    } else {
        assert(collect(space, segments, resident, stored, count, hints, candidates) == Ok::<Seq<u32>, SlotFault>(hints));
    }
}

/// A segment is read only if it is on disk, a candidate lies in it, and what was
/// found before that candidate is not enough; none is read twice. If hints are
/// missing at the end, every candidate's segment was read that is on disk.
pub proof fn lemma_only_needed_segments_are_read<R: Fn(u32) -> bool, L: Fn(u16) -> StoredSegment>(
    space: SlotSpace,
    segments: Vec<SegmentInfo>,
    reserved: HashSet<u32>,
    count: usize,
    hints: Vec<u32>,
    candidates: Vec<u32>,
    read: R,
    source: &mut SegmentSource<L>,
    outcome: Result<Vec<u32>, SlotError>,
    resident: spec_fn(u32) -> bool,
    stored: spec_fn(u16) -> SegmentView,
)
    requires
        observes(read, old(source).loader(), resident, stored),
        call_ensures(
            collect_empty_slot_hints_streaming::<R, L>,
            (&space, &segments, &reserved, count, hints, &candidates, &read, source),
            outcome,
        ),
    ensures
        ({
            let before = old(source).log().len() as int;
            let log = final(source).log();
            let kept = fresh(space.num_slots, reserved@.union(hints@.to_set()), candidates@);
            &&& before <= log.len()
            &&& log.take(before) == old(source).log()
            &&& log.skip(before).no_duplicates()
            &&& forall|i: int|
                before <= i < log.len() ==> some_candidate_needs(
                    space,
                    segments@,
                    resident,
                    stored,
                    count,
                    hints@,
                    kept,
                    #[trigger] log[i],
                )
            &&& outcome matches Ok(all) ==> all@.len() < count ==> forall|k: int|
                0 <= k < kept.len() && is_evicted(segments@, space.segment_of(#[trigger] kept[k])) ==> log.skip(
                    before,
                ).contains(space.segment_of(kept[k]))
        }),
{
    let kept = fresh(space.num_slots, reserved@.union(hints@.to_set()), candidates@);
    lemma_loads_are_needed(space, segments@, resident, stored, count, hints@, kept, Seq::empty());
    lemma_segments_are_read_once(space, segments@, resident, stored, reserved@, count, hints@, candidates@);
    let reads = loads(space, segments@, resident, stored, count, hints@, kept, Seq::empty());
    let before = old(source).log().len() as int;
    let log = final(source).log();
    assert(outcome_is(
        outcome,
        searched(space, segments@, resident, stored, reserved@, count, hints@, candidates@),
    ));
    assert(log == old(source).log() + reads);
    assert(log.skip(before) =~= reads);
    assert(log.take(before) =~= old(source).log());
    assert forall|i: int| before <= i < log.len() implies some_candidate_needs(
        space,
        segments@,
        resident,
        stored,
        count,
        hints@,
        kept,
        #[trigger] log[i],
    ) by {
        assert(log[i] == reads[i - before]);
    }
}

} // verus!
