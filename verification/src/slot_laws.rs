//! What holds of every search for empty slots.

use vstd::prelude::*;
use vstd::set_lib::lemma_len_subset;
use crate::slots::{
    by_density, collect, emptiness, empty_slot_hints, extends_hints, fresh, is_evicted, is_unused,
    lemma_searched_extends, partial_segments, place_by_density, probes, refill_order, search_loads, search_stages,
    searched, stage_candidates, stage_outcome, staged, stages_of, steady, unused_segments, loads, Answers, SearchStage,
    SegmentInfo, SegmentView, SlotFault, SlotSpace,
};

verus! {

/// A slot is empty by the answers for some segment that was searched.
pub open spec fn found_empty(
    space: SlotSpace,
    segments: Seq<SegmentInfo>,
    answers: spec_fn(int) -> Answers,
    index: u32,
) -> bool {
    exists|k: int|
        emptiness(space, segments, (#[trigger] answers(k)).resident, answers(k).stored, index) == Ok::<bool, SlotFault>(
            true,
        )
}

/// Hints that may be used: in range, not reserved, empty, and none twice.
pub open spec fn usable_hints(
    space: SlotSpace,
    segments: Seq<SegmentInfo>,
    answers: spec_fn(int) -> Answers,
    reserved: Set<u32>,
    hints: Seq<u32>,
) -> bool {
    &&& hints.no_duplicates()
    &&& forall|i: int|
        0 <= i < hints.len() ==> {
            let index = #[trigger] hints[i];
            &&& index < space.num_slots
            &&& !reserved.contains(index)
            &&& found_empty(space, segments, answers, index)
        }
}

/// Fresh candidates are in range, were not taken, and come once.
pub proof fn lemma_fresh(num_slots: u64, taken: Set<u32>, candidates: Seq<u32>)
    ensures
        fresh(num_slots, taken, candidates).no_duplicates(),
        forall|i: int|
            0 <= i < fresh(num_slots, taken, candidates).len() ==> {
                let index = #[trigger] fresh(num_slots, taken, candidates)[i];
                index < num_slots && !taken.contains(index)
            },
    decreases candidates.len(),
{
    if candidates.len() > 0 {
        lemma_fresh(num_slots, taken, candidates.drop_last());
    }
}

/// What is collected is empty.
pub proof fn lemma_collect_empty(
    space: SlotSpace,
    segments: Seq<SegmentInfo>,
    resident: spec_fn(u32) -> bool,
    stored: spec_fn(u16) -> SegmentView,
    count: usize,
    first: Seq<u32>,
    hints: Seq<u32>,
    candidates: Seq<u32>,
)
    requires
        forall|i: int|
            first.len() <= i < hints.len() ==> emptiness(space, segments, resident, stored, #[trigger] hints[i])
                == Ok::<bool, SlotFault>(true),
    ensures
        match collect(space, segments, resident, stored, count, hints, candidates) {
            Ok(more) => forall|i: int|
                first.len() <= i < more.len() ==> emptiness(space, segments, resident, stored, #[trigger] more[i])
                    == Ok::<bool, SlotFault>(true),
            Err(_) => true,
        },
    decreases candidates.len(),
{
    if hints.len() < count && candidates.len() > 0 {
        if emptiness(space, segments, resident, stored, candidates[0]) == Ok::<bool, SlotFault>(true) {
            lemma_collect_empty(
                space,
                segments,
                resident,
                stored,
                count,
                first,
                hints.push(candidates[0]),
                candidates.skip(1),
            );
        } else {
            lemma_collect_empty(space, segments, resident, stored, count, first, hints, candidates.skip(1));
        }
    }
}

proof fn lemma_staged_usable(
    space: SlotSpace,
    segments: Seq<SegmentInfo>,
    reserved: Set<u32>,
    count: usize,
    stages: Seq<SearchStage>,
    answers: spec_fn(int) -> Answers,
    hints: Seq<u32>,
    i: int,
)
    requires
        usable_hints(space, segments, answers, reserved, hints),
        hints.len() <= count,
    ensures
        match staged(space, segments, reserved, count, stages, answers, hints, i) {
            Ok(more) => usable_hints(space, segments, answers, reserved, more) && more.len() <= count,
            Err(_) => true,
        },
    decreases stages.len() - i,
{
    if hints.len() < count && i < stages.len() {
        let here = answers(i);
        let candidates = stage_candidates(space, reserved, count, hints, stages[i]);
        let kept = fresh(space.num_slots, reserved.union(hints.to_set()), candidates);
        lemma_searched_extends(
            space,
            segments,
            here.resident,
            here.stored,
            reserved,
            count,
            hints,
            candidates,
        );
        lemma_collect_empty(space, segments, here.resident, here.stored, count, hints, hints, kept);
        match stage_outcome(space, segments, reserved, count, stages[i], here, hints) {
            Ok(more) => {
                assert(extends_hints(space, reserved, count, hints, more));
                assert forall|a: int, b: int| 0 <= a < more.len() && 0 <= b < more.len() && a != b implies more[a]
                    != more[b] by {
                    if a < hints.len() && b < hints.len() {
                        assert(more[a] == hints[a] && more[b] == hints[b]);
                    } else if a < hints.len() {
                        assert(more[a] == hints[a]);
                        assert(hints.contains(hints[a]));
                        assert(!hints.contains(more[b]));
                    } else if b < hints.len() {
                        assert(more[b] == hints[b]);
                        assert(hints.contains(hints[b]));
                        assert(!hints.contains(more[a]));
                    } else if a < b {
                        assert(more[a] != more[b]);
                    } else {
                        assert(more[b] != more[a]);
                    }
                }
                assert forall|k: int| 0 <= k < more.len() implies {
                    let index = #[trigger] more[k];
                    &&& index < space.num_slots
                    &&& !reserved.contains(index)
                    &&& found_empty(space, segments, answers, index)
                } by {
                    if k < hints.len() {
                        assert(more[k] == hints[k]);
                    } else {
                        assert(emptiness(space, segments, answers(i).resident, answers(i).stored, more[k]) == Ok::<
                            bool,
                            SlotFault,
                        >(true));
                    }
                }
                lemma_staged_usable(space, segments, reserved, count, stages, answers, more, i + 1);
            },
            Err(_) => {},
        }
    }
}

/// Every hint that a search gives may be used: it is in range, not reserved,
/// empty where it is kept, and no other hint names it; and there are never
/// more than were asked for.
pub proof fn lemma_hints_are_usable(
    space: SlotSpace,
    segments: Seq<SegmentInfo>,
    reserved: Set<u32>,
    count: usize,
    zone_order: Seq<u16>,
    draws: Seq<u64>,
    answers: spec_fn(int) -> Answers,
)
    ensures
        match empty_slot_hints(space, segments, reserved, count, zone_order, draws, answers) {
            Ok(hints) => usable_hints(space, segments, answers, reserved, hints) && hints.len() <= count,
            Err(_) => true,
        },
{
    lemma_staged_usable(
        space,
        segments,
        reserved,
        count,
        search_stages(space, segments, zone_order, draws),
        answers,
        Seq::empty(),
        0,
    );
}

/// No segment is read twice for one list of candidates, and only segments that
/// are on disk are read.
pub proof fn lemma_segments_are_read_once(
    space: SlotSpace,
    segments: Seq<SegmentInfo>,
    resident: spec_fn(u32) -> bool,
    stored: spec_fn(u16) -> SegmentView,
    reserved: Set<u32>,
    count: usize,
    hints: Seq<u32>,
    candidates: Seq<u32>,
)
    ensures
        ({
            let read = search_loads(space, segments, resident, stored, reserved, count, hints, candidates);
            &&& read.no_duplicates()
            &&& forall|i: int| 0 <= i < read.len() ==> is_evicted(segments, #[trigger] read[i])
        }),
{
    lemma_loads_once(
        space,
        segments,
        resident,
        stored,
        count,
        hints,
        fresh(space.num_slots, reserved.union(hints.to_set()), candidates),
        Seq::empty(),
    );
}

proof fn lemma_loads_once(
    space: SlotSpace,
    segments: Seq<SegmentInfo>,
    resident: spec_fn(u32) -> bool,
    stored: spec_fn(u16) -> SegmentView,
    count: usize,
    hints: Seq<u32>,
    candidates: Seq<u32>,
    done: Seq<u16>,
)
    requires
        done.no_duplicates(),
        forall|i: int| 0 <= i < done.len() ==> is_evicted(segments, #[trigger] done[i]),
    ensures
        ({
            let read = loads(space, segments, resident, stored, count, hints, candidates, done);
            &&& read.no_duplicates()
            &&& forall|i: int| 0 <= i < read.len() ==> is_evicted(segments, #[trigger] read[i])
        }),
    decreases candidates.len(),
{
    if hints.len() < count && candidates.len() > 0 {
        let home = space.segment_of(candidates[0]);
        let next = if is_evicted(segments, home) && !done.contains(home) {
            done.push(home)
        } else {
            done
        };
        assert(next.no_duplicates()) by {
            assert forall|a: int, b: int| 0 <= a < next.len() && 0 <= b < next.len() && a != b implies next[a]
                != next[b] by {
                if a < done.len() && b == done.len() {
                    assert(done.contains(done[a]));
                } else if b < done.len() && a == done.len() {
                    assert(done.contains(done[b]));
                }
            }
        }
        let rest = candidates.skip(1);
        lemma_loads_once(space, segments, resident, stored, count, hints.push(candidates[0]), rest, next);
        lemma_loads_once(space, segments, resident, stored, count, hints, rest, next);
    }
}

/// Segments stand in the order of falling density.
pub open spec fn falling_density(segments: Seq<SegmentInfo>, ids: Seq<u16>) -> bool {
    forall|i: int, j: int|
        0 <= i <= j < ids.len() ==> segments[#[trigger] ids[i] as int].live >= segments[#[trigger] ids[j] as int].live
}

proof fn lemma_place_by_density(segments: Seq<SegmentInfo>, sorted: Seq<u16>, id: u16)
    requires
        falling_density(segments, sorted),
    ensures
        falling_density(segments, place_by_density(segments, sorted, id)),
        place_by_density(segments, sorted, id).to_multiset() == sorted.to_multiset().insert(id),
        place_by_density(segments, sorted, id).len() == sorted.len() + 1,
        forall|i: int|
            0 <= i < place_by_density(segments, sorted, id).len() ==> {
                let other = #[trigger] place_by_density(segments, sorted, id)[i];
                other == id || sorted.contains(other)
            },
    decreases sorted.len(),
{
    broadcast use vstd::seq_lib::group_to_multiset_ensures;

    let placed = place_by_density(segments, sorted, id);
    if sorted.len() == 0 || segments[sorted.last() as int].live >= segments[id as int].live {
        assert(placed == sorted.push(id));
        assert(falling_density(segments, placed)) by {
            assert forall|i: int, j: int| 0 <= i <= j < placed.len() implies segments[#[trigger] placed[i] as int].live
                >= segments[#[trigger] placed[j] as int].live by {
                if j == sorted.len() && i < sorted.len() {
                    assert(segments[sorted[i] as int].live >= segments[sorted[sorted.len() - 1] as int].live);
                }
            }
        }
        assert forall|i: int| 0 <= i < placed.len() implies {
            let other = #[trigger] placed[i];
            other == id || sorted.contains(other)
        } by {
            if i < sorted.len() {
                assert(sorted[i] == placed[i]);
            }
        }
    } else {
        let head = sorted.drop_last();
        let inner = place_by_density(segments, head, id);
        assert(falling_density(segments, head)) by {
            assert forall|i: int, j: int| 0 <= i <= j < head.len() implies segments[#[trigger] head[i] as int].live
                >= segments[#[trigger] head[j] as int].live by {
                assert(head[i] == sorted[i] && head[j] == sorted[j]);
            }
        }
        lemma_place_by_density(segments, head, id);
        assert(placed == inner.push(sorted.last()));
        assert(sorted =~= head.push(sorted.last()));
        assert(placed.to_multiset() =~= sorted.to_multiset().insert(id));
        assert(falling_density(segments, placed)) by {
            assert forall|i: int, j: int| 0 <= i <= j < placed.len() implies segments[#[trigger] placed[i] as int].live
                >= segments[#[trigger] placed[j] as int].live by {
                if j == inner.len() && i < inner.len() {
                    let other = inner[i];
                    if other != id {
                        let k = choose|k: int| 0 <= k < head.len() && head[k] == other;
                        assert(segments[sorted[k] as int].live >= segments[sorted[sorted.len() - 1] as int].live);
                    }
                } else if i < inner.len() {
                    assert(placed[i] == inner[i] && placed[j] == inner[j]);
                }
            }
        }
        assert forall|i: int| 0 <= i < placed.len() implies {
            let other = #[trigger] placed[i];
            other == id || sorted.contains(other)
        } by {
            if i < inner.len() {
                let other = inner[i];
                if other != id {
                    let k = choose|k: int| 0 <= k < head.len() && head[k] == other;
                    assert(sorted[k] == other);
                }
            } else {
                assert(sorted[sorted.len() - 1] == placed[i]);
            }
        }
    }
}

/// The segments with holes are searched from the densest down, each once.
pub proof fn lemma_densest_first(segments: Seq<SegmentInfo>, ids: Seq<u16>)
    ensures
        falling_density(segments, by_density(segments, ids)),
        by_density(segments, ids).to_multiset() == ids.to_multiset(),
    decreases ids.len(),
{
    broadcast use vstd::seq_lib::group_to_multiset_ensures;

    if ids.len() > 0 {
        let head = ids.drop_last();
        lemma_densest_first(segments, head);
        lemma_place_by_density(segments, by_density(segments, head), ids.last());
        assert(ids =~= head.push(ids.last()));
    } else {
        assert(by_density(segments, ids) =~= ids);
    }
}

/// The slots of a segment have numbers.
pub open spec fn addressable(space: SlotSpace, segment_id: u16) -> bool {
    space.segment_log < 32 && segment_id as u32 <= 0xffff_ffffu32 >> space.segment_log
}

/// The candidates of a segment lie in it, and the first of them, up to its size, are all different.
pub proof fn lemma_candidates(space: SlotSpace, segment_id: u16, start: u64, a: u32, b: u32)
    requires
        addressable(space, segment_id),
        a < space.segment_size(),
        b < space.segment_size(),
    ensures
        space.segment_of(space.candidate(segment_id, start, a)) == segment_id,
        space.candidate(segment_id, start, a) == space.candidate(segment_id, start, b) ==> a == b,
{
    let log = space.segment_log;
    let size = space.segment_size();
    let mask = space.mask();
    let id = segment_id as u32;
    assert(size >= 1) by (bit_vector)
        requires
            size == 1u32 << log,
            log < 32,
    ;
    let first = start as u32;
    let begin = first & mask;
    assert(begin <= mask) by (bit_vector)
        requires
            begin == first & mask,
    ;
    assert(mask <= 0x7fff_ffff) by (bit_vector)
        requires
            size == 1u32 << log,
            mask == (size - 1) as u32,
            log < 32,
    ;
    let sum_a = (begin + a) as u32;
    let sum_b = (begin + b) as u32;
    assert(begin.wrapping_add(a) == sum_a);
    assert(begin.wrapping_add(b) == sum_b);
    let slot_a = (id << log) | (sum_a & mask);
    let slot_b = (id << log) | (sum_b & mask);
    assert((slot_a >> log) as u16 == segment_id) by (bit_vector)
        requires
            log < 32,
            id <= 0xffff_ffffu32 >> log,
            id == segment_id as u32,
            size == 1u32 << log,
            mask == (size - 1) as u32,
            slot_a == (id << log) | (sum_a & mask),
    ;
    assert(slot_a == slot_b ==> a == b) by (bit_vector)
        requires
            log < 32,
            size == 1u32 << log,
            mask == (size - 1) as u32,
            a < size,
            b < size,
            begin <= mask,
            mask <= 0x7fff_ffff,
            sum_a == (begin + a) as u32,
            sum_b == (begin + b) as u32,
            slot_a == (id << log) | (sum_a & mask),
            slot_b == (id << log) | (sum_b & mask),
    ;
}

/// The candidates that are taken and the fresh ones make up the whole list.
pub proof fn lemma_fresh_count(num_slots: u64, taken: Set<u32>, candidates: Seq<u32>)
    requires
        taken.finite(),
        candidates.no_duplicates(),
        forall|i: int| 0 <= i < candidates.len() ==> (#[trigger] candidates[i]) < num_slots,
    ensures
        fresh(num_slots, taken, candidates).len() + taken.intersect(candidates.to_set()).len() == candidates.len(),
        forall|i: int|
            0 <= i < fresh(num_slots, taken, candidates).len() ==> candidates.contains(
                #[trigger] fresh(num_slots, taken, candidates)[i],
            ),
    decreases candidates.len(),
{
    let kept = fresh(num_slots, taken, candidates);
    if candidates.len() == 0 {
        assert(taken.intersect(candidates.to_set()) =~= Set::empty());
    } else {
        let head = candidates.drop_last();
        let last = candidates.last();
        lemma_fresh_count(num_slots, taken, head);
        let rest = fresh(num_slots, taken, head);
        assert(!head.contains(last)) by {
            if head.contains(last) {
                let k = choose|k: int| 0 <= k < head.len() && head[k] == last;
                assert(candidates[k] == candidates[candidates.len() - 1]);
            }
        }
        assert(!rest.contains(last)) by {
            if rest.contains(last) {
                let k = choose|k: int| 0 <= k < rest.len() && rest[k] == last;
                assert(head.contains(rest[k]));
            }
        }
        let met = taken.intersect(head.to_set());
        assert forall|index: u32| candidates.contains(index) <==> head.contains(index) || index == last by {
            if head.contains(index) {
                let k = choose|k: int| 0 <= k < head.len() && head[k] == index;
                assert(candidates[k] == index);
            }
            if candidates.contains(index) {
                let k = choose|k: int| 0 <= k < candidates.len() && candidates[k] == index;
                if k < head.len() {
                    assert(head[k] == index);
                }
            }
            assert(candidates[candidates.len() - 1] == last);
        }
        if taken.contains(last) {
            assert(taken.intersect(candidates.to_set()) =~= met.insert(last));
            assert(!met.contains(last));
        } else {
            assert(taken.intersect(candidates.to_set()) =~= met);
        }
        assert forall|i: int| 0 <= i < kept.len() implies candidates.contains(#[trigger] kept[i]) by {
            if i < rest.len() {
                assert(rest[i] == kept[i]);
                assert(head.contains(rest[i]));
            }
        }
    }
}

/// Enough candidates that are all empty fill the hints up.
pub proof fn lemma_collect_fills(
    space: SlotSpace,
    segments: Seq<SegmentInfo>,
    resident: spec_fn(u32) -> bool,
    stored: spec_fn(u16) -> SegmentView,
    count: usize,
    hints: Seq<u32>,
    candidates: Seq<u32>,
)
    requires
        hints.len() <= count,
        hints.len() + candidates.len() >= count,
        forall|i: int|
            0 <= i < candidates.len() ==> emptiness(space, segments, resident, stored, #[trigger] candidates[i]) == Ok::<
                bool,
                SlotFault,
            >(true),
    ensures
        match collect(space, segments, resident, stored, count, hints, candidates) {
            Ok(more) => more.len() == count,
            Err(_) => false,
        },
    decreases candidates.len(),
{
    if hints.len() < count && candidates.len() > 0 {
        let rest = candidates.skip(1);
        assert forall|i: int| 0 <= i < rest.len() implies emptiness(
            space,
            segments,
            resident,
            stored,
            #[trigger] rest[i],
        ) == Ok::<bool, SlotFault>(true) by {
            assert(rest[i] == candidates[i + 1]);
        }
        assert(emptiness(space, segments, resident, stored, candidates[0]) == Ok::<bool, SlotFault>(true));
        lemma_collect_fills(space, segments, resident, stored, count, hints.push(candidates[0]), rest);
    }
}

/// One unused segment is enough: looking at as many of its slots as there are
/// reservations and missing hints finds all that is missing.
pub proof fn lemma_unused_segment_suffices(
    space: SlotSpace,
    segments: Seq<SegmentInfo>,
    resident: spec_fn(u32) -> bool,
    stored: spec_fn(u16) -> SegmentView,
    reserved: Set<u32>,
    count: usize,
    hints: Seq<u32>,
    segment_id: u16,
    start: u64,
)
    requires
        addressable(space, segment_id),
        !is_evicted(segments, segment_id),
        forall|index: u32| #[trigger] space.segment_of(index) == segment_id ==> index < space.num_slots && resident(index),
        reserved.finite(),
        hints.len() <= count,
        forall|i: int| 0 <= i < hints.len() ==> space.segment_of(#[trigger] hints[i]) != segment_id,
        reserved.len() + (count - hints.len()) <= space.segment_size(),
    ensures
        match searched(
            space,
            segments,
            resident,
            stored,
            reserved,
            count,
            hints,
            space.candidates(segment_id, start, probes(space, reserved.len(), (count - hints.len()) as nat)),
        ) {
            Ok(more) => more.len() == count,
            Err(_) => false,
        },
{
    let missing = (count - hints.len()) as nat;
    let looked = probes(space, reserved.len(), missing);
    let candidates = space.candidates(segment_id, start, looked);
    let taken = reserved.union(hints.to_set());
    let kept = fresh(space.num_slots, taken, candidates);
    assert(looked == reserved.len() + missing);
    assert forall|i: int| 0 <= i < candidates.len() implies space.segment_of(#[trigger] candidates[i]) == segment_id
        && candidates[i] < space.num_slots by {
        lemma_candidates(space, segment_id, start, i as u32, i as u32);
    }
    assert(candidates.no_duplicates()) by {
        assert forall|i: int, j: int| 0 <= i < candidates.len() && 0 <= j < candidates.len() && i
            != j implies candidates[i] != candidates[j] by {
            lemma_candidates(space, segment_id, start, i as u32, j as u32);
        }
    }
    vstd::seq_lib::seq_to_set_is_finite(hints);
    lemma_fresh_count(space.num_slots, taken, candidates);
    let met = taken.intersect(candidates.to_set());
    assert(met.subset_of(reserved)) by {
        assert forall|index: u32| met.contains(index) implies reserved.contains(index) by {
            let k = choose|k: int| 0 <= k < candidates.len() && candidates[k] == index;
            assert(space.segment_of(candidates[k]) == segment_id);
            if hints.contains(index) {
                let h = choose|h: int| 0 <= h < hints.len() && hints[h] == index;
                assert(space.segment_of(hints[h]) != segment_id);
            }
        }
    }
    lemma_len_subset(met, reserved);
    assert forall|i: int| 0 <= i < kept.len() implies emptiness(space, segments, resident, stored, #[trigger] kept[i])
        == Ok::<bool, SlotFault>(true) by {
        assert(candidates.contains(kept[i]));
        let k = choose|k: int| 0 <= k < candidates.len() && candidates[k] == kept[i];
        assert(space.segment_of(candidates[k]) == segment_id);
    }
    lemma_collect_fills(space, segments, resident, stored, count, hints, kept);
}

/// The slots of a segment.
pub open spec fn slots_of(space: SlotSpace, segment_id: u16) -> Set<u32> {
    Set::new(|index: u32| index >> space.segment_log == segment_id as u32)
}

/// The slots of every unused segment exist and are empty.
pub open spec fn unused_are_empty(
    space: SlotSpace,
    segments: Seq<SegmentInfo>,
    resident: spec_fn(u32) -> bool,
) -> bool {
    forall|segment_id: u16, index: u32|
        segment_id < segments.len() && is_unused(segments, segment_id) && #[trigger] slots_of(
            space,
            segment_id,
        ).contains(index) ==> index < space.num_slots && resident(index)
}

/// The smaller of two numbers.
spec fn lower(a: int, b: int) -> int {
    if a < b {
        a
    } else {
        b
    }
}

/// How many slots of a segment are not reserved.
spec fn unreserved(space: SlotSpace, reserved: Set<u32>, segment_id: u16) -> int {
    space.segment_size() - reserved.intersect(slots_of(space, segment_id)).len()
}

/// Every candidate of a segment is one of its slots, and a full scan meets each slot.
pub proof fn lemma_scan_meets_every_slot(space: SlotSpace, segment_id: u16, start: u64, step: u32, index: u32)
    requires
        addressable(space, segment_id),
    ensures
        step < space.segment_size() ==> slots_of(space, segment_id).contains(
            space.candidate(segment_id, start, step),
        ),
        slots_of(space, segment_id).contains(index) ==> space.segment_of(index) == segment_id,
        slots_of(space, segment_id).contains(index) ==> exists|k: u32|
            k < space.segment_size() && #[trigger] space.candidate(segment_id, start, k) == index,
{
    let log = space.segment_log;
    let size = space.segment_size();
    let mask = space.mask();
    let id = segment_id as u32;
    let first = start as u32;
    let begin = first & mask;
    assert(1 <= size <= 0x8000_0000) by (bit_vector)
        requires
            size == 1u32 << log,
            log < 32,
    ;
    assert(mask == size - 1);
    assert(begin <= mask) by (bit_vector)
        requires
            begin == first & mask,
    ;
    if step < size {
        let sum = (begin + step) as u32;
        assert(begin.wrapping_add(step) == sum);
        let slot = (id << log) | (sum & mask);
        assert(slot >> log == id) by (bit_vector)
            requires
                log < 32,
                id <= 0xffff_ffffu32 >> log,
                size == 1u32 << log,
                mask == (size - 1) as u32,
                slot == (id << log) | (sum & mask),
        ;
    }
    if slots_of(space, segment_id).contains(index) {
        assert((index >> log) as u16 == segment_id);
        let local = index & mask;
        assert(local <= mask) by (bit_vector)
            requires
                local == index & mask,
        ;
        let k: u32 = if local >= begin {
            (local - begin) as u32
        } else {
            (local + size - begin) as u32
        };
        let reach = (begin + k) as u32;
        assert(begin.wrapping_add(k) == reach);
        assert(reach == local || reach == local + size);
        assert((id << log) | (reach & mask) == index) by (bit_vector)
            requires
                log < 32,
                id == index >> log,
                size == 1u32 << log,
                mask == (size - 1) as u32,
                local == index & mask,
                reach == local || reach == local + size,
        ;
        assert(space.candidate(segment_id, start, k) == index);
    }
}

/// Fresh candidates are those that are in range and not taken.
pub proof fn lemma_fresh_members(num_slots: u64, taken: Set<u32>, candidates: Seq<u32>, index: u32)
    ensures
        fresh(num_slots, taken, candidates).contains(index) <==> candidates.contains(index) && index < num_slots
            && !taken.contains(index),
    decreases candidates.len(),
{
    if candidates.len() > 0 {
        let head = candidates.drop_last();
        let last = candidates.last();
        let rest = fresh(num_slots, taken, head);
        let kept = fresh(num_slots, taken, candidates);
        lemma_fresh_members(num_slots, taken, head, index);
        assert(candidates.contains(index) <==> head.contains(index) || index == last) by {
            if head.contains(index) {
                let k = choose|k: int| 0 <= k < head.len() && head[k] == index;
                assert(candidates[k] == index);
            }
            if candidates.contains(index) {
                let k = choose|k: int| 0 <= k < candidates.len() && candidates[k] == index;
                if k < head.len() {
                    assert(head[k] == index);
                }
            }
            assert(candidates[candidates.len() - 1] == last);
        }
        if rest.contains(index) {
            let k = choose|k: int| 0 <= k < rest.len() && rest[k] == index;
            assert(kept[k] == index);
        }
        if kept.contains(index) {
            let k = choose|k: int| 0 <= k < kept.len() && kept[k] == index;
            if k < rest.len() {
                assert(rest[k] == index);
            }
        }
        if index == last && kept.len() > rest.len() {
            assert(kept[kept.len() - 1] == index);
        }
    }
}

/// Candidates that are all empty are taken in their order, as many as are missing.
proof fn lemma_collect_takes(
    space: SlotSpace,
    segments: Seq<SegmentInfo>,
    resident: spec_fn(u32) -> bool,
    stored: spec_fn(u16) -> SegmentView,
    count: usize,
    hints: Seq<u32>,
    candidates: Seq<u32>,
)
    requires
        hints.len() <= count,
        forall|i: int|
            0 <= i < candidates.len() ==> emptiness(space, segments, resident, stored, #[trigger] candidates[i])
                == Ok::<bool, SlotFault>(true),
    ensures
        collect(space, segments, resident, stored, count, hints, candidates) == Ok::<Seq<u32>, SlotFault>(
            hints + candidates.take(lower(count - hints.len(), candidates.len() as int)),
        ),
    decreases candidates.len(),
{
    let taken = lower(count - hints.len(), candidates.len() as int);
    if hints.len() < count && candidates.len() > 0 {
        let rest = candidates.skip(1);
        assert forall|i: int| 0 <= i < rest.len() implies emptiness(
            space,
            segments,
            resident,
            stored,
            #[trigger] rest[i],
        ) == Ok::<bool, SlotFault>(true) by {
            assert(rest[i] == candidates[i + 1]);
        }
        let more = hints.push(candidates[0]);
        assert(emptiness(space, segments, resident, stored, candidates[0]) == Ok::<bool, SlotFault>(true));
        lemma_collect_takes(space, segments, resident, stored, count, more, rest);
        assert(more + rest.take(taken - 1) =~= hints + candidates.take(taken));
    } else {
        assert(hints + candidates.take(taken) =~= hints);
    }
}

/// How many hints an unused segment gives does not depend on where its scan starts.
proof fn lemma_unused_segment_gives(
    space: SlotSpace,
    segments: Seq<SegmentInfo>,
    resident: spec_fn(u32) -> bool,
    stored: spec_fn(u16) -> SegmentView,
    reserved: Set<u32>,
    count: usize,
    hints: Seq<u32>,
    segment_id: u16,
    start: u64,
) -> (more: Seq<u32>)
    requires
        addressable(space, segment_id),
        reserved.finite(),
        segment_id < segments.len(),
        is_unused(segments, segment_id),
        unused_are_empty(space, segments, resident),
        hints.len() < count,
        forall|i: int| 0 <= i < hints.len() ==> space.segment_of(#[trigger] hints[i]) != segment_id,
    ensures
        searched(
            space,
            segments,
            resident,
            stored,
            reserved,
            count,
            hints,
            space.candidates(segment_id, start, probes(space, reserved.len(), (count - hints.len()) as nat)),
        ) == Ok::<Seq<u32>, SlotFault>(more),
        more.len() == hints.len() + lower(count - hints.len(), unreserved(space, reserved, segment_id)),
        more.len() >= hints.len(),
        more.len() <= count,
        forall|i: int| 0 <= i < hints.len() ==> #[trigger] more[i] == hints[i],
        forall|i: int| hints.len() <= i < more.len() ==> space.segment_of(#[trigger] more[i]) == segment_id,
        more.len() < count ==> forall|index: u32| #[trigger]
            slots_of(space, segment_id).contains(index) ==> reserved.contains(index) || more.contains(index),
{
    let missing = (count - hints.len()) as nat;
    let looked = probes(space, reserved.len(), missing);
    let candidates = space.candidates(segment_id, start, looked);
    let taken = reserved.union(hints.to_set());
    let kept = fresh(space.num_slots, taken, candidates);
    let slots = slots_of(space, segment_id);
    let size = space.segment_size();
    assert forall|i: int| 0 <= i < candidates.len() implies slots.contains(#[trigger] candidates[i]) && candidates[i]
        < space.num_slots by {
        lemma_scan_meets_every_slot(space, segment_id, start, i as u32, candidates[i]);
    }
    assert(candidates.no_duplicates()) by {
        assert forall|i: int, j: int| 0 <= i < candidates.len() && 0 <= j < candidates.len() && i
            != j implies candidates[i] != candidates[j] by {
            lemma_candidates(space, segment_id, start, i as u32, j as u32);
        }
    }
    vstd::seq_lib::seq_to_set_is_finite(hints);
    lemma_fresh_count(space.num_slots, taken, candidates);
    let met = taken.intersect(candidates.to_set());
    assert(met.subset_of(reserved.intersect(slots))) by {
        assert forall|index: u32| met.contains(index) implies reserved.intersect(slots).contains(index) by {
            let k = choose|k: int| 0 <= k < candidates.len() && candidates[k] == index;
            assert(slots.contains(candidates[k]));
            lemma_scan_meets_every_slot(space, segment_id, start, 0, index);
            if hints.contains(index) {
                let h = choose|h: int| 0 <= h < hints.len() && hints[h] == index;
                assert(space.segment_of(hints[h]) != segment_id);
            }
        }
    }
    lemma_len_subset(met, reserved.intersect(slots));
    lemma_len_subset(reserved.intersect(slots), reserved);
    assert forall|i: int| 0 <= i < kept.len() implies slots.contains(#[trigger] kept[i]) && emptiness(
        space,
        segments,
        resident,
        stored,
        kept[i],
    ) == Ok::<bool, SlotFault>(true) by {
        assert(candidates.contains(kept[i]));
        let k = choose|k: int| 0 <= k < candidates.len() && candidates[k] == kept[i];
        assert(slots.contains(candidates[k]));
        lemma_scan_meets_every_slot(space, segment_id, start, 0, kept[i]);
    }
    lemma_collect_takes(space, segments, resident, stored, count, hints, kept);
    let added = lower(missing as int, kept.len() as int);
    let more = hints + kept.take(added);
    if looked == size {
        assert forall|index: u32| #[trigger] slots.contains(index) implies candidates.contains(index) by {
            lemma_scan_meets_every_slot(space, segment_id, start, 0, index);
            let k = choose|k: u32| k < size && #[trigger] space.candidate(segment_id, start, k) == index;
            assert(candidates[k as int] == index);
        }
        assert(met =~= reserved.intersect(slots)) by {
            assert forall|index: u32| reserved.intersect(slots).contains(index) implies met.contains(index) by {
                assert(slots.contains(index));
            }
        }
    }
    assert forall|i: int| hints.len() <= i < more.len() implies space.segment_of(#[trigger] more[i]) == segment_id by {
        let slot = kept[i - hints.len()];
        assert(more[i] == slot);
        lemma_scan_meets_every_slot(space, segment_id, start, 0, slot);
    }
    if more.len() < count {
        assert(looked == size);
        assert(kept.take(added) =~= kept);
        assert forall|index: u32| #[trigger] slots.contains(index) implies reserved.contains(index) || more.contains(
            index,
        ) by {
            assert(candidates.contains(index));
            let k = choose|k: int| 0 <= k < candidates.len() && candidates[k] == index;
            assert(candidates[k] < space.num_slots);
            lemma_fresh_members(space.num_slots, taken, candidates, index);
            if kept.contains(index) {
                let j = choose|j: int| 0 <= j < kept.len() && kept[j] == index;
                assert(more[hints.len() + j] == index);
            } else if hints.contains(index) {
                let j = choose|j: int| 0 <= j < hints.len() && hints[j] == index;
                assert(more[j] == index);
            }
        }
    }
    more
}

/// Two searches stand at the same segments.
pub open spec fn same_segments(space: SlotSpace, a: Seq<u32>, b: Seq<u32>) -> bool {
    &&& a.len() == b.len()
    &&& forall|i: int| 0 <= i < a.len() ==> space.segment_of(#[trigger] a[i]) == space.segment_of(#[trigger] b[i])
}

/// The hints lie in these segments, and unless there are enough of them no slot is left there.
spec fn exhausts(space: SlotSpace, reserved: Set<u32>, count: usize, done: Set<u16>, hints: Seq<u32>) -> bool {
    &&& forall|i: int| 0 <= i < hints.len() ==> done.contains(space.segment_of(#[trigger] hints[i]))
    &&& hints.len() < count ==> forall|segment_id: u16, index: u32|
        done.contains(segment_id) && #[trigger] slots_of(space, segment_id).contains(index) ==> reserved.contains(index)
            || hints.contains(index)
}

proof fn lemma_visited_segment_gives_nothing(
    space: SlotSpace,
    segments: Seq<SegmentInfo>,
    resident: spec_fn(u32) -> bool,
    stored: spec_fn(u16) -> SegmentView,
    reserved: Set<u32>,
    count: usize,
    done: Set<u16>,
    hints: Seq<u32>,
    segment_id: u16,
    start: u64,
)
    requires
        addressable(space, segment_id),
        hints.len() < count,
        exhausts(space, reserved, count, done, hints),
        done.contains(segment_id),
    ensures
        searched(
            space,
            segments,
            resident,
            stored,
            reserved,
            count,
            hints,
            space.candidates(segment_id, start, probes(space, reserved.len(), (count - hints.len()) as nat)),
        ) == Ok::<Seq<u32>, SlotFault>(hints),
{
    let looked = probes(space, reserved.len(), (count - hints.len()) as nat);
    let candidates = space.candidates(segment_id, start, looked);
    let taken = reserved.union(hints.to_set());
    let kept = fresh(space.num_slots, taken, candidates);
    if kept.len() > 0 {
        let index = kept[0];
        lemma_fresh_members(space.num_slots, taken, candidates, index);
        assert(kept.contains(index));
        let k = choose|k: int| 0 <= k < candidates.len() && candidates[k] == index;
        lemma_scan_meets_every_slot(space, segment_id, start, k as u32, index);
        assert(slots_of(space, segment_id).contains(index));
    }
}

proof fn lemma_staged_alike(
    space: SlotSpace,
    segments: Seq<SegmentInfo>,
    resident: spec_fn(u32) -> bool,
    stored: spec_fn(u16) -> SegmentView,
    reserved: Set<u32>,
    count: usize,
    done: Set<u16>,
    a: Seq<u32>,
    b: Seq<u32>,
    ids: Seq<u16>,
    starts_a: Seq<u64>,
    starts_b: Seq<u64>,
    i: int,
)
    requires
        reserved.finite(),
        unused_are_empty(space, segments, resident),
        0 <= i <= ids.len(),
        forall|k: int|
            0 <= k < ids.len() ==> (#[trigger] ids[k]) < segments.len() && is_unused(segments, ids[k]) && addressable(
                space,
                ids[k],
            ),
        same_segments(space, a, b),
        a.len() <= count,
        exhausts(space, reserved, count, done, a),
        exhausts(space, reserved, count, done, b),
    ensures
        match (
            staged(
                space,
                segments,
                reserved,
                count,
                stages_of(ids, starts_a, false),
                steady(resident, stored),
                a,
                i,
            ),
            staged(
                space,
                segments,
                reserved,
                count,
                stages_of(ids, starts_b, false),
                steady(resident, stored),
                b,
                i,
            ),
        ) {
            (Ok(x), Ok(y)) => same_segments(space, x, y),
            _ => false,
        },
    decreases ids.len() - i,
{
    if a.len() < count && i < ids.len() {
        let segment_id = ids[i];
        if done.contains(segment_id) {
            lemma_visited_segment_gives_nothing(
                space,
                segments,
                resident,
                stored,
                reserved,
                count,
                done,
                a,
                segment_id,
                starts_a[i],
            );
            lemma_visited_segment_gives_nothing(
                space,
                segments,
                resident,
                stored,
                reserved,
                count,
                done,
                b,
                segment_id,
                starts_b[i],
            );
            lemma_staged_alike(
                space,
                segments,
                resident,
                stored,
                reserved,
                count,
                done,
                a,
                b,
                ids,
                starts_a,
                starts_b,
                i + 1,
            );
        } else {
            let x = lemma_unused_segment_gives(
                space,
                segments,
                resident,
                stored,
                reserved,
                count,
                a,
                segment_id,
                starts_a[i],
            );
            let y = lemma_unused_segment_gives(
                space,
                segments,
                resident,
                stored,
                reserved,
                count,
                b,
                segment_id,
                starts_b[i],
            );
            lemma_still_exhausts(space, reserved, count, done, a, x, segment_id);
            lemma_still_exhausts(space, reserved, count, done, b, y, segment_id);
            assert(same_segments(space, x, y)) by {
                assert forall|k: int| 0 <= k < x.len() implies space.segment_of(#[trigger] x[k]) == space.segment_of(
                    #[trigger] y[k],
                ) by {
                    if k < a.len() {
                        assert(x[k] == a[k] && y[k] == b[k]);
                    }
                }
            }
            lemma_staged_alike(
                space,
                segments,
                resident,
                stored,
                reserved,
                count,
                done.insert(segment_id),
                x,
                y,
                ids,
                starts_a,
                starts_b,
                i + 1,
            );
        }
    }
}

proof fn lemma_unused_segments(segments: Seq<SegmentInfo>, zone_order: Seq<u16>)
    ensures
        forall|i: int|
            0 <= i < unused_segments(segments, zone_order).len() ==> is_unused(
                segments,
                #[trigger] unused_segments(segments, zone_order)[i],
            ) && zone_order.contains(unused_segments(segments, zone_order)[i]),
    decreases zone_order.len(),
{
    if zone_order.len() > 0 {
        let head = zone_order.drop_last();
        let rest = unused_segments(segments, head);
        let ids = unused_segments(segments, zone_order);
        lemma_unused_segments(segments, head);
        assert forall|i: int| 0 <= i < ids.len() implies is_unused(segments, #[trigger] ids[i]) && zone_order.contains(
            ids[i],
        ) by {
            if i < rest.len() {
                assert(ids[i] == rest[i]);
                let k = choose|k: int| 0 <= k < head.len() && head[k] == rest[i];
                assert(zone_order[k] == ids[i]);
            } else {
                assert(zone_order[zone_order.len() - 1] == ids[i]);
            }
        }
    }
}

proof fn lemma_still_exhausts(
    space: SlotSpace,
    reserved: Set<u32>,
    count: usize,
    done: Set<u16>,
    hints: Seq<u32>,
    more: Seq<u32>,
    segment_id: u16,
)
    requires
        exhausts(space, reserved, count, done, hints),
        hints.len() < count,
        hints.len() <= more.len(),
        forall|i: int| 0 <= i < hints.len() ==> #[trigger] more[i] == hints[i],
        forall|i: int| hints.len() <= i < more.len() ==> space.segment_of(#[trigger] more[i]) == segment_id,
        more.len() < count ==> forall|index: u32| #[trigger]
            slots_of(space, segment_id).contains(index) ==> reserved.contains(index) || more.contains(index),
    ensures
        exhausts(space, reserved, count, done.insert(segment_id), more),
{
    let next = done.insert(segment_id);
    assert forall|i: int| 0 <= i < more.len() implies next.contains(space.segment_of(#[trigger] more[i])) by {
        if i < hints.len() {
            assert(done.contains(space.segment_of(hints[i])));
        }
    }
    if more.len() < count {
        assert forall|id: u16, index: u32|
            next.contains(id) && #[trigger] slots_of(space, id).contains(index) implies reserved.contains(index)
            || more.contains(index) by {
            if id != segment_id && !reserved.contains(index) {
                assert(done.contains(id));
                assert(hints.contains(index));
                let k = choose|k: int| 0 <= k < hints.len() && hints[k] == index;
                assert(more[k] == index);
            }
        }
    }
}

proof fn lemma_no_partial_segments(space: SlotSpace, segments: Seq<SegmentInfo>, n: nat)
    requires
        n <= segments.len(),
        forall|i: int| 0 <= i < segments.len() ==> !(0 < (#[trigger] segments[i]).live < space.segment_size()),
    ensures
        partial_segments(segments, space.segment_size(), n).len() == 0,
    decreases n,
{
    if n > 0 {
        lemma_no_partial_segments(space, segments, (n - 1) as nat);
    }
}

/// The order in which unused segments are opened, and how many slots each of
/// them gives, is the allocator's alone: where no segment has holes, two
/// searches with different random numbers give as many hints, each in the same
/// segment as the other's.
///
/// The segments that the allocator names are those of the table, their slots
/// have numbers, and a segment without a used slot is empty.
pub proof fn lemma_fresh_segments_ignore_the_draws(
    space: SlotSpace,
    segments: Seq<SegmentInfo>,
    resident: spec_fn(u32) -> bool,
    stored: spec_fn(u16) -> SegmentView,
    reserved: Set<u32>,
    count: usize,
    zone_order: Seq<u16>,
    draws_a: Seq<u64>,
    draws_b: Seq<u64>,
)
    requires
        reserved.finite(),
        forall|i: int| 0 <= i < segments.len() ==> !(0 < (#[trigger] segments[i]).live < space.segment_size()),
        unused_are_empty(space, segments, resident),
        forall|i: int|
            0 <= i < zone_order.len() ==> (#[trigger] zone_order[i]) < segments.len() && addressable(
                space,
                zone_order[i],
            ),
    ensures
        match (
            empty_slot_hints(space, segments, reserved, count, zone_order, draws_a, steady(resident, stored)),
            empty_slot_hints(space, segments, reserved, count, zone_order, draws_b, steady(resident, stored)),
        ) {
            (Ok(a), Ok(b)) => same_segments(space, a, b),
            _ => false,
        },
{
    lemma_no_partial_segments(space, segments, segments.len());
    let none = Seq::<u32>::empty();
    let ids = unused_segments(segments, zone_order);
    lemma_unused_segments(segments, zone_order);
    assert forall|k: int| 0 <= k < ids.len() implies (#[trigger] ids[k]) < segments.len() && is_unused(segments, ids[k])
        && addressable(space, ids[k]) by {
        let z = choose|z: int| 0 <= z < zone_order.len() && zone_order[z] == ids[k];
        assert(zone_order[z] < segments.len());
    }
    assert(refill_order(space, segments, draws_a).len() == 0);
    assert(refill_order(space, segments, draws_b).len() == 0);
    let starts_a = draws_a.skip(0).skip(0);
    let starts_b = draws_b.skip(0).skip(0);
    assert(search_stages(space, segments, zone_order, draws_a) =~= stages_of(ids, starts_a, false));
    assert(search_stages(space, segments, zone_order, draws_b) =~= stages_of(ids, starts_b, false));
    lemma_staged_alike(
        space,
        segments,
        resident,
        stored,
        reserved,
        count,
        Set::empty(),
        none,
        none,
        ids,
        starts_a,
        starts_b,
        0,
    );
}

} // verus!
