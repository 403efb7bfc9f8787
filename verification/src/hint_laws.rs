//! What a search for empty slots looks at, and what it comes to.

use vstd::prelude::*;
use vstd::arithmetic::power2::pow2;
use vstd::bits::{
    lemma_u32_low_bits_mask_is_mod, lemma_u32_pow2_no_overflow, lemma_u32_shl_is_mul, lemma_u32_shr_is_div,
    lemma_u64_low_bits_mask_is_mod, lemma_u64_pow2_no_overflow,
};
use crate::slot_laws::{addressable, lemma_fresh_members};
use crate::slots::{
    collect, emptiness, fresh, load_durable_segment, SegmentColumns, SegmentInfo, SegmentView, SlotError, SlotFault,
    SlotSpace, SlotValue, StoredSegment,
};

verus! {

/// How many slots a segment has.
pub open spec fn size_of_segment(space: SlotSpace) -> int {
    pow2(space.segment_log as nat) as int
}

/// Slots are numbered segment by segment.
pub proof fn lemma_slots_are_numbered_segment_by_segment(space: SlotSpace, index: u32)
    requires
        space.segment_log < 32,
    ensures
        0 < size_of_segment(space),
        space.segment_size() == size_of_segment(space),
        space.mask() == size_of_segment(space) - 1,
        space.local_of(index) == index as int % size_of_segment(space),
        index as int / size_of_segment(space) <= u16::MAX ==> space.segment_of(index) == index as int
            / size_of_segment(space),
{
    let log = space.segment_log as u32;
    lemma_u32_pow2_no_overflow(log as nat);
    lemma_u32_shl_is_mul(1u32, log);
    lemma_u32_shr_is_div(index, log);
    lemma_u32_low_bits_mask_is_mod(index, log as nat);
}

/// A segment has numbers for its slots if those of the last one fit.
pub proof fn lemma_addressable(space: SlotSpace, segment_id: u16)
    requires
        space.segment_log < 32,
    ensures
        addressable(space, segment_id) <==> (segment_id + 1) * size_of_segment(space) <= u32::MAX + 1,
{
    let log = space.segment_log as u32;
    let size = size_of_segment(space);
    lemma_u32_pow2_no_overflow(log as nat);
    lemma_u32_shr_is_div(0xffff_ffffu32, log);
    let top = 0xffff_ffffint / size;
    assert(segment_id <= top <==> (segment_id + 1) * size <= 0x1_0000_0000) by {
        lemma_u32_shl_is_mul(1u32, log);
        let unit = 1u32 << log;
        let rest = 0xffff_ffffu32 % unit;
        assert(unit > 0 && rest == unit - 1) by (bit_vector)
            requires
                unit == 1u32 << log,
                log < 32,
                rest == 0xffff_ffffu32 % unit,
        ;
        vstd::arithmetic::div_mod::lemma_fundamental_div_mod(0xffff_ffff, size);
        assert(size * top + size == 0x1_0000_0000);
        assert(segment_id <= top <==> (segment_id + 1) * size <= 0x1_0000_0000) by (nonlinear_arith)
            requires
                size > 0,
                size * top + size == 0x1_0000_0000,
        ;
    }
}

/// The scan of a segment goes up from where it starts, and on from the bottom
/// once it has reached the top.
pub proof fn lemma_a_scan_goes_round_its_segment(space: SlotSpace, segment_id: u16, start: u64, step: u32)
    requires
        addressable(space, segment_id),
        step < size_of_segment(space),
    ensures
        space.candidate(segment_id, start, step) == segment_id * size_of_segment(space) + (start as int + step)
            % size_of_segment(space),
{
    let log = space.segment_log as u32;
    let size = size_of_segment(space);
    let mask = space.mask();
    let id = segment_id as u32;
    lemma_slots_are_numbered_segment_by_segment(space, 0);
    lemma_addressable(space, segment_id);
    lemma_u32_pow2_no_overflow(log as nat);
    lemma_u64_pow2_no_overflow(log as nat);
    let unit = space.segment_size();
    assert(unit <= 0x8000_0000) by (bit_vector)
        requires
            unit == 1u32 << log,
            log < 32,
    ;
    let begin = start as u32 & mask;
    let wide = mask as u64;
    let masked = start & wide;
    assert(begin == masked) by (bit_vector)
        requires
            begin == start as u32 & mask,
            wide == mask as u64,
            masked == start & wide,
    ;
    lemma_u64_low_bits_mask_is_mod(start, log as nat);
    assert(begin == start as int % size);
    let sum = (begin + step) as u32;
    assert(begin.wrapping_add(step) == sum);
    lemma_u32_low_bits_mask_is_mod(sum, log as nat);
    let place = sum & mask;
    assert(place == sum as int % size);
    assert((start as int % size + step) % size == (start as int + step) % size) by {
        vstd::arithmetic::div_mod::lemma_add_mod_noop(start as int, step as int, size);
        vstd::arithmetic::div_mod::lemma_small_mod(step as nat, size as nat);
    }
    assert(id * size <= u32::MAX) by (nonlinear_arith)
        requires
            (id + 1) * size <= 0x1_0000_0000,
            size >= 1,
    ;
    lemma_u32_shl_is_mul(id, log);
    let base = id << log;
    assert(base | place == base + place) by (bit_vector)
        requires
            base == id << log,
            place == sum & mask,
            unit == 1u32 << log,
            mask == (unit - 1) as u32,
            log < 32,
    ;
}

/// Whether a candidate lies before a place.
pub open spec fn comes_before(candidates: Seq<u32>, index: u32, place: int) -> bool {
    exists|k: int| 0 <= k < place && #[trigger] candidates[k] == index
}

/// The candidates that are judged are all that exist and are not taken, each
/// once, in the order in which they are first named.
pub proof fn lemma_every_free_candidate_is_judged(num_slots: u64, taken: Set<u32>, candidates: Seq<u32>)
    ensures
        ({
            let kept = fresh(num_slots, taken, candidates);
            &&& forall|index: u32|
                #[trigger] kept.contains(index) <==> candidates.contains(index) && index < num_slots && !taken.contains(
                    index,
                )
            &&& kept.no_duplicates()
            &&& forall|a: int, b: int, place: int|
                #![trigger kept[a], kept[b], candidates[place]]
                0 <= a < b < kept.len() && 0 <= place < candidates.len() && candidates[place] == kept[b]
                    ==> comes_before(candidates, kept[a], place)
        }),
    decreases candidates.len(),
{
    let kept = fresh(num_slots, taken, candidates);
    crate::slot_laws::lemma_fresh(num_slots, taken, candidates);
    assert forall|index: u32| #[trigger] kept.contains(index) <==> candidates.contains(index) && index < num_slots
        && !taken.contains(index) by {
        lemma_fresh_members(num_slots, taken, candidates, index);
    }
    if candidates.len() > 0 {
        let head = candidates.drop_last();
        let last = candidates.last();
        let rest = fresh(num_slots, taken, head);
        lemma_every_free_candidate_is_judged(num_slots, taken, head);
        assert forall|a: int, b: int, place: int|
            #![trigger kept[a], kept[b], candidates[place]]
            0 <= a < b < kept.len() && 0 <= place < candidates.len() && candidates[place]
                == kept[b] implies comes_before(candidates, kept[a], place) by {
            assert(kept[a] == rest[a]);
            if b < rest.len() {
                assert(kept[b] == rest[b]);
                if place < head.len() {
                    assert(head[place] == candidates[place]);
                    assert(comes_before(head, rest[a], place));
                    let k = choose|k: int| 0 <= k < place && #[trigger] head[k] == rest[a];
                    assert(candidates[k] == kept[a]);
                } else {
                    assert(rest.contains(rest[a]));
                    assert(head.contains(rest[a]));
                    let k = choose|k: int| 0 <= k < head.len() && #[trigger] head[k] == rest[a];
                    assert(candidates[k] == kept[a]);
                }
            } else {
                assert(kept[b] == last && !rest.contains(last));
                if place < head.len() {
                    assert(head[place] == last);
                    assert(head.contains(last));
                    assert(rest.contains(last));
                } else {
                    assert(rest.contains(rest[a]));
                    assert(head.contains(rest[a]));
                    let k = choose|k: int| 0 <= k < head.len() && #[trigger] head[k] == rest[a];
                    assert(candidates[k] == kept[a]);
                }
            }
        }
    }
}

/// A slot is empty exactly if value and owner are those of an empty one; of a
/// slot behind the end of a column nothing is said.
pub proof fn lemma_an_empty_slot_holds_nothing(
    columns: SegmentColumns,
    local_index: usize,
    empty: SlotValue,
    is_empty: Option<bool>,
)
    requires
        call_ensures(SegmentColumns::slot_is_empty, (&columns, local_index, &empty), is_empty),
    ensures
        is_empty is None <==> local_index >= columns.values@.len() || local_index >= columns.owners_hi@.len()
            || local_index >= columns.owners_lo@.len(),
        is_empty matches Some(yes) ==> (yes <==> columns.values@[local_index as int] == empty.value
            && columns.owners_hi@[local_index as int] == empty.owner_hi && columns.owners_lo@[local_index as int]
            == empty.owner_lo),
{
}

/// A segment that must be on disk is taken only if it is there, can be read and
/// has the expected depth; each other case has its own error.
pub proof fn lemma_a_segment_on_disk(
    segment_id: u16,
    stored: StoredSegment,
    expected_log: usize,
    result: Result<&SegmentColumns, SlotError>,
)
    requires
        call_ensures(load_durable_segment, (segment_id, &stored, expected_log), result),
    ensures
        result is Ok <==> (stored matches StoredSegment::Found { log, .. } && log == expected_log),
        result matches Ok(columns) ==> columns.values@ == stored->columns.values@ && columns.owners_hi@
            == stored->columns.owners_hi@ && columns.owners_lo@ == stored->columns.owners_lo@,
        stored matches StoredSegment::Failed(text) ==> (result matches Err(SlotError::Store(told)) && told@ == text@),
        stored is Missing ==> (result matches Err(SlotError::MissingSegment { segment_id: id }) && id == segment_id),
        stored matches StoredSegment::Found { log, .. } ==> log != expected_log ==> (result matches Err(
            SlotError::DepthMismatch { segment_id: id, stored: found, expected },
        ) && id == segment_id && found == log && expected == expected_log),
{
}

/// The slot can be judged: it is in memory, or its segment can be read from
/// disk and reaches up to it.
pub open spec fn can_be_judged(
    space: SlotSpace,
    segments: Seq<SegmentInfo>,
    stored: spec_fn(u16) -> SegmentView,
    index: u32,
) -> bool {
    let id = index as int / size_of_segment(space);
    let place = index as int % size_of_segment(space);
    if id < segments.len() && segments[id].evicted {
        stored(id as u16) matches SegmentView::Found { log, columns } && log == space.segment_log && place
            < columns.values.len() && place < columns.owners_hi.len() && place < columns.owners_lo.len()
    } else {
        true
    }
}

/// The slot is empty, in memory or, if its segment is not there, on disk.
pub open spec fn holds_nothing(
    space: SlotSpace,
    segments: Seq<SegmentInfo>,
    resident: spec_fn(u32) -> bool,
    stored: spec_fn(u16) -> SegmentView,
    index: u32,
) -> bool {
    let id = index as int / size_of_segment(space);
    let place = index as int % size_of_segment(space);
    if id < segments.len() && segments[id].evicted {
        &&& can_be_judged(space, segments, stored, index)
        &&& stored(id as u16)->columns.values[place] == space.empty.value
        &&& stored(id as u16)->columns.owners_hi[place] == space.empty.owner_hi
        &&& stored(id as u16)->columns.owners_lo[place] == space.empty.owner_lo
    } else {
        resident(index)
    }
}

/// A slot of an evicted segment is judged by the disk alone, every other one by
/// the memory alone.
pub proof fn lemma_where_a_slot_is_judged(
    space: SlotSpace,
    segments: Seq<SegmentInfo>,
    resident: spec_fn(u32) -> bool,
    stored: spec_fn(u16) -> SegmentView,
    index: u32,
)
    requires
        space.segment_log < 32,
        index as int / size_of_segment(space) <= u16::MAX,
    ensures
        emptiness(space, segments, resident, stored, index) is Ok <==> can_be_judged(space, segments, stored, index),
        emptiness(space, segments, resident, stored, index) == Ok::<bool, SlotFault>(true) <==> holds_nothing(
            space,
            segments,
            resident,
            stored,
            index,
        ),
{
    lemma_slots_are_numbered_segment_by_segment(space, index);
}

/// The hints are taken one after the other: after any number of candidates that
/// can be judged, the hints are the empty ones among them in their order, and
/// the search is over once there are enough.
pub proof fn lemma_hints_are_taken_in_order(
    space: SlotSpace,
    segments: Seq<SegmentInfo>,
    resident: spec_fn(u32) -> bool,
    stored: spec_fn(u16) -> SegmentView,
    count: usize,
    hints: Seq<u32>,
    candidates: Seq<u32>,
    n: int,
)
    requires
        hints.len() <= count,
        0 <= n <= candidates.len(),
        forall|k: int|
            0 <= k < n ==> emptiness(space, segments, resident, stored, #[trigger] candidates[k]) is Ok,
    ensures
        ({
            let taken = candidates.take(n).filter(
                |index: u32| emptiness(space, segments, resident, stored, index) == Ok::<bool, SlotFault>(true),
            );
            let outcome = collect(space, segments, resident, stored, count, hints, candidates);
            if hints.len() + taken.len() < count {
                outcome == collect(space, segments, resident, stored, count, hints + taken, candidates.skip(n))
            } else {
                outcome == Ok::<Seq<u32>, SlotFault>(hints + taken.take(count - hints.len()))
            }
        }),
    decreases n,
{
    let good = |index: u32| emptiness(space, segments, resident, stored, index) == Ok::<bool, SlotFault>(true);
    let taken = candidates.take(n).filter(good);
    reveal(Seq::filter);
    if n == 0 {
        assert(candidates.take(0).filter(good) =~= Seq::<u32>::empty());
        assert(hints + taken =~= hints);
        assert(candidates.skip(0) =~= candidates);
        assert(hints + taken.take(count - hints.len()) =~= hints || hints.len() < count);
    } else {
        lemma_hints_are_taken_in_order(space, segments, resident, stored, count, hints, candidates, n - 1);
        let before = candidates.take(n - 1).filter(good);
        let index = candidates[n - 1];
        assert(candidates.take(n).drop_last() =~= candidates.take(n - 1));
        assert(candidates.take(n).last() == index);
        assert(taken == if good(index) {
            before.push(index)
        } else {
            before
        });
        if hints.len() + before.len() < count {
            let left = candidates.skip(n - 1);
            assert(left[0] == index);
            assert(left.skip(1) =~= candidates.skip(n));
            assert(emptiness(space, segments, resident, stored, index) is Ok);
            if good(index) {
                assert((hints + before).push(index) =~= hints + taken);
                if hints.len() + taken.len() >= count {
                    assert(taken.take(count - hints.len()) =~= taken);
                }
            }
        } else {
            assert(taken.take(count - hints.len()) =~= before.take(count - hints.len()));
        }
    }
}

} // verus!
