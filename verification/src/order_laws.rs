//! In which order a search for empty slots goes through the segments.

use vstd::prelude::*;
use crate::hint_laws::{lemma_a_scan_goes_round_its_segment, lemma_slots_are_numbered_segment_by_segment, size_of_segment};
use crate::slot_laws::{addressable, falling_density, lemma_densest_first};
use crate::slots::{
    by_density, partial_segments, place_by_density, refill_order, rotated, search_stages, stage_candidates,
    unused_segments, SearchStage, SegmentInfo, SlotSpace,
};

verus! {

/// Something in a segment is used, and something is not.
pub open spec fn has_holes(space: SlotSpace, segments: Seq<SegmentInfo>, id: int) -> bool {
    0 <= id < segments.len() && 0 < segments[id].live < size_of_segment(space)
}

proof fn lemma_segments_with_holes_below(space: SlotSpace, segments: Seq<SegmentInfo>, n: nat)
    requires
        space.segment_log < 32,
        n <= segments.len() <= 65536,
    ensures
        ({
            let ids = partial_segments(segments, space.segment_size(), n);
            &&& ids.len() <= n
            &&& forall|id: u16| #[trigger] ids.contains(id) <==> id < n && has_holes(space, segments, id as int)
            &&& forall|i: int, j: int| 0 <= i < j < ids.len() ==> #[trigger] ids[i] < #[trigger] ids[j]
            &&& forall|i: int| 0 <= i < ids.len() ==> (#[trigger] ids[i]) < n
        }),
    decreases n,
{
    lemma_slots_are_numbered_segment_by_segment(space, 0);
    if n > 0 {
        let before = (n - 1) as nat;
        lemma_segments_with_holes_below(space, segments, before);
        let rest = partial_segments(segments, space.segment_size(), before);
        let ids = partial_segments(segments, space.segment_size(), n);
        assert forall|id: u16| #[trigger] ids.contains(id) <==> id < n && has_holes(space, segments, id as int) by {
            if ids.contains(id) {
                let k = choose|k: int| 0 <= k < ids.len() && ids[k] == id;
                if k < rest.len() {
                    assert(rest[k] == id);
                    assert(rest.contains(id));
                }
            }
            if id < n && has_holes(space, segments, id as int) {
                if id == n - 1 {
                    assert(ids[ids.len() - 1] == id);
                } else {
                    assert(rest.contains(id));
                    let k = choose|k: int| 0 <= k < rest.len() && rest[k] == id;
                    assert(ids[k] == id);
                }
            }
        }
    }
}

/// The segments that are filled up first are all those that have holes, full
/// and empty ones left out.
pub proof fn lemma_segments_with_holes(space: SlotSpace, segments: Seq<SegmentInfo>)
    requires
        space.segment_log < 32,
        segments.len() <= 65536,
    ensures
        ({
            let ids = partial_segments(segments, space.segment_size(), segments.len());
            &&& forall|id: u16| #[trigger] ids.contains(id) <==> has_holes(space, segments, id as int)
            &&& forall|i: int, j: int| 0 <= i < j < ids.len() ==> #[trigger] ids[i] < #[trigger] ids[j]
        }),
{
    lemma_segments_with_holes_below(space, segments, segments.len());
}

/// Placing a segment moves no other one past an equally dense one.
proof fn lemma_placed_behind_its_equals(segments: Seq<SegmentInfo>, sorted: Seq<u16>, id: u16, live: u32)
    requires
        falling_density(segments, sorted),
    ensures
        place_by_density(segments, sorted, id).filter(|other: u16| segments[other as int].live == live) == (
        sorted.filter(|other: u16| segments[other as int].live == live) + (if segments[id as int].live == live {
            seq![id]
        } else {
            Seq::empty()
        })),
    decreases sorted.len(),
{
    let same = |other: u16| segments[other as int].live == live;
    let placed = place_by_density(segments, sorted, id);
    reveal(Seq::filter);
    let tail = if segments[id as int].live == live {
        seq![id]
    } else {
        Seq::<u16>::empty()
    };
    if sorted.len() == 0 || segments[sorted.last() as int].live >= segments[id as int].live {
        assert(placed.drop_last() =~= sorted);
        assert(placed.filter(same) =~= sorted.filter(same) + tail);
    } else {
        let head = sorted.drop_last();
        let last = sorted.last();
        assert(falling_density(segments, head)) by {
            assert forall|i: int, j: int| 0 <= i <= j < head.len() implies segments[#[trigger] head[i] as int].live
                >= segments[#[trigger] head[j] as int].live by {
                assert(head[i] == sorted[i] && head[j] == sorted[j]);
            }
        }
        lemma_placed_behind_its_equals(segments, head, id, live);
        let inner = place_by_density(segments, head, id);
        assert(placed.drop_last() =~= inner);
        assert(placed.last() == last);
        if same(last) {
            assert(tail =~= Seq::<u16>::empty());
            assert(placed.filter(same) =~= sorted.filter(same) + tail);
        } else {
            assert(placed.filter(same) =~= sorted.filter(same) + tail);
        }
    }
}

/// Equally dense segments keep the order that they had.
pub proof fn lemma_equals_keep_their_order(segments: Seq<SegmentInfo>, ids: Seq<u16>, live: u32)
    ensures
        by_density(segments, ids).filter(|id: u16| segments[id as int].live == live) == ids.filter(
            |id: u16| segments[id as int].live == live,
        ),
    decreases ids.len(),
{
    let same = |id: u16| segments[id as int].live == live;
    reveal(Seq::filter);
    if ids.len() > 0 {
        let head = ids.drop_last();
        lemma_densest_first(segments, head);
        lemma_equals_keep_their_order(segments, head, live);
        lemma_placed_behind_its_equals(segments, by_density(segments, head), ids.last(), live);
        assert(by_density(segments, ids).filter(same) =~= ids.filter(same));
    } else {
        assert(by_density(segments, ids) =~= ids);
    }
}

/// A turned list goes on from the place to which it was turned.
pub proof fn lemma_a_turned_list(ids: Seq<u16>, by: int)
    requires
        0 <= by < ids.len(),
    ensures
        rotated(ids, by).len() == ids.len(),
        forall|i: int|
            0 <= i < ids.len() ==> #[trigger] rotated(ids, by)[i] == ids[if i + by < ids.len() {
                i + by
            } else {
                i + by - ids.len()
            }],
        rotated(ids, by).to_multiset() == ids.to_multiset(),
{
    broadcast use vstd::seq_lib::group_to_multiset_ensures;

    assert(ids =~= ids.take(by) + ids.skip(by));
    vstd::seq_lib::lemma_multiset_commutative(ids.take(by), ids.skip(by));
    vstd::seq_lib::lemma_multiset_commutative(ids.skip(by), ids.take(by));
    assert(rotated(ids, by).to_multiset() =~= ids.to_multiset());
}

/// Segments with holes are filled up in the order of falling density. Among
/// equally dense ones the first random number decides where in their order the
/// search starts.
pub proof fn lemma_the_densest_segment_is_filled_up_first(
    space: SlotSpace,
    segments: Seq<SegmentInfo>,
    draws: Seq<u64>,
    live: u32,
)
    requires
        space.segment_log < 32,
        segments.len() <= 65536,
        draws.len() > 0,
    ensures
        ({
            let order = refill_order(space, segments, draws);
            let ids = partial_segments(segments, space.segment_size(), segments.len());
            let by = draws[0] as usize as int % (ids.len() as int);
            &&& order.no_duplicates()
            &&& order.len() == ids.len()
            &&& forall|id: u16| #[trigger] order.contains(id) <==> has_holes(space, segments, id as int)
            &&& forall|i: int, j: int|
                0 <= i <= j < order.len() ==> segments[#[trigger] order[i] as int].live >= segments[#[trigger] order[j] as int].live
            &&& ids.len() > 0 ==> order.filter(|id: u16| segments[id as int].live == live) == (ids.skip(by) + ids.take(
                by,
            )).filter(|id: u16| segments[id as int].live == live)
        }),
{
    broadcast use vstd::seq_lib::group_to_multiset_ensures;

    let order = refill_order(space, segments, draws);
    let ids = partial_segments(segments, space.segment_size(), segments.len());
    lemma_segments_with_holes_below(space, segments, segments.len());
    assert(ids.no_duplicates()) by {
        assert forall|i: int, j: int| 0 <= i < ids.len() && 0 <= j < ids.len() && i != j implies ids[i] != ids[j] by {
            if i < j {
                assert(ids[i] < ids[j]);
            } else {
                assert(ids[j] < ids[i]);
            }
        }
    }
    if ids.len() > 0 {
        let by = draws[0] as usize as int % (ids.len() as int);
        lemma_a_turned_list(ids, by);
        lemma_densest_first(segments, rotated(ids, by));
        lemma_equals_keep_their_order(segments, rotated(ids, by), live);
        assert(order.to_multiset() =~= ids.to_multiset());
        ids.lemma_multiset_has_no_duplicates();
        order.lemma_multiset_has_no_duplicates_conv();
        assert(order.len() == ids.len()) by {
            assert(order.to_multiset().len() == order.len());
            assert(ids.to_multiset().len() == ids.len());
        }
        assert forall|id: u16| #[trigger] order.contains(id) <==> has_holes(space, segments, id as int) by {
            assert(order.contains(id) <==> order.to_multiset().count(id) > 0);
            assert(ids.contains(id) <==> ids.to_multiset().count(id) > 0);
        }
    } else {
        assert forall|id: u16| #[trigger] order.contains(id) <==> has_holes(space, segments, id as int) by {
            assert(ids.contains(id) <==> has_holes(space, segments, id as int));
        }
    }
}

/// New segments are opened in the order of the allocator: all those without a
/// used slot that are not on disk.
pub proof fn lemma_new_segments_are_opened_in_the_order_of_the_allocator(
    segments: Seq<SegmentInfo>,
    zone_order: Seq<u16>,
)
    ensures
        unused_segments(segments, zone_order) == zone_order.filter(
            |id: u16| segments[id as int].live == 0 && !segments[id as int].evicted,
        ),
    decreases zone_order.len(),
{
    reveal(Seq::filter);
    if zone_order.len() > 0 {
        lemma_new_segments_are_opened_in_the_order_of_the_allocator(segments, zone_order.drop_last());
    }
}

/// A search fills up every segment with holes before it opens a new one, and
/// starts in each segment where its own random number says.
pub proof fn lemma_holes_come_before_new_segments(
    space: SlotSpace,
    segments: Seq<SegmentInfo>,
    zone_order: Seq<u16>,
    draws: Seq<u64>,
)
    requires
        space.segment_log < 32,
        segments.len() <= 65536,
        draws.len() > segments.len() + zone_order.len(),
    ensures
        ({
            let stages = search_stages(space, segments, zone_order, draws);
            let order = refill_order(space, segments, draws);
            let opened = zone_order.filter(|id: u16| segments[id as int].live == 0 && !segments[id as int].evicted);
            &&& stages.len() == order.len() + opened.len()
            &&& forall|k: int|
                0 <= k < order.len() ==> #[trigger] stages[k] == (SearchStage {
                    segment_id: order[k],
                    start: draws[k + 1],
                    whole: true,
                })
            &&& forall|k: int|
                order.len() <= k < stages.len() ==> #[trigger] stages[k] == (SearchStage {
                    segment_id: opened[k - order.len()],
                    start: draws[if order.len() > 0 {
                        k + 1
                    } else {
                        k
                    }],
                    whole: false,
                })
        }),
{
    lemma_new_segments_are_opened_in_the_order_of_the_allocator(segments, zone_order);
    lemma_the_densest_segment_is_filled_up_first(space, segments, draws, 0);
    let same = |id: u16| segments[id as int].live == 0 && !segments[id as int].evicted;
    zone_order.lemma_filter_len(same);
    lemma_segments_with_holes_below(space, segments, segments.len());
}

/// A segment with holes is looked at as a whole. Of a new one only as many
/// slots are looked at as there are reservations and missing hints, at most all.
pub proof fn lemma_how_much_of_a_segment_is_looked_at(
    space: SlotSpace,
    reserved: Set<u32>,
    count: usize,
    hints: Seq<u32>,
    stage: SearchStage,
)
    requires
        addressable(space, stage.segment_id),
        hints.len() <= count,
    ensures
        ({
            let looked_at = stage_candidates(space, reserved, count, hints, stage);
            let size = size_of_segment(space);
            let wanted = reserved.len() + count - hints.len();
            &&& stage.whole || wanted >= size ==> looked_at.len() == size
            &&& !stage.whole && wanted < size ==> looked_at.len() == wanted
            &&& forall|k: int|
                0 <= k < looked_at.len() ==> #[trigger] looked_at[k] == stage.segment_id * size + (stage.start as int + k)
                    % size
        }),
{
    let looked_at = stage_candidates(space, reserved, count, hints, stage);
    let size = size_of_segment(space);
    lemma_slots_are_numbered_segment_by_segment(space, 0);
    assert forall|k: int| 0 <= k < looked_at.len() implies #[trigger] looked_at[k] == stage.segment_id * size + (
    stage.start as int + k) % size by {
        lemma_a_scan_goes_round_its_segment(space, stage.segment_id, stage.start, k as u32);
    }
}

} // verus!
