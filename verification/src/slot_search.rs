//! The search of one list of candidates for empty slots.
//!
//! The search runs in steps, since an evicted segment must be read back from
//! disk before its slots can be judged. It asks for one segment at a time, for
//! each at most once, and only when the first undecided candidate lies in it;
//! the segment decides every candidate that lies in it, and is given back before
//! another one is read.

use vstd::prelude::*;
use std::collections::HashSet;
use crate::segment_source::SegmentSource;
use crate::slot_laws::lemma_fresh;
use crate::slots::{
    answered, collect, durable_segment, emptiness, evicted, extends_hints, fresh, is_evicted, lemma_searched_extends,
    load_durable_segment, loaded_as, loads, locate, observes, outcome_is, search_explained, search_loads, searched, ColumnsView,
    SegmentInfo, SegmentView, SlotError, SlotFault, SlotSpace, SlotValue, StoredSegment,
};

verus! {

broadcast use vstd::std_specs::hash::group_hash_axioms;

/// What is known of one candidate.
#[derive(Clone, Copy, Debug, PartialEq, Eq, Structural)]
pub enum Verdict {
    /// Its segment was not loaded yet.
    Open,
    Empty,
    Used,
    /// Its segment ends before it.
    TooShort,
}

/// The verdict agrees with the slot, or is still open for an evicted segment.
pub open spec fn verdict_fits(
    space: SlotSpace,
    segments: Seq<SegmentInfo>,
    resident: spec_fn(u32) -> bool,
    stored: spec_fn(u16) -> SegmentView,
    index: u32,
    verdict: Verdict,
) -> bool {
    let segment_id = space.segment_of(index);
    match verdict {
        Verdict::Open => is_evicted(segments, segment_id),
        Verdict::Empty => emptiness(space, segments, resident, stored, index) == Ok::<bool, SlotFault>(true),
        Verdict::Used => emptiness(space, segments, resident, stored, index) == Ok::<bool, SlotFault>(false),
        Verdict::TooShort => emptiness(space, segments, resident, stored, index) == Err::<bool, SlotFault>(
            SlotFault::TooShort { segment_id, local_index: space.local_of(index) },
        ),
    }
}

/// What a loaded segment says of one of its slots.
pub open spec fn judged(columns: ColumnsView, local_index: usize, empty: SlotValue) -> Verdict {
    if !columns.covers(local_index as int) {
        Verdict::TooShort
    } else if columns.slot(local_index as int) == empty {
        Verdict::Empty
    } else {
        Verdict::Used
    }
}

/// What the search does next.
#[derive(Clone, Copy, Debug, PartialEq, Eq, Structural)]
pub enum SearchStep {
    /// There are enough hints, or no candidates are left.
    Done,
    /// This segment is to be read from disk.
    Load { segment_id: u16 },
    /// The segment of the next candidate ends before it.
    TooShort { segment_id: u16, local_index: usize },
}

/// A search as the proofs see it.
#[verifier::ext_equal]
pub struct SearchView {
    pub space: SlotSpace,
    pub segments: Seq<SegmentInfo>,
    pub count: usize,
    pub found: Seq<u32>,
    pub kept: Seq<u32>,
    pub verdicts: Seq<Verdict>,
    pub cursor: int,
    pub asked: Option<u16>,
    pub loaded: Seq<u16>,
}

/// A search under way.
pub struct SlotSearch {
    pub space: SlotSpace,
    pub segments: Ghost<Seq<SegmentInfo>>,
    pub count: usize,
    /// The hints so far.
    pub found: Vec<u32>,
    /// The candidates, in their order.
    pub kept: Vec<u32>,
    pub verdicts: Vec<Verdict>,
    /// The first candidate that is not settled.
    pub cursor: usize,
    /// The segment that is waited for.
    pub asked: Option<u16>,
    /// The segments that were asked for, in their order.
    pub loaded: Vec<u16>,
}

impl View for SlotSearch {
    type V = SearchView;

    open spec fn view(&self) -> SearchView {
        SearchView {
            space: self.space,
            segments: self.segments@,
            count: self.count,
            found: self.found@,
            kept: self.kept@,
            verdicts: self.verdicts@,
            cursor: self.cursor as int,
            asked: self.asked,
            loaded: self.loaded@,
        }
    }
}

impl SearchView {
    /// The candidate has no verdict yet.
    pub open spec fn undecided(self, j: int) -> bool {
        self.cursor <= j < self.kept.len() && self.verdicts[j] is Open
    }

    /// The candidate has the verdict of a segment on disk.
    pub open spec fn judged_from_disk(self, j: int) -> bool {
        &&& self.cursor <= j < self.kept.len()
        &&& !(self.verdicts[j] is Open)
        &&& is_evicted(self.segments, self.home(j))
    }

    pub open spec fn home(self, j: int) -> u16 {
        self.space.segment_of(self.kept[j])
    }

    pub open spec fn wf(self) -> bool {
        &&& self.space.segment_log < 32
        &&& self.verdicts.len() == self.kept.len()
        &&& 0 <= self.cursor <= self.kept.len()
        &&& self.loaded.no_duplicates()
        &&& forall|i: int| 0 <= i < self.loaded.len() ==> is_evicted(self.segments, #[trigger] self.loaded[i])
        &&& forall|j: int|
            #[trigger] self.undecided(j) ==> is_evicted(self.segments, self.home(j)) && (self.loaded.contains(
                self.home(j),
            ) ==> self.asked == Some(self.home(j)))
        &&& forall|j: int|
            #[trigger] self.judged_from_disk(j) ==> self.loaded.contains(self.home(j))
        &&& self.asked is Some ==> {
            &&& self.loaded.len() > 0
            &&& self.loaded.last() == self.asked->0
            &&& self.undecided(self.cursor)
            &&& self.home(self.cursor) == self.asked->0
            &&& self.found.len() < self.count
        }
    }

    /// Every candidate up to the first undecided one is settled.
    pub open spec fn settle(self) -> (SearchView, SearchStep)
        decreases self.kept.len() - self.cursor,
    {
        if self.found.len() >= self.count || self.cursor >= self.kept.len() {
            (self, SearchStep::Done)
        } else {
            match self.verdicts[self.cursor] {
                Verdict::Open => (
                    SearchView {
                        asked: Some(self.home(self.cursor)),
                        loaded: self.loaded.push(self.home(self.cursor)),
                        ..self
                    },
                    SearchStep::Load { segment_id: self.home(self.cursor) },
                ),
                Verdict::Empty => SearchView {
                    found: self.found.push(self.kept[self.cursor]),
                    cursor: self.cursor + 1,
                    ..self
                }.settle(),
                Verdict::Used => SearchView { cursor: self.cursor + 1, ..self }.settle(),
                Verdict::TooShort => (
                    self,
                    SearchStep::TooShort {
                        segment_id: self.home(self.cursor),
                        local_index: self.space.local_of(self.kept[self.cursor]),
                    },
                ),
            }
        }
    }

    /// The verdicts once a segment is loaded.
    pub open spec fn decided(self, segment_id: u16, columns: ColumnsView) -> Seq<Verdict> {
        Seq::new(
            self.verdicts.len(),
            |j: int|
                if self.undecided(j) && self.home(j) == segment_id {
                    judged(columns, self.space.local_of(self.kept[j]), self.space.empty)
                } else {
                    self.verdicts[j]
                },
        )
    }

    /// The segment that is waited for is there.
    pub open spec fn supplied(self, segment: SegmentView) -> (SearchView, Result<(), SlotFault>) {
        match durable_segment(self.asked->0, segment, self.space.segment_log) {
            Err(fault) => (self, Err(fault)),
            Ok(columns) => (
                SearchView { asked: None, verdicts: self.decided(self.asked->0, columns), ..self },
                Ok(()),
            ),
        }
    }

    /// The verdicts are those of memory and disk.
    pub open spec fn agrees(self, resident: spec_fn(u32) -> bool, stored: spec_fn(u16) -> SegmentView) -> bool {
        forall|j: int|
            self.cursor <= j < self.kept.len() ==> verdict_fits(
                self.space,
                self.segments,
                resident,
                stored,
                self.kept[j],
                #[trigger] self.verdicts[j],
            )
    }

    /// How the search ends.
    pub open spec fn outcome(self, resident: spec_fn(u32) -> bool, stored: spec_fn(u16) -> SegmentView) -> Result<
        Seq<u32>,
        SlotFault,
    > {
        collect(
            self.space,
            self.segments,
            resident,
            stored,
            self.count,
            self.found,
            self.kept.skip(self.cursor),
        )
    }

    /// The segments that are read in the whole search.
    pub open spec fn all_loads(self, resident: spec_fn(u32) -> bool, stored: spec_fn(u16) -> SegmentView) -> Seq<u16> {
        loads(
            self.space,
            self.segments,
            resident,
            stored,
            self.count,
            self.found,
            self.kept.skip(self.cursor),
            self.loaded,
        )
    }
}

/// Settling the decided candidates changes neither how the search ends nor which
/// segments are read for it.
pub proof fn lemma_settle_keeps_the_outcome(
    view: SearchView,
    resident: spec_fn(u32) -> bool,
    stored: spec_fn(u16) -> SegmentView,
)
    requires
        view.wf(),
        view.asked is None,
        view.agrees(resident, stored),
    ensures
        view.settle().0.agrees(resident, stored),
        view.all_loads(resident, stored) == (if view.settle().1 is Load {
            view.settle().0.all_loads(resident, stored)
        } else {
            view.settle().0.loaded
        }),
        match view.settle().1 {
            SearchStep::Done => view.outcome(resident, stored) == Ok::<Seq<u32>, SlotFault>(view.settle().0.found),
            SearchStep::Load { .. } => view.outcome(resident, stored) == view.settle().0.outcome(resident, stored),
            SearchStep::TooShort { segment_id, local_index } => view.outcome(resident, stored) == Err::<
                Seq<u32>,
                SlotFault,
            >(SlotFault::TooShort { segment_id, local_index }),
        },
    decreases view.kept.len() - view.cursor,
{
    if view.found.len() < view.count && view.cursor < view.kept.len() {
        let left = view.kept.skip(view.cursor);
        assert(left[0] == view.kept[view.cursor]);
        assert(left.skip(1) =~= view.kept.skip(view.cursor + 1));
        assert(verdict_fits(
            view.space,
            view.segments,
            resident,
            stored,
            view.kept[view.cursor],
            view.verdicts[view.cursor],
        ));
        assert(!(view.verdicts[view.cursor] is Open) && is_evicted(view.segments, view.home(view.cursor))
            ==> view.judged_from_disk(view.cursor));
        match view.verdicts[view.cursor] {
            Verdict::Open => {
                assert(view.undecided(view.cursor));
                let home = view.home(view.cursor);
                let more = view.loaded.push(home);
                assert(more[view.loaded.len() as int] == home);
                assert(more.contains(home));
            },
            Verdict::Empty => {
                let next = SearchView {
                    found: view.found.push(view.kept[view.cursor]),
                    cursor: view.cursor + 1,
                    ..view
                };
                lemma_moves_on(view, next);
                lemma_settle_keeps_the_outcome(next, resident, stored);
            },
            Verdict::Used => {
                let next = SearchView { cursor: view.cursor + 1, ..view };
                lemma_moves_on(view, next);
                lemma_settle_keeps_the_outcome(next, resident, stored);
            },
            Verdict::TooShort => {},
        }
    }
}

/// A search stays well-formed when its cursor passes a decided candidate.
proof fn lemma_moves_on(view: SearchView, next: SearchView)
    requires
        view.wf(),
        view.cursor < view.kept.len(),
        !(view.verdicts[view.cursor] is Open),
        next == (SearchView { found: next.found, cursor: view.cursor + 1, ..view }),
    ensures
        next.wf(),
{
    assert forall|j: int| #[trigger] next.undecided(j) implies is_evicted(next.segments, next.home(j)) && (
    next.loaded.contains(next.home(j)) ==> next.asked == Some(next.home(j))) by {
        assert(view.undecided(j));
    }
    assert forall|j: int| #[trigger] next.judged_from_disk(j) implies next.loaded.contains(next.home(j)) by {
        assert(view.judged_from_disk(j));
    }
}

/// A segment that is loaded settles what it decides and changes nothing else:
/// the search ends as before, or fails as the search that reads slot by slot does.
pub proof fn lemma_supply_keeps_the_outcome(
    view: SearchView,
    resident: spec_fn(u32) -> bool,
    stored: spec_fn(u16) -> SegmentView,
)
    requires
        view.wf(),
        view.asked is Some,
        view.agrees(resident, stored),
    ensures
        ({
            let (next, result) = view.supplied(stored(view.asked->0));
            match result {
                Ok(_) => {
                    &&& next.agrees(resident, stored)
                    &&& next.outcome(resident, stored) == view.outcome(resident, stored)
                    &&& next.all_loads(resident, stored) == view.all_loads(resident, stored)
                },
                Err(fault) => {
                    &&& view.outcome(resident, stored) == Err::<Seq<u32>, SlotFault>(fault)
                    &&& view.all_loads(resident, stored) == view.loaded
                },
            }
        }),
{
    let segment_id = view.asked->0;
    let left = view.kept.skip(view.cursor);
    assert(view.undecided(view.cursor));
    assert(left[0] == view.kept[view.cursor]);
    assert(is_evicted(view.segments, segment_id));
    assert(view.loaded[view.loaded.len() - 1] == segment_id);
    assert(view.loaded.contains(segment_id));
    let (next, result) = view.supplied(stored(segment_id));
    if result is Ok {
        assert forall|j: int| next.cursor <= j < next.kept.len() implies verdict_fits(
            next.space,
            next.segments,
            resident,
            stored,
            next.kept[j],
            #[trigger] next.verdicts[j],
        ) by {
            assert(verdict_fits(view.space, view.segments, resident, stored, view.kept[j], view.verdicts[j]));
            if view.undecided(j) {
                assert(is_evicted(view.segments, view.home(j)));
            }
        }
    }
}

/// A segment is asked for only if it is on disk, was not asked for before, and
/// the first undecided candidate lies in it; and never once there are enough hints.
pub proof fn lemma_segments_are_asked_for_once(view: SearchView)
    requires
        view.wf(),
        view.asked is None,
    ensures
        view.settle().0.wf(),
        view.settle().1 matches SearchStep::Load { segment_id } ==> {
            let next = view.settle().0;
            &&& is_evicted(view.segments, segment_id)
            &&& !view.loaded.contains(segment_id)
            &&& next.loaded == view.loaded.push(segment_id)
            &&& next.asked == Some(segment_id)
            &&& next.home(next.cursor) == segment_id
            &&& forall|j: int| view.cursor <= j < next.cursor ==> !((#[trigger] view.verdicts[j]) is Open)
            &&& next.found.len() < view.count
        },
        !(view.settle().1 is Load) ==> view.settle().0.loaded == view.loaded && view.settle().0.asked is None,
        view.settle().0.cursor >= view.cursor,
        view.settle().0.verdicts == view.verdicts,
    decreases view.kept.len() - view.cursor,
{
    if view.found.len() < view.count && view.cursor < view.kept.len() {
        match view.verdicts[view.cursor] {
            Verdict::Open => {
                assert(view.undecided(view.cursor));
                let next = view.settle().0;
                let segment_id = view.home(view.cursor);
                assert forall|i: int| 0 <= i < next.loaded.len() implies is_evicted(
                    next.segments,
                    #[trigger] next.loaded[i],
                ) by {
                    if i < view.loaded.len() {
                        assert(next.loaded[i] == view.loaded[i]);
                    }
                }
                assert forall|j: int| #[trigger] next.undecided(j) implies is_evicted(next.segments, next.home(j)) && (
                next.loaded.contains(next.home(j)) ==> next.asked == Some(next.home(j))) by {
                    assert(view.undecided(j));
                    if next.loaded.contains(next.home(j)) && next.home(j) != segment_id {
                        let k = choose|k: int| 0 <= k < next.loaded.len() && next.loaded[k] == next.home(j);
                        assert(view.loaded[k] == view.home(j));
                        assert(view.loaded.contains(view.home(j)));
                    }
                }
                assert(next.loaded.no_duplicates()) by {
                    assert forall|a: int, b: int|
                        0 <= a < next.loaded.len() && 0 <= b < next.loaded.len() && a != b implies next.loaded[a]
                        != next.loaded[b] by {
                        if a < view.loaded.len() && b == view.loaded.len() {
                            assert(view.loaded.contains(view.loaded[a]));
                        } else if b < view.loaded.len() && a == view.loaded.len() {
                            assert(view.loaded.contains(view.loaded[b]));
                        }
                    }
                }
                assert forall|j: int| #[trigger] next.judged_from_disk(j) implies next.loaded.contains(
                    next.home(j),
                ) by {
                    assert(view.judged_from_disk(j));
                    let k = choose|k: int| 0 <= k < view.loaded.len() && view.loaded[k] == view.home(j);
                    assert(next.loaded[k] == next.home(j));
                }
                assert(next.undecided(next.cursor));
            },
            Verdict::Empty => {
                let next = SearchView {
                    found: view.found.push(view.kept[view.cursor]),
                    cursor: view.cursor + 1,
                    ..view
                };
                lemma_moves_on(view, next);
                lemma_segments_are_asked_for_once(next);
            },
            Verdict::Used => {
                let next = SearchView { cursor: view.cursor + 1, ..view };
                lemma_moves_on(view, next);
                lemma_segments_are_asked_for_once(next);
            },
            Verdict::TooShort => {},
        }
    }
}

proof fn lemma_supplied_wf(view: SearchView, segment: SegmentView)
    requires
        view.wf(),
        view.asked is Some,
    ensures
        view.supplied(segment).0.wf(),
        view.supplied(segment).1 is Ok ==> !view.supplied(segment).0.undecided(view.cursor),
{
    let (next, result) = view.supplied(segment);
    if result is Ok {
        assert forall|j: int| #[trigger] next.undecided(j) implies is_evicted(next.segments, next.home(j)) && (
        next.loaded.contains(next.home(j)) ==> next.asked == Some(next.home(j))) by {
            assert(view.undecided(j));
        }
        assert forall|j: int| #[trigger] next.judged_from_disk(j) implies next.loaded.contains(next.home(j)) by {
            if view.undecided(j) {
                assert(view.loaded[view.loaded.len() - 1] == next.home(j));
            } else {
                assert(view.judged_from_disk(j));
            }
        }
        assert(view.undecided(view.cursor));
    }
}

/// Keep the candidates that are in range and neither taken nor repeated.
fn fresh_candidates(num_slots: u64, reserved: &HashSet<u32>, hints: &Vec<u32>, candidates: &Vec<u32>) -> (kept: Vec<u32>)
    ensures
        kept@ == fresh(num_slots, reserved@.union(hints@.to_set()), candidates@),
{
    let mut seen: HashSet<u32> = HashSet::new();
    let mut h: usize = 0;
    while h < hints.len()
        invariant
            h <= hints@.len(),
            forall|index: u32| seen@.contains(index) <==> hints@.take(h as int).contains(index),
        decreases hints@.len() - h,
    {
        seen.insert(hints[h]);
        assert forall|index: u32| seen@.contains(index) <==> hints@.take(h + 1).contains(index) by {
            let next = hints@.take(h + 1);
            assert(next =~= hints@.take(h as int).push(hints@[h as int]));
            if hints@.take(h as int).contains(index) {
                let k = choose|k: int| 0 <= k < h && hints@.take(h as int)[k] == index;
                assert(next[k] == index);
            }
            assert(next[h as int] == hints@[h as int]);
        }
        h = h + 1;
    }
    assert(hints@.take(h as int) =~= hints@);
    let ghost taken = reserved@.union(hints@.to_set());
    let mut kept: Vec<u32> = Vec::new();
    let mut i: usize = 0;
    while i < candidates.len()
        invariant
            i <= candidates@.len(),
            taken == reserved@.union(hints@.to_set()),
            kept@ == fresh(num_slots, taken, candidates@.take(i as int)),
            forall|index: u32| seen@.contains(index) <==> hints@.contains(index) || kept@.contains(index),
        decreases candidates@.len() - i,
    {
        let index: u32 = candidates[i];
        assert(candidates@.take(i + 1).drop_last() =~= candidates@.take(i as int));
        if (index as u64) < num_slots && !reserved.contains(&index) && !seen.contains(&index) {
            let ghost before = kept@;
            seen.insert(index);
            kept.push(index);
            assert forall|other: u32| seen@.contains(other) <==> hints@.contains(other) || kept@.contains(other) by {
                if before.contains(other) {
                    let k = choose|k: int| 0 <= k < before.len() && before[k] == other;
                    assert(kept@[k] == other);
                }
                assert(kept@[before.len() as int] == index);
            }
        }
        i = i + 1;
    }
    assert(candidates@.take(i as int) =~= candidates@);
    kept
}

impl SlotSearch {
    /// Start the search of a list of candidates, behind the hints that are there.
    ///
    /// The candidates in memory are judged at once.
    pub fn start<R: Fn(u32) -> bool>(
        space: &SlotSpace,
        segments: &Vec<SegmentInfo>,
        reserved: &HashSet<u32>,
        count: usize,
        hints: Vec<u32>,
        candidates: &Vec<u32>,
        read: &R,
    ) -> (search: SlotSearch)
        requires
            space.segment_log < 32,
            forall|index: u32| call_requires(*read, (index,)),
        ensures
            search@.wf(),
            search@.space == *space,
            search@.segments == segments@,
            search@.count == count,
            search@.found == hints@,
            search@.kept == fresh(space.num_slots, reserved@.union(hints@.to_set()), candidates@),
            search@.cursor == 0,
            search@.asked is None,
            search@.loaded == Seq::<u16>::empty(),
            forall|j: int|
                0 <= j < search@.kept.len() ==> if is_evicted(segments@, search@.home(j)) {
                    #[trigger] search@.verdicts[j] is Open
                } else {
                    ||| search@.verdicts[j] is Empty && call_ensures(*read, (search@.kept[j],), true)
                    ||| search@.verdicts[j] is Used && call_ensures(*read, (search@.kept[j],), false)
                },
    {
        let kept = fresh_candidates(space.num_slots, reserved, &hints, candidates);
        let mut verdicts: Vec<Verdict> = Vec::new();
        let mut i: usize = 0;
        while i < kept.len()
            invariant
                i <= kept@.len(),
                verdicts@.len() == i,
                space.segment_log < 32,
                forall|index: u32| call_requires(*read, (index,)),
                forall|j: int|
                    0 <= j < i ==> if is_evicted(segments@, space.segment_of(kept@[j])) {
                        #[trigger] verdicts@[j] is Open
                    } else {
                        ||| verdicts@[j] is Empty && call_ensures(*read, (kept@[j],), true)
                        ||| verdicts@[j] is Used && call_ensures(*read, (kept@[j],), false)
                    },
            decreases kept@.len() - i,
        {
            let (segment_id, _) = locate(space, kept[i]);
            let verdict = if evicted(segments, segment_id) {
                Verdict::Open
            } else if read(kept[i]) {
                Verdict::Empty
            } else {
                Verdict::Used
            };
            verdicts.push(verdict);
            i = i + 1;
        }
        let search = SlotSearch {
            space: *space,
            segments: Ghost(segments@),
            count,
            found: hints,
            kept,
            verdicts,
            cursor: 0,
            asked: None,
            loaded: Vec::new(),
        };
        assert forall|j: int| #[trigger] search@.undecided(j) implies is_evicted(search@.segments, search@.home(j))
            && !search@.loaded.contains(search@.home(j)) by {
            assert(search@.verdicts[j] is Open);
        }
        assert forall|j: int| #[trigger] search@.judged_from_disk(j) implies search@.loaded.contains(
            search@.home(j),
        ) by {
            assert(search@.verdicts[j] is Open);
        }
        search
    }

    /// Settle candidates in their order, as far as that goes without another segment.
    pub fn advance(&mut self) -> (step: SearchStep)
        requires
            old(self)@.wf(),
            old(self)@.asked is None,
        ensures
            (final(self)@, step) == old(self)@.settle(),
            final(self)@.wf(),
    {
        proof {
            lemma_segments_are_asked_for_once(self@);
        }
        while self.found.len() < self.count && self.cursor < self.kept.len()
            invariant
                self@.wf(),
                self@.asked is None,
                self@.settle() == old(self)@.settle(),
                old(self)@.settle().0.wf(),
            decreases self.kept@.len() - self.cursor,
        {
            let ghost before = self@;
            let index: u32 = self.kept[self.cursor];
            match self.verdicts[self.cursor] {
                Verdict::Open => {
                    let (segment_id, _) = locate(&self.space, index);
                    self.asked = Some(segment_id);
                    self.loaded.push(segment_id);
                    assert(self@ =~= before.settle().0);
                    return SearchStep::Load { segment_id };
                },
                Verdict::Empty => {
                    self.found.push(index);
                },
                Verdict::Used => {},
                Verdict::TooShort => {
                    let (segment_id, local_index) = locate(&self.space, index);
                    return SearchStep::TooShort { segment_id, local_index };
                },
            }
            self.cursor = self.cursor + 1;
            proof {
                lemma_moves_on(before, self@);
            }
        }
        SearchStep::Done
    }

    /// Take the segment that was asked for.
    ///
    /// It decides every candidate that lies in it, and is not needed any more.
    pub fn supply(&mut self, segment: &StoredSegment) -> (result: Result<(), SlotError>)
        requires
            old(self)@.wf(),
            old(self)@.asked is Some,
        ensures
            final(self)@ == old(self)@.supplied(segment@).0,
            match old(self)@.supplied(segment@).1 {
                Ok(_) => result is Ok,
                Err(fault) => result is Err && result->Err_0@ == fault,
            },
            final(self)@.wf(),
    {
        proof {
            lemma_supplied_wf(self@, segment@);
        }
        let ghost before = self@;
        let segment_id: u16 = match self.asked {
            Some(segment_id) => segment_id,
            None => {
                return Ok(());
            },
        };
        let columns = match load_durable_segment(segment_id, segment, self.space.segment_log) {
            Ok(columns) => columns,
            Err(error) => {
                return Err(error);
            },
        };
        let mut j: usize = self.cursor;
        while j < self.kept.len()
            invariant
                before.wf(),
                before.asked == Some(segment_id),
                before.cursor <= j <= before.kept.len(),
                self@ == (SearchView { verdicts: self.verdicts@, ..before }),
                self.verdicts@.len() == before.verdicts.len(),
                forall|k: int|
                    0 <= k < j ==> #[trigger] self.verdicts@[k] == before.decided(segment_id, columns@)[k],
                forall|k: int| j <= k < before.verdicts.len() ==> #[trigger] self.verdicts@[k] == before.verdicts[k],
            decreases before.kept.len() - j,
        {
            let (home, local_index) = locate(&self.space, self.kept[j]);
            if home == segment_id {
                if let Verdict::Open = self.verdicts[j] {
                    assert(before.undecided(j as int));
                    let verdict = match columns.slot_is_empty(local_index, &self.space.empty) {
                        None => Verdict::TooShort,
                        Some(true) => Verdict::Empty,
                        Some(false) => Verdict::Used,
                    };
                    self.verdicts.set(j, verdict);
                }
            }
            j = j + 1;
        }
        self.asked = None;
        assert(self.verdicts@ =~= before.decided(segment_id, columns@));
        Ok(())
    }
}

/// What is known of memory and disk: `resident` has the verdicts that the search
/// began with, and `stored` the segments that were read.
spec fn known(
    first: SearchView,
    told: Map<u16, SegmentView>,
    resident: spec_fn(u32) -> bool,
    stored: spec_fn(u16) -> SegmentView,
) -> bool {
    &&& forall|j: int|
        0 <= j < first.kept.len() && !is_evicted(first.segments, first.home(j)) ==> (resident(first.kept[j])
            <==> #[trigger] first.verdicts[j] is Empty)
    &&& forall|segment_id: u16| #[trigger] told.contains_key(segment_id) ==> stored(segment_id) == told[segment_id]
}

/// The slots that were read as empty.
spec fn read_empty(first: SearchView) -> spec_fn(u32) -> bool {
    |index: u32|
        exists|j: int| 0 <= j < first.kept.len() && first.kept[j] == index && #[trigger] first.verdicts[j] is Empty
}

/// The segments that were read.
spec fn read_from_disk(told: Map<u16, SegmentView>) -> spec_fn(u16) -> SegmentView {
    |segment_id: u16|
        if told.contains_key(segment_id) {
            told[segment_id]
        } else {
            SegmentView::Missing
        }
}

proof fn lemma_known(first: SearchView, told: Map<u16, SegmentView>)
    requires
        first.kept.no_duplicates(),
        first.verdicts.len() == first.kept.len(),
    ensures
        known(first, told, read_empty(first), read_from_disk(told)),
{
    let resident = read_empty(first);
    assert forall|j: int| 0 <= j < first.kept.len() && !is_evicted(first.segments, first.home(j)) implies (resident(
        first.kept[j],
    ) <==> #[trigger] first.verdicts[j] is Empty) by {
        if resident(first.kept[j]) {
            let k = choose|k: int|
                0 <= k < first.kept.len() && first.kept[k] == first.kept[j] && #[trigger] first.verdicts[k] is Empty;
            assert(k == j);
        }
    }
}

/// Search a list of candidates in its order, behind the hints that are there.
///
/// The outcome is that of a candidate-by-candidate search, errors and early
/// end included. A segment on disk is read when the first undecided candidate
/// lies in it, none is read twice, and no segment is held while another one is
/// read.
pub fn collect_empty_slot_hints_streaming<R: Fn(u32) -> bool, L: Fn(u16) -> StoredSegment>(
    space: &SlotSpace,
    segments: &Vec<SegmentInfo>,
    reserved: &HashSet<u32>,
    count: usize,
    hints: Vec<u32>,
    candidates: &Vec<u32>,
    read: &R,
    source: &mut SegmentSource<L>,
) -> (outcome: Result<Vec<u32>, SlotError>)
    requires
        space.segment_log < 32,
        forall|index: u32| call_requires(*read, (index,)),
        forall|segment_id: u16| call_requires(old(source).loader(), (segment_id,)),
        !old(source).held(),
    ensures
        final(source).loader() == old(source).loader(),
        !final(source).held(),
        hints@.len() >= count ==> outcome is Ok && outcome->Ok_0@ == hints@ && final(source).log() == old(source).log(),
        outcome matches Ok(found) ==> extends_hints(*space, reserved@, count, hints@, found@),
        hints@.len() < count ==> exists|resident: spec_fn(u32) -> bool, stored: spec_fn(u16) -> SegmentView|
            #[trigger] search_explained(
                *space,
                segments@,
                reserved@,
                count,
                hints@,
                candidates@,
                *read,
                old(source).loader(),
                old(source).log(),
                final(source).log(),
                outcome,
                resident,
                stored,
            ),
        forall|resident: spec_fn(u32) -> bool, stored: spec_fn(u16) -> SegmentView|
            #[trigger] observes(*read, old(source).loader(), resident, stored) ==> outcome_is(
                outcome,
                searched(*space, segments@, resident, stored, reserved@, count, hints@, candidates@),
            ) && final(source).log() == old(source).log() + search_loads(
                *space,
                segments@,
                resident,
                stored,
                reserved@,
                count,
                hints@,
                candidates@,
            ),
{
    let ghost log = source.log();
    let ghost loader = source.loader();
    if hints.len() >= count {
        assert(log + Seq::<u16>::empty() =~= log);
        return Ok(hints);
    }
    let ghost begun = hints@;
    let mut search = SlotSearch::start(space, segments, reserved, count, hints, candidates, read);
    let ghost first = search@;
    let ghost mut told: Map<u16, SegmentView> = Map::empty();
    assert(first.kept.skip(0) =~= first.kept);
    assert(log + Seq::<u16>::empty() =~= log);
    proof {
        lemma_fresh(space.num_slots, reserved@.union(begun.to_set()), candidates@);
    }
    assert forall|resident: spec_fn(u32) -> bool, stored: spec_fn(u16) -> SegmentView|
        #[trigger] known(first, told, resident, stored) implies first.agrees(resident, stored) by {
        assert forall|j: int| first.cursor <= j < first.kept.len() implies verdict_fits(
            first.space,
            first.segments,
            resident,
            stored,
            first.kept[j],
            #[trigger] first.verdicts[j],
        ) by {}
    }
    loop
        invariant
            search@.wf(),
            search@.asked is None,
            first.space == *space,
            first.segments == segments@,
            first.kept == fresh(space.num_slots, reserved@.union(begun.to_set()), candidates@),
            first.kept.no_duplicates(),
            first.verdicts.len() == first.kept.len(),
            begun == hints@,
            begun.len() < count,
            forall|j: int|
                0 <= j < first.kept.len() && !is_evicted(segments@, first.home(j)) ==> call_ensures(
                    *read,
                    (first.kept[j],),
                    #[trigger] first.verdicts[j] is Empty,
                ),
            source.loader() == loader,
            loader == old(source).loader(),
            log == old(source).log(),
            !source.held(),
            source.log() == log + search@.loaded,
            forall|segment_id: u16| call_requires(loader, (segment_id,)),
            forall|segment_id: u16| told.contains_key(segment_id) <==> search@.loaded.contains(segment_id),
            forall|segment_id: u16|
                #[trigger] told.contains_key(segment_id) ==> loaded_as(loader, segment_id, told[segment_id]),
            forall|resident: spec_fn(u32) -> bool, stored: spec_fn(u16) -> SegmentView|
                #[trigger] known(first, told, resident, stored) ==> {
                    &&& search@.agrees(resident, stored)
                    &&& search@.outcome(resident, stored) == searched(
                        *space,
                        segments@,
                        resident,
                        stored,
                        reserved@,
                        count,
                        begun,
                        candidates@,
                    )
                    &&& search@.all_loads(resident, stored) == search_loads(
                        *space,
                        segments@,
                        resident,
                        stored,
                        reserved@,
                        count,
                        begun,
                        candidates@,
                    )
                },
        decreases
                2 * (search@.kept.len() - search@.cursor) + if search@.undecided(search@.cursor) {
                    1int
                } else {
                    0int
                },
    {
        let ghost before = search@;
        let step = search.advance();
        let ghost settled = search@;
        proof {
            lemma_segments_are_asked_for_once(before);
            assert forall|resident: spec_fn(u32) -> bool, stored: spec_fn(u16) -> SegmentView|
                #[trigger] known(first, told, resident, stored) implies {
                &&& settled.agrees(resident, stored)
                &&& before.all_loads(resident, stored) == (if step is Load {
                    settled.all_loads(resident, stored)
                } else {
                    settled.loaded
                })
                &&& match step {
                    SearchStep::Done => before.outcome(resident, stored) == Ok::<Seq<u32>, SlotFault>(settled.found),
                    SearchStep::Load { .. } => before.outcome(resident, stored) == settled.outcome(resident, stored),
                    SearchStep::TooShort { segment_id, local_index } => before.outcome(resident, stored) == Err::<
                        Seq<u32>,
                        SlotFault,
                    >(SlotFault::TooShort { segment_id, local_index }),
                }
            } by {
                lemma_settle_keeps_the_outcome(before, resident, stored);
            }
        }
        match step {
            SearchStep::Done => {
                proof {
                    lemma_read_out(*space, segments@, *read, loader, first, told, settled.loaded);
                    lemma_searched_extends(
                        *space,
                        segments@,
                        read_empty(first),
                        read_from_disk(told),
                        reserved@,
                        count,
                        begun,
                        candidates@,
                    );
                    assert(search_explained(
                        *space,
                        segments@,
                        reserved@,
                        count,
                        begun,
                        candidates@,
                        *read,
                        loader,
                        log,
                        source.log(),
                        Ok(search.found),
                        read_empty(first),
                        read_from_disk(told),
                    ));
                }
                return Ok(search.found);
            },
            SearchStep::TooShort { segment_id, local_index } => {
                proof {
                    lemma_read_out(*space, segments@, *read, loader, first, told, settled.loaded);
                    assert(search_explained(
                        *space,
                        segments@,
                        reserved@,
                        count,
                        begun,
                        candidates@,
                        *read,
                        loader,
                        log,
                        source.log(),
                        Err(SlotError::TooShort { segment_id, local_index }),
                        read_empty(first),
                        read_from_disk(told),
                    ));
                }
                return Err(SlotError::TooShort { segment_id, local_index });
            },
            SearchStep::Load { segment_id } => {
                let loaded = source.load(segment_id);
                let ghost there = loaded.stored()@;
                let ghost past = told;
                proof {
                    told = past.insert(segment_id, there);
                    assert(loaded_as(loader, segment_id, there));
                    assert(!past.contains_key(segment_id));
                    assert forall|id: u16| told.contains_key(id) <==> settled.loaded.contains(id) by {
                        assert(settled.loaded == before.loaded.push(segment_id));
                        assert(settled.loaded[before.loaded.len() as int] == segment_id);
                        if before.loaded.contains(id) {
                            let k = choose|k: int| 0 <= k < before.loaded.len() && before.loaded[k] == id;
                            assert(settled.loaded[k] == id);
                        }
                        if settled.loaded.contains(id) && id != segment_id {
                            let k = choose|k: int| 0 <= k < settled.loaded.len() && settled.loaded[k] == id;
                            assert(before.loaded[k] == id);
                        }
                    }
                    assert(source.log() =~= log + settled.loaded);
                    lemma_supplied_wf(settled, there);
                    assert forall|resident: spec_fn(u32) -> bool, stored: spec_fn(u16) -> SegmentView|
                        #[trigger] known(first, told, resident, stored) implies known(first, past, resident, stored) && ({
                        let (next, result) = settled.supplied(there);
                        match result {
                            Ok(_) => {
                                &&& next.agrees(resident, stored)
                                &&& next.outcome(resident, stored) == before.outcome(resident, stored)
                                &&& next.all_loads(resident, stored) == before.all_loads(resident, stored)
                            },
                            Err(fault) => {
                                &&& before.outcome(resident, stored) == Err::<Seq<u32>, SlotFault>(fault)
                                &&& before.all_loads(resident, stored) == settled.loaded
                            },
                        }
                    }) by {
                        assert forall|id: u16| #[trigger] past.contains_key(id) implies stored(id) == past[id] by {
                            assert(told.contains_key(id));
                        }
                        assert(known(first, past, resident, stored));
                        assert(told.contains_key(segment_id));
                        assert(there == stored(segment_id));
                        lemma_supply_keeps_the_outcome(settled, resident, stored);
                    }
                }
                let supplied = search.supply(loaded.segment());
                source.release(loaded);
                if let Err(error) = supplied {
                    proof {
                        lemma_read_out(*space, segments@, *read, loader, first, told, settled.loaded);
                        assert(search_explained(
                            *space,
                            segments@,
                            reserved@,
                            count,
                            begun,
                            candidates@,
                            *read,
                            loader,
                            log,
                            source.log(),
                            Err(error),
                            read_empty(first),
                            read_from_disk(told),
                        ));
                    }
                    return Err(error);
                }
            },
        }
    }
}

/// What the search was told ties what it read to `read` and `load`, and a caller
/// for whom they are functions was told what they say.
proof fn lemma_read_out<R: Fn(u32) -> bool, L: Fn(u16) -> StoredSegment>(
    space: SlotSpace,
    segments: Seq<SegmentInfo>,
    read: R,
    load: L,
    first: SearchView,
    told: Map<u16, SegmentView>,
    loaded: Seq<u16>,
)
    requires
        first.space == space,
        first.segments == segments,
        first.kept.no_duplicates(),
        first.verdicts.len() == first.kept.len(),
        forall|j: int|
            0 <= j < first.kept.len() && !is_evicted(segments, first.home(j)) ==> call_ensures(
                read,
                (first.kept[j],),
                #[trigger] first.verdicts[j] is Empty,
            ),
        forall|segment_id: u16| told.contains_key(segment_id) <==> loaded.contains(segment_id),
        forall|segment_id: u16|
            #[trigger] told.contains_key(segment_id) ==> loaded_as(load, segment_id, told[segment_id]),
    ensures
        known(first, told, read_empty(first), read_from_disk(told)),
        answered(space, segments, read, load, first.kept, loaded, read_empty(first), read_from_disk(told)),
        forall|resident: spec_fn(u32) -> bool, stored: spec_fn(u16) -> SegmentView|
            #[trigger] observes(read, load, resident, stored) ==> known(first, told, resident, stored),
{
    lemma_known(first, told);
    let resident = read_empty(first);
    let stored = read_from_disk(told);
    assert forall|j: int|
        0 <= j < first.kept.len() && !is_evicted(segments, space.segment_of(#[trigger] first.kept[j])) implies call_ensures(
        read,
        (first.kept[j],),
        resident(first.kept[j]),
    ) by {
        assert(resident(first.kept[j]) <==> first.verdicts[j] is Empty);
    }
    assert forall|i: int| 0 <= i < loaded.len() implies loaded_as(load, #[trigger] loaded[i], stored(loaded[i])) by {
        assert(loaded.contains(loaded[i]));
        assert(told.contains_key(loaded[i]));
    }
    assert forall|resident: spec_fn(u32) -> bool, stored: spec_fn(u16) -> SegmentView|
        #[trigger] observes(read, load, resident, stored) implies known(first, told, resident, stored) by {
        assert forall|segment_id: u16| #[trigger] told.contains_key(segment_id) implies stored(segment_id)
            == told[segment_id] by {
            let given = choose|given: StoredSegment|
                #[trigger] call_ensures(load, (segment_id,), given) && given@ == told[segment_id];
            assert(call_ensures(load, (segment_id,), given));
        }
    }
}

} // verus!
