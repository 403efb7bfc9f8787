//! Search for empty output slots.
//!
//! Holes in segments that are in use come first, the densest segment first, so
//! that payments do not open one segment each. A segment that was evicted from
//! memory is read back from disk and never taken for an empty one: a segment
//! that cannot be read fails the search.

use vstd::prelude::*;
use std::collections::HashSet;
use crate::segment_source::SegmentSource;
use crate::slot_laws::lemma_fresh;
use crate::slot_search::collect_empty_slot_hints_streaming;
use crate::text::{decimal, decimal_text};

verus! {

broadcast use vstd::std_specs::hash::group_hash_axioms;

/// What one slot holds.
#[derive(Clone, Copy, Debug, PartialEq, Eq, Structural)]
pub struct SlotValue {
    pub value: u64,
    pub owner_hi: u128,
    pub owner_lo: u128,
}

/// The slots of one segment, column by column.
#[derive(Debug)]
pub struct SegmentColumns {
    pub values: Vec<u64>,
    pub owners_hi: Vec<u128>,
    pub owners_lo: Vec<u128>,
}

/// What the disk holds of a segment.
#[derive(Debug)]
pub enum StoredSegment {
    /// It could not be read.
    Failed(String),
    Missing,
    Found { log: u8, columns: SegmentColumns },
}

/// The columns of a segment as the proofs see them.
#[verifier::ext_equal]
pub struct ColumnsView {
    pub values: Seq<u64>,
    pub owners_hi: Seq<u128>,
    pub owners_lo: Seq<u128>,
}

impl View for SegmentColumns {
    type V = ColumnsView;

    open spec fn view(&self) -> ColumnsView {
        ColumnsView { values: self.values@, owners_hi: self.owners_hi@, owners_lo: self.owners_lo@ }
    }
}

/// What the disk holds of a segment, as the proofs see it.
#[verifier::ext_equal]
pub enum SegmentView {
    Failed(Seq<char>),
    Missing,
    Found { log: u8, columns: ColumnsView },
}

impl View for StoredSegment {
    type V = SegmentView;

    open spec fn view(&self) -> SegmentView {
        match *self {
            StoredSegment::Failed(error) => SegmentView::Failed(error@),
            StoredSegment::Missing => SegmentView::Missing,
            StoredSegment::Found { log, columns } => SegmentView::Found { log, columns: columns@ },
        }
    }
}

/// What is known of a segment without reading it.
#[derive(Clone, Copy, Debug, PartialEq, Eq, Structural)]
pub struct SegmentInfo {
    /// Slots in use.
    pub live: u32,
    /// The segment is on disk only.
    pub evicted: bool,
}

/// Why the search failed.
#[derive(Debug)]
pub enum SlotError {
    Store(String),
    MissingSegment { segment_id: u16 },
    DepthMismatch { segment_id: u16, stored: u8, expected: usize },
    TooShort { segment_id: u16, local_index: usize },
}

/// Why the search failed, as the proofs see it.
#[verifier::ext_equal]
pub enum SlotFault {
    Store(Seq<char>),
    MissingSegment { segment_id: u16 },
    DepthMismatch { segment_id: u16, stored: u8, expected: usize },
    TooShort { segment_id: u16, local_index: usize },
}

impl View for SlotError {
    type V = SlotFault;

    open spec fn view(&self) -> SlotFault {
        match *self {
            SlotError::Store(error) => SlotFault::Store(error@),
            SlotError::MissingSegment { segment_id } => SlotFault::MissingSegment { segment_id },
            SlotError::DepthMismatch { segment_id, stored, expected } => SlotFault::DepthMismatch {
                segment_id,
                stored,
                expected,
            },
            SlotError::TooShort { segment_id, local_index } => SlotFault::TooShort { segment_id, local_index },
        }
    }
}

impl SlotFault {
    /// The words in which it is reported.
    pub open spec fn words(self) -> Seq<char> {
        match self {
            SlotFault::Store(error) => error,
            SlotFault::MissingSegment { segment_id } => "evicted segment "@ + decimal(segment_id as nat)
                + " is missing from durable state"@,
            SlotFault::DepthMismatch { segment_id, stored, expected } => "segment "@ + decimal(segment_id as nat)
                + " depth mismatch: stored "@ + decimal(stored as nat) + ", expected "@ + decimal(expected as nat),
            SlotFault::TooShort { segment_id, local_index } => "segment "@ + decimal(segment_id as nat)
                + " is too short for local slot "@ + decimal(local_index as nat),
        }
    }
}

impl SlotError {
    /// The words in which it is reported.
    pub fn message(&self) -> (text: String)
        ensures
            text@ == self@.words(),
    {
        match self {
            SlotError::Store(error) => error.clone(),
            SlotError::MissingSegment { segment_id } => {
                let mut text = String::from_str("evicted segment ");
                text.append(decimal_text(*segment_id as u64).as_str());
                text.append(" is missing from durable state");
                text
            },
            SlotError::DepthMismatch { segment_id, stored, expected } => {
                let mut text = String::from_str("segment ");
                text.append(decimal_text(*segment_id as u64).as_str());
                text.append(" depth mismatch: stored ");
                text.append(decimal_text(*stored as u64).as_str());
                text.append(", expected ");
                text.append(decimal_text(*expected as u64).as_str());
                text
            },
            SlotError::TooShort { segment_id, local_index } => {
                let mut text = String::from_str("segment ");
                text.append(decimal_text(*segment_id as u64).as_str());
                text.append(" is too short for local slot ");
                text.append(decimal_text(*local_index as u64).as_str());
                text
            },
        }
    }
}

/// The shape of the slot space.
#[derive(Clone, Copy, Debug)]
pub struct SlotSpace {
    pub num_slots: u64,
    /// Binary logarithm of the slots of a segment.
    pub segment_log: usize,
    /// What an empty slot holds.
    pub empty: SlotValue,
}

impl ColumnsView {
    pub open spec fn covers(self, local_index: int) -> bool {
        &&& local_index < self.values.len()
        &&& local_index < self.owners_hi.len()
        &&& local_index < self.owners_lo.len()
    }

    pub open spec fn slot(self, local_index: int) -> SlotValue {
        SlotValue {
            value: self.values[local_index],
            owner_hi: self.owners_hi[local_index],
            owner_lo: self.owners_lo[local_index],
        }
    }
}

impl SegmentColumns {
    /// Whether a slot is empty; none if the columns end before it.
    pub fn slot_is_empty(&self, local_index: usize, empty: &SlotValue) -> (is_empty: Option<bool>)
        ensures
            is_empty == (if self@.covers(local_index as int) {
                Some(self@.slot(local_index as int) == *empty)
            } else {
                None
            }),
    {
        if local_index >= self.values.len() || local_index >= self.owners_hi.len() || local_index
            >= self.owners_lo.len() {
            return None;
        }
        let slot = SlotValue {
            value: self.values[local_index],
            owner_hi: self.owners_hi[local_index],
            owner_lo: self.owners_lo[local_index],
        };
        Some(slot == *empty)
    }
}

impl SlotSpace {
    pub open spec fn mask(self) -> u32 {
        ((1u32 << self.segment_log) - 1) as u32
    }

    pub open spec fn segment_of(self, index: u32) -> u16 {
        (index >> self.segment_log) as u16
    }

    pub open spec fn local_of(self, index: u32) -> usize {
        (index & self.mask()) as usize
    }

    /// The candidate that is `step` behind the start of the scan of a segment.
    pub open spec fn candidate(self, segment_id: u16, start: u64, step: u32) -> u32 {
        let local_start = start as u32 & self.mask();
        ((segment_id as u32) << self.segment_log) | (local_start.wrapping_add(step) & self.mask())
    }

    pub open spec fn candidates(self, segment_id: u16, start: u64, probes: nat) -> Seq<u32> {
        Seq::new(probes, |step: int| self.candidate(segment_id, start, step as u32))
    }
}

/// The columns of a segment that must be on disk.
pub open spec fn durable_segment(segment_id: u16, stored: SegmentView, expected_log: usize) -> Result<
    ColumnsView,
    SlotFault,
> {
    match stored {
        SegmentView::Failed(error) => Err(SlotFault::Store(error)),
        SegmentView::Missing => Err(SlotFault::MissingSegment { segment_id }),
        SegmentView::Found { log, columns } => if log as usize == expected_log {
            Ok(columns)
        } else {
            Err(SlotFault::DepthMismatch { segment_id, stored: log, expected: expected_log })
        },
    }
}

/// Take the columns of a segment that must be on disk.
pub fn load_durable_segment(segment_id: u16, stored: &StoredSegment, expected_log: usize) -> (result: Result<
    &SegmentColumns,
    SlotError,
>)
    ensures
        match durable_segment(segment_id, stored@, expected_log) {
            Ok(columns) => result is Ok && result->Ok_0@ == columns,
            Err(fault) => result is Err && result->Err_0@ == fault,
        },
{
    match stored {
        StoredSegment::Failed(error) => Err(SlotError::Store(error.clone())),
        StoredSegment::Missing => Err(SlotError::MissingSegment { segment_id }),
        StoredSegment::Found { log, columns } => if *log as usize == expected_log {
            Ok(columns)
        } else {
            Err(SlotError::DepthMismatch { segment_id, stored: *log, expected: expected_log })
        },
    }
}

/// `read` and `load` answer as `resident` and `stored` do.
///
/// `resident` says whether a slot in memory is empty, `stored` what the disk
/// holds of a segment.
pub open spec fn observes<R: Fn(u32) -> bool, L: Fn(u16) -> StoredSegment>(
    read: R,
    load: L,
    resident: spec_fn(u32) -> bool,
    stored: spec_fn(u16) -> SegmentView,
) -> bool {
    &&& forall|index: u32, is_empty: bool|
        #![trigger call_ensures(read, (index,), is_empty)]
        call_ensures(read, (index,), is_empty) ==> is_empty == resident(index)
    &&& forall|segment_id: u16, segment: StoredSegment|
        #![trigger call_ensures(load, (segment_id,), segment)]
        call_ensures(load, (segment_id,), segment) ==> segment@ == stored(segment_id)
}

/// Whether a slot is empty, by the memory or, for an evicted segment, by the disk.
pub open spec fn emptiness(
    space: SlotSpace,
    segments: Seq<SegmentInfo>,
    resident: spec_fn(u32) -> bool,
    stored: spec_fn(u16) -> SegmentView,
    index: u32,
) -> Result<bool, SlotFault> {
    let segment_id = space.segment_of(index);
    let local_index = space.local_of(index);
    if !is_evicted(segments, segment_id) {
        Ok(resident(index))
    } else {
        match durable_segment(segment_id, stored(segment_id), space.segment_log) {
            Err(error) => Err(error),
            Ok(columns) => if columns.covers(local_index as int) {
                Ok(columns.slot(local_index as int) == space.empty)
            } else {
                Err(SlotFault::TooShort { segment_id, local_index })
            },
        }
    }
}

pub open spec fn is_evicted(segments: Seq<SegmentInfo>, segment_id: u16) -> bool {
    segment_id < segments.len() && segments[segment_id as int].evicted
}

/// The candidates in their order, without those out of range, taken or repeated.
pub open spec fn fresh(num_slots: u64, taken: Set<u32>, candidates: Seq<u32>) -> Seq<u32>
    decreases candidates.len(),
{
    if candidates.len() == 0 {
        Seq::empty()
    } else {
        let rest = fresh(num_slots, taken, candidates.drop_last());
        let last = candidates.last();
        if last < num_slots && !taken.contains(last) && !rest.contains(last) {
            rest.push(last)
        } else {
            rest
        }
    }
}

/// Empty slots are collected in the order of the candidates until there are enough.
///
/// The first slot that cannot be judged before that fails the search.
pub open spec fn collect(
    space: SlotSpace,
    segments: Seq<SegmentInfo>,
    resident: spec_fn(u32) -> bool,
    stored: spec_fn(u16) -> SegmentView,
    count: usize,
    hints: Seq<u32>,
    candidates: Seq<u32>,
) -> Result<Seq<u32>, SlotFault>
    decreases candidates.len(),
{
    if hints.len() >= count || candidates.len() == 0 {
        Ok(hints)
    } else {
        match emptiness(space, segments, resident, stored, candidates[0]) {
            Err(error) => Err(error),
            Ok(true) => collect(
                space,
                segments,
                resident,
                stored,
                count,
                hints.push(candidates[0]),
                candidates.skip(1),
            ),
            Ok(false) => collect(space, segments, resident, stored, count, hints, candidates.skip(1)),
        }
    }
}

/// The segments that are read for that, in their order, behind those of `done`:
/// a segment is read when the first candidate in it is reached, and once.
pub open spec fn loads(
    space: SlotSpace,
    segments: Seq<SegmentInfo>,
    resident: spec_fn(u32) -> bool,
    stored: spec_fn(u16) -> SegmentView,
    count: usize,
    hints: Seq<u32>,
    candidates: Seq<u32>,
    done: Seq<u16>,
) -> Seq<u16>
    decreases candidates.len(),
{
    if hints.len() >= count || candidates.len() == 0 {
        done
    } else {
        let home = space.segment_of(candidates[0]);
        let next = if is_evicted(segments, home) && !done.contains(home) {
            done.push(home)
        } else {
            done
        };
        match emptiness(space, segments, resident, stored, candidates[0]) {
            Err(_) => next,
            Ok(true) => loads(
                space,
                segments,
                resident,
                stored,
                count,
                hints.push(candidates[0]),
                candidates.skip(1),
                next,
            ),
            Ok(false) => loads(space, segments, resident, stored, count, hints, candidates.skip(1), next),
        }
    }
}

/// One list of candidates is searched, behind the hints that are there.
pub open spec fn searched(
    space: SlotSpace,
    segments: Seq<SegmentInfo>,
    resident: spec_fn(u32) -> bool,
    stored: spec_fn(u16) -> SegmentView,
    reserved: Set<u32>,
    count: usize,
    hints: Seq<u32>,
    candidates: Seq<u32>,
) -> Result<Seq<u32>, SlotFault> {
    collect(
        space,
        segments,
        resident,
        stored,
        count,
        hints,
        fresh(space.num_slots, reserved.union(hints.to_set()), candidates),
    )
}

/// The segments that are read for one list of candidates.
pub open spec fn search_loads(
    space: SlotSpace,
    segments: Seq<SegmentInfo>,
    resident: spec_fn(u32) -> bool,
    stored: spec_fn(u16) -> SegmentView,
    reserved: Set<u32>,
    count: usize,
    hints: Seq<u32>,
    candidates: Seq<u32>,
) -> Seq<u16> {
    loads(
        space,
        segments,
        resident,
        stored,
        count,
        hints,
        fresh(space.num_slots, reserved.union(hints.to_set()), candidates),
        Seq::empty(),
    )
}

/// `read` answered as `resident` for every slot of the list that is in memory,
/// and `load` as `stored` for every segment of the other list.
pub open spec fn answered<R: Fn(u32) -> bool, L: Fn(u16) -> StoredSegment>(
    space: SlotSpace,
    segments: Seq<SegmentInfo>,
    read: R,
    load: L,
    slots: Seq<u32>,
    loaded: Seq<u16>,
    resident: spec_fn(u32) -> bool,
    stored: spec_fn(u16) -> SegmentView,
) -> bool {
    &&& forall|j: int|
        0 <= j < slots.len() && !is_evicted(segments, space.segment_of(#[trigger] slots[j])) ==> call_ensures(
            read,
            (slots[j],),
            resident(slots[j]),
        )
    &&& forall|i: int| 0 <= i < loaded.len() ==> loaded_as(load, #[trigger] loaded[i], stored(loaded[i]))
}

/// `load` may give this for a segment.
pub open spec fn loaded_as<L: Fn(u16) -> StoredSegment>(load: L, segment_id: u16, segment: SegmentView) -> bool {
    exists|given: StoredSegment| #[trigger] call_ensures(load, (segment_id,), given) && given@ == segment
}

/// One list of candidates was searched with these answers of `read` and `load`,
/// and the segments that were read for it went into the log.
pub open spec fn search_explained<R: Fn(u32) -> bool, L: Fn(u16) -> StoredSegment>(
    space: SlotSpace,
    segments: Seq<SegmentInfo>,
    reserved: Set<u32>,
    count: usize,
    hints: Seq<u32>,
    candidates: Seq<u32>,
    read: R,
    load: L,
    log: Seq<u16>,
    log_after: Seq<u16>,
    outcome: Result<Vec<u32>, SlotError>,
    resident: spec_fn(u32) -> bool,
    stored: spec_fn(u16) -> SegmentView,
) -> bool {
    let loaded = search_loads(space, segments, resident, stored, reserved, count, hints, candidates);
    &&& answered(
        space,
        segments,
        read,
        load,
        fresh(space.num_slots, reserved.union(hints.to_set()), candidates),
        loaded,
        resident,
        stored,
    )
    &&& outcome_is(outcome, searched(space, segments, resident, stored, reserved, count, hints, candidates))
    &&& log_after == log + loaded
}

/// The hints begin with the ones that were there. Behind them no slot comes
/// twice or was there, each is in range and not reserved, and there are no
/// more than were asked for.
pub open spec fn extends_hints(
    space: SlotSpace,
    reserved: Set<u32>,
    count: usize,
    hints: Seq<u32>,
    more: Seq<u32>,
) -> bool {
    &&& hints.len() <= more.len()
    &&& more.len() <= count || more.len() == hints.len()
    &&& forall|i: int| 0 <= i < hints.len() ==> #[trigger] more[i] == hints[i]
    &&& forall|i: int|
        hints.len() <= i < more.len() ==> (#[trigger] more[i]) < space.num_slots && !reserved.contains(more[i])
            && !hints.contains(more[i])
    &&& forall|i: int, j: int| hints.len() <= i < j < more.len() ==> #[trigger] more[i] != #[trigger] more[j]
}

/// The outcome of a search equals what the specification says of it.
pub open spec fn outcome_is(outcome: Result<Vec<u32>, SlotError>, expected: Result<Seq<u32>, SlotFault>) -> bool {
    match (outcome, expected) {
        (Ok(hints), Ok(slots)) => hints@ == slots,
        (Err(error), Err(fault)) => error@ == fault,
        _ => false,
    }
}

/// The segment of a slot, and its place in there.
pub(crate) fn locate(space: &SlotSpace, index: u32) -> (place: (u16, usize))
    requires
        space.segment_log < 32,
    ensures
        place.0 == space.segment_of(index),
        place.1 == space.local_of(index),
{
    let mask: u32 = segment_mask(space);
    ((index >> space.segment_log) as u16, (index & mask) as usize)
}

fn segment_mask(space: &SlotSpace) -> (mask: u32)
    requires
        space.segment_log < 32,
    ensures
        mask == space.mask(),
{
    let log: usize = space.segment_log;
    assert(log < 32 ==> (1u32 << log) > 0) by (bit_vector);
    (1u32 << log) - 1
}

/// Whether a segment is on disk only.
pub(crate) fn evicted(segments: &Vec<SegmentInfo>, segment_id: u16) -> (yes: bool)
    ensures
        yes == is_evicted(segments@, segment_id),
{
    (segment_id as usize) < segments.len() && segments[segment_id as usize].evicted
}

impl SlotSpace {
    /// How many slots a segment has.
    pub open spec fn segment_size(self) -> u32 {
        1u32 << self.segment_log
    }
}

/// The segments below `n` that are in use but not full, in ascending order.
pub open spec fn partial_segments(segments: Seq<SegmentInfo>, full: u32, n: nat) -> Seq<u16>
    decreases n,
{
    if n == 0 {
        Seq::empty()
    } else {
        let rest = partial_segments(segments, full, (n - 1) as nat);
        if 0 < segments[n - 1].live < full {
            rest.push((n - 1) as u16)
        } else {
            rest
        }
    }
}

/// A list turned to the left.
pub open spec fn rotated(ids: Seq<u16>, by: int) -> Seq<u16> {
    ids.skip(by) + ids.take(by)
}

/// A segment is placed behind those that are at least as dense.
pub open spec fn place_by_density(segments: Seq<SegmentInfo>, sorted: Seq<u16>, id: u16) -> Seq<u16>
    decreases sorted.len(),
{
    if sorted.len() == 0 || segments[sorted.last() as int].live >= segments[id as int].live {
        sorted.push(id)
    } else {
        place_by_density(segments, sorted.drop_last(), id).push(sorted.last())
    }
}

/// The densest segments first, equally dense ones in the order they had.
pub open spec fn by_density(segments: Seq<SegmentInfo>, ids: Seq<u16>) -> Seq<u16>
    decreases ids.len(),
{
    if ids.len() == 0 {
        Seq::empty()
    } else {
        place_by_density(segments, by_density(segments, ids.drop_last()), ids.last())
    }
}

/// The order in which the segments with holes are searched.
pub open spec fn refill_order(space: SlotSpace, segments: Seq<SegmentInfo>, draws: Seq<u64>) -> Seq<u16> {
    let ids = partial_segments(segments, space.segment_size(), segments.len());
    if ids.len() == 0 {
        ids
    } else {
        by_density(segments, rotated(ids, (draws[0] as usize % (ids.len() as usize)) as int))
    }
}

/// How many of the random numbers went into that order.
pub open spec fn refill_draws(space: SlotSpace, segments: Seq<SegmentInfo>) -> int {
    if partial_segments(segments, space.segment_size(), segments.len()).len() == 0 {
        0
    } else {
        1
    }
}

/// A segment with nothing in it.
pub open spec fn is_unused(segments: Seq<SegmentInfo>, id: u16) -> bool {
    segments[id as int].live == 0 && !segments[id as int].evicted
}

/// How many slots of an unused segment are looked at.
pub open spec fn probes(space: SlotSpace, reserved: nat, missing: nat) -> nat {
    if reserved + missing < space.segment_size() {
        reserved + missing
    } else {
        space.segment_size() as nat
    }
}

/// One segment that is searched.
#[derive(Clone, Copy, Debug, PartialEq, Eq, Structural)]
pub struct SearchStage {
    pub segment_id: u16,
    /// Where in the segment the scan starts.
    pub start: u64,
    /// The whole segment is scanned, because it has used slots too.
    pub whole: bool,
}

/// The unused segments in the order of the allocator.
pub open spec fn unused_segments(segments: Seq<SegmentInfo>, zone_order: Seq<u16>) -> Seq<u16>
    decreases zone_order.len(),
{
    if zone_order.len() == 0 {
        Seq::empty()
    } else {
        let rest = unused_segments(segments, zone_order.drop_last());
        if is_unused(segments, zone_order.last()) {
            rest.push(zone_order.last())
        } else {
            rest
        }
    }
}

/// Segments with the starts of their scans.
pub open spec fn stages_of(ids: Seq<u16>, starts: Seq<u64>, whole: bool) -> Seq<SearchStage> {
    Seq::new(ids.len(), |i: int| SearchStage { segment_id: ids[i], start: starts[i], whole })
}

/// The segments that a search goes through: first those with holes, the densest
/// first, and behind them the unused ones in the order of the allocator.
pub open spec fn search_stages(
    space: SlotSpace,
    segments: Seq<SegmentInfo>,
    zone_order: Seq<u16>,
    draws: Seq<u64>,
) -> Seq<SearchStage> {
    let order = refill_order(space, segments, draws);
    let starts = draws.skip(refill_draws(space, segments));
    stages_of(order, starts, true) + stages_of(
        unused_segments(segments, zone_order),
        starts.skip(order.len() as int),
        false,
    )
}

/// The candidates of one segment, if hints are missing.
pub open spec fn stage_candidates(
    space: SlotSpace,
    reserved: Set<u32>,
    count: usize,
    hints: Seq<u32>,
    stage: SearchStage,
) -> Seq<u32> {
    space.candidates(
        stage.segment_id,
        stage.start,
        if stage.whole {
            space.segment_size() as nat
        } else {
            probes(space, reserved.len(), (count - hints.len()) as nat)
        },
    )
}

/// What memory and disk say of slots and segments.
pub struct Answers {
    pub resident: spec_fn(u32) -> bool,
    pub stored: spec_fn(u16) -> SegmentView,
}

/// The same answers for every segment that is searched.
pub open spec fn steady(resident: spec_fn(u32) -> bool, stored: spec_fn(u16) -> SegmentView) -> spec_fn(int) -> Answers {
    |i: int| Answers { resident, stored }
}

/// The outcome of searching one segment.
pub open spec fn stage_outcome(
    space: SlotSpace,
    segments: Seq<SegmentInfo>,
    reserved: Set<u32>,
    count: usize,
    stage: SearchStage,
    answers: Answers,
    hints: Seq<u32>,
) -> Result<Seq<u32>, SlotFault> {
    searched(
        space,
        segments,
        answers.resident,
        answers.stored,
        reserved,
        count,
        hints,
        stage_candidates(space, reserved, count, hints, stage),
    )
}

/// The segments that are read while one segment is searched.
pub open spec fn stage_loads(
    space: SlotSpace,
    segments: Seq<SegmentInfo>,
    reserved: Set<u32>,
    count: usize,
    stage: SearchStage,
    answers: Answers,
    hints: Seq<u32>,
) -> Seq<u16> {
    search_loads(
        space,
        segments,
        answers.resident,
        answers.stored,
        reserved,
        count,
        hints,
        stage_candidates(space, reserved, count, hints, stage),
    )
}

/// Segments are searched from the `i`-th on until there are enough hints;
/// `answers` has for each of them what memory and disk say.
pub open spec fn staged(
    space: SlotSpace,
    segments: Seq<SegmentInfo>,
    reserved: Set<u32>,
    count: usize,
    stages: Seq<SearchStage>,
    answers: spec_fn(int) -> Answers,
    hints: Seq<u32>,
    i: int,
) -> Result<Seq<u32>, SlotFault>
    decreases stages.len() - i,
{
    if hints.len() >= count || i >= stages.len() {
        Ok(hints)
    } else {
        match stage_outcome(space, segments, reserved, count, stages[i], answers(i), hints) {
            Err(fault) => Err(fault),
            Ok(more) => staged(space, segments, reserved, count, stages, answers, more, i + 1),
        }
    }
}

/// The segments that are read for that.
pub open spec fn staged_loads(
    space: SlotSpace,
    segments: Seq<SegmentInfo>,
    reserved: Set<u32>,
    count: usize,
    stages: Seq<SearchStage>,
    answers: spec_fn(int) -> Answers,
    hints: Seq<u32>,
    i: int,
) -> Seq<u16>
    decreases stages.len() - i,
{
    if hints.len() >= count || i >= stages.len() {
        Seq::empty()
    } else {
        let here = stage_loads(space, segments, reserved, count, stages[i], answers(i), hints);
        match stage_outcome(space, segments, reserved, count, stages[i], answers(i), hints) {
            Err(_) => here,
            Ok(more) => here + staged_loads(space, segments, reserved, count, stages, answers, more, i + 1),
        }
    }
}

/// `read` and `load` gave these answers for every segment that is searched.
pub open spec fn staged_answered<R: Fn(u32) -> bool, L: Fn(u16) -> StoredSegment>(
    space: SlotSpace,
    segments: Seq<SegmentInfo>,
    reserved: Set<u32>,
    count: usize,
    stages: Seq<SearchStage>,
    read: R,
    load: L,
    answers: spec_fn(int) -> Answers,
    hints: Seq<u32>,
    i: int,
) -> bool
    decreases stages.len() - i,
{
    if hints.len() >= count || i >= stages.len() {
        true
    } else {
        &&& answered(
            space,
            segments,
            read,
            load,
            fresh(
                space.num_slots,
                reserved.union(hints.to_set()),
                stage_candidates(space, reserved, count, hints, stages[i]),
            ),
            stage_loads(space, segments, reserved, count, stages[i], answers(i), hints),
            answers(i).resident,
            answers(i).stored,
        )
        &&& match stage_outcome(space, segments, reserved, count, stages[i], answers(i), hints) {
            Err(_) => true,
            Ok(more) => staged_answered(
                space,
                segments,
                reserved,
                count,
                stages,
                read,
                load,
                answers,
                more,
                i + 1,
            ),
        }
    }
}

/// The hints that a whole search gives.
pub open spec fn empty_slot_hints(
    space: SlotSpace,
    segments: Seq<SegmentInfo>,
    reserved: Set<u32>,
    count: usize,
    zone_order: Seq<u16>,
    draws: Seq<u64>,
    answers: spec_fn(int) -> Answers,
) -> Result<Seq<u32>, SlotFault> {
    staged(
        space,
        segments,
        reserved,
        count,
        search_stages(space, segments, zone_order, draws),
        answers,
        Seq::empty(),
        0,
    )
}

/// A whole search was made with these answers of `read` and `load`, and the
/// segments that were read for it went into the log.
pub open spec fn hints_explained<R: Fn(u32) -> bool, L: Fn(u16) -> StoredSegment>(
    space: SlotSpace,
    segments: Seq<SegmentInfo>,
    reserved: Set<u32>,
    count: usize,
    zone_order: Seq<u16>,
    draws: Seq<u64>,
    read: R,
    load: L,
    log: Seq<u16>,
    log_after: Seq<u16>,
    outcome: Result<Vec<u32>, SlotError>,
    answers: spec_fn(int) -> Answers,
) -> bool {
    let stages = search_stages(space, segments, zone_order, draws);
    &&& staged_answered(space, segments, reserved, count, stages, read, load, answers, Seq::empty(), 0)
    &&& outcome_is(outcome, empty_slot_hints(space, segments, reserved, count, zone_order, draws, answers))
    &&& log_after == log + staged_loads(space, segments, reserved, count, stages, answers, Seq::empty(), 0)
}

fn segment_candidates(space: &SlotSpace, segment_id: u16, start: u64, probes: usize) -> (candidates: Vec<u32>)
    requires
        space.segment_log < 32,
        probes <= u32::MAX,
    ensures
        candidates@ == space.candidates(segment_id, start, probes as nat),
{
    let mask: u32 = segment_mask(space);
    let local_start: u32 = start as u32 & mask;
    let base: u32 = (segment_id as u32) << space.segment_log;
    let mut candidates: Vec<u32> = Vec::new();
    let mut step: usize = 0;
    while step < probes
        invariant
            step <= probes,
            probes <= u32::MAX,
            mask == space.mask(),
            local_start == start as u32 & space.mask(),
            base == (segment_id as u32) << space.segment_log,
            candidates@ == space.candidates(segment_id, start, probes as nat).take(step as int),
        decreases probes - step,
    {
        candidates.push(base | (local_start.wrapping_add(step as u32) & mask));
        step = step + 1;
        assert(candidates@ =~= space.candidates(segment_id, start, probes as nat).take(step as int));
    }
    assert(candidates@ =~= space.candidates(segment_id, start, probes as nat));
    candidates
}

fn find_partial(segments: &Vec<SegmentInfo>, full: u32) -> (ids: Vec<u16>)
    requires
        segments@.len() <= 65536,
    ensures
        ids@ == partial_segments(segments@, full, segments@.len()),
        ids@.len() <= segments@.len(),
        forall|i: int| 0 <= i < ids@.len() ==> (#[trigger] ids@[i]) < segments@.len(),
{
    let mut ids: Vec<u16> = Vec::new();
    let mut n: usize = 0;
    while n < segments.len()
        invariant
            n <= segments@.len() <= 65536,
            ids@ == partial_segments(segments@, full, n as nat),
            ids@.len() <= n,
            forall|i: int| 0 <= i < ids@.len() ==> (#[trigger] ids@[i]) < segments@.len(),
        decreases segments@.len() - n,
    {
        let live: u32 = segments[n].live;
        if 0 < live && live < full {
            ids.push(n as u16);
        }
        n = n + 1;
    }
    ids
}

fn rotate(ids: &Vec<u16>, by: usize) -> (turned: Vec<u16>)
    requires
        by <= ids@.len(),
    ensures
        turned@ == rotated(ids@, by as int),
{
    let mut turned: Vec<u16> = Vec::new();
    let mut i: usize = by;
    while i < ids.len()
        invariant
            by <= i <= ids@.len(),
            turned@ == ids@.subrange(by as int, i as int),
        decreases ids@.len() - i,
    {
        turned.push(ids[i]);
        i = i + 1;
        assert(turned@ =~= ids@.subrange(by as int, i as int));
    }
    assert(turned@ =~= ids@.skip(by as int));
    let mut j: usize = 0;
    while j < by
        invariant
            j <= by <= ids@.len(),
            turned@ == ids@.skip(by as int) + ids@.take(j as int),
        decreases by - j,
    {
        turned.push(ids[j]);
        j = j + 1;
        assert(turned@ =~= ids@.skip(by as int) + ids@.take(j as int));
    }
    turned
}

fn place(segments: &Vec<SegmentInfo>, sorted: &mut Vec<u16>, id: u16)
    requires
        id < segments@.len(),
        forall|i: int| 0 <= i < old(sorted)@.len() ==> (#[trigger] old(sorted)@[i]) < segments@.len(),
    ensures
        final(sorted)@ == place_by_density(segments@, old(sorted)@, id),
        final(sorted)@.len() == old(sorted)@.len() + 1,
        forall|i: int| 0 <= i < final(sorted)@.len() ==> (#[trigger] final(sorted)@[i]) < segments@.len(),
{
    let ghost list = sorted@;
    let live: u32 = segments[id as usize].live;
    let mut at: usize = sorted.len();
    assert(list.take(at as int) =~= list);
    assert(place_by_density(segments@, list, id) =~= place_by_density(segments@, list.take(at as int), id) + list.skip(
        at as int,
    ));
    while at > 0 && segments[sorted[at - 1] as usize].live < live
        invariant
            at <= sorted@.len(),
            sorted@ == list,
            id < segments@.len(),
            live == segments@[id as int].live,
            forall|i: int| 0 <= i < list.len() ==> (#[trigger] list[i]) < segments@.len(),
            place_by_density(segments@, list, id) == place_by_density(segments@, list.take(at as int), id) + list.skip(
                at as int,
            ),
        decreases at,
    {
        let ghost head = list.take(at as int);
        assert(head.last() == list[at - 1]);
        assert(head.drop_last() =~= list.take(at - 1));
        at = at - 1;
        assert(place_by_density(segments@, list, id) =~= place_by_density(segments@, list.take(at as int), id)
            + list.skip(at as int));
    }
    assert(place_by_density(segments@, list.take(at as int), id) == list.take(at as int).push(id)) by {
        if at > 0 {
            assert(list.take(at as int).last() == list[at - 1]);
        }
    }
    sorted.insert(at, id);
    assert(sorted@ =~= list.take(at as int).push(id) + list.skip(at as int));
    assert forall|i: int| 0 <= i < sorted@.len() implies (#[trigger] sorted@[i]) < segments@.len() by {
        if i < at {
            assert(sorted@[i] == list[i]);
        } else if i > at {
            assert(sorted@[i] == list[i - 1]);
        }
    }
}

fn sort_by_density(segments: &Vec<SegmentInfo>, ids: &Vec<u16>) -> (sorted: Vec<u16>)
    requires
        forall|i: int| 0 <= i < ids@.len() ==> (#[trigger] ids@[i]) < segments@.len(),
    ensures
        sorted@ == by_density(segments@, ids@),
        sorted@.len() == ids@.len(),
{
    let mut sorted: Vec<u16> = Vec::new();
    let mut i: usize = 0;
    while i < ids.len()
        invariant
            i <= ids@.len(),
            forall|k: int| 0 <= k < ids@.len() ==> (#[trigger] ids@[k]) < segments@.len(),
            forall|k: int| 0 <= k < sorted@.len() ==> (#[trigger] sorted@[k]) < segments@.len(),
            sorted@ == by_density(segments@, ids@.take(i as int)),
            sorted@.len() == i,
        decreases ids@.len() - i,
    {
        assert(ids@.take(i + 1).drop_last() =~= ids@.take(i as int));
        place(segments, &mut sorted, ids[i]);
        i = i + 1;
    }
    assert(ids@.take(i as int) =~= ids@);
    sorted
}

fn find_unused(segments: &Vec<SegmentInfo>, zone_order: &Vec<u16>) -> (ids: Vec<u16>)
    requires
        forall|i: int| 0 <= i < zone_order@.len() ==> (#[trigger] zone_order@[i]) < segments@.len(),
    ensures
        ids@ == unused_segments(segments@, zone_order@),
        ids@.len() <= zone_order@.len(),
{
    let mut ids: Vec<u16> = Vec::new();
    let mut z: usize = 0;
    while z < zone_order.len()
        invariant
            z <= zone_order@.len(),
            forall|i: int| 0 <= i < zone_order@.len() ==> (#[trigger] zone_order@[i]) < segments@.len(),
            ids@ == unused_segments(segments@, zone_order@.take(z as int)),
            ids@.len() <= z,
        decreases zone_order@.len() - z,
    {
        assert(zone_order@.take(z + 1).drop_last() =~= zone_order@.take(z as int));
        let id: u16 = zone_order[z];
        let info = segments[id as usize];
        if info.live == 0 && !info.evicted {
            ids.push(id);
        }
        z = z + 1;
    }
    assert(zone_order@.take(z as int) =~= zone_order@);
    ids
}

/// Append segments with the starts of their scans.
fn append_stages(stages: &mut Vec<SearchStage>, ids: &Vec<u16>, draws: &Vec<u64>, first: usize, whole: bool)
    requires
        first + ids@.len() <= draws@.len(),
    ensures
        final(stages)@ == old(stages)@ + stages_of(ids@, draws@.skip(first as int), whole),
{
    let ghost before = stages@;
    let ghost added = stages_of(ids@, draws@.skip(first as int), whole);
    let available: usize = draws.len();
    let mut i: usize = 0;
    assert(stages@ =~= before + added.take(0));
    while i < ids.len()
        invariant
            i <= ids@.len(),
            first + ids@.len() <= draws@.len(),
            available == draws@.len(),
            added == stages_of(ids@, draws@.skip(first as int), whole),
            stages@ == before + added.take(i as int),
        decreases ids@.len() - i,
    {
        assert(draws@.skip(first as int)[i as int] == draws@[first + i]);
        stages.push(SearchStage { segment_id: ids[i], start: draws[first + i], whole });
        i = i + 1;
        assert(stages@ =~= before + added.take(i as int));
    }
    assert(added.take(i as int) =~= added);
}

/// The segments that a search goes through.
fn plan_stages(space: &SlotSpace, segments: &Vec<SegmentInfo>, zone_order: &Vec<u16>, draws: &Vec<u64>) -> (stages: Vec<
    SearchStage,
>)
    requires
        space.segment_log < 32,
        segments@.len() <= 65536,
        forall|i: int| 0 <= i < zone_order@.len() ==> (#[trigger] zone_order@[i]) < segments@.len(),
        draws@.len() > segments@.len() + zone_order@.len(),
    ensures
        stages@ == search_stages(*space, segments@, zone_order@, draws@),
{
    let full: u32 = 1u32 << space.segment_log;
    let ids = find_partial(segments, full);
    let available: usize = draws.len();
    let mut drawn: usize = 0;
    let order: Vec<u16> = if ids.len() == 0 {
        ids
    } else {
        let by: usize = draws[0] as usize % ids.len();
        drawn = 1;
        let turned = rotate(&ids, by);
        assert forall|i: int| 0 <= i < turned@.len() implies (#[trigger] turned@[i]) < segments@.len() by {
            if i < ids@.len() - by {
                assert(turned@[i] == ids@[i + by]);
            } else {
                assert(turned@[i] == ids@[i - (ids@.len() - by)]);
            }
        }
        sort_by_density(segments, &turned)
    };
    assert(order@ == refill_order(*space, segments@, draws@));
    assert(drawn == refill_draws(*space, segments@));
    let unused = find_unused(segments, zone_order);
    let mut stages: Vec<SearchStage> = Vec::new();
    append_stages(&mut stages, &order, draws, drawn, true);
    append_stages(&mut stages, &unused, draws, drawn + order.len(), false);
    proof {
        let starts = draws@.skip(drawn as int);
        assert(starts.skip(order@.len() as int) =~= draws@.skip(drawn + order@.len()));
        assert(stages@ =~= search_stages(*space, segments@, zone_order@, draws@));
    }
    stages
}

/// Look at as many slots of a segment as its stage asks for.
fn candidates_of_stage(
    space: &SlotSpace,
    reserved: &HashSet<u32>,
    count: usize,
    hints: &Vec<u32>,
    stage: &SearchStage,
) -> (candidates: Vec<u32>)
    requires
        space.segment_log < 32,
        hints@.len() < count,
    ensures
        candidates@ == stage_candidates(*space, reserved@, count, hints@, *stage),
{
    let size: usize = (1u32 << space.segment_log) as usize;
    let look_at: usize = if stage.whole {
        size
    } else {
        let missing: usize = count - hints.len();
        let wanted: usize = reserved.len().saturating_add(missing);
        if wanted < size {
            wanted
        } else {
            size
        }
    };
    segment_candidates(space, stage.segment_id, stage.start, look_at)
}

/// The answers are these, as far as they are known.
spec fn begins(answers: spec_fn(int) -> Answers, given: Seq<Answers>) -> bool {
    forall|k: int| 0 <= k < given.len() ==> answers(k) == #[trigger] given[k]
}

/// Find up to `count` empty slots that are neither reserved nor named twice.
///
/// `zone_order` is the allocator's order of segments and `draws` the random
/// numbers of this search: one for the order of equally dense segments, and
/// one for each segment that is searched. `read` says whether a slot in memory
/// is empty, `source` gives the segments that are on disk.
pub fn collect_empty_slot_hints<R: Fn(u32) -> bool, L: Fn(u16) -> StoredSegment>(
    space: &SlotSpace,
    segments: &Vec<SegmentInfo>,
    reserved: &HashSet<u32>,
    count: usize,
    zone_order: &Vec<u16>,
    draws: &Vec<u64>,
    read: &R,
    source: &mut SegmentSource<L>,
) -> (outcome: Result<Vec<u32>, SlotError>)
    requires
        space.segment_log < 32,
        segments@.len() <= 65536,
        forall|i: int| 0 <= i < zone_order@.len() ==> (#[trigger] zone_order@[i]) < segments@.len(),
        draws@.len() > segments@.len() + zone_order@.len(),
        forall|index: u32| call_requires(*read, (index,)),
        forall|segment_id: u16| call_requires(old(source).loader(), (segment_id,)),
        !old(source).held(),
    ensures
        final(source).loader() == old(source).loader(),
        !final(source).held(),
        count == 0 ==> outcome is Ok && outcome->Ok_0@.len() == 0 && final(source).log() == old(source).log(),
        outcome matches Ok(hints) ==> extends_hints(*space, reserved@, count, Seq::empty(), hints@),
        exists|answers: spec_fn(int) -> Answers| #[trigger]
            hints_explained(
                *space,
                segments@,
                reserved@,
                count,
                zone_order@,
                draws@,
                *read,
                old(source).loader(),
                old(source).log(),
                final(source).log(),
                outcome,
                answers,
            ),
        forall|resident: spec_fn(u32) -> bool, stored: spec_fn(u16) -> SegmentView|
            #[trigger] observes(*read, old(source).loader(), resident, stored) ==> outcome_is(
                outcome,
                empty_slot_hints(
                    *space,
                    segments@,
                    reserved@,
                    count,
                    zone_order@,
                    draws@,
                    steady(resident, stored),
                ),
            ) && final(source).log() == old(source).log() + staged_loads(
                *space,
                segments@,
                reserved@,
                count,
                search_stages(*space, segments@, zone_order@, draws@),
                steady(resident, stored),
                Seq::empty(),
                0,
            ),
{
    let stages = plan_stages(space, segments, zone_order, draws);
    let mut hints: Vec<u32> = Vec::new();
    let ghost none = Seq::<u32>::empty();
    let ghost loader = source.loader();
    let ghost log = source.log();
    let ghost mut given: Seq<Answers> = Seq::empty();
    let ghost mut logged: Seq<u16> = Seq::empty();
    let mut i: usize = 0;
    assert(hints@ =~= none);
    assert(log + logged =~= log);
    assert forall|answers: spec_fn(int) -> Answers| #[trigger] begins(answers, given) implies staged_loads(
        *space,
        segments@,
        reserved@,
        count,
        stages@,
        answers,
        none,
        0,
    ) == logged + staged_loads(*space, segments@, reserved@, count, stages@, answers, hints@, 0) by {
        assert(logged + staged_loads(*space, segments@, reserved@, count, stages@, answers, none, 0) =~= staged_loads(
            *space,
            segments@,
            reserved@,
            count,
            stages@,
            answers,
            none,
            0,
        ));
    }
    assert forall|resident: spec_fn(u32) -> bool, stored: spec_fn(u16) -> SegmentView|
        #[trigger] observes(*read, loader, resident, stored) implies staged_loads(
        *space,
        segments@,
        reserved@,
        count,
        stages@,
        steady(resident, stored),
        none,
        0,
    ) == logged + staged_loads(*space, segments@, reserved@, count, stages@, steady(resident, stored), hints@, 0) by {
        assert(begins(steady(resident, stored), given));
    }
    while i < stages.len() && hints.len() < count
        invariant
            i <= stages@.len(),
            given.len() == i,
            none == Seq::<u32>::empty(),
            space.segment_log < 32,
            stages@ == search_stages(*space, segments@, zone_order@, draws@),
            source.loader() == loader,
            loader == old(source).loader(),
            log == old(source).log(),
            !source.held(),
            source.log() == log + logged,
            forall|index: u32| call_requires(*read, (index,)),
            forall|segment_id: u16| call_requires(loader, (segment_id,)),
            extends_hints(*space, reserved@, count, none, hints@),
            forall|answers: spec_fn(int) -> Answers|
                #[trigger] begins(answers, given) ==> {
                    &&& staged(*space, segments@, reserved@, count, stages@, answers, none, 0) == staged(
                        *space,
                        segments@,
                        reserved@,
                        count,
                        stages@,
                        answers,
                        hints@,
                        i as int,
                    )
                    &&& staged_loads(*space, segments@, reserved@, count, stages@, answers, none, 0) == logged
                        + staged_loads(*space, segments@, reserved@, count, stages@, answers, hints@, i as int)
                    &&& staged_answered(
                        *space,
                        segments@,
                        reserved@,
                        count,
                        stages@,
                        *read,
                        loader,
                        answers,
                        hints@,
                        i as int,
                    ) ==> staged_answered(
                        *space,
                        segments@,
                        reserved@,
                        count,
                        stages@,
                        *read,
                        loader,
                        answers,
                        none,
                        0,
                    )
                },
            forall|resident: spec_fn(u32) -> bool, stored: spec_fn(u16) -> SegmentView|
                #[trigger] observes(*read, loader, resident, stored) ==> {
                    let answers = steady(resident, stored);
                    &&& staged(*space, segments@, reserved@, count, stages@, answers, none, 0) == staged(
                        *space,
                        segments@,
                        reserved@,
                        count,
                        stages@,
                        answers,
                        hints@,
                        i as int,
                    )
                    &&& staged_loads(*space, segments@, reserved@, count, stages@, answers, none, 0) == logged
                        + staged_loads(*space, segments@, reserved@, count, stages@, answers, hints@, i as int)
                },
        decreases stages@.len() - i,
    {
        let ghost before = hints@;
        let ghost at = source.log();
        let stage = stages[i];
        let candidates = candidates_of_stage(space, reserved, count, &hints, &stage);
        let found = collect_empty_slot_hints_streaming(space, segments, reserved, count, hints, &candidates, read, source);
        let ghost kept = fresh(space.num_slots, reserved@.union(before.to_set()), candidates@);
        proof {
            let (resident, stored) = choose|resident: spec_fn(u32) -> bool, stored: spec_fn(u16) -> SegmentView|
                #[trigger] search_explained(
                    *space,
                    segments@,
                    reserved@,
                    count,
                    before,
                    candidates@,
                    *read,
                    loader,
                    at,
                    source.log(),
                    found,
                    resident,
                    stored,
                );
            let here = Answers { resident, stored };
            let fresh_loads = stage_loads(*space, segments@, reserved@, count, stage, here, before);
            let past = given;
            let past_logged = logged;
            given = past.push(here);
            logged = past_logged + fresh_loads;
            assert(source.log() =~= log + logged);
            assert forall|answers: spec_fn(int) -> Answers| #[trigger] begins(answers, given) implies begins(
                answers,
                past,
            ) && answers(i as int) == here by {
                assert forall|k: int| 0 <= k < past.len() implies answers(k) == #[trigger] past[k] by {
                    assert(given[k] == past[k]);
                }
                assert(given[i as int] == here);
            }
            assert forall|resident: spec_fn(u32) -> bool, stored: spec_fn(u16) -> SegmentView|
                #[trigger] observes(*read, loader, resident, stored) implies stage_loads(
                *space,
                segments@,
                reserved@,
                count,
                stage,
                Answers { resident, stored },
                before,
            ) == fresh_loads by {
                let theirs = stage_loads(
                    *space,
                    segments@,
                    reserved@,
                    count,
                    stage,
                    Answers { resident, stored },
                    before,
                );
                assert(source.log() == at + theirs);
                lemma_same_tail(at, theirs, fresh_loads);
            }
        }
        match found {
            Err(error) => {
                proof {
                    let told = given;
                    let answers = |k: int| told[k];
                    assert(begins(answers, given));
                    assert(stage_outcome(*space, segments@, reserved@, count, stage, answers(i as int), before) is Err);
                    assert(staged_answered(
                        *space,
                        segments@,
                        reserved@,
                        count,
                        stages@,
                        *read,
                        loader,
                        answers,
                        before,
                        i as int,
                    ));
                    assert(hints_explained(
                        *space,
                        segments@,
                        reserved@,
                        count,
                        zone_order@,
                        draws@,
                        *read,
                        loader,
                        log,
                        source.log(),
                        Err(error),
                        answers,
                    ));
                }
                return Err(error);
            },
            Ok(more) => {
                hints = more;
            },
        }
        proof {
            lemma_extends_twice(*space, reserved@, count, none, before, hints@);
            assert forall|answers: spec_fn(int) -> Answers| #[trigger] begins(answers, given) implies staged_loads(
                *space,
                segments@,
                reserved@,
                count,
                stages@,
                answers,
                none,
                0,
            ) == logged + staged_loads(*space, segments@, reserved@, count, stages@, answers, hints@, i + 1) by {
                let rest = staged_loads(*space, segments@, reserved@, count, stages@, answers, hints@, i + 1);
                let here = stage_loads(*space, segments@, reserved@, count, stage, answers(i as int), before);
                let whole = staged_loads(*space, segments@, reserved@, count, stages@, answers, before, i as int);
                assert(whole == here + rest);
                assert(log + (logged + rest) =~= log + logged + rest);
            }
        }
        i = i + 1;
    }
    proof {
        let told = given;
        let answers = |k: int| told[k];
        assert(begins(answers, given));
        assert(staged_answered(
            *space,
            segments@,
            reserved@,
            count,
            stages@,
            *read,
            loader,
            answers,
            hints@,
            i as int,
        ));
        assert(logged + Seq::<u16>::empty() =~= logged);
        assert(hints_explained(
            *space,
            segments@,
            reserved@,
            count,
            zone_order@,
            draws@,
            *read,
            loader,
            log,
            source.log(),
            Ok(hints),
            answers,
        ));
    }
    Ok(hints)
}

/// What follows the same beginning is the same.
proof fn lemma_same_tail(beginning: Seq<u16>, a: Seq<u16>, b: Seq<u16>)
    requires
        beginning + a == beginning + b,
    ensures
        a == b,
{
    assert((beginning + a).skip(beginning.len() as int) =~= a);
    assert((beginning + b).skip(beginning.len() as int) =~= b);
}

/// A search only adds to the hints, whatever memory and disk say.
pub proof fn lemma_searched_extends(
    space: SlotSpace,
    segments: Seq<SegmentInfo>,
    resident: spec_fn(u32) -> bool,
    stored: spec_fn(u16) -> SegmentView,
    reserved: Set<u32>,
    count: usize,
    hints: Seq<u32>,
    candidates: Seq<u32>,
)
    ensures
        match searched(space, segments, resident, stored, reserved, count, hints, candidates) {
            Ok(more) => extends_hints(space, reserved, count, hints, more),
            Err(_) => true,
        },
{
    let taken = reserved.union(hints.to_set());
    let kept = fresh(space.num_slots, taken, candidates);
    lemma_fresh(space.num_slots, taken, candidates);
    assert forall|i: int| 0 <= i < kept.len() implies (#[trigger] kept[i]) < space.num_slots && !reserved.contains(
        kept[i],
    ) && !hints.contains(kept[i]) by {
        assert(!taken.contains(kept[i]));
        assert(hints.to_set().contains(kept[i]) == hints.contains(kept[i]));
    }
    lemma_collect_extends(space, segments, resident, stored, reserved, count, hints, hints, kept);
}

proof fn lemma_collect_extends(
    space: SlotSpace,
    segments: Seq<SegmentInfo>,
    resident: spec_fn(u32) -> bool,
    stored: spec_fn(u16) -> SegmentView,
    reserved: Set<u32>,
    count: usize,
    first: Seq<u32>,
    hints: Seq<u32>,
    candidates: Seq<u32>,
)
    requires
        extends_hints(space, reserved, count, first, hints),
        candidates.no_duplicates(),
        forall|i: int|
            0 <= i < candidates.len() ==> (#[trigger] candidates[i]) < space.num_slots && !reserved.contains(
                candidates[i],
            ) && !first.contains(candidates[i]) && !hints.contains(candidates[i]),
    ensures
        match collect(space, segments, resident, stored, count, hints, candidates) {
            Ok(more) => extends_hints(space, reserved, count, first, more),
            Err(_) => true,
        },
    decreases candidates.len(),
{
    if hints.len() < count && candidates.len() > 0 {
        let rest = candidates.skip(1);
        assert forall|i: int| 0 <= i < rest.len() implies #[trigger] rest[i] == candidates[i + 1] by {}
        let more = hints.push(candidates[0]);
        assert(extends_hints(space, reserved, count, first, more)) by {
            assert forall|i: int, j: int| first.len() <= i < j < more.len() implies #[trigger] more[i]
                != #[trigger] more[j] by {
                if j == hints.len() {
                    assert(hints.contains(hints[i]));
                }
            }
        }
        assert forall|i: int| 0 <= i < rest.len() implies !more.contains(#[trigger] rest[i]) && !hints.contains(
            rest[i],
        ) by {
            assert(!hints.contains(candidates[i + 1]));
            if more.contains(rest[i]) {
                let k = choose|k: int| 0 <= k < more.len() && more[k] == rest[i];
                if k < hints.len() {
                    assert(hints[k] == rest[i]);
                } else {
                    assert(candidates[0] == candidates[i + 1]);
                }
            }
        }
        lemma_collect_extends(space, segments, resident, stored, reserved, count, first, more, rest);
        lemma_collect_extends(space, segments, resident, stored, reserved, count, first, hints, rest);
    }
}

proof fn lemma_extends_twice(
    space: SlotSpace,
    reserved: Set<u32>,
    count: usize,
    first: Seq<u32>,
    hints: Seq<u32>,
    more: Seq<u32>,
)
    requires
        extends_hints(space, reserved, count, first, hints),
        extends_hints(space, reserved, count, hints, more),
    ensures
        extends_hints(space, reserved, count, first, more),
{
    assert forall|i: int| first.len() <= i < more.len() implies (#[trigger] more[i]) < space.num_slots
        && !reserved.contains(more[i]) && !first.contains(more[i]) by {
        if i < hints.len() {
            assert(more[i] == hints[i]);
        } else if first.contains(more[i]) {
            let k = choose|k: int| 0 <= k < first.len() && first[k] == more[i];
            assert(hints[k] == more[i]);
        }
    }
    assert forall|i: int, j: int| first.len() <= i < j < more.len() implies #[trigger] more[i]
        != #[trigger] more[j] by {
        if j < hints.len() {
            assert(more[i] == hints[i] && more[j] == hints[j]);
        } else if i < hints.len() {
            assert(more[i] == hints[i]);
            assert(hints.contains(hints[i]));
        }
    }
}

} // verus!
