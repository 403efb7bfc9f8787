use std::cell::RefCell;
use std::collections::HashSet;

use noid_mobile::segment_source::SegmentSource;
use noid_mobile::slot_search::{collect_empty_slot_hints_streaming, SearchStep, SlotSearch};
use noid_mobile::slots::{
    collect_empty_slot_hints, load_durable_segment, SegmentColumns, SegmentInfo,
    SlotError, SlotSpace, SlotValue, StoredSegment,
};

const EMPTY: SlotValue = SlotValue { value: 0, owner_hi: 0, owner_lo: 0 };

/// Four segments of four slots.
fn space() -> SlotSpace {
    SlotSpace { num_slots: 16, segment_log: 2, empty: EMPTY }
}

fn segment(live: u32, evicted: bool) -> SegmentInfo {
    SegmentInfo { live, evicted }
}

fn columns(values: Vec<u64>) -> SegmentColumns {
    let zeros = vec![0; values.len()];
    SegmentColumns { values, owners_hi: zeros.clone(), owners_lo: zeros }
}

fn no_load(_: u16) -> StoredSegment {
    panic!("nothing to load")
}

fn search(
    segments: &Vec<SegmentInfo>,
    reserved: &[u32],
    count: usize,
    zone_order: Vec<u16>,
    used: &[u32],
) -> Vec<u32> {
    let reserved: HashSet<u32> = reserved.iter().copied().collect();
    let used: Vec<u32> = used.to_vec();
    let read = move |index: u32| !used.contains(&index);
    let draws = vec![0; 9];
    collect_empty_slot_hints(&space(), segments, &reserved, count, &zone_order, &draws, &read, &mut SegmentSource::new(no_load)).unwrap()
}

#[test]
fn holes_of_the_densest_segment_come_first() {
    let segments = vec![segment(1, false), segment(3, false), segment(2, false), segment(0, false)];
    let used = [0, 4, 5, 7, 8, 9];
    assert_eq!(search(&segments, &[], 4, vec![3], &used), vec![6, 10, 11, 1]);
}

#[test]
fn full_and_unused_segments_have_no_holes() {
    let segments = vec![segment(4, false), segment(0, false), segment(2, false), segment(0, false)];
    let used = [0, 1, 2, 3, 8, 10];
    assert_eq!(search(&segments, &[], 3, vec![0, 2, 3, 1], &used), vec![9, 11, 12]);
}

#[test]
fn reserved_slots_are_skipped() {
    let segments = vec![segment(0, false), segment(0, false), segment(0, false), segment(0, false)];
    assert_eq!(search(&segments, &[4, 5], 2, vec![1, 0], &[]), vec![6, 7]);
    assert_eq!(search(&segments, &[4, 5, 6], 2, vec![1, 0], &[]), vec![7, 0]);
}

#[test]
fn no_hint_is_asked_for_or_left() {
    let segments = vec![segment(4, false); 4];
    assert!(search(&segments, &[], 0, vec![], &[]).is_empty());
    let used: Vec<u32> = (0..16).collect();
    assert!(search(&segments, &[], 2, vec![0, 1, 2, 3], &used).is_empty());
}

#[test]
fn hints_are_usable_and_distinct() {
    let segments = vec![segment(1, false), segment(2, false), segment(0, false), segment(0, false)];
    let used = [0, 4, 5];
    let hints = search(&segments, &[1, 8], 9, vec![2, 3], &used);
    assert_eq!(hints.len(), 9);
    let distinct: HashSet<u32> = hints.iter().copied().collect();
    assert_eq!(distinct.len(), 9);
    for hint in hints {
        assert!(hint < 16 && !used.contains(&hint) && hint != 1 && hint != 8);
    }
}

#[test]
fn draws_turn_the_order_and_the_scan() {
    let segments = vec![segment(1, false), segment(1, false), segment(0, false), segment(0, false)];
    let reserved = HashSet::new();
    let read = |index: u32| index != 0 && index != 4;
    let draws = vec![1, 2, 0, 0, 0, 0];
    let hints =
        collect_empty_slot_hints(&space(), &segments, &reserved, 3, &vec![], &draws, &read, &mut SegmentSource::new(no_load)).unwrap();
    assert_eq!(hints, vec![6, 7, 5]);
}

#[test]
fn evicted_segment_is_loaded_once() {
    let segments = vec![segment(2, true), segment(0, false), segment(0, false), segment(0, false)];
    let reserved = HashSet::new();
    let loads = RefCell::new(Vec::new());
    let load = |id: u16| {
        loads.borrow_mut().push(id);
        StoredSegment::Found { log: 2, columns: columns(vec![9, 0, 9, 0]) }
    };
    let read = |_: u32| true;
    let hints =
        collect_empty_slot_hints(&space(), &segments, &reserved, 2, &vec![], &vec![0; 8], &read, &mut SegmentSource::new(load)).unwrap();
    assert_eq!(hints, vec![1, 3]);
    assert_eq!(*loads.borrow(), vec![0]);
}

#[test]
fn each_segment_is_loaded_when_it_is_reached() {
    let segments = vec![segment(1, true), segment(1, true), segment(1, false), segment(0, false)];
    let reserved = HashSet::new();
    let loads = RefCell::new(Vec::new());
    let load = |id: u16| {
        loads.borrow_mut().push(id);
        StoredSegment::Found { log: 2, columns: columns(vec![9, 0, 0, 0]) }
    };
    let read = |index: u32| index == 9;
    let candidates = vec![8, 4, 0, 5, 1, 5, 99, 9];
    let found = collect_empty_slot_hints_streaming(
        &space(),
        &segments,
        &reserved,
        5,
        vec![2],
        &candidates,
        &read,
        &mut SegmentSource::new(load),
    )
    .unwrap();
    assert_eq!(found, vec![2, 5, 1, 9]);
    assert_eq!(*loads.borrow(), vec![1, 0]);
}

fn found(values: Vec<u64>) -> StoredSegment {
    StoredSegment::Found { log: 2, columns: columns(values) }
}

#[test]
fn one_segment_is_asked_for_at_a_time() {
    let segments = vec![segment(1, true); 4];
    let reserved = HashSet::new();
    let read = |_: u32| true;
    let mut search = SlotSearch::start(&space(), &segments, &reserved, 3, vec![], &vec![8, 0, 9, 1], &read);
    assert_eq!(search.advance(), SearchStep::Load { segment_id: 2 });
    search.supply(&found(vec![0, 0, 0, 0])).unwrap();
    assert_eq!(search.advance(), SearchStep::Load { segment_id: 0 });
    assert_eq!(search.found, vec![8]);
    search.supply(&found(vec![0, 0, 0, 0])).unwrap();
    assert_eq!(search.advance(), SearchStep::Done);
    assert_eq!(search.found, vec![8, 0, 9]);
    assert_eq!(search.loaded, vec![2, 0]);
}

#[test]
fn reads_that_change_give_usable_hints() {
    let segments = vec![segment(1, false), segment(1, true), segment(0, false), segment(0, false)];
    let reserved: HashSet<u32> = [1].into_iter().collect();
    let calls = RefCell::new(0u32);
    let read = |_: u32| {
        *calls.borrow_mut() += 1;
        *calls.borrow() % 2 == 0
    };
    let loads = RefCell::new(Vec::new());
    let load = |id: u16| {
        loads.borrow_mut().push(id);
        found(vec![loads.borrow().len() as u64, 0, 0, 0])
    };
    let mut source = SegmentSource::new(load);
    let given = vec![3];
    let candidates = vec![0, 1, 2, 3, 4, 5, 6, 99, 2, 8, 9];
    let hints = collect_empty_slot_hints_streaming(
        &space(),
        &segments,
        &reserved,
        4,
        given,
        &candidates,
        &read,
        &mut source,
    )
    .unwrap();
    assert_eq!(hints, vec![3, 2, 5, 6]);
    assert_eq!(*loads.borrow(), vec![1]);
    assert_eq!(*calls.borrow(), 4);
}

#[test]
fn nothing_is_loaded_once_there_are_enough_hints() {
    let segments = vec![segment(1, true), segment(1, false), segment(0, false), segment(0, false)];
    let reserved = HashSet::new();
    let read = |_: u32| true;
    let mut search = SlotSearch::start(&space(), &segments, &reserved, 1, vec![], &vec![4, 0], &read);
    assert_eq!(search.advance(), SearchStep::Done);
    assert_eq!(search.found, vec![4]);
    assert!(search.loaded.is_empty());
}

#[test]
fn short_segments_fail_the_step() {
    let segments = vec![segment(1, true); 4];
    let reserved = HashSet::new();
    let read = |_: u32| true;
    let mut search = SlotSearch::start(&space(), &segments, &reserved, 1, vec![], &vec![3], &read);
    assert_eq!(search.advance(), SearchStep::Load { segment_id: 0 });
    search.supply(&found(vec![0, 0])).unwrap();
    assert_eq!(search.advance(), SearchStep::TooShort { segment_id: 0, local_index: 3 });
    let mut search = SlotSearch::start(&space(), &segments, &reserved, 1, vec![], &vec![3], &read);
    search.advance();
    assert_eq!(search.supply(&StoredSegment::Missing).unwrap_err().message(), "evicted segment 0 is missing from durable state");
}

#[test]
fn draws_do_not_choose_fresh_segments() {
    let segments = vec![segment(4, false), segment(0, false), segment(0, false), segment(0, false)];
    let reserved: HashSet<u32> = [4, 13].into_iter().collect();
    let read = |index: u32| index >= 4;
    let zones = vec![3, 0, 1, 2];
    let run = |draws: Vec<u64>| {
        collect_empty_slot_hints(&space(), &segments, &reserved, 8, &zones, &draws, &read, &mut SegmentSource::new(no_load)).unwrap()
    };
    let first = run(vec![0; 9]);
    let second = run(vec![3, 2, 1, 7, 5, 9, 2, 3, 1]);
    assert_ne!(first, second);
    let homes = |hints: &Vec<u32>| hints.iter().map(|hint| hint >> 2).collect::<Vec<u32>>();
    assert_eq!(homes(&first), vec![3, 3, 3, 1, 1, 1, 2, 2]);
    assert_eq!(homes(&first), homes(&second));
}

#[test]
fn enough_hints_end_the_search_before_a_bad_segment() {
    let segments = vec![segment(1, true), segment(1, false), segment(0, false), segment(0, false)];
    let reserved = HashSet::new();
    let load = |_: u16| StoredSegment::Missing;
    let read = |_: u32| true;
    let found =
        collect_empty_slot_hints_streaming(&space(), &segments, &reserved, 1, vec![], &vec![5, 0], &read, &mut SegmentSource::new(load));
    assert_eq!(found.unwrap(), vec![5]);
    let failed =
        collect_empty_slot_hints_streaming(&space(), &segments, &reserved, 2, vec![], &vec![5, 0], &read, &mut SegmentSource::new(load));
    assert!(matches!(failed.unwrap_err(), SlotError::MissingSegment { segment_id: 0 }));
    let done =
        collect_empty_slot_hints_streaming(&space(), &segments, &reserved, 1, vec![7], &vec![0], &read, &mut SegmentSource::new(load));
    assert_eq!(done.unwrap(), vec![7]);
}

#[test]
fn unreadable_segments_fail_the_search() {
    let segments = vec![segment(1, true), segment(0, false), segment(0, false), segment(0, false)];
    let reserved = HashSet::new();
    let read = |_: u32| true;
    let run = |load: &dyn Fn(u16) -> StoredSegment| {
        let load = |id: u16| load(id);
        collect_empty_slot_hints(&space(), &segments, &reserved, 2, &vec![1], &vec![0; 8], &read, &mut SegmentSource::new(load)).unwrap_err()
    };
    match run(&|_| StoredSegment::Failed("disk".to_string())) {
        SlotError::Store(text) => assert_eq!(text, "disk"),
        other => panic!("{:?}", other),
    }
    assert!(matches!(run(&|_| StoredSegment::Missing), SlotError::MissingSegment { segment_id: 0 }));
    assert!(matches!(
        run(&|_| StoredSegment::Found { log: 3, columns: columns(vec![0; 8]) }),
        SlotError::DepthMismatch { segment_id: 0, stored: 3, expected: 2 }
    ));
    assert!(matches!(
        run(&|_| StoredSegment::Found { log: 2, columns: columns(vec![9]) }),
        SlotError::TooShort { segment_id: 0, local_index: 1 }
    ));
}

#[test]
fn columns_compare_whole_slots() {
    let mut owned = columns(vec![0, 0]);
    owned.owners_lo[1] = 5;
    assert_eq!(owned.slot_is_empty(0, &EMPTY), Some(true));
    assert_eq!(owned.slot_is_empty(1, &EMPTY), Some(false));
    assert_eq!(owned.slot_is_empty(2, &EMPTY), None);
    owned.owners_hi.pop();
    assert_eq!(owned.slot_is_empty(1, &EMPTY), None);
    assert!(load_durable_segment(3, &StoredSegment::Found { log: 2, columns: owned }, 2).is_ok());
}

#[test]
fn slot_errors_are_worded() {
    assert_eq!(SlotError::Store("disk".to_string()).message(), "disk");
    assert_eq!(
        SlotError::MissingSegment { segment_id: 17 }.message(),
        "evicted segment 17 is missing from durable state"
    );
    assert_eq!(
        SlotError::DepthMismatch { segment_id: 4, stored: 15, expected: 16 }.message(),
        "segment 4 depth mismatch: stored 15, expected 16"
    );
    assert_eq!(
        SlotError::TooShort { segment_id: 0, local_index: 65535 }.message(),
        "segment 0 is too short for local slot 65535"
    );
}
