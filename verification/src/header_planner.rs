//! Planning from header inventories.
//!
//! An inventory is a bounded list of headers with hints on who holds the
//! objects behind them. Before anything is fetched the planner finds the
//! highest known point that the inventory touches, asks for native validation
//! of what lies above it, and compares the cumulative work.

use vstd::prelude::*;
use crate::arith::sat_sub;
use crate::bytes::{hash_eq, Digest};
use crate::peer::PeerId;

verus! {

/// Most headers that one request asks for.
pub const OLDER_RANGE_MAX: u64 = 512;

/// A block of some chain.
#[derive(Clone, Copy, Debug)]
pub struct ChainPoint {
    pub height: u64,
    pub hash: Digest,
}

impl ChainPoint {
    pub fn new(height: u64, hash: Digest) -> (point: ChainPoint)
        ensures
            point == (ChainPoint { height, hash }),
    {
        ChainPoint { height, hash }
    }

    pub fn same(&self, other: &ChainPoint) -> (same: bool)
        ensures
            same == (*self == *other),
    {
        self.height == other.height && hash_eq(&self.hash, &other.hash)
    }
}

/// The block that an advertised object belongs to.
#[derive(Clone, Copy, Debug)]
pub struct ObjectClaim {
    pub height: u64,
    pub block_hash: Digest,
}

/// One header of an inventory and the objects that its sender holds.
#[derive(Clone, Copy, Debug)]
pub struct HeaderInventoryRecord {
    pub height: u64,
    pub hash: Digest,
    pub difficulty_target: Digest,
    pub body: Option<ObjectClaim>,
    pub terminal: Option<ObjectClaim>,
}

impl HeaderInventoryRecord {
    pub open spec fn spec_point(self) -> ChainPoint {
        ChainPoint { height: self.height, hash: self.hash }
    }

    pub fn point(&self) -> (point: ChainPoint)
        ensures
            point == self.spec_point(),
    {
        ChainPoint { height: self.height, hash: self.hash }
    }
}

/// A header that passed native validation, with the work of the chain up to it.
#[derive(Clone, Copy, Debug)]
pub struct ValidatedHeader {
    pub height: u64,
    pub hash: Digest,
    pub difficulty_target: Digest,
    pub cumulative_work: Digest,
}

impl ValidatedHeader {
    pub open spec fn spec_point(self) -> ChainPoint {
        ChainPoint { height: self.height, hash: self.hash }
    }

    pub fn point(&self) -> (point: ChainPoint)
        ensures
            point == self.spec_point(),
    {
        ChainPoint { height: self.height, hash: self.hash }
    }

    /// The record of this header with no object advertised.
    pub open spec fn bare(self) -> HeaderInventoryRecord {
        HeaderInventoryRecord {
            height: self.height,
            hash: self.hash,
            difficulty_target: self.difficulty_target,
            body: None,
            terminal: None,
        }
    }

    pub fn header_only(&self) -> (record: HeaderInventoryRecord)
        ensures
            record == self.bare(),
    {
        HeaderInventoryRecord {
            height: self.height,
            hash: self.hash,
            difficulty_target: self.difficulty_target,
            body: None,
            terminal: None,
        }
    }
}

/// What an inventory calls for.
#[derive(Debug)]
pub enum HeaderInventoryPlan {
    /// The peer is at our tip.
    Confirmed { tip: ChainPoint },
    /// Nothing in it is new.
    Behind,
    /// Its headers hang in the air: ask for older ones.
    NeedOlder { start_height: u64, count: u16 },
    /// A validated branch.
    Candidate {
        headers: Vec<ValidatedHeader>,
        records: Vec<HeaderInventoryRecord>,
        old_tip: ChainPoint,
        target: ChainPoint,
    },
    /// The peer left our chain below the finalized block.
    FinalizedDivergence,
}

/// How planning goes on.
#[derive(Debug)]
pub enum InventoryStep {
    Planned(HeaderInventoryPlan),
    /// Validate these records natively above the ancestor.
    Validate { ancestor: ChainPoint, competing: Vec<HeaderInventoryRecord> },
}

/// Why a validated branch is not planned.
#[derive(Clone, Copy, Debug, PartialEq, Eq, Structural)]
pub enum PlanError {
    /// The summed work is not the work that validation reported.
    ChainworkDisagrees,
}

impl PlanError {
    /// The words in which it is reported.
    pub open spec fn words(self) -> Seq<char> {
        match self {
            PlanError::ChainworkDisagrees => "header-plan chainwork disagrees with native validation"@,
        }
    }

    /// The words in which it is reported.
    pub fn message(&self) -> (text: &'static str)
        ensures
            text@ == self.words(),
    {
        match self {
            PlanError::ChainworkDisagrees => "header-plan chainwork disagrees with native validation",
        }
    }
}

/// The height below which no header is asked for.
pub open spec fn search_floor(local_height: u64, finality_depth: u64) -> u64 {
    sat_sub(local_height, finality_depth)
}

pub fn finalized_header_search_floor(local_height: u64, finality_depth: u64) -> (floor: u64)
    ensures
        floor == search_floor(local_height, finality_depth),
{
    local_height.saturating_sub(finality_depth)
}

/// The whole range that may still change, as start and count.
pub fn nonfinal_header_discovery_range(local_height: u64, finality_depth: u64) -> (range: Option<(u64, u16)>)
    requires
        local_height - search_floor(local_height, finality_depth) < u16::MAX,
    ensures
        range == (if local_height == 0 {
            None
        } else {
            Some(
                (
                    search_floor(local_height, finality_depth),
                    (local_height - search_floor(local_height, finality_depth) + 1) as u16,
                ),
            )
        }),
{
    if local_height == 0 {
        return None;
    }
    let start_height: u64 = finalized_header_search_floor(local_height, finality_depth);
    let count: u64 = local_height - start_height + 1;
    Some((start_height, count as u16))
}

/// Whether a batch reaches down to the finalized blocks.
pub fn header_batch_exhausts_nonfinal_window(local_height: u64, oldest_height: u64, finality_depth: u64) -> (reaches:
    bool)
    ensures
        reaches == (oldest_height <= search_floor(local_height, finality_depth)),
{
    oldest_height <= finalized_header_search_floor(local_height, finality_depth)
}

/// The point from which a branch is validated.
///
/// A canonical point is taken even where later headers are known already: the
/// branch is then replayed from it, so that a later inventory of the same
/// headers becomes a fresh plan. Only a continuation whose canonical base is
/// out of sight starts at a point that is validated but not committed.
pub fn header_inventory_validation_anchor(canonical: Option<ChainPoint>, validated_dag: Option<ChainPoint>) -> (anchor:
    Option<ChainPoint>)
    ensures
        anchor == (if canonical is Some {
            canonical
        } else {
            validated_dag
        }),
{
    match canonical {
        Some(point) => Some(point),
        None => validated_dag,
    }
}

/// The higher of two points; of two at one height, the later.
pub open spec fn higher(best: Option<ChainPoint>, next: Option<ChainPoint>) -> Option<ChainPoint> {
    match (best, next) {
        (Some(b), Some(n)) => if n.height >= b.height {
            Some(n)
        } else {
            Some(b)
        },
        (None, _) => next,
        (_, None) => best,
    }
}

/// The highest point of a list, the last of them where several are level.
pub open spec fn highest(points: Seq<Option<ChainPoint>>) -> Option<ChainPoint>
    decreases points.len(),
{
    if points.len() == 0 {
        None
    } else {
        higher(highest(points.drop_last()), points.last())
    }
}

/// The highest point is one of the list, none is above it, and it is missing only from a list without points.
pub proof fn lemma_highest(points: Seq<Option<ChainPoint>>)
    ensures
        match highest(points) {
            Some(point) => points.contains(Some(point)) && forall|i: int|
                0 <= i < points.len() && (#[trigger] points[i]) is Some ==> points[i]->0.height <= point.height,
            None => forall|i: int| 0 <= i < points.len() ==> (#[trigger] points[i]) is None,
        },
    decreases points.len(),
{
    if points.len() > 0 {
        let rest = points.drop_last();
        lemma_highest(rest);
        assert forall|i: int| 0 <= i < points.len() - 1 implies #[trigger] points[i] == rest[i] by {}
        if highest(rest) is Some && highest(points) == highest(rest) {
            let k = choose|k: int| 0 <= k < rest.len() && rest[k] == highest(rest);
            assert(points[k] == highest(points));
        } else if highest(points) is Some {
            assert(points[points.len() - 1] == highest(points));
        }
    }
}

/// Where the canonical chain holds a record, not below the finalized block.
pub open spec fn canonical_point(record: HeaderInventoryRecord, found: Option<u64>, finalized: ChainPoint) -> Option<
    ChainPoint,
> {
    match found {
        Some(height) => if height >= finalized.height {
            Some(ChainPoint { height, hash: record.hash })
        } else {
            None
        },
        None => None,
    }
}

/// Where the validated headers, or the finalized block, hold a record.
pub open spec fn known_point(record: HeaderInventoryRecord, known: bool, finalized: ChainPoint) -> Option<ChainPoint> {
    if record.spec_point() == finalized || known {
        Some(record.spec_point())
    } else {
        None
    }
}

pub open spec fn canonical_points(
    records: Seq<HeaderInventoryRecord>,
    found: Seq<Option<u64>>,
    finalized: ChainPoint,
) -> Seq<Option<ChainPoint>> {
    Seq::new(records.len(), |i: int| canonical_point(records[i], found[i], finalized))
}

pub open spec fn known_points(records: Seq<HeaderInventoryRecord>, known: Seq<bool>, finalized: ChainPoint) -> Seq<
    Option<ChainPoint>,
> {
    Seq::new(records.len(), |i: int| known_point(records[i], known[i], finalized))
}

/// The point above which an inventory is validated.
pub open spec fn validation_anchor(
    records: Seq<HeaderInventoryRecord>,
    found: Seq<Option<u64>>,
    known: Seq<bool>,
    finalized: ChainPoint,
) -> Option<ChainPoint> {
    let canonical = highest(canonical_points(records, found, finalized));
    if canonical is Some {
        canonical
    } else {
        highest(known_points(records, known, finalized))
    }
}

/// The records above a height, in their order.
pub open spec fn records_above(records: Seq<HeaderInventoryRecord>, height: u64) -> Seq<HeaderInventoryRecord>
    decreases records.len(),
{
    if records.len() == 0 {
        Seq::empty()
    } else {
        let rest = records_above(records.drop_last(), height);
        if records.last().height > height {
            rest.push(records.last())
        } else {
            rest
        }
    }
}

/// How many older headers are asked for at once.
pub open spec fn older_count(finality_depth: u64) -> u16 {
    if finality_depth * 2 < OLDER_RANGE_MAX {
        (finality_depth * 2) as u16
    } else {
        OLDER_RANGE_MAX as u16
    }
}

/// What the planner answers before anything is validated.
pub open spec fn step_matches(
    step: InventoryStep,
    tip: ChainPoint,
    finalized: ChainPoint,
    records: Seq<HeaderInventoryRecord>,
    found: Seq<Option<u64>>,
    known: Seq<bool>,
    finality_depth: u64,
) -> bool {
    let floor = search_floor(tip.height, finality_depth);
    if records.len() == 0 {
        if tip.height == 0 {
            step == InventoryStep::Planned(HeaderInventoryPlan::Behind)
        } else {
            step == InventoryStep::Planned(
                HeaderInventoryPlan::NeedOlder { start_height: floor, count: (tip.height - floor + 1) as u16 },
            )
        }
    } else {
        match validation_anchor(records, found, known, finalized) {
            None => if records[0].height <= floor {
                step == InventoryStep::Planned(HeaderInventoryPlan::FinalizedDivergence)
            } else {
                step == InventoryStep::Planned(
                    HeaderInventoryPlan::NeedOlder { start_height: floor, count: older_count(finality_depth) },
                )
            },
            Some(ancestor) => if ancestor.height < finalized.height {
                step == InventoryStep::Planned(HeaderInventoryPlan::FinalizedDivergence)
            } else if records_above(records, ancestor.height).len() == 0 {
                if ancestor == tip {
                    step == InventoryStep::Planned(HeaderInventoryPlan::Confirmed { tip })
                } else {
                    step == InventoryStep::Planned(HeaderInventoryPlan::Behind)
                }
            } else {
                match step {
                    InventoryStep::Validate { ancestor: a, competing } => a == ancestor && competing@
                        == records_above(records, ancestor.height),
                    _ => false,
                }
            },
        }
    }
}

/// Plan an inventory as far as that goes without validating headers.
///
/// `found[i]` is the height at which the canonical chain holds record `i`,
/// `known[i]` says whether the validated headers hold that very header.
pub fn plan_header_inventory(
    tip: ChainPoint,
    finalized: ChainPoint,
    records: &Vec<HeaderInventoryRecord>,
    found: &Vec<Option<u64>>,
    known: &Vec<bool>,
    finality_depth: u64,
) -> (step: InventoryStep)
    requires
        found@.len() == records@.len(),
        known@.len() == records@.len(),
        finality_depth * 2 <= u16::MAX,
    ensures
        step_matches(step, tip, finalized, records@, found@, known@, finality_depth),
{
    if records.len() == 0 {
        return match nonfinal_header_discovery_range(tip.height, finality_depth) {
            None => InventoryStep::Planned(HeaderInventoryPlan::Behind),
            Some((start_height, count)) => InventoryStep::Planned(
                HeaderInventoryPlan::NeedOlder { start_height, count },
            ),
        };
    }
    let mut canonical: Option<ChainPoint> = None;
    let mut validated: Option<ChainPoint> = None;
    let mut i: usize = 0;
    let ghost all_canonical = canonical_points(records@, found@, finalized);
    let ghost all_known = known_points(records@, known@, finalized);
    while i < records.len()
        invariant
            i <= records@.len(),
            found@.len() == records@.len(),
            known@.len() == records@.len(),
            all_canonical == canonical_points(records@, found@, finalized),
            all_known == known_points(records@, known@, finalized),
            canonical == highest(all_canonical.take(i as int)),
            validated == highest(all_known.take(i as int)),
        decreases records@.len() - i,
    {
        let record = records[i];
        if let Some(height) = found[i] {
            if height >= finalized.height {
                canonical = higher_point(canonical, ChainPoint { height, hash: record.hash });
            }
        }
        let point = record.point();
        if point.same(&finalized) || known[i] {
            validated = higher_point(validated, point);
        }
        assert(all_canonical.take(i + 1).drop_last() =~= all_canonical.take(i as int));
        assert(all_known.take(i + 1).drop_last() =~= all_known.take(i as int));
        i = i + 1;
    }
    assert(all_canonical.take(i as int) =~= all_canonical);
    assert(all_known.take(i as int) =~= all_known);
    match header_inventory_validation_anchor(canonical, validated) {
        None => {
            if header_batch_exhausts_nonfinal_window(tip.height, records[0].height, finality_depth) {
                return InventoryStep::Planned(HeaderInventoryPlan::FinalizedDivergence);
            }
            let twice: u64 = finality_depth * 2;
            let count: u16 = if twice < OLDER_RANGE_MAX {
                twice as u16
            } else {
                OLDER_RANGE_MAX as u16
            };
            InventoryStep::Planned(
                HeaderInventoryPlan::NeedOlder {
                    start_height: finalized_header_search_floor(tip.height, finality_depth),
                    count,
                },
            )
        },
        Some(ancestor) => {
            if ancestor.height < finalized.height {
                return InventoryStep::Planned(HeaderInventoryPlan::FinalizedDivergence);
            }
            let competing = competing_records(records, ancestor.height);
            if competing.len() == 0 {
                return if ancestor.same(&tip) {
                    InventoryStep::Planned(HeaderInventoryPlan::Confirmed { tip })
                } else {
                    InventoryStep::Planned(HeaderInventoryPlan::Behind)
                };
            }
            InventoryStep::Validate { ancestor, competing }
        },
    }
}

fn higher_point(best: Option<ChainPoint>, next: ChainPoint) -> (higher_of: Option<ChainPoint>)
    ensures
        higher_of == higher(best, Some(next)),
{
    match best {
        Some(b) => if next.height >= b.height {
            Some(next)
        } else {
            Some(b)
        },
        None => Some(next),
    }
}

fn competing_records(records: &Vec<HeaderInventoryRecord>, height: u64) -> (above: Vec<HeaderInventoryRecord>)
    ensures
        above@ == records_above(records@, height),
{
    let mut above: Vec<HeaderInventoryRecord> = Vec::new();
    let mut i: usize = 0;
    while i < records.len()
        invariant
            i <= records@.len(),
            above@ == records_above(records@.take(i as int), height),
        decreases records@.len() - i,
    {
        assert(records@.take(i + 1).drop_last() =~= records@.take(i as int));
        if records[i].height > height {
            above.push(records[i]);
        }
        i = i + 1;
    }
    assert(records@.take(i as int) =~= records@);
    above
}

/// What competes lies above the ancestor and was in the inventory.
pub proof fn lemma_records_above(records: Seq<HeaderInventoryRecord>, height: u64)
    ensures
        forall|i: int|
            0 <= i < records_above(records, height).len() ==> {
                let record = #[trigger] records_above(records, height)[i];
                record.height > height && records.contains(record)
            },
        forall|i: int|
            0 <= i < records.len() && (#[trigger] records[i]).height > height ==> records_above(
                records,
                height,
            ).contains(records[i]),
    decreases records.len(),
{
    if records.len() > 0 {
        let rest = records.drop_last();
        let above = records_above(records, height);
        let before = records_above(rest, height);
        lemma_records_above(rest, height);
        assert forall|i: int| 0 <= i < above.len() implies {
            let record = #[trigger] above[i];
            record.height > height && records.contains(record)
        } by {
            if i < before.len() {
                assert(above[i] == before[i]);
                let k = choose|k: int| 0 <= k < rest.len() && rest[k] == before[i];
                assert(records[k] == above[i]);
            } else {
                assert(above[i] == records[records.len() - 1]);
            }
        }
        assert forall|i: int| 0 <= i < records.len() && (#[trigger] records[i]).height > height implies above.contains(
            records[i],
        ) by {
            if i < records.len() - 1 {
                assert(rest[i] == records[i]);
                let k = choose|k: int| 0 <= k < before.len() && before[k] == records[i];
                assert(above[k] == records[i]);
            } else {
                assert(above[above.len() - 1] == records[i]);
            }
        }
    }
}

/// Final blocks are never planned anew: what is validated lies above the finalized block and was in the inventory.
pub proof fn lemma_final_blocks_stay(
    step: InventoryStep,
    tip: ChainPoint,
    finalized: ChainPoint,
    records: Seq<HeaderInventoryRecord>,
    found: Seq<Option<u64>>,
    known: Seq<bool>,
    finality_depth: u64,
)
    requires
        step_matches(step, tip, finalized, records, found, known, finality_depth),
    ensures
        match step {
            InventoryStep::Validate { ancestor, competing } => {
                &&& ancestor.height >= finalized.height
                &&& competing@.len() > 0
                &&& forall|i: int|
                    0 <= i < competing@.len() ==> {
                        let record = #[trigger] competing@[i];
                        record.height > finalized.height && records.contains(record)
                    }
            },
            _ => true,
        },
{
    if let InventoryStep::Validate { ancestor, competing } = step {
        lemma_records_above(records, ancestor.height);
    }
}

/// The headers that native validation is handed: the validated path from the
/// final block to the ancestor, where there is one, and the competing headers.
///
/// `path_from` loads the headers above its first point up to its second.
pub fn validation_path<H, E, P: FnOnce(ChainPoint, ChainPoint) -> Result<Vec<H>, E>>(
    finalized: ChainPoint,
    ancestor: ChainPoint,
    competing: Vec<H>,
    path_from: P,
) -> (result: Result<Vec<H>, E>)
    requires
        call_requires(path_from, (finalized, ancestor)),
    ensures
        if ancestor == finalized {
            result is Ok && result->Ok_0@ == competing@
        } else {
            exists|loaded: Result<Vec<H>, E>|
                {
                    &&& #[trigger] call_ensures(path_from, (finalized, ancestor), loaded)
                    &&& match loaded {
                        Ok(path) => result is Ok && result->Ok_0@ == path@ + competing@,
                        Err(error) => result == Err::<Vec<H>, E>(error),
                    }
                }
        },
{
    let mut competing = competing;
    if ancestor.same(&finalized) {
        return Ok(competing);
    }
    match path_from(finalized, ancestor) {
        Ok(path) => {
            let ghost loaded = Ok::<Vec<H>, E>(path);
            assert(call_ensures(path_from, (finalized, ancestor), loaded));
            let mut headers = path;
            headers.append(&mut competing);
            Ok(headers)
        },
        Err(error) => Err(error),
    }
}

/// The cumulative work of each header, from the work of the ancestor on.
///
/// `add_work` is handed the work so far and a header's difficulty target.
pub open spec fn work_chain<F: Fn(Digest, Digest) -> Digest>(
    add_work: F,
    ancestor_work: Digest,
    records: Seq<HeaderInventoryRecord>,
    headers: Seq<ValidatedHeader>,
) -> bool {
    &&& headers.len() == records.len()
    &&& forall|i: int|
        0 <= i < headers.len() ==> {
            let header = #[trigger] headers[i];
            &&& header.spec_point() == records[i].spec_point()
            &&& header.difficulty_target == records[i].difficulty_target
            &&& call_ensures(
                add_work,
                (
                    if i == 0 {
                        ancestor_work
                    } else {
                        headers[i - 1].cumulative_work
                    },
                    records[i].difficulty_target,
                ),
                header.cumulative_work,
            )
        }
}

/// Turn natively validated records into a candidate branch.
///
/// `target_work` is the work that validation reported for the last record.
pub fn plan_validated_candidate<F: Fn(Digest, Digest) -> Digest>(
    old_tip: ChainPoint,
    ancestor_work: Digest,
    competing: Vec<HeaderInventoryRecord>,
    target_work: Digest,
    add_work: F,
) -> (result: Result<HeaderInventoryPlan, PlanError>)
    requires
        competing@.len() > 0,
        forall|work: Digest, target: Digest| call_requires(add_work, (work, target)),
    ensures
        exists|summed: Seq<ValidatedHeader>|
            {
                &&& #[trigger] work_chain(add_work, ancestor_work, competing@, summed)
                &&& match result {
                    Ok(HeaderInventoryPlan::Candidate { headers, records, old_tip: from, target }) => {
                        &&& headers@ == summed
                        &&& summed.last().cumulative_work == target_work
                        &&& records@ == competing@
                        &&& from == old_tip
                        &&& target == competing@.last().spec_point()
                    },
                    Ok(_) => false,
                    Err(PlanError::ChainworkDisagrees) => summed.last().cumulative_work != target_work,
                }
            },
{
    let mut headers: Vec<ValidatedHeader> = Vec::new();
    let mut work: Digest = ancestor_work;
    let mut i: usize = 0;
    while i < competing.len()
        invariant
            i <= competing@.len(),
            forall|work: Digest, target: Digest| call_requires(add_work, (work, target)),
            work_chain(add_work, ancestor_work, competing@.take(i as int), headers@),
            work == (if i == 0 {
                ancestor_work
            } else {
                headers@.last().cumulative_work
            }),
        decreases competing@.len() - i,
    {
        let record = competing[i];
        work = add_work(work, record.difficulty_target);
        let ghost before = headers@;
        headers.push(
            ValidatedHeader {
                height: record.height,
                hash: record.hash,
                difficulty_target: record.difficulty_target,
                cumulative_work: work,
            },
        );
        i = i + 1;
        assert(work_chain(add_work, ancestor_work, competing@.take(i as int), headers@)) by {
            let records = competing@.take(i as int);
            assert forall|j: int| 0 <= j < headers@.len() implies {
                let header = #[trigger] headers@[j];
                &&& header.spec_point() == records[j].spec_point()
                &&& header.difficulty_target == records[j].difficulty_target
                &&& call_ensures(
                    add_work,
                    (
                        if j == 0 {
                            ancestor_work
                        } else {
                            headers@[j - 1].cumulative_work
                        },
                        records[j].difficulty_target,
                    ),
                    header.cumulative_work,
                )
            } by {
                if j < before.len() {
                    assert(headers@[j] == before[j]);
                    assert(j > 0 ==> headers@[j - 1] == before[j - 1]);
                    assert(records[j] == competing@.take(i - 1)[j]);
                }
            }
        }
    }
    assert(competing@.take(i as int) =~= competing@);
    if !hash_eq(&work, &target_work) {
        return Err(PlanError::ChainworkDisagrees);
    }
    let target = competing[competing.len() - 1].point();
    Ok(HeaderInventoryPlan::Candidate { headers, records: competing, old_tip, target })
}

/// One header after the other enters the header store, up to the first refusal.
///
/// `insert` turns a store and a header into the store after it and its verdict.
pub open spec fn recorded<D, E, F: Fn(D, ValidatedHeader) -> (D, Result<(), E>)>(
    insert: F,
    before: D,
    headers: Seq<ValidatedHeader>,
    after: D,
    result: Result<(), E>,
) -> bool
    decreases headers.len(),
{
    if headers.len() == 0 {
        after == before && result == Ok::<(), E>(())
    } else {
        exists|next: D, verdict: Result<(), E>|
            {
                &&& #[trigger] call_ensures(insert, (before, headers[0]), (next, verdict))
                &&& match verdict {
                    Ok(_) => recorded(insert, next, headers.skip(1), after, result),
                    Err(_) => after == next && result == verdict,
                }
            }
    }
}

/// Record validated headers in order; the first refusal ends it.
pub fn record_validated_headers<D, E, F: Fn(D, ValidatedHeader) -> (D, Result<(), E>)>(
    dag: D,
    headers: &Vec<ValidatedHeader>,
    insert: F,
) -> (outcome: (D, Result<(), E>))
    requires
        forall|store: D, header: ValidatedHeader| call_requires(insert, (store, header)),
    ensures
        recorded(insert, dag, headers@, outcome.0, outcome.1),
{
    let mut store: D = dag;
    let mut i: usize = 0;
    assert(headers@.skip(0) =~= headers@);
    while i < headers.len()
        invariant
            i <= headers@.len(),
            forall|store: D, header: ValidatedHeader| call_requires(insert, (store, header)),
            forall|after: D, result: Result<(), E>|
                #[trigger] recorded(insert, store, headers@.skip(i as int), after, result) ==> recorded(
                    insert,
                    dag,
                    headers@,
                    after,
                    result,
                ),
        decreases headers@.len() - i,
    {
        let ghost from = store;
        let ghost left = headers@.skip(i as int);
        let (next, verdict) = insert(store, headers[i]);
        let ghost reached = next;
        assert(left[0] == headers@[i as int]);
        assert(left.skip(1) =~= headers@.skip(i + 1));
        match verdict {
            Ok(_) => {
                store = next;
                i = i + 1;
                assert forall|after: D, result: Result<(), E>| #[trigger]
                    recorded(insert, store, headers@.skip(i as int), after, result) implies recorded(
                    insert,
                    dag,
                    headers@,
                    after,
                    result,
                ) by {
                    assert(recorded(insert, from, left, after, result));
                }
            },
            Err(error) => {
                assert(recorded(insert, from, left, next, Err::<(), E>(error)));
                return (next, Err(error));
            },
        }
    }
    assert(recorded(insert, store, headers@.skip(i as int), store, Ok::<(), E>(())));
    (store, Ok(()))
}

/// A record that advertises an object of a header that is known.
pub open spec fn advertises(record: HeaderInventoryRecord, known: bool) -> bool {
    known && (record.body is Some || record.terminal is Some)
}

/// The records that may be advertised.
pub open spec fn advertised(records: Seq<HeaderInventoryRecord>, known: Seq<bool>) -> Seq<HeaderInventoryRecord>
    recommends
        records.len() == known.len(),
    decreases records.len(),
{
    if records.len() == 0 {
        Seq::empty()
    } else {
        let rest = advertised(records.drop_last(), known.drop_last());
        if advertises(records.last(), known.last()) {
            rest.push(records.last())
        } else {
            rest
        }
    }
}

/// The hints of an inventory that may be kept, if there are any.
///
/// A response may repeat headers that entered through an earlier announcement:
/// its hints are kept although the planner calls it known. Headers that are
/// not known get no hints before they are validated.
pub fn advertise_inventory_for_known_headers(records: &Vec<HeaderInventoryRecord>, known: &Vec<bool>) -> (hints:
    Option<Vec<HeaderInventoryRecord>>)
    requires
        known@.len() == records@.len(),
    ensures
        match hints {
            Some(list) => list@ == advertised(records@, known@) && list@.len() > 0,
            None => advertised(records@, known@).len() == 0,
        },
{
    let mut list: Vec<HeaderInventoryRecord> = Vec::new();
    let mut i: usize = 0;
    while i < records.len()
        invariant
            i <= records@.len(),
            known@.len() == records@.len(),
            list@ == advertised(records@.take(i as int), known@.take(i as int)),
        decreases records@.len() - i,
    {
        assert(records@.take(i + 1).drop_last() =~= records@.take(i as int));
        assert(known@.take(i + 1).drop_last() =~= known@.take(i as int));
        let record = records[i];
        if known[i] && (record.body.is_some() || record.terminal.is_some()) {
            list.push(record);
        }
        i = i + 1;
    }
    assert(records@.take(i as int) =~= records@);
    assert(known@.take(i as int) =~= known@);
    if list.len() == 0 {
        None
    } else {
        Some(list)
    }
}

/// Why no exact plan can be made of a validated suffix.
#[derive(Debug, PartialEq, Eq)]
pub enum SuffixSyncError<E> {
    EmptySuffix,
    /// Nobody advertises the terminal of the tip.
    MissingTipTerminal,
    /// The offer could not be made, and why.
    Offer(E),
    /// Some body has no source.
    MissingBodySource,
}

/// How a suffix continues the chain.
#[derive(Clone, Copy, Debug, PartialEq, Eq, Structural)]
pub enum SuffixKind {
    /// It extends the tip.
    Live,
    /// It replaces blocks below the tip.
    Reorg,
}

/// A suffix that starts at the tip extends it.
pub open spec fn suffix_kind(base: ChainPoint, old_tip: ChainPoint) -> SuffixKind {
    if base == old_tip {
        SuffixKind::Live
    } else {
        SuffixKind::Reorg
    }
}

/// What one provider advertises, record by record along the suffix.
#[derive(Debug)]
pub struct ProviderInventory {
    pub peer: PeerId,
    pub records: Vec<HeaderInventoryRecord>,
}

/// The records of a suffix: bare headers, and the terminal on the last.
pub open spec fn bootstrap_records(headers: Seq<ValidatedHeader>, terminal: ObjectClaim) -> Seq<HeaderInventoryRecord> {
    Seq::new(
        headers.len(),
        |i: int|
            if i == headers.len() - 1 {
                HeaderInventoryRecord { terminal: Some(terminal), ..headers[i].bare() }
            } else {
                headers[i].bare()
            },
    )
}

/// A provider advertises the body of the `index`-th header.
pub open spec fn serves_body(inventory: ProviderInventory, index: int, header: ValidatedHeader) -> bool {
    &&& index < inventory.records@.len()
    &&& match inventory.records@[index].body {
        Some(claim) => claim.height == header.height && claim.block_hash == header.hash,
        None => false,
    }
}

/// Somebody advertises the body of the `index`-th header.
pub open spec fn body_has_source(inventories: Seq<ProviderInventory>, index: int, header: ValidatedHeader) -> bool {
    exists|p: int| 0 <= p < inventories.len() && serves_body(#[trigger] inventories[p], index, header)
}

/// Every body of the suffix has a source.
pub open spec fn bodies_covered(inventories: Seq<ProviderInventory>, headers: Seq<ValidatedHeader>) -> bool {
    forall|i: int| 0 <= i < headers.len() ==> body_has_source(inventories, i, #[trigger] headers[i])
}

fn find_body_source(inventories: &Vec<ProviderInventory>, index: usize, header: &ValidatedHeader) -> (found: bool)
    ensures
        found == body_has_source(inventories@, index as int, *header),
{
    let mut p: usize = 0;
    while p < inventories.len()
        invariant
            p <= inventories@.len(),
            forall|q: int| 0 <= q < p ==> !serves_body(#[trigger] inventories@[q], index as int, *header),
        decreases inventories@.len() - p,
    {
        let inventory = &inventories[p];
        if index < inventory.records.len() {
            if let Some(claim) = inventory.records[index].body {
                if claim.height == header.height && hash_eq(&claim.block_hash, &header.hash) {
                    assert(serves_body(inventories@[p as int], index as int, *header));
                    return true;
                }
            }
        }
        p = p + 1;
    }
    false
}

fn every_body_has_a_source(inventories: &Vec<ProviderInventory>, headers: &Vec<ValidatedHeader>) -> (covered: bool)
    ensures
        covered == bodies_covered(inventories@, headers@),
{
    let mut i: usize = 0;
    while i < headers.len()
        invariant
            i <= headers@.len(),
            forall|j: int| 0 <= j < i ==> body_has_source(inventories@, j, #[trigger] headers@[j]),
        decreases headers@.len() - i,
    {
        if !find_body_source(inventories, i, &headers[i]) {
            assert(!body_has_source(inventories@, i as int, headers@[i as int]));
            return false;
        }
        i = i + 1;
    }
    true
}

/// Build one exact plan whose objects may come from different peers.
///
/// `terminal` is who advertises the terminal of the suffix's tip, and `offer`
/// makes the plan from the kind of the suffix and its records, or says why not.
/// The plan holds only the terminal; the sources of the bodies are merged afterwards, so a
/// suffix with a body that nobody advertises is not planned.
pub fn source_independent_suffix_offer<
    O,
    E,
    F: FnOnce(SuffixKind, Vec<HeaderInventoryRecord>) -> Result<O, E>,
>(
    terminal: Option<(PeerId, ObjectClaim)>,
    old_tip: ChainPoint,
    base: ChainPoint,
    headers: &Vec<ValidatedHeader>,
    inventories: &Vec<ProviderInventory>,
    offer: F,
) -> (result: Result<(PeerId, O), SuffixSyncError<E>>)
    requires
        forall|kind: SuffixKind, records: Vec<HeaderInventoryRecord>| call_requires(offer, (kind, records)),
    ensures
        result == Err::<(PeerId, O), SuffixSyncError<E>>(SuffixSyncError::EmptySuffix) <==> headers@.len() == 0,
        result == Err::<(PeerId, O), SuffixSyncError<E>>(SuffixSyncError::MissingTipTerminal) <==> headers@.len() > 0
            && terminal is None,
        terminal matches Some((peer, claim)) ==> headers@.len() > 0 ==> exists|records: Vec<HeaderInventoryRecord>, made: Result<O, E>|
            {
                &&& #[trigger] call_ensures(
                    offer,
                    (suffix_kind(base, old_tip), records),
                    made,
                )
                &&& records@ == bootstrap_records(headers@, claim)
                &&& result == (match made {
                    Err(error) => Err::<(PeerId, O), SuffixSyncError<E>>(SuffixSyncError::Offer(error)),
                    Ok(plan) => if bodies_covered(inventories@, headers@) {
                        Ok::<(PeerId, O), SuffixSyncError<E>>((peer, plan))
                    } else {
                        Err::<(PeerId, O), SuffixSyncError<E>>(SuffixSyncError::MissingBodySource)
                    },
                })
            },
{
    if headers.len() == 0 {
        return Err(SuffixSyncError::EmptySuffix);
    }
    let (peer, claim) = match terminal {
        None => {
            return Err(SuffixSyncError::MissingTipTerminal);
        },
        Some(source) => source,
    };
    let mut records: Vec<HeaderInventoryRecord> = Vec::new();
    let mut i: usize = 0;
    while i < headers.len()
        invariant
            i <= headers@.len(),
            records@ == bootstrap_records(headers@, claim).take(i as int),
        decreases headers@.len() - i,
    {
        let mut record = headers[i].header_only();
        if i + 1 == headers.len() {
            record.terminal = Some(claim);
        }
        records.push(record);
        i = i + 1;
        assert(records@ =~= bootstrap_records(headers@, claim).take(i as int));
    }
    assert(records@ =~= bootstrap_records(headers@, claim));
    let kind = if base.same(&old_tip) {
        SuffixKind::Live
    } else {
        SuffixKind::Reorg
    };
    match offer(kind, records) {
        Err(error) => Err(SuffixSyncError::Offer(error)),
        Ok(plan) => if every_body_has_a_source(inventories, headers) {
            Ok((peer, plan))
        } else {
            Err(SuffixSyncError::MissingBodySource)
        },
    }
}

} // verus!
