//! Reading evicted segments back from disk, one at a time.

use vstd::prelude::*;
use crate::slots::StoredSegment;

verus! {

/// Where segments are read from.
///
/// Every segment that is read is logged, and none can be read while the last
/// one is held.
pub struct SegmentSource<L> {
    load: L,
    log: Ghost<Seq<u16>>,
    held: Ghost<bool>,
}

/// A segment that was read. Only a source makes one, and it cannot be copied.
pub struct LoadedSegment {
    segment: StoredSegment,
}

impl LoadedSegment {
    /// What the disk holds of the segment.
    pub closed spec fn stored(self) -> StoredSegment {
        self.segment
    }

    /// What the disk holds of the segment.
    pub fn segment(&self) -> (segment: &StoredSegment)
        ensures
            *segment == self.stored(),
    {
        &self.segment
    }
}

impl<L: Fn(u16) -> StoredSegment> SegmentSource<L> {
    /// How a segment is read.
    pub closed spec fn loader(self) -> L {
        self.load
    }

    /// The segments that were read, in their order.
    pub closed spec fn log(self) -> Seq<u16> {
        self.log@
    }

    /// A segment that was read was not given back yet.
    pub closed spec fn held(self) -> bool {
        self.held@
    }

    pub fn new(load: L) -> (source: SegmentSource<L>)
        ensures
            source.loader() == load,
            source.log() == Seq::<u16>::empty(),
            !source.held(),
    {
        SegmentSource { load, log: Ghost(Seq::empty()), held: Ghost(false) }
    }

    /// Read a segment.
    pub fn load(&mut self, segment_id: u16) -> (loaded: LoadedSegment)
        requires
            !old(self).held(),
            call_requires(old(self).loader(), (segment_id,)),
        ensures
            call_ensures(old(self).loader(), (segment_id,), loaded.stored()),
            final(self).loader() == old(self).loader(),
            final(self).log() == old(self).log().push(segment_id),
            final(self).held(),
    {
        let segment = (self.load)(segment_id);
        self.log = Ghost(self.log@.push(segment_id));
        self.held = Ghost(true);
        LoadedSegment { segment }
    }

    /// Give a segment back: it is dropped.
    pub fn release(&mut self, loaded: LoadedSegment)
        requires
            old(self).held(),
        ensures
            final(self).loader() == old(self).loader(),
            final(self).log() == old(self).log(),
            !final(self).held(),
    {
        self.held = Ghost(false);
    }
}

} // verus!
