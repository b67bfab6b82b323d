//! Physical memory units and the allocation interface.
//!
//! A [`Frame`] names one fixed-size unit of physical memory by its index.
//! Holding a `Frame` value is a capability, not a proof of exclusive use:
//! exclusivity is the allocator's bookkeeping, which the [`FrameAllocator`]
//! trait states through an abstract set of available frame indices.

use vstd::prelude::*;

pub mod area_frame_allocator;
pub mod paging;

verus! {

/// Size in bytes of one page or frame.
pub const PAGE_SIZE: u64 = 4096;

/// A physical memory unit, identified by its index
/// (`physical_address / PAGE_SIZE`).
#[derive(Debug, PartialEq, Eq, Structural)]
pub struct Frame {
    number: u64,
}

impl Frame {
    /// The frame index as seen by contracts.
    pub closed spec fn id(self) -> u64 {
        self.number
    }

    /// Frame containing the given physical address.
    pub fn containing_address(address: u64) -> (r: Frame)
        ensures
            r.id() == address / PAGE_SIZE,
    {
        Frame { number: address / PAGE_SIZE }
    }

    /// First physical address inside the frame.
    pub fn start_address(&self) -> (r: u64)
        requires
            self.id() < 0x10_0000_0000_0000u64,
        ensures
            r == self.id() * PAGE_SIZE,
    {
        self.number * PAGE_SIZE
    }

    /// Duplicating a frame handle stays inside the crate, so that client code
    /// cannot conjure a second capability to the same physical unit.
    pub(crate) fn clone(&self) -> (r: Frame)
        ensures
            r.id() == self.id(),
    {
        Frame { number: self.number }
    }

    /// Frame with the given index, for the paging machinery.
    pub(crate) fn from_index(number: u64) -> (r: Frame)
        ensures
            r.id() == number,
    {
        Frame { number }
    }

    /// The frame index as an executable value.
    pub(crate) fn num(&self) -> (r: u64)
        ensures
            r == self.id(),
    {
        self.number
    }

    /// All frames from `start` to `end`, both included, in increasing order.
    pub fn range_inclusive(start: Frame, end: Frame) -> (r: FrameIter)
        ensures
            r.spec_start() == start.id(),
            r.spec_end() == end.id(),
    {
        FrameIter { start, end }
    }
}

/// Iterator over an inclusive range of frames.
pub struct FrameIter {
    start: Frame,
    end: Frame,
}

impl FrameIter {
    /// Start of the remaining range.
    pub closed spec fn spec_start(self) -> u64 {
        self.start.id()
    }

    /// End of the range, included.
    pub closed spec fn spec_end(self) -> u64 {
        self.end.id()
    }

    /// Next frame of the range, if one is left.
    pub fn next(&mut self) -> (r: Option<Frame>)
        requires
            old(self).spec_end() < 0xffff_ffff_ffff_ffffu64,
        ensures
            final(self).spec_end() == old(self).spec_end(),
            old(self).spec_start() <= old(self).spec_end() ==> {
                &&& r matches Some(f) && f.id() == old(self).spec_start()
                &&& final(self).spec_start() == old(self).spec_start() + 1
            },
            old(self).spec_start() > old(self).spec_end() ==> {
                &&& r is None
                &&& final(self).spec_start() == old(self).spec_start()
            },
    {
        if self.start.number <= self.end.number {
            let frame = self.start.clone();
            self.start.number = self.start.number + 1;
            Some(frame)
        } else {
            None
        }
    }
}

/// Interface every frame allocator offers: hand out a frame, take one back.
///
/// `avail()` is the set of frame indices the allocator may still hand out;
/// `wf()` is the allocator's own well-formedness.  An allocation removes the
/// returned frame from `avail()`, and a failed allocation means the set was
/// empty, so a caller that knows how many frames it needs can tell exactly
/// when it is owed success.
pub trait FrameAllocator {
    /// Allocator-specific well-formedness.
    spec fn wf(&self) -> bool;

    /// Frame indices this allocator may still hand out.
    spec fn avail(&self) -> Set<u64>;

    /// Allocate one frame.
    fn allocate_frame(&mut self) -> (r: Option<Frame>)
        requires
            old(self).wf(),
        ensures
            final(self).wf(),
            (match r {
                Some(f) => old(self).avail().contains(f.id())
                    && final(self).avail() == old(self).avail().remove(f.id()),
                None => old(self).avail() =~= Set::<u64>::empty()
                    && final(self).avail() == old(self).avail(),
            }),
    ;

    /// May `frame` be handed back right now?  Where an allocator cannot
    /// take a frame — a full cache, or a frame it already holds — the
    /// give-back is a logic error elsewhere, refused by precondition
    /// rather than tolerated silently.
    spec fn accepts(&self, frame: Frame) -> bool;

    /// Return a frame.  An allocator may also discard it (a leak, never a
    /// double hand-out).
    fn deallocate_frame(&mut self, frame: Frame)
        requires
            old(self).wf(),
            old(self).accepts(frame),
        ensures
            final(self).wf(),
            final(self).avail() == old(self).avail().insert(frame.id())
                || final(self).avail() == old(self).avail(),
    ;
}

} // verus!
