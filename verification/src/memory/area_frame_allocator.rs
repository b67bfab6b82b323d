//! A linear frame allocator over the machine's usable memory areas.
//!
//! It scans the areas from low to high addresses, skipping the frames that
//! the kernel image and the boot-information block occupy.  The allocator's
//! abstract state is the set of frames it may still hand out; allocation
//! removes exactly the returned frame, and a failed allocation means the set
//! is empty.  Frames are never reclaimed here.

use vstd::prelude::*;

use crate::memory::Frame;
use crate::memory::FrameAllocator;
use crate::memory::PAGE_SIZE;

verus! {

/// One usable region of physical memory, by start address and length.
#[derive(Debug, Clone, Copy, PartialEq, Eq, Structural)]
pub struct MemoryArea {
    /// First byte of the region.
    pub base_addr: u64,
    /// Length of the region in bytes.
    pub length: u64,
}

/// First frame of an area.
pub open spec fn area_first(a: MemoryArea) -> u64 {
    a.base_addr / PAGE_SIZE
}

/// Last frame of an area.
pub open spec fn area_last(a: MemoryArea) -> u64 {
    ((a.base_addr + a.length - 1) as u64) / PAGE_SIZE
}

/// Scans areas low to high, skipping kernel and boot-information frames.
pub struct AreaFrameAllocator {
    next_free_frame: u64,
    current_area: Option<usize>,
    areas: Vec<MemoryArea>,
    kernel_start: u64,
    kernel_end: u64,
    multiboot_start: u64,
    multiboot_end: u64,
}

impl AreaFrameAllocator {
    spec fn area_ok(a: MemoryArea) -> bool {
        &&& a.length >= 1
        &&& a.base_addr + a.length <= 0x1_0000_0000_0000u64
    }

    spec fn in_kernel(self, f: u64) -> bool {
        self.kernel_start <= f <= self.kernel_end
    }

    spec fn in_multiboot(self, f: u64) -> bool {
        self.multiboot_start <= f <= self.multiboot_end
    }

    spec fn usable(self, f: u64) -> bool {
        &&& f >= self.next_free_frame
        &&& exists|j: int|
            0 <= j < self.areas.len() && area_first(#[trigger] self.areas@[j]) <= f <= area_last(
                self.areas@[j],
            )
        &&& !self.in_kernel(f)
        &&& !self.in_multiboot(f)
    }

    spec fn qualifies(self, j: int) -> bool {
        area_last(self.areas@[j]) >= self.next_free_frame
    }

    /// Greatest frame any area reaches.
    spec fn max_last(self) -> int {
        0x1_0000_0000_0000int
    }

    spec fn measure(self) -> int {
        let base = if self.next_free_frame <= self.max_last() + 1 {
            2 * (self.max_last() + 2 - self.next_free_frame)
        } else {
            0
        };
        base + (match self.current_area {
            Some(j) => {
                if area_last(self.areas@[j as int]) >= self.next_free_frame {
                    0int
                } else {
                    1int
                }
            },
            None => 0int,
        })
    }

    /// Two states agreeing on areas, scan position and reserved spans have
    /// the same usable frames.
    proof fn lemma_usable_same(a: AreaFrameAllocator, b: AreaFrameAllocator)
        requires
            a.areas == b.areas,
            a.next_free_frame == b.next_free_frame,
            a.kernel_start == b.kernel_start,
            a.kernel_end == b.kernel_end,
            a.multiboot_start == b.multiboot_start,
            a.multiboot_end == b.multiboot_end,
        ensures
            forall|f: u64| a.usable(f) <==> b.usable(f),
    {
        assert forall|f: u64| a.usable(f) implies b.usable(f) by {
            let j0 = choose|j0: int|
                0 <= j0 < a.areas.len() && area_first(#[trigger] a.areas@[j0]) <= f <= area_last(
                    a.areas@[j0],
                );
            assert(area_first(b.areas@[j0]) <= f <= area_last(b.areas@[j0]));
        }
        assert forall|f: u64| b.usable(f) implies a.usable(f) by {
            let j0 = choose|j0: int|
                0 <= j0 < b.areas.len() && area_first(#[trigger] b.areas@[j0]) <= f <= area_last(
                    b.areas@[j0],
                );
            assert(area_first(a.areas@[j0]) <= f <= area_last(a.areas@[j0]));
        }
    }

    /// Pick the qualifying area with the lowest base address, if any, and
    /// advance the scan position to its first frame when it lies ahead.
    fn choose_next_area(&mut self)
        requires
            old(self).inv(),
        ensures
            final(self).inv(),
            final(self).settled(),
            final(self).areas == old(self).areas,
            final(self).kernel_start == old(self).kernel_start,
            final(self).kernel_end == old(self).kernel_end,
            final(self).multiboot_start == old(self).multiboot_start,
            final(self).multiboot_end == old(self).multiboot_end,
            final(self).current_area is None ==> forall|j: int|
                0 <= j < final(self).areas.len() ==> !final(self).qualifies(j),
            final(self).current_area is None ==> final(self).next_free_frame == old(
                self,
            ).next_free_frame,
            (final(self).current_area matches Some(c) ==> {
                &&& final(self).qualifies(c as int)
                &&& final(self).next_free_frame >= area_first(final(self).areas@[c as int])
                &&& final(self).next_free_frame >= old(self).next_free_frame
                &&& final(self).next_free_frame <= final(self).max_last() + 1
            }),
            // the scan position moves only over unusable frames
            forall|f: u64| old(self).usable(f) <==> final(self).usable(f),
    {
        let n = self.areas.len();
        let mut best: Option<usize> = None;
        let mut j: usize = 0;
        while j < n
            invariant
                self.inv(),
                n == self.areas.len(),
                j <= n,
                (best matches Some(b) ==> b < n && self.qualifies(b as int)),
                (best matches Some(b) ==> forall|k: int|
                    0 <= k < j && self.qualifies(k) ==> self.areas@[k].base_addr
                        >= self.areas@[b as int].base_addr),
                best is None ==> forall|k: int| 0 <= k < j ==> !self.qualifies(k),
            decreases n - j,
        {
            let al = {
                let a = self.areas[j];
                (a.base_addr + a.length - 1) / PAGE_SIZE
            };
            if al >= self.next_free_frame {
                match best {
                    None => {
                        best = Some(j);
                    },
                    Some(b) => {
                        if self.areas[j].base_addr < self.areas[b].base_addr {
                            best = Some(j);
                        }
                    },
                }
            }
            j = j + 1;
        }
        let ghost scan = *self;
        self.current_area = best;
        proof {
            if best is None {
                assert forall|j: int| 0 <= j < self.areas.len() implies !(
                #[trigger] self.qualifies(j)) by {
                    assert(!scan.qualifies(j));
                }
            }
        }
        match best {
            Some(b) => {
                let start = self.areas[b].base_addr / PAGE_SIZE;
                if self.next_free_frame < start {
                    let ghost pre = *self;
                    self.next_free_frame = start;
                    proof {
                        assert forall|f: u64| pre.usable(f) implies self.usable(f) by {
                            let j0 = choose|j0: int|
                                0 <= j0 < pre.areas.len() && area_first(#[trigger] pre.areas@[j0])
                                    <= f <= area_last(pre.areas@[j0]);
                            assert(area_first(scan.areas@[j0]) <= f <= area_last(
                                scan.areas@[j0],
                            ));
                            if f < start {
                                assert(scan.qualifies(j0));
                                assert(scan.areas@[j0].base_addr
                                    >= scan.areas@[b as int].base_addr);
                                assert(area_first(scan.areas@[j0]) >= start);
                                assert(false);
                            }
                            assert(area_first(self.areas@[j0]) <= f <= area_last(
                                self.areas@[j0],
                            ));
                        }
                        assert forall|f: u64| self.usable(f) implies pre.usable(f) by {
                            let j0 = choose|j0: int|
                                0 <= j0 < self.areas.len() && area_first(#[trigger] self.areas@[j0])
                                    <= f <= area_last(self.areas@[j0]);
                            assert(area_first(pre.areas@[j0]) <= f <= area_last(pre.areas@[j0]));
                        }
                        Self::lemma_usable_same(*old(self), pre);
                    }
                }
            },
            None => {},
        }
        proof {
            if self.next_free_frame == old(self).next_free_frame {
                Self::lemma_usable_same(*old(self), *self);
            }
        }
    }

    spec fn inv(self) -> bool {
        &&& forall|j: int| 0 <= j < self.areas.len() ==> Self::area_ok(#[trigger] self.areas@[j])
        &&& (self.current_area matches Some(c) ==> c < self.areas.len()
            && self.next_free_frame >= area_first(self.areas@[c as int]))
        &&& self.kernel_end < 0x1_0000_0000_0000u64
        &&& self.multiboot_end < 0x1_0000_0000_0000u64
        &&& self.next_free_frame <= 0x1_0000_0000_0001u64
    }

    /// Once the scan has looked for an area, an empty choice means no area
    /// reaches the scan position any more.
    spec fn settled(self) -> bool {
        self.current_area is None ==> forall|j: int|
            0 <= j < self.areas.len() ==> !(#[trigger] self.qualifies(j))
    }

    /// Set up the allocator from the kernel's own span, the
    /// boot-information span, and the machine's usable memory areas.  What
    /// it will hand out is exactly every frame of every area, less the
    /// frames the kernel image and the boot-information block span.
    pub fn new(
        kernel_start: u64,
        kernel_end: u64,
        multiboot_start: u64,
        multiboot_end: u64,
        memory_areas: Vec<MemoryArea>,
    ) -> (r: AreaFrameAllocator)
        requires
            kernel_end < 0x1_0000_0000_0000u64,
            multiboot_end < 0x1_0000_0000_0000u64,
            forall|j: int|
                0 <= j < memory_areas.len() ==> (#[trigger] memory_areas@[j]).length >= 1
                    && memory_areas@[j].base_addr + memory_areas@[j].length
                    <= 0x1_0000_0000_0000u64,
        ensures
            r.wf(),
            forall|f: u64|
                #[trigger] r.avail().contains(f) <==> ({
                    &&& exists|j: int|
                        0 <= j < memory_areas.len() && area_first(#[trigger] memory_areas@[j]) <= f
                            <= area_last(memory_areas@[j])
                    &&& !(kernel_start / PAGE_SIZE <= f <= kernel_end / PAGE_SIZE)
                    &&& !(multiboot_start / PAGE_SIZE <= f <= multiboot_end / PAGE_SIZE)
                }),
    {
        let mut allocator = AreaFrameAllocator {
            next_free_frame: 0,
            current_area: None,
            areas: memory_areas,
            kernel_start: Frame::containing_address(kernel_start).num(),
            kernel_end: Frame::containing_address(kernel_end).num(),
            multiboot_start: Frame::containing_address(multiboot_start).num(),
            multiboot_end: Frame::containing_address(multiboot_end).num(),
        };
        let ghost pre = allocator;
        allocator.choose_next_area();
        proof {
            assert forall|f: u64| #[trigger] allocator.usable(f) implies pre.usable(f) by {
                let j0 = choose|j0: int|
                    0 <= j0 < allocator.areas.len() && area_first(
                        #[trigger] allocator.areas@[j0],
                    ) <= f <= area_last(allocator.areas@[j0]);
                assert(area_first(pre.areas@[j0]) <= f <= area_last(pre.areas@[j0]));
            }
            assert forall|f: u64| pre.usable(f) implies #[trigger] allocator.usable(f) by {
                let j0 = choose|j0: int|
                    0 <= j0 < pre.areas.len() && area_first(#[trigger] pre.areas@[j0]) <= f
                        <= area_last(pre.areas@[j0]);
                assert(area_first(allocator.areas@[j0]) <= f <= area_last(allocator.areas@[j0]));
            }
            assert forall|f: u64| #[trigger] allocator.avail().contains(f) implies ({
                &&& exists|j: int|
                    0 <= j < memory_areas.len() && area_first(#[trigger] memory_areas@[j]) <= f
                        <= area_last(memory_areas@[j])
                &&& !(kernel_start / PAGE_SIZE <= f <= kernel_end / PAGE_SIZE)
                &&& !(multiboot_start / PAGE_SIZE <= f <= multiboot_end / PAGE_SIZE)
            }) by {
                assert(pre.usable(f));
            }
            assert forall|f: u64|
                ({
                    &&& exists|j: int|
                        0 <= j < memory_areas.len() && area_first(#[trigger] memory_areas@[j]) <= f
                            <= area_last(memory_areas@[j])
                    &&& !(kernel_start / PAGE_SIZE <= f <= kernel_end / PAGE_SIZE)
                    &&& !(multiboot_start / PAGE_SIZE <= f <= multiboot_end / PAGE_SIZE)
                }) implies #[trigger] allocator.avail().contains(f) by {
                let j0 = choose|j0: int|
                    0 <= j0 < memory_areas.len() && area_first(#[trigger] memory_areas@[j0]) <= f
                        <= area_last(memory_areas@[j0]);
                assert(area_first(pre.areas@[j0]) <= f <= area_last(pre.areas@[j0]));
                assert(f >= pre.next_free_frame);
                assert(pre.usable(f));
                assert(allocator.usable(f));
            }
        }
        allocator
    }
}

impl FrameAllocator for AreaFrameAllocator {
    /// The bookkeeping invariant.
    closed spec fn wf(&self) -> bool {
        self.inv() && self.settled()
    }

    /// Frames still to be handed out: at or past the scan position, inside
    /// some usable area, outside the kernel and outside the
    /// boot-information block.
    closed spec fn avail(&self) -> Set<u64> {
        Set::new(|f: u64| self.usable(f))
    }

    /// Scan forward to the first usable frame and hand it out.
    fn allocate_frame(&mut self) -> (r: Option<Frame>) {
        loop
            invariant
                self.inv(),
                self.settled(),
                self.avail() == old(self).avail(),
            decreases self.measure(),
        {
            match self.current_area {
                None => {
                    proof {
                        assert forall|f: u64| !self.usable(f) by {
                            if self.usable(f) {
                                let j0 = choose|j0: int|
                                    0 <= j0 < self.areas.len() && area_first(
                                        #[trigger] self.areas@[j0],
                                    ) <= f <= area_last(self.areas@[j0]);
                                assert(self.qualifies(j0));
                                assert(false);
                            }
                        }
                        assert(self.avail() =~= Set::<u64>::empty());
                    }
                    return None;
                },
                Some(area_index) => {
                    let frame = self.next_free_frame;
                    let current_area_last = {
                        let a = self.areas[area_index];
                        (a.base_addr + a.length - 1) / PAGE_SIZE
                    };
                    if frame > current_area_last {
                        // every frame of this area is behind us: move on
                        let ghost pre = *self;
                        self.choose_next_area();
                        proof {
                            assert(pre.qualifies(area_index as int) == (current_area_last
                                >= frame));
                            assert(self.measure() < pre.measure());
                        }
                    } else if frame >= self.kernel_start && frame <= self.kernel_end {
                        // the kernel itself sits here: jump past it
                        let ghost pre = *self;
                        self.next_free_frame = self.kernel_end + 1;
                        proof {
                            assert forall|f: u64| pre.usable(f) implies self.usable(f) by {
                                let j0 = choose|j0: int|
                                    0 <= j0 < pre.areas.len() && area_first(
                                        #[trigger] pre.areas@[j0],
                                    ) <= f <= area_last(pre.areas@[j0]);
                                assert(area_first(self.areas@[j0]) <= f <= area_last(
                                    self.areas@[j0],
                                ));
                                if f < self.next_free_frame {
                                    assert(pre.in_kernel(f));
                                    assert(false);
                                }
                            }
                            assert forall|f: u64| self.usable(f) implies pre.usable(f) by {
                                let j0 = choose|j0: int|
                                    0 <= j0 < self.areas.len() && area_first(
                                        #[trigger] self.areas@[j0],
                                    ) <= f <= area_last(self.areas@[j0]);
                                assert(area_first(pre.areas@[j0]) <= f <= area_last(
                                    pre.areas@[j0],
                                ));
                            }
                            assert(pre.avail() =~= self.avail());
                            assert(self.measure() < pre.measure());
                        }
                    } else if frame >= self.multiboot_start && frame <= self.multiboot_end {
                        // the boot-information block sits here: jump past it
                        let ghost pre = *self;
                        self.next_free_frame = self.multiboot_end + 1;
                        proof {
                            assert forall|f: u64| pre.usable(f) implies self.usable(f) by {
                                let j0 = choose|j0: int|
                                    0 <= j0 < pre.areas.len() && area_first(
                                        #[trigger] pre.areas@[j0],
                                    ) <= f <= area_last(pre.areas@[j0]);
                                assert(area_first(self.areas@[j0]) <= f <= area_last(
                                    self.areas@[j0],
                                ));
                                if f < self.next_free_frame {
                                    assert(pre.in_multiboot(f));
                                    assert(false);
                                }
                            }
                            assert forall|f: u64| self.usable(f) implies pre.usable(f) by {
                                let j0 = choose|j0: int|
                                    0 <= j0 < self.areas.len() && area_first(
                                        #[trigger] self.areas@[j0],
                                    ) <= f <= area_last(self.areas@[j0]);
                                assert(area_first(pre.areas@[j0]) <= f <= area_last(
                                    pre.areas@[j0],
                                ));
                            }
                            assert(pre.avail() =~= self.avail());
                            assert(self.measure() < pre.measure());
                        }
                    } else {
                        let ghost pre = *self;
                        self.next_free_frame = frame + 1;
                        proof {
                            assert(area_first(pre.areas@[area_index as int]) <= frame <= area_last(
                                pre.areas@[area_index as int],
                            ));
                            assert(pre.usable(frame));
                            assert(pre.avail().contains(frame));
                            assert forall|f: u64| pre.usable(f) && f != frame implies self.usable(
                                f,
                            ) by {
                                let j0 = choose|j0: int|
                                    0 <= j0 < pre.areas.len() && area_first(
                                        #[trigger] pre.areas@[j0],
                                    ) <= f <= area_last(pre.areas@[j0]);
                                assert(area_first(self.areas@[j0]) <= f <= area_last(
                                    self.areas@[j0],
                                ));
                            }
                            assert forall|f: u64| self.usable(f) implies pre.usable(f) && f
                                != frame by {
                                let j0 = choose|j0: int|
                                    0 <= j0 < self.areas.len() && area_first(
                                        #[trigger] self.areas@[j0],
                                    ) <= f <= area_last(self.areas@[j0]);
                                assert(area_first(pre.areas@[j0]) <= f <= area_last(
                                    pre.areas@[j0],
                                ));
                            }
                            assert(self.avail() =~= pre.avail().remove(frame));
                        }
                        return Some(Frame::from_index(frame));
                    }
                },
            }
        }
    }

    /// Any frame may be offered back.
    closed spec fn accepts(&self, frame: Frame) -> bool {
        true
    }

    /// Reclamation is not supported: the frame is dropped, a documented
    /// leak rather than a silent double hand-out.
    fn deallocate_frame(&mut self, frame: Frame) {
    }
}

} // verus!
