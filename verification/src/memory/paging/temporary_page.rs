//! The scratch page and its three-slot frame cache.
//!
//! A single reserved virtual page, outside every real kernel range, serves as
//! scratch space: one target frame at a time is mapped there so its contents
//! can be written before the frame's table hierarchy is installed.  Mapping
//! the scratch page may itself create up to three intermediate tables, so the
//! [`TinyAllocator`] is pre-filled with exactly three frames drained from the
//! real allocator — never the caller's allocator, which may be busy with the
//! very mapping operation that needs these tables.

use vstd::prelude::*;

use crate::memory::paging::encode_entry;
use crate::memory::paging::p1i;
use crate::memory::paging::p2i;
use crate::memory::paging::p3i;
use crate::memory::paging::p4i;
use crate::memory::paging::is_present;
use crate::memory::paging::PRESENT;
use crate::memory::paging::ActivePageTable;
use crate::memory::paging::Page;
use crate::memory::paging::MAX_FRAMES;
use crate::memory::paging::WRITABLE;
use crate::memory::Frame;
use crate::memory::FrameAllocator;
use crate::memory::PAGE_SIZE;

verus! {

/// What one cache slot contributes to the set of cached frame indices.
pub open spec fn slot_ids(slot: Option<Frame>) -> Set<u64> {
    match slot {
        Some(f) => Set::<u64>::empty().insert(f.id()),
        None => Set::<u64>::empty(),
    }
}

/// A frame cache of exactly three slots.  `allocate_frame` drains the first
/// filled slot; `deallocate_frame` refills the first empty one.  Three frames
/// suffice because one mapping operation can create at most three tables:
/// one per non-leaf level, while the leaf write needs no new table.
pub struct TinyAllocator {
    slots: Vec<Option<Frame>>,
}

impl TinyAllocator {
    /// Build the cache by draining up to three frames from `allocator`.
    pub fn new<A: FrameAllocator>(allocator: &mut A) -> (r: TinyAllocator)
        requires
            old(allocator).wf(),
        ensures
            final(allocator).wf(),
            r.wf(),
            r.avail().finite(),
            r.avail().subset_of(old(allocator).avail()),
            final(allocator).avail().subset_of(old(allocator).avail()),
            r.avail().disjoint(final(allocator).avail()),
            old(allocator).avail() =~= r.avail().union(final(allocator).avail()),
            old(allocator).avail().len() >= 3 ==> r.full(),
            ({
                let s = r.slots_spec();
                &&& s.len() == 3
                &&& match s[0] {
                    None => s[1] is None && s[2] is None && old(allocator).avail() =~= Set::<
                        u64,
                    >::empty(),
                    Some(g0) => old(allocator).avail().contains(g0) && match s[1] {
                        None => s[2] is None && old(allocator).avail().remove(g0) =~= Set::<
                            u64,
                        >::empty(),
                        Some(g1) => old(allocator).avail().remove(g0).contains(g1) && match s[2] {
                            None => old(allocator).avail().remove(g0).remove(g1) =~= Set::<
                                u64,
                            >::empty(),
                            Some(g2) => old(allocator).avail().remove(g0).remove(g1).contains(g2)
                                && final(allocator).avail() == old(allocator).avail().remove(
                                g0,
                            ).remove(g1).remove(g2),
                        },
                    },
                }
            }),
    {

        proof {
            broadcast use vstd::set::axiom_set_empty_len;
            broadcast use vstd::set::axiom_set_remove_len;

        }
        let f0 = allocator.allocate_frame();
        let f1 = allocator.allocate_frame();
        let f2 = allocator.allocate_frame();
        let mut slots: Vec<Option<Frame>> = Vec::new();
        slots.push(f0);
        slots.push(f1);
        slots.push(f2);
        let r = TinyAllocator { slots };
        proof {
            assert(r.slots@[0] == f0 && r.slots@[1] == f1 && r.slots@[2] == f2);
            assert(r.slots_spec().len() == 3);
            assert(r.slots_spec()[0] == match f0 {
                Some(f) => Some(f.id()),
                None => None,
            });
            assert(r.slots_spec()[1] == match f1 {
                Some(f) => Some(f.id()),
                None => None,
            });
            assert(r.slots_spec()[2] == match f2 {
                Some(f) => Some(f.id()),
                None => None,
            });
            assert(r.avail().subset_of(old(allocator).avail()));
            assert(r.avail().disjoint(allocator.avail()));
            assert(old(allocator).avail() =~= r.avail().union(allocator.avail()));
            if old(allocator).avail().len() >= 3 {
                assert(f0 is Some && f1 is Some && f2 is Some);
            }
        }
        r
    }

    /// All three slots are filled.
    pub closed spec fn full(self) -> bool {
        &&& self.slots.len() == 3
        &&& self.slots@[0] is Some
        &&& self.slots@[1] is Some
        &&& self.slots@[2] is Some
    }

    /// The cache never holds more than its three slots.
    pub proof fn lemma_len_at_most_3(self)
        requires
            self.wf(),
        ensures
            self.avail().len() <= 3,
            self.avail().finite(),
    {
        broadcast use vstd::set::axiom_set_empty_len;
        broadcast use vstd::set::axiom_set_insert_len;

        let s0 = slot_ids(self.slots@[0]);
        let s1 = slot_ids(self.slots@[1]);
        let s2 = slot_ids(self.slots@[2]);
        assert(s0.len() <= 1 && s0.finite()) by {
            match self.slots@[0] {
                Some(f) => assert(s0 =~= Set::<u64>::empty().insert(f.id())),
                None => assert(s0 =~= Set::<u64>::empty()),
            }
        }
        assert(s1.len() <= 1 && s1.finite()) by {
            match self.slots@[1] {
                Some(f) => assert(s1 =~= Set::<u64>::empty().insert(f.id())),
                None => assert(s1 =~= Set::<u64>::empty()),
            }
        }
        assert(s2.len() <= 1 && s2.finite()) by {
            match self.slots@[2] {
                Some(f) => assert(s2 =~= Set::<u64>::empty().insert(f.id())),
                None => assert(s2 =~= Set::<u64>::empty()),
            }
        }
        vstd::set_lib::lemma_len_union::<u64>(s0, s1);
        vstd::set_lib::lemma_len_union::<u64>(s0.union(s1), s2);
    }

    /// A full cache holds exactly three frames.
    pub proof fn lemma_full_len(self)
        requires
            self.wf(),
            self.full(),
        ensures
            self.avail().len() == 3,
    {
        broadcast use vstd::set::axiom_set_empty_len;
        broadcast use vstd::set::axiom_set_insert_len;

        let a = self.slots@[0]->Some_0.id();
        let b = self.slots@[1]->Some_0.id();
        let c = self.slots@[2]->Some_0.id();
        assert(self.avail() =~= Set::<u64>::empty().insert(a).insert(b).insert(c));
        assert(Set::<u64>::empty().insert(a).len() == 1);
        assert(Set::<u64>::empty().insert(a).insert(b).len() == 2);
    }

    /// Number of filled slots.
    pub fn cached(&self) -> (r: usize)
        requires
            self.wf(),
        ensures
            r <= 3,
            (r == 3) == self.full(),
            r == self.avail().len(),
    {
        proof {
            broadcast use vstd::set::axiom_set_empty_len;
            broadcast use vstd::set::axiom_set_insert_len;

        }
        let mut r: usize = 0;
        if self.slots[0].is_some() {
            r = r + 1;
        }
        if self.slots[1].is_some() {
            r = r + 1;
        }
        if self.slots[2].is_some() {
            r = r + 1;
        }
        proof {
            let s0 = slot_ids(self.slots@[0]);
            let s01 = s0.union(slot_ids(self.slots@[1]));
            assert(self.avail() == s01.union(slot_ids(self.slots@[2])));
            match self.slots@[0] {
                Some(f) => assert(s0 =~= Set::<u64>::empty().insert(f.id())),
                None => assert(s0 =~= Set::<u64>::empty()),
            }
            match self.slots@[1] {
                Some(f) => assert(s01 =~= s0.insert(f.id())),
                None => assert(s01 =~= s0),
            }
            match self.slots@[2] {
                Some(f) => assert(self.avail() =~= s01.insert(f.id())),
                None => assert(self.avail() =~= s01),
            }
        }
        r
    }

    /// Put `frame` into the first empty slot.
    fn stash(&mut self, frame: Frame)
        requires
            old(self).wf(),
            !old(self).full(),
            !old(self).avail().contains(frame.id()),
        ensures
            final(self).wf(),
            final(self).avail() == old(self).avail().insert(frame.id()),
            exists|k: int|
                {
                    &&& 0 <= k < 3
                    &&& #[trigger] old(self).slots_spec()[k] is None
                    &&& forall|j: int| 0 <= j < k ==> old(self).slots_spec()[j] is Some
                    &&& final(self).slots_spec() == old(self).slots_spec().update(
                        k,
                        Some(frame.id()),
                    )
                },
    {
        if self.slots[0].is_none() {
            self.slots[0] = Some(frame);
            proof {
                assert(self.avail() =~= old(self).avail().insert(frame.id()));
                assert(old(self).slots_spec()[0] is None);
                assert(self.slots_spec() =~= old(self).slots_spec().update(
                    0,
                    Some(frame.id()),
                ));
            }
        } else if self.slots[1].is_none() {
            self.slots[1] = Some(frame);
            proof {
                assert(self.avail() =~= old(self).avail().insert(frame.id()));
                assert(old(self).slots_spec()[1] is None);
                assert(old(self).slots_spec()[0] is Some);
                assert(self.slots_spec() =~= old(self).slots_spec().update(
                    1,
                    Some(frame.id()),
                ));
            }
        } else {
            self.slots[2] = Some(frame);
            proof {
                assert(self.avail() =~= old(self).avail().insert(frame.id()));
                assert(old(self).slots_spec()[2] is None);
                assert(old(self).slots_spec()[0] is Some);
                assert(old(self).slots_spec()[1] is Some);
                assert(self.avail() =~= old(self).avail().insert(frame.id()));
                assert(self.slots_spec() =~= old(self).slots_spec().update(
                    2,
                    Some(frame.id()),
                ));
            }
        }
    }
}

impl TinyAllocator {
    /// The three slots as contracts see them: the cached frame index, or
    /// nothing, per slot.
    pub closed spec fn slots_spec(self) -> Seq<Option<u64>> {
        self.slots@.map_values(
            |o: Option<Frame>|
                match o {
                    Some(f) => Some(f.id()),
                    None => None,
                },
        )
    }
}

impl FrameAllocator for TinyAllocator {
    /// Exactly three slots, no frame cached twice.
    closed spec fn wf(&self) -> bool {
        &&& self.slots.len() == 3
        &&& forall|i: int, j: int|
            #![trigger self.slots@[i], self.slots@[j]]
            0 <= i < j < 3 ==> (self.slots@[i] matches Some(a) ==> (self.slots@[j] matches Some(
            b) ==> a.id() != b.id()))
    }

    /// The cached frame indices.
    closed spec fn avail(&self) -> Set<u64> {
        slot_ids(self.slots@[0]).union(slot_ids(self.slots@[1])).union(slot_ids(self.slots@[2]))
    }

    /// A fourth frame, or one the cache already holds, must never be
    /// offered: doing so is the logic error the contract refuses.
    closed spec fn accepts(&self, frame: Frame) -> bool {
        !self.full() && !self.avail().contains(frame.id())
    }

    /// Drain the first filled slot.
    fn allocate_frame(&mut self) -> (r: Option<Frame>)
        ensures
            (match r {
                Some(f) => exists|k: int|
                    {
                        &&& 0 <= k < 3
                        &&& #[trigger] old(self).slots_spec()[k] == Some(f.id())
                        &&& forall|j: int| 0 <= j < k ==> old(self).slots_spec()[j] is None
                        &&& final(self).slots_spec() == old(self).slots_spec().update(k, None)
                    },
                None => final(self).slots_spec() == old(self).slots_spec(),
            }),
    {
        if self.slots[0].is_some() {
            let id = match &self.slots[0] {
                Some(f) => f.num(),
                None => 0,
            };
            self.slots[0] = None;
            proof {
                assert(self.avail() =~= old(self).avail().remove(id));
                assert(old(self).slots_spec()[0] == Some(id));
                assert(self.slots_spec() =~= old(self).slots_spec().update(0, None));
            }
            Some(Frame::from_index(id))
        } else if self.slots[1].is_some() {
            let id = match &self.slots[1] {
                Some(f) => f.num(),
                None => 0,
            };
            self.slots[1] = None;
            proof {
                assert(self.avail() =~= old(self).avail().remove(id));
                assert(old(self).slots_spec()[1] == Some(id));
                assert(self.slots_spec() =~= old(self).slots_spec().update(1, None));
            }
            Some(Frame::from_index(id))
        } else if self.slots[2].is_some() {
            let id = match &self.slots[2] {
                Some(f) => f.num(),
                None => 0,
            };
            self.slots[2] = None;
            proof {
                assert(self.avail() =~= old(self).avail().remove(id));
                assert(old(self).slots_spec()[2] == Some(id));
                assert(self.slots_spec() =~= old(self).slots_spec().update(2, None));
            }
            Some(Frame::from_index(id))
        } else {
            proof {
                assert(self.avail() =~= Set::<u64>::empty());
                assert(self.slots_spec() =~= old(self).slots_spec());
            }
            None
        }
    }

    /// Refill the first empty slot.  The precondition refuses a fourth
    /// frame and a frame already cached outright — a logic error
    /// elsewhere, never tolerated silently.
    fn deallocate_frame(&mut self, frame: Frame)
        ensures
            final(self).avail() == old(self).avail().insert(frame.id()),
            exists|k: int|
                {
                    &&& 0 <= k < 3
                    &&& #[trigger] old(self).slots_spec()[k] is None
                    &&& forall|j: int| 0 <= j < k ==> old(self).slots_spec()[j] is Some
                    &&& final(self).slots_spec() == old(self).slots_spec().update(
                        k,
                        Some(frame.id()),
                    )
                },
    {
        self.stash(frame);
    }
}

/// The reserved scratch page, paired with its private three-slot cache.
pub struct TemporaryPage {
    page: Page,
    allocator: TinyAllocator,
}

impl TemporaryPage {
    /// Page number of the scratch page.
    pub closed spec fn page_id(self) -> u64 {
        self.page.id()
    }

    /// Frame indices held in the cache.
    pub closed spec fn cache(self) -> Set<u64> {
        self.allocator.avail()
    }

    /// All three cache slots are filled.
    pub closed spec fn cache_full(self) -> bool {
        self.allocator.full()
    }

    /// The cache is well-formed and the scratch page avoids both the
    /// reserved recursive slot and the top of the address space.
    pub closed spec fn wf(self) -> bool {
        &&& self.allocator.wf()
        &&& p4i(self.page.id()) != 511
        &&& self.page.id() < 0x10_0000_0000_0000u64
        &&& self.cache().finite()
    }

    /// Reserve `page` as scratch space, pre-filling the cache with three
    /// frames drained from `allocator`.
    pub fn new<A: FrameAllocator>(page: Page, allocator: &mut A) -> (r: TemporaryPage)
        requires
            p4i(page.id()) != 511,
            page.id() < 0x10_0000_0000_0000u64,
            old(allocator).wf(),
        ensures
            final(allocator).wf(),
            r.wf(),
            r.page_id() == page.id(),
            r.cache().subset_of(old(allocator).avail()),
            final(allocator).avail().subset_of(old(allocator).avail()),
            r.cache().disjoint(final(allocator).avail()),
            old(allocator).avail() =~= r.cache().union(final(allocator).avail()),
            old(allocator).avail().len() >= 3 ==> r.cache_full(),
    {
        let tiny = TinyAllocator::new(allocator);
        TemporaryPage { page, allocator: tiny }
    }

    /// The cache never holds more than its three slots.
    pub proof fn lemma_cache_at_most_3(self)
        requires
            self.wf(),
        ensures
            self.cache().len() <= 3,
            self.cache().finite(),
    {
        self.allocator.lemma_len_at_most_3();
    }

    /// A full cache holds exactly three frames.
    pub proof fn lemma_full_cache_len(self)
        requires
            self.wf(),
            self.cache_full(),
        ensures
            self.cache().len() == 3,
    {
        self.allocator.lemma_full_len();
    }

    /// Does the cache hold the frame with this index?
    pub fn caches(&self, id: u64) -> (r: bool)
        requires
            self.wf(),
        ensures
            r == self.cache().contains(id),
    {
        let c0 = match &self.allocator.slots[0] {
            Some(f) => f.num() == id,
            None => false,
        };
        let c1 = match &self.allocator.slots[1] {
            Some(f) => f.num() == id,
            None => false,
        };
        let c2 = match &self.allocator.slots[2] {
            Some(f) => f.num() == id,
            None => false,
        };
        c0 || c1 || c2
    }

    /// Number of frames currently cached.
    pub fn cached(&self) -> (r: usize)
        requires
            self.wf(),
        ensures
            r <= 3,
            (r == 3) == self.cache_full(),
            r == self.cache().len(),
    {
        self.allocator.cached()
    }

    /// Map the scratch page, read-write, to `frame`, and return the scratch
    /// virtual address.  The scratch page must currently be unmapped; any
    /// tables the mapping needs come from the private cache.
    pub fn map(&mut self, frame: Frame, active_table: &mut ActivePageTable) -> (r: u64)
        requires
            old(self).wf(),
            old(active_table).wf(),
            old(active_table).path_clear(old(self).page_id()),
            frame.id() < MAX_FRAMES,
            old(active_table).chain_complete(old(self).page_id()) || (old(self).cache_full() && old(active_table).alloc_ok(old(self).cache())),
        ensures
            final(self).wf(),
            final(active_table).wf(),
            final(self).page_id() == old(self).page_id(),
            final(active_table).p4_spec() == old(active_table).p4_spec(),
            final(active_table).root() == old(active_table).root(),
            final(active_table).mapped_4k(old(self).page_id()),
            final(active_table).mapping_of(old(self).page_id()) == Some(frame.id() as int),
            final(active_table).leaf_entry(old(self).page_id()) == encode_entry(
                frame.id(),
                WRITABLE | PRESENT,
            ),
            forall|q: u64|
                p4i(q) != 511 && !(p4i(q) == p4i(old(self).page_id()) && p3i(q) == p3i(
                    old(self).page_id(),
                ) && p2i(q) == p2i(old(self).page_id()) && p1i(q) == p1i(old(self).page_id()))
                    ==> #[trigger] final(active_table).mapping_of(q) == old(
                    active_table,
                ).mapping_of(q),
            forall|g: u64|
                old(active_table).has_table(g) ==> #[trigger] final(active_table).has_table(g),
            forall|g: u64|
                old(active_table).has_table(g) ==> #[trigger] final(active_table).lv(g) == old(active_table).lv(g),
            forall|g: u64|
                #[trigger] final(active_table).has_table(g) ==> old(active_table).has_table(g)
                    || old(self).cache().contains(g),
            forall|g: u64, i: int|
                old(active_table).has_table(g) && 0 <= i < 512 && old(active_table).lv(g) == 4 && !(
                g == old(active_table).root() && i == p4i(old(self).page_id())) ==> final(active_table).ent(g, i) == old(active_table).ent(g, i),
            final(self).cache().subset_of(old(self).cache()),
            old(active_table).alloc_ok(old(self).cache()) ==> final(active_table).alloc_ok(
                final(self).cache(),
            ),
            (!old(active_table).chain_complete(old(self).page_id()) ==> final(self).cache().len()
                < old(self).cache().len()),
            (!is_present(old(active_table).e4(old(self).page_id())) && old(
                active_table,
            ).alloc_ok(old(self).cache()) ==> final(self).cache().len() + 3 == old(
                self,
            ).cache().len()),
            r == old(self).page_id() * PAGE_SIZE,
    {
        proof {
            assert(0x2u64 & 0x8000_0000_0000_01ffu64 == 0x2u64 && 0x2u64 & 0x80u64 == 0u64)
                by (bit_vector);
            if !old(active_table).chain_complete(old(self).page_id()) {
                self.allocator.lemma_full_len();
            }
        }
        let result = active_table.map_to(self.page, frame, WRITABLE, &mut self.allocator);
        proof {
            assert(result is Ok);
            assert forall|g: u64| old(active_table).has_table(g) implies #[trigger] active_table
                .has_table(g) by {
                assert(active_table.has_table(g));
            }
            assert forall|g: u64| old(active_table).has_table(g) implies #[trigger] active_table.lv(
                g,
            ) == old(active_table).lv(g) by {
                assert(active_table.has_table(g));
                assert(active_table.lv(g) == old(active_table).lv(g));
            }
        }
        self.page.start_address()
    }

    /// Remove the scratch mapping and return its frame to the cache,
    /// exactly.  A fourth frame, or one the cache already holds, would be a
    /// logic error elsewhere, not a condition to tolerate: both are ruled
    /// out here rather than dropped silently.
    pub fn unmap(&mut self, active_table: &mut ActivePageTable)
        requires
            old(self).wf(),
            old(active_table).wf(),
            old(active_table).mapped_4k(old(self).page_id()),
            old(self).cache().len() < 3,
            (old(active_table).mapping_of(old(self).page_id()) matches Some(f) ==> !old(
                self,
            ).cache().contains(f as u64)),
        ensures
            final(self).wf(),
            final(active_table).wf(),
            final(self).page_id() == old(self).page_id(),
            final(active_table).p4_spec() == old(active_table).p4_spec(),
            final(active_table).root() == old(active_table).root(),
            forall|g: u64|
                final(active_table).has_table(g) == old(active_table).has_table(g),
            forall|g: u64|
                old(active_table).has_table(g) ==> final(active_table).lv(g) == old(active_table).lv(g),
            final(active_table).mapping_of(old(self).page_id()) is None,
            final(active_table).path_clear(old(self).page_id()),
            final(active_table).chain_complete(old(self).page_id()),
            final(active_table).leaf_entry(old(self).page_id()) == 0,
            forall|q: u64|
                p4i(q) != 511 && !(p4i(q) == p4i(old(self).page_id()) && p3i(q) == p3i(
                    old(self).page_id(),
                ) && p2i(q) == p2i(old(self).page_id()) && p1i(q) == p1i(old(self).page_id()))
                    ==> #[trigger] final(active_table).mapping_of(q) == old(
                    active_table,
                ).mapping_of(q),
            forall|g: u64, i: int|
                old(active_table).has_table(g) && 0 <= i < 512 && !(g == old(active_table).walk1(
                    old(self).page_id(),
                ) && i == p1i(old(self).page_id())) ==> final(active_table).ent(g, i) == old(active_table).ent(g, i),
            (old(active_table).mapping_of(old(self).page_id()) matches Some(f)
                && final(self).cache() == old(self).cache().insert(f as u64)),
    {
        let frame = active_table.unmap(self.page);
        proof {
            if self.allocator.full() {
                self.allocator.lemma_full_len();
            }
        }
        self.allocator.deallocate_frame(frame);
    }
}

} // verus!
