//! The four-level page-table subsystem.
//!
//! One 64-bit [`Entry`] encodes a mapping slot: flag bits in fixed positions
//! and, when the entry is present, an aligned physical frame index.  A
//! [`Table`] is exactly 512 entries.  Physical memory holding the tables is
//! modelled explicitly by [`PhysMemory`], so the recursive-mapping walks that
//! the real hardware performs through raw addresses are verified here as
//! ordinary, fully checked data-structure operations.

use vstd::prelude::*;

pub mod temporary_page;

use self::temporary_page::TemporaryPage;
use crate::memory::Frame;
use crate::memory::FrameAllocator;
use crate::memory::PAGE_SIZE;
use vstd::arithmetic::power2::lemma2_to64;
use vstd::bits::lemma_u64_shl_is_mul;
use vstd::bits::lemma_u64_shr_is_div;

verus! {

/// Entries per table.
pub const ENTRY_COUNT: u64 = 512;

/// A physical address.
pub type PhysicalAddress = u64;

/// A virtual address.
pub type VirtualAddress = u64;

// Flag bits of a page-table entry, at their fixed hardware positions.
/// Entry points at something.
pub const PRESENT: u64 = 0x1;
/// Mapped memory is writable.
pub const WRITABLE: u64 = 0x2;
/// Accessible from user mode.
pub const USER_ACCESSIBLE: u64 = 0x4;
/// Writes go directly to memory.
pub const WRITE_THROUGH: u64 = 0x8;
/// No cache is used for the mapped memory.
pub const NO_CACHE: u64 = 0x10;
/// Set by the CPU on an access.
pub const ACCESSED: u64 = 0x20;
/// Set by the CPU on a write.
pub const DIRTY: u64 = 0x40;
/// The entry maps a large page instead of pointing at a child table.
pub const HUGE_PAGE: u64 = 0x80;
/// Mapping stays in all address spaces.
pub const GLOBAL: u64 = 0x100;
/// Forbid executing code from the mapped memory.
pub const NO_EXECUTE: u64 = 0x8000_0000_0000_0000;

/// Present and writable together: the flags of every link to a child table.
pub const TABLE_FLAGS: u64 = 0x3;

/// All flag bits together.
pub const FLAG_BITS: u64 = 0x8000_0000_0000_01ffu64;

/// The bits that hold the frame's physical start address.
pub const ADDRESS_BITS: u64 = 0x000f_ffff_ffff_f000u64;

/// Frame indices must fit the 40 bits left of a 52-bit physical address
/// with its low 12 bits of alignment removed.
pub const MAX_FRAMES: u64 = 0x100_0000_0000u64;

/// Does `raw` have every bit of `flag` set?
pub open spec fn has_flag(raw: u64, flag: u64) -> bool {
    raw & flag == flag
}

/// Frame index stored in a raw entry.
pub open spec fn frame_num(raw: u64) -> u64 {
    (raw & ADDRESS_BITS) >> 12
}

/// Flag bits of a raw entry.
pub open spec fn flags_of(raw: u64) -> u64 {
    raw & FLAG_BITS
}

/// The raw value an entry gets when set to `frame` with `flags`.
pub open spec fn encode_entry(frame: u64, flags: u64) -> u64 {
    (frame << 12) | flags
}

/// Decoding recovers exactly what [`encode_entry`] stored: the frame index,
/// the flag bits, and each single flag.
pub proof fn lemma_encode_entry(frame: u64, flags: u64)
    requires
        frame < MAX_FRAMES,
        flags & FLAG_BITS == flags,
    ensures
        frame_num(encode_entry(frame, flags)) == frame,
        flags_of(encode_entry(frame, flags)) == flags,
        forall|b: u64| flags & b == b ==> #[trigger] has_flag(encode_entry(frame, flags), b),
        encode_entry(frame, flags) != 0 <== flags != 0 || frame != 0,
{
    assert((((frame << 12) | flags) & 0x000f_ffff_ffff_f000u64) >> 12 == frame) by (bit_vector)
        requires
            frame < 0x100_0000_0000u64,
            flags & 0x8000_0000_0000_01ffu64 == flags,
    ;
    assert(((frame << 12) | flags) & 0x8000_0000_0000_01ffu64 == flags) by (bit_vector)
        requires
            frame < 0x100_0000_0000u64,
            flags & 0x8000_0000_0000_01ffu64 == flags,
    ;
    assert forall|b: u64| flags & b == b implies #[trigger] has_flag(encode_entry(frame, flags), b) by {
        assert(flags & b == b ==> ((frame << 12) | flags) & b == b) by (bit_vector);
    }
    assert(flags != 0 || frame != 0 ==> ((frame << 12) | flags) != 0) by (bit_vector)
        requires
            frame < 0x100_0000_0000u64,
    ;
}

/// One page-table entry: a single 64-bit value.
#[derive(Debug, Clone, Copy, PartialEq, Eq, Structural)]
pub struct Entry {
    raw: u64,
}

impl Entry {
    /// The raw 64-bit value, as seen by contracts.
    pub closed spec fn raw_spec(self) -> u64 {
        self.raw
    }

    /// Entry whose raw value is the unused sentinel.
    pub fn unused() -> (r: Entry)
        ensures
            r.raw_spec() == 0,
    {
        Entry { raw: 0 }
    }

    /// True exactly when the raw value is zero.  A non-present entry with
    /// stray bits is *not* unused.
    pub fn is_unused(&self) -> (r: bool)
        ensures
            r == (self.raw_spec() == 0),
    {
        self.raw == 0
    }

    /// Zero the raw value.  Does not reclaim any frame.
    pub fn set_unused(&mut self)
        ensures
            final(self).raw_spec() == 0,
    {
        self.raw = 0;
    }

    /// The flag bits; the frame-number bits are never touched.
    pub fn flags(&self) -> (r: u64)
        ensures
            r == flags_of(self.raw_spec()),
    {
        self.raw & FLAG_BITS
    }

    /// The pointed frame, iff the present flag is set.  Stray bits in a
    /// non-present entry yield nothing.
    pub fn pointed_frame(&self) -> (r: Option<Frame>)
        ensures
            has_flag(self.raw_spec(), PRESENT)
                ==> (r matches Some(f) && f.id() == frame_num(self.raw_spec())),
            !has_flag(self.raw_spec(), PRESENT) ==> r is None,
    {
        if self.raw & PRESENT == PRESENT {
            let masked = self.raw & ADDRESS_BITS;
            let f = Frame::containing_address(masked);
            proof {
                lemma2_to64();
                lemma_u64_shr_is_div(masked, 12);
            }
            Some(f)
        } else {
            None
        }
    }

    /// Point the entry at `frame` with exactly `flags`.  The present flag is
    /// not added on its own: callers that mean the entry to be live pass it
    /// explicitly.  The frame's start address must be aligned and below the
    /// 52-bit physical limit, which its bounded index guarantees.
    pub fn set(&mut self, frame: Frame, flags: u64)
        requires
            frame.id() < MAX_FRAMES,
            flags & FLAG_BITS == flags,
        ensures
            final(self).raw_spec() == encode_entry(frame.id(), flags),
    {
        let addr = frame.start_address();
        proof {
            lemma2_to64();
            lemma_u64_shl_is_mul(frame.id(), 12);
        }
        self.raw = addr | flags;
    }
}

/// A fixed array of exactly [`ENTRY_COUNT`] entries.
pub struct Table {
    entries: Vec<Entry>,
}

/// The all-unused table contents that zeroing yields, whatever stood in the
/// table before.
pub open spec fn zero_of(rows: Seq<u64>) -> Seq<u64> {
    Seq::new(512, |i: int| 0u64)
}

/// Zeroing is idempotent: a second zeroing finds the all-unused state the
/// first one left and yields exactly that same state again.
pub proof fn lemma_zero_idempotent(rows: Seq<u64>)
    ensures
        zero_of(zero_of(rows)) == zero_of(rows),
{
}

impl Table {
    /// Exactly 512 entries.
    pub closed spec fn wf(self) -> bool {
        self.entries.len() == 512
    }

    /// The raw entry values, in slot order.
    pub closed spec fn rows(self) -> Seq<u64> {
        self.entries@.map_values(|e: Entry| e.raw)
    }

    /// A fresh table, all entries unused.
    pub fn new() -> (r: Table)
        ensures
            r.wf(),
            r.rows() == zero_of(Seq::<u64>::empty()),
    {
        let mut entries: Vec<Entry> = Vec::new();
        let mut i: usize = 0;
        while i < 512
            invariant
                i <= 512,
                entries.len() == i,
                forall|j: int| 0 <= j < i ==> entries@[j].raw_spec() == 0,
            decreases 512 - i,
        {
            entries.push(Entry::unused());
            i = i + 1;
        }
        let t = Table { entries };
        proof {
            assert(t.rows() =~= zero_of(Seq::<u64>::empty()));
        }
        t
    }

    /// Entry at slot `index`.
    pub fn get(&self, index: usize) -> (r: Entry)
        requires
            self.wf(),
            index < 512,
        ensures
            r.raw_spec() == self.rows()[index as int],
    {
        self.entries[index]
    }

    /// Replace the entry at slot `index`.
    pub fn set_at(&mut self, index: usize, entry: Entry)
        requires
            old(self).wf(),
            index < 512,
        ensures
            final(self).wf(),
            final(self).rows() == old(self).rows().update(index as int, entry.raw_spec()),
    {
        self.entries[index] = entry;
        proof {
            assert(self.rows() =~= old(self).rows().update(index as int, entry.raw_spec()));
        }
    }

    /// Overwrite every entry with the unused sentinel.  Required before a
    /// freshly allocated frame may be treated as a table, since physical
    /// memory is not guaranteed to be zero.
    pub fn zero(&mut self)
        requires
            old(self).wf(),
        ensures
            final(self).wf(),
            final(self).rows() == zero_of(old(self).rows()),
    {
        let mut i: usize = 0;
        while i < 512
            invariant
                self.wf(),
                i <= 512,
                forall|j: int| 0 <= j < i ==> self.entries@[j].raw_spec() == 0,
            decreases 512 - i,
        {
            self.entries[i] = Entry::unused();
            i = i + 1;
        }
        proof {
            assert(self.rows() =~= zero_of(old(self).rows()));
        }
    }
}

/// Only addresses in the lower or upper half of the virtual address space are
/// valid; the hole between them is rejected before any table walk.
pub open spec fn canonical(address: u64) -> bool {
    address < 0x0000_8000_0000_0000u64 || address >= 0xffff_8000_0000_0000u64
}

/// Index into the outermost table for page number `n`.
pub open spec fn p4i(n: u64) -> int {
    ((n >> 27) & 0o777) as int
}

/// Index into the third-level table for page number `n`.
pub open spec fn p3i(n: u64) -> int {
    ((n >> 18) & 0o777) as int
}

/// Index into the second-level table for page number `n`.
pub open spec fn p2i(n: u64) -> int {
    ((n >> 9) & 0o777) as int
}

/// Index into the leaf table for page number `n`.
pub open spec fn p1i(n: u64) -> int {
    ((n >> 0) & 0o777) as int
}

/// Every per-level index is a valid table slot.
pub proof fn lemma_page_indices(n: u64)
    ensures
        0 <= p4i(n) < 512,
        0 <= p3i(n) < 512,
        0 <= p2i(n) < 512,
        0 <= p1i(n) < 512,
{
    assert((n >> 27) & 0o777 < 512) by (bit_vector);
    assert((n >> 18) & 0o777 < 512) by (bit_vector);
    assert((n >> 9) & 0o777 < 512) by (bit_vector);
    assert((n >> 0) & 0o777 < 512) by (bit_vector);
}

/// Distinct page numbers in walkable range differ in at least one of the
/// four per-level indices.
pub proof fn lemma_indices_distinct(n: u64, q: u64)
    requires
        n < 0x10_0000_0000u64,
        q < 0x10_0000_0000u64,
        n != q,
    ensures
        !(p4i(q) == p4i(n) && p3i(q) == p3i(n) && p2i(q) == p2i(n) && p1i(q) == p1i(n)),
{
    assert(!((n >> 27) & 0o777 == (q >> 27) & 0o777 && (n >> 18) & 0o777 == (q >> 18) & 0o777 && (n
        >> 9) & 0o777 == (q >> 9) & 0o777 && (n >> 0) & 0o777 == (q >> 0) & 0o777)) by (bit_vector)
        requires
            n < 0x10_0000_0000u64,
            q < 0x10_0000_0000u64,
            n != q,
    ;
}

/// A virtual memory unit, identified by its index.  The four decomposed
/// per-level indices drive the sequential table lookups.
#[derive(Debug, Clone, Copy, PartialEq, Eq, Structural)]
pub struct Page {
    number: u64,
}

impl Page {
    /// The page index as seen by contracts.
    pub closed spec fn id(self) -> u64 {
        self.number
    }

    /// Page containing the given virtual address.  Addresses inside the
    /// canonical hole are rejected here, before any walk can see them.
    pub fn containing_address(address: u64) -> (r: Page)
        requires
            canonical(address),
        ensures
            r.id() == address / PAGE_SIZE,
    {
        Page { number: address / PAGE_SIZE }
    }

    /// First virtual address inside the page.
    pub fn start_address(&self) -> (r: u64)
        requires
            self.id() < 0x10_0000_0000_0000u64,
        ensures
            r == self.id() * PAGE_SIZE,
    {
        self.number * PAGE_SIZE
    }

    /// Index into the outermost table.
    pub fn p4_index(&self) -> (r: usize)
        ensures
            r == p4i(self.id()),
            r < 512,
    {
        proof { lemma_page_indices(self.number); }
        ((self.number >> 27) & 0o777) as usize
    }

    /// Index into the third-level table.
    pub fn p3_index(&self) -> (r: usize)
        ensures
            r == p3i(self.id()),
            r < 512,
    {
        proof { lemma_page_indices(self.number); }
        ((self.number >> 18) & 0o777) as usize
    }

    /// Index into the second-level table.
    pub fn p2_index(&self) -> (r: usize)
        ensures
            r == p2i(self.id()),
            r < 512,
    {
        proof { lemma_page_indices(self.number); }
        ((self.number >> 9) & 0o777) as usize
    }

    /// Index into the leaf table.
    pub fn p1_index(&self) -> (r: usize)
        ensures
            r == p1i(self.id()),
            r < 512,
    {
        proof { lemma_page_indices(self.number); }
        ((self.number >> 0) & 0o777) as usize
    }

    /// All pages from `start` to `end`, both included, in increasing order.
    pub fn range_inclusive(start: Page, end: Page) -> (r: PageIter)
        ensures
            r.spec_start() == start.id(),
            r.spec_end() == end.id(),
    {
        PageIter { start, end }
    }
}

/// Iterator over an inclusive range of pages.
pub struct PageIter {
    start: Page,
    end: Page,
}

impl PageIter {
    /// Start of the remaining range.
    pub closed spec fn spec_start(self) -> u64 {
        self.start.id()
    }

    /// End of the range, included.
    pub closed spec fn spec_end(self) -> u64 {
        self.end.id()
    }

    /// Next page of the range, if one is left.
    pub fn next(&mut self) -> (r: Option<Page>)
        requires
            old(self).spec_end() < 0xffff_ffff_ffff_ffffu64,
        ensures
            final(self).spec_end() == old(self).spec_end(),
            old(self).spec_start() <= old(self).spec_end() ==> {
                &&& r matches Some(p) && p.id() == old(self).spec_start()
                &&& final(self).spec_start() == old(self).spec_start() + 1
            },
            old(self).spec_start() > old(self).spec_end() ==> {
                &&& r is None
                &&& final(self).spec_start() == old(self).spec_start()
            },
    {
        if self.start.number <= self.end.number {
            let page = self.start;
            self.start.number = self.start.number + 1;
            Some(page)
        } else {
            None
        }
    }
}

/// The physical memory that holds page tables: a partial map from frame
/// index to table contents.  Real hardware reaches these frames through the
/// recursive mapping's raw addresses; modelling them as data is what lets the
/// walks be verified.  The ghost level map tags each table frame with its
/// height in the hierarchy and makes the no-aliasing argument inductive.
pub struct PhysMemory {
    frames: Vec<u64>,
    tables: Vec<Table>,
    levels: Ghost<Map<u64, int>>,
}

impl PhysMemory {
    /// The store is a map: every frame index appears at most once, and every
    /// held table has exactly 512 entries.
    pub closed spec fn wf(self) -> bool {
        &&& self.frames.len() == self.tables.len()
        &&& self.frames@.no_duplicates()
        &&& forall|j: int| 0 <= j < self.tables.len() ==> (#[trigger] self.tables@[j]).wf()
    }

    /// Does the store hold a table for frame `f`?
    pub closed spec fn has(self, f: u64) -> bool {
        self.frames@.contains(f)
    }

    /// Position of frame `f` in the store.
    pub closed spec fn slot(self, f: u64) -> int {
        choose|j: int| 0 <= j < self.frames@.len() && self.frames@[j] == f
    }

    /// Raw entries of the table held for frame `f`.
    pub closed spec fn table_of(self, f: u64) -> Seq<u64> {
        self.tables@[self.slot(f)].rows()
    }

    /// Raw entry `i` of the table held for frame `f`.
    pub closed spec fn ent(self, f: u64, i: int) -> u64 {
        self.table_of(f)[i]
    }

    /// Ghost level tag of each table frame.
    pub closed spec fn level(self, f: u64) -> int {
        self.levels@[f]
    }

    proof fn lemma_slot(self, f: u64)
        requires
            self.wf(),
            self.has(f),
        ensures
            0 <= self.slot(f) < self.frames@.len(),
            self.frames@[self.slot(f)] == f,
            forall|j: int| 0 <= j < self.frames@.len() && self.frames@[j] == f
                ==> j == self.slot(f),
    {
        let j0 = self.frames@.index_of(f);
        assert(0 <= j0 < self.frames@.len() && self.frames@[j0] == f);
        assert forall|j: int| 0 <= j < self.frames@.len() && self.frames@[j] == f
            implies j == self.slot(f) by {
            if j != self.slot(f) {
                assert(self.frames@[j] == self.frames@[self.slot(f)]);
            }
        }
    }

    /// An empty store.
    pub fn new() -> (r: PhysMemory)
        ensures
            r.wf(),
            forall|f: u64| !r.has(f),
            r.levels_spec() == Map::<u64, int>::empty(),
    {
        PhysMemory { frames: Vec::new(), tables: Vec::new(), levels: Ghost(Map::empty()) }
    }

    /// The ghost level map.
    pub closed spec fn levels_spec(self) -> Map<u64, int> {
        self.levels@
    }

    fn find(&self, f: u64) -> (r: Option<usize>)
        requires
            self.wf(),
        ensures
            (match r {
                Some(j) => self.has(f) && j == self.slot(f),
                None => !self.has(f),
            }),
    {
        let n = self.frames.len();
        let mut j: usize = 0;
        while j < n
            invariant
                self.wf(),
                n == self.frames.len(),
                j <= n,
                forall|k: int| 0 <= k < j ==> self.frames@[k] != f,
            decreases n - j,
        {
            if self.frames[j] == f {
                proof { self.lemma_slot(f); }
                return Some(j);
            }
            j = j + 1;
        }
        None
    }

    /// Is frame `f` held as a table?
    pub fn contains_frame(&self, f: u64) -> (r: bool)
        requires
            self.wf(),
        ensures
            r == self.has(f),
    {
        self.find(f).is_some()
    }

    /// Read entry `index` of the table at frame `f`.
    pub fn read_entry(&self, f: u64, index: usize) -> (r: Entry)
        requires
            self.wf(),
            self.has(f),
            index < 512,
        ensures
            r.raw_spec() == self.ent(f, index as int),
    {
        let j = self.find(f).unwrap();
        proof {
            self.lemma_slot(f);
        }
        self.tables[j].get(index)
    }

    /// Overwrite entry `index` of the table at frame `f`.
    pub fn set_entry(&mut self, f: u64, index: usize, entry: Entry)
        requires
            old(self).wf(),
            old(self).has(f),
            index < 512,
        ensures
            final(self).wf(),
            forall|g: u64| final(self).has(g) == old(self).has(g),
            final(self).levels_spec() == old(self).levels_spec(),
            final(self).table_of(f) == old(self).table_of(f).update(index as int, entry.raw_spec()),
            forall|g: u64| g != f && old(self).has(g)
                ==> #[trigger] final(self).table_of(g) == old(self).table_of(g),
    {
        let j = self.find(f).unwrap();
        proof {
            self.lemma_slot(f);
        }
        let t = &mut self.tables[j];
        t.set_at(index, entry);
        proof {
            assert(self.frames@ == old(self).frames@);
            assert(self.table_of(f) =~= old(self).table_of(f).update(
                index as int,
                entry.raw_spec(),
            ));
            assert forall|g: u64| g != f && old(self).has(g)
                implies #[trigger] self.table_of(g) == old(self).table_of(g) by {
                old(self).lemma_slot(g);
                old(self).lemma_slot(f);
            }
        }
    }

    /// Make frame `f` hold an all-unused table, creating the slot if the
    /// store does not know the frame yet.  This models zeroing the physical
    /// frame before it is used as a table.  The ghost argument records the
    /// table's intended level.
    pub fn put_zeroed(&mut self, f: u64, level: Ghost<int>)
        requires
            old(self).wf(),
        ensures
            final(self).wf(),
            forall|g: u64| #[trigger] final(self).has(g) == (old(self).has(g) || g == f),
            final(self).levels_spec() == old(self).levels_spec().insert(f, level@),
            final(self).table_of(f) =~= Seq::new(512, |i: int| 0u64),
            forall|g: u64| g != f && old(self).has(g)
                ==> #[trigger] final(self).table_of(g) == old(self).table_of(g),
    {
        match self.find(f) {
            Some(j) => {
                proof {
                    self.lemma_slot(f);
                }
                let t = &mut self.tables[j];
                t.zero();
                self.levels = Ghost(self.levels@.insert(f, level@));
                proof {
                    assert(self.frames@ == old(self).frames@);
                    assert(self.table_of(f) =~= Seq::new(512, |i: int| 0u64));
                    assert forall|g: u64| g != f && old(self).has(g)
                        implies #[trigger] self.table_of(g) == old(self).table_of(g) by {
                        old(self).lemma_slot(g);
                        old(self).lemma_slot(f);
                    }
                }
            }
            None => {
                let ghost n = self.frames@.len();
                self.frames.push(f);
                self.tables.push(Table::new());
                self.levels = Ghost(self.levels@.insert(f, level@));
                proof {
                    assert(self.frames@ == old(self).frames@.push(f));
                    assert forall|g: u64| #[trigger] self.has(g)
                        implies old(self).has(g) || g == f by {
                        let k = choose|k: int|
                            0 <= k < self.frames@.len() && self.frames@[k] == g;
                        if k < n {
                            assert(old(self).frames@[k] == g);
                        }
                    }
                    assert forall|g: u64| old(self).has(g) || g == f
                        implies #[trigger] self.has(g) by {
                        if g == f {
                            assert(self.frames@[n as int] == f);
                        } else {
                            let k = choose|k: int|
                                0 <= k < old(self).frames@.len() && old(self).frames@[k] == g;
                            assert(self.frames@[k] == g);
                        }
                    }
                    assert(self.frames@.no_duplicates()) by {
                        assert forall|a: int, b: int|
                            0 <= a < self.frames@.len() && 0 <= b < self.frames@.len() && a != b
                            implies self.frames@[a] != self.frames@[b] by {
                            if a < n && b < n {
                                assert(old(self).frames@[a] == self.frames@[a]);
                                assert(old(self).frames@[b] == self.frames@[b]);
                            } else if a == n && b < n {
                                assert(!old(self).has(f));
                                assert(old(self).frames@[b] == self.frames@[b]);
                            } else if b == n && a < n {
                                assert(!old(self).has(f));
                                assert(old(self).frames@[a] == self.frames@[a]);
                            }
                        }
                    }
                    self.lemma_slot(f);
                    assert(self.slot(f) == n);
                    assert(self.table_of(f) =~= Seq::new(512, |i: int| 0u64));
                    assert forall|g: u64| g != f && old(self).has(g)
                        implies #[trigger] self.table_of(g) == old(self).table_of(g) by {
                        old(self).lemma_slot(g);
                        let k = old(self).slot(g);
                        assert(self.frames@[k] == g);
                        self.lemma_slot(g);
                        assert(self.slot(g) == k);
                    }
                }
            }
        }
    }
}

/// The unused sentinel carries no flag and no frame.
pub proof fn lemma_zero_entry()
    ensures
        !is_present(0u64),
        !is_huge(0u64),
        frame_num(0u64) == 0,
        flags_of(0u64) == 0,
{
    assert(0u64 & 0x1u64 == 0u64) by (bit_vector);
    assert(0u64 & 0x80u64 == 0u64) by (bit_vector);
    assert((0u64 & 0x000f_ffff_ffff_f000u64) >> 12 == 0u64) by (bit_vector);
    assert(0u64 & 0x8000_0000_0000_01ffu64 == 0u64) by (bit_vector);
}

/// An entry linking a child table: present, writable, not huge, carrying
/// exactly the child's frame.
pub proof fn lemma_table_link(frame: u64)
    requires
        frame < MAX_FRAMES,
    ensures
        is_present(encode_entry(frame, TABLE_FLAGS)),
        !is_huge(encode_entry(frame, TABLE_FLAGS)),
        frame_num(encode_entry(frame, TABLE_FLAGS)) == frame,
        flags_of(encode_entry(frame, TABLE_FLAGS)) == TABLE_FLAGS,
        encode_entry(frame, TABLE_FLAGS) != 0,
{
    assert((((frame << 12) | 0x3u64) & 0x1u64 == 0x1u64) && (((frame << 12) | 0x3u64) & 0x80u64
        != 0x80u64) && ((((frame << 12) | 0x3u64) & 0x000f_ffff_ffff_f000u64) >> 12 == frame) && (((
    frame << 12) | 0x3u64) & 0x8000_0000_0000_01ffu64 == 0x3u64) && ((frame << 12) | 0x3u64)
        != 0u64) by (bit_vector)
        requires
            frame < 0x100_0000_0000u64,
    ;
}

/// Does the raw entry have the present flag?
pub open spec fn is_present(raw: u64) -> bool {
    has_flag(raw, PRESENT)
}

/// Does the raw entry have the huge-page flag?
pub open spec fn is_huge(raw: u64) -> bool {
    has_flag(raw, HUGE_PAGE)
}

/// A frame index recovered from an entry always fits the physical limit.
pub proof fn lemma_frame_num_bound(raw: u64)
    ensures
        frame_num(raw) < MAX_FRAMES,
{
    assert((raw & 0x000f_ffff_ffff_f000u64) >> 12 < 0x100_0000_0000u64) by (bit_vector);
}

/// Failure of a paging operation.
#[derive(Debug, Clone, Copy, PartialEq, Eq, Structural)]
pub enum PagingError {
    /// The frame allocator was exhausted while a table chain was needed.
    OutOfFrames,
    /// The target leaf slot already carries a mapping.
    AlreadyMapped,
}

/// The table hierarchy the (simulated) CPU walks on every access, together
/// with the physical memory holding its tables.  The `p4` field models the
/// hardware's root-pointer register; entry 511 of the root table points back
/// at the root itself, and all software walks go through that reserved slot,
/// so a table that is not yet installed can be populated by the very same
/// walking code once the slot is redirected at it.
pub struct ActivePageTable {
    p4: u64,
    mem: PhysMemory,
}

impl ActivePageTable {
    /// The root-register frame index.
    pub closed spec fn p4_spec(self) -> u64 {
        self.p4
    }

    /// Is frame `f` held as a table?
    pub closed spec fn has_table(self, f: u64) -> bool {
        self.mem.has(f)
    }

    /// Ghost level of table frame `f`.
    pub closed spec fn lv(self, f: u64) -> int {
        self.mem.level(f)
    }

    /// Raw entry `i` of the table at frame `f`.
    pub closed spec fn ent(self, f: u64, i: int) -> u64 {
        self.mem.ent(f, i)
    }

    /// The table frame that software walks start from: whatever the reserved
    /// slot 511 of the register's table points at.  Normally the register's
    /// own frame; during the bootstrap window, the not-yet-active root.
    pub closed spec fn root(self) -> u64 {
        frame_num(self.ent(self.p4, 511))
    }

    spec fn levels_ok(self) -> bool {
        forall|f: u64| #[trigger] self.has_table(f) ==> 1 <= self.lv(f) <= 4 && f < MAX_FRAMES
    }

    spec fn edges_ok(self) -> bool {
        forall|f: u64, i: int|
            self.has_table(f) && 0 <= i < 512 && self.lv(f) >= 2 && !(self.lv(f) == 4 && i
                == 511) && is_present(#[trigger] self.ent(f, i)) && !is_huge(self.ent(f, i))
                ==> self.has_table(frame_num(self.ent(f, i))) && self.lv(
                frame_num(self.ent(f, i)),
            ) == self.lv(f) - 1
    }

    spec fn huge_ok(self) -> bool {
        forall|f: u64, i: int|
            self.has_table(f) && 0 <= i < 512 && is_present(#[trigger] self.ent(f, i)) && is_huge(
                self.ent(f, i),
            ) ==> (self.lv(f) == 3 ==> frame_num(self.ent(f, i)) % 0x40000 == 0) && (self.lv(f)
                == 2 ==> frame_num(self.ent(f, i)) % 512 == 0)
    }

    /// Entry `i` of the table at `f` is a live link to a child table:
    /// present, not huge, in a non-leaf table, and not the reserved slot.
    spec fn is_edge(self, f: u64, i: int) -> bool {
        &&& self.has_table(f)
        &&& 0 <= i < 512
        &&& self.lv(f) >= 2
        &&& !(self.lv(f) == 4 && i == 511)
        &&& is_present(self.ent(f, i))
        &&& !is_huge(self.ent(f, i))
    }

    spec fn inj_ok(self) -> bool {
        forall|f: u64, i: int, g: u64, j: int|
            #![trigger self.ent(f, i), self.ent(g, j)]
            self.is_edge(f, i) && self.is_edge(g, j) && !(f == g && i == j) ==> frame_num(
                self.ent(f, i),
            ) != frame_num(self.ent(g, j))
    }

    spec fn root_ok(self) -> bool {
        &&& self.has_table(self.p4)
        &&& self.lv(self.p4) == 4
        &&& is_present(self.ent(self.p4, 511))
        &&& !is_huge(self.ent(self.p4, 511))
        &&& self.has_table(self.root())
        &&& self.lv(self.root()) == 4
        &&& is_present(self.ent(self.root(), 511))
        &&& !is_huge(self.ent(self.root(), 511))
        &&& frame_num(self.ent(self.root(), 511)) == self.root()
    }

    /// Well-formedness of the whole hierarchy: the store is a map, every
    /// table frame carries a level, every live non-huge link points one
    /// level down to a held table, huge mappings are aligned for their
    /// level, and the reserved slot of the walk root points at itself.
    pub closed spec fn wf(self) -> bool {
        &&& self.mem.wf()
        &&& self.levels_ok()
        &&& self.edges_ok()
        &&& self.huge_ok()
        &&& self.inj_ok()
        &&& self.root_ok()
    }

    /// The register's own table is the walk root: no bootstrap override is
    /// in effect.
    pub closed spec fn self_mapped(self) -> bool {
        self.root() == self.p4
    }

    /// Raw outer-level entry on the walk of page `n`.
    pub closed spec fn e4(self, n: u64) -> u64 {
        self.ent(self.root(), p4i(n))
    }

    /// Frame of the third-level table on the walk of page `n`.
    pub closed spec fn walk3(self, n: u64) -> u64 {
        frame_num(self.e4(n))
    }

    /// Raw third-level entry on the walk of page `n`.
    pub closed spec fn e3(self, n: u64) -> u64 {
        self.ent(self.walk3(n), p3i(n))
    }

    /// Frame of the second-level table on the walk of page `n`.
    pub closed spec fn walk2(self, n: u64) -> u64 {
        frame_num(self.e3(n))
    }

    /// Raw second-level entry on the walk of page `n`.
    pub closed spec fn e2(self, n: u64) -> u64 {
        self.ent(self.walk2(n), p2i(n))
    }

    /// Frame of the leaf table on the walk of page `n`.
    pub closed spec fn walk1(self, n: u64) -> u64 {
        frame_num(self.e2(n))
    }

    /// Raw leaf entry on the walk of page `n`.
    pub closed spec fn leaf_entry(self, n: u64) -> u64 {
        self.ent(self.walk1(n), p1i(n))
    }

    /// What page number `n` resolves to: the mapped frame index, or nothing.
    /// A huge mapping at the third or second level resolves early, with the
    /// remaining index bits folded into the frame.
    pub closed spec fn mapping_of(self, n: u64) -> Option<int> {
        if !is_present(self.e4(n)) || is_huge(self.e4(n)) {
            None
        } else if !is_present(self.e3(n)) {
            None
        } else if is_huge(self.e3(n)) {
            Some(frame_num(self.e3(n)) + p2i(n) * 512 + p1i(n))
        } else if !is_present(self.e2(n)) {
            None
        } else if is_huge(self.e2(n)) {
            Some(frame_num(self.e2(n)) + p1i(n))
        } else if is_present(self.leaf_entry(n)) {
            Some(frame_num(self.leaf_entry(n)) as int)
        } else {
            None
        }
    }

    /// Precondition of mapping page `n`: no huge entry anywhere on its walk,
    /// and if the whole chain of tables already exists, the leaf slot holds
    /// exactly the unused sentinel.
    pub closed spec fn path_clear(self, n: u64) -> bool {
        &&& !is_huge(self.e4(n))
        &&& is_present(self.e4(n)) ==> {
            &&& !is_huge(self.e3(n))
            &&& is_present(self.e3(n)) ==> {
                &&& !is_huge(self.e2(n))
                &&& is_present(self.e2(n)) ==> self.leaf_entry(n) == 0
            }
        }
    }

    /// Page `n` is mapped through a complete four-level chain, with no huge
    /// shortcut.
    pub closed spec fn mapped_4k(self, n: u64) -> bool {
        &&& is_present(self.e4(n)) && !is_huge(self.e4(n))
        &&& is_present(self.e3(n)) && !is_huge(self.e3(n))
        &&& is_present(self.e2(n)) && !is_huge(self.e2(n))
        &&& is_present(self.leaf_entry(n))
    }

    /// The three table links on the walk of page `n` all exist, so mapping
    /// the page will consult no allocator.
    pub closed spec fn chain_complete(self, n: u64) -> bool {
        &&& is_present(self.e4(n)) && !is_huge(self.e4(n))
        &&& is_present(self.e3(n)) && !is_huge(self.e3(n))
        &&& is_present(self.e2(n)) && !is_huge(self.e2(n))
    }

    /// The allocator hands out only frames that are not table frames and
    /// that fit the physical limit.
    pub closed spec fn alloc_ok(self, avail: Set<u64>) -> bool {
        &&& avail.finite()
        &&& forall|f: u64| #[trigger] avail.contains(f) ==> !self.has_table(f) && f < MAX_FRAMES
    }

    /// Along any walk, each table reached is held by the store; every table
    /// reached is either the root itself (through the reserved slot) or sits
    /// at the level its depth demands.
    proof fn lemma_walk_tables(self, n: u64)
        requires
            self.wf(),
        ensures
            is_present(self.e4(n)) && !is_huge(self.e4(n)) ==> self.has_table(self.walk3(n)) && (
            self.walk3(n) == self.root() || self.lv(self.walk3(n)) == 3),
            is_present(self.e4(n)) && !is_huge(self.e4(n)) && is_present(self.e3(n)) && !is_huge(
                self.e3(n),
            ) ==> self.has_table(self.walk2(n)) && (self.walk2(n) == self.root() || 2 <= self.lv(
                self.walk2(n),
            ) <= 3),
            is_present(self.e4(n)) && !is_huge(self.e4(n)) && is_present(self.e3(n)) && !is_huge(
                self.e3(n),
            ) && is_present(self.e2(n)) && !is_huge(self.e2(n)) ==> self.has_table(self.walk1(n))
                && (self.walk1(n) == self.root() || 1 <= self.lv(self.walk1(n)) <= 3),
    {
        lemma_page_indices(n);
        let r = self.root();
        if is_present(self.e4(n)) && !is_huge(self.e4(n)) {
            if p4i(n) == 511 {
                assert(self.walk3(n) == r);
            } else {
                assert(self.ent(r, p4i(n)) == self.e4(n));
            }
            if is_present(self.e3(n)) && !is_huge(self.e3(n)) {
                let t3 = self.walk3(n);
                if t3 == r && p3i(n) == 511 {
                    assert(self.walk2(n) == r);
                } else {
                    assert(self.ent(t3, p3i(n)) == self.e3(n));
                }
                if is_present(self.e2(n)) && !is_huge(self.e2(n)) {
                    let t2 = self.walk2(n);
                    if t2 == r && p2i(n) == 511 {
                        assert(self.walk1(n) == r);
                    } else {
                        assert(self.ent(t2, p2i(n)) == self.e2(n));
                    }
                }
            }
        }
    }

    /// As [`Self::lemma_walk_tables`], for a walk that avoids the reserved
    /// slot: the three reached tables then sit at levels 3, 2 and 1, which
    /// makes the four tables of the walk pairwise distinct.
    proof fn lemma_walk_strict(self, n: u64)
        requires
            self.wf(),
            p4i(n) != 511,
        ensures
            is_present(self.e4(n)) && !is_huge(self.e4(n)) ==> self.has_table(self.walk3(n))
                && self.lv(self.walk3(n)) == 3,
            is_present(self.e4(n)) && !is_huge(self.e4(n)) && is_present(self.e3(n)) && !is_huge(
                self.e3(n),
            ) ==> self.has_table(self.walk2(n)) && self.lv(self.walk2(n)) == 2,
            is_present(self.e4(n)) && !is_huge(self.e4(n)) && is_present(self.e3(n)) && !is_huge(
                self.e3(n),
            ) && is_present(self.e2(n)) && !is_huge(self.e2(n)) ==> self.has_table(self.walk1(n))
                && self.lv(self.walk1(n)) == 1,
    {
        lemma_page_indices(n);
        if is_present(self.e4(n)) && !is_huge(self.e4(n)) {
            assert(self.ent(self.root(), p4i(n)) == self.e4(n));
            if is_present(self.e3(n)) && !is_huge(self.e3(n)) {
                assert(self.ent(self.walk3(n), p3i(n)) == self.e3(n));
                if is_present(self.e2(n)) && !is_huge(self.e2(n)) {
                    assert(self.ent(self.walk2(n), p2i(n)) == self.e2(n));
                }
            }
        }
    }

    /// A fresh, minimal machine state: the given frame becomes the root
    /// table, zeroed but for the reserved slot 511, which points back at the
    /// root itself, and the register points at it.  Nothing else is mapped.
    pub fn new(p4_frame: Frame) -> (r: ActivePageTable)
        requires
            p4_frame.id() < MAX_FRAMES,
        ensures
            r.wf(),
            r.self_mapped(),
            r.p4_spec() == p4_frame.id(),
            forall|n: u64| p4i(n) != 511 ==> #[trigger] r.mapping_of(n) is None,
            forall|n: u64| p4i(n) != 511 ==> !is_present(#[trigger] r.e4(n)),
            forall|f: u64| #[trigger] r.has_table(f) ==> f == p4_frame.id(),
    {
        let f = p4_frame.num();
        let mut mem = PhysMemory::new();
        mem.put_zeroed(f, Ghost(4int));
        let slot_entry = Entry { raw: (f << 12) | TABLE_FLAGS };
        mem.set_entry(f, 511, slot_entry);
        let r = ActivePageTable { p4: f, mem };
        proof {
            lemma_table_link(f);
            lemma_zero_entry();
            assert(r.ent(f, 511) == encode_entry(f, TABLE_FLAGS));
            assert(r.root() == f);
            assert forall|g: u64, i: int|
                r.has_table(g) && 0 <= i < 512 && r.lv(g) >= 2 && !(r.lv(g) == 4 && i == 511)
                    && is_present(#[trigger] r.ent(g, i)) && !is_huge(r.ent(g, i))
                implies r.has_table(frame_num(r.ent(g, i))) && r.lv(frame_num(r.ent(g, i)))
                == r.lv(g) - 1 by {
                assert(g == f);
                assert(r.ent(g, i) == 0);
            }
            assert forall|g: u64, i: int|
                r.has_table(g) && 0 <= i < 512 && is_present(#[trigger] r.ent(g, i)) && is_huge(
                    r.ent(g, i),
                ) implies (r.lv(g) == 3 ==> frame_num(r.ent(g, i)) % 0x40000 == 0) && (r.lv(g) == 2
                ==> frame_num(r.ent(g, i)) % 512 == 0) by {
                assert(g == f);
            }
            assert(r.wf());
            assert forall|n: u64| p4i(n) != 511 implies !is_present(#[trigger] r.e4(n)) by {
                lemma_page_indices(n);
                assert(r.ent(f, p4i(n)) == 0);
            }
        }
        r
    }

    /// The frame the register points at.
    pub fn root_table_frame(&self) -> (r: Frame)
        ensures
            r.id() == self.p4_spec(),
    {
        Frame::from_index(self.p4)
    }

    fn walk_root(&self) -> (r: u64)
        requires
            self.wf(),
        ensures
            r == self.root(),
    {
        let e = self.mem.read_entry(self.p4, 511);
        (e.raw & ADDRESS_BITS) >> 12
    }

    /// Child table pointed at by slot `index` of the table at `table`, if
    /// the entry is present and not huge.  A huge entry has no child table,
    /// so descending through it yields nothing.
    pub fn next_table(&self, table: &Frame, index: usize) -> (r: Option<Frame>)
        requires
            self.wf(),
            self.has_table(table.id()),
            index < 512,
        ensures
            (match r {
                Some(f) => is_present(self.ent(table.id(), index as int)) && !is_huge(
                    self.ent(table.id(), index as int),
                ) && f.id() == frame_num(self.ent(table.id(), index as int)),
                None => !is_present(self.ent(table.id(), index as int)) || is_huge(
                    self.ent(table.id(), index as int),
                ),
            }),
    {
        let e = self.mem.read_entry(table.num(), index);
        if e.raw & PRESENT == PRESENT && e.raw & HUGE_PAGE != HUGE_PAGE {
            Some(Frame::from_index((e.raw & ADDRESS_BITS) >> 12))
        } else {
            None
        }
    }

    /// Resolve page `page` to its mapped frame, read-only.
    pub fn translate_page(&self, page: Page) -> (r: Option<Frame>)
        requires
            self.wf(),
        ensures
            (match r {
                Some(f) => self.mapping_of(page.id()) == Some(f.id() as int),
                None => self.mapping_of(page.id()) is None,
            }),
    {
        proof {
            self.lemma_walk_tables(page.id());
        }
        let root = self.walk_root();
        let e4 = self.mem.read_entry(root, page.p4_index());
        if e4.raw & PRESENT != PRESENT || e4.raw & HUGE_PAGE == HUGE_PAGE {
            return None;
        }
        let t3 = (e4.raw & ADDRESS_BITS) >> 12;
        let e3 = self.mem.read_entry(t3, page.p3_index());
        if e3.raw & PRESENT != PRESENT {
            return None;
        }
        if e3.raw & HUGE_PAGE == HUGE_PAGE {
            let base = (e3.raw & ADDRESS_BITS) >> 12;
            proof {
                lemma_frame_num_bound(e3.raw);
            }
            return Some(
                Frame::from_index(
                    base + (page.p2_index() as u64) * 512 + (page.p1_index() as u64),
                ),
            );
        }
        let t2 = (e3.raw & ADDRESS_BITS) >> 12;
        let e2 = self.mem.read_entry(t2, page.p2_index());
        if e2.raw & PRESENT != PRESENT {
            return None;
        }
        if e2.raw & HUGE_PAGE == HUGE_PAGE {
            let base = (e2.raw & ADDRESS_BITS) >> 12;
            proof {
                lemma_frame_num_bound(e2.raw);
            }
            return Some(Frame::from_index(base + (page.p1_index() as u64)));
        }
        let t1 = (e2.raw & ADDRESS_BITS) >> 12;
        let e1 = self.mem.read_entry(t1, page.p1_index());
        if e1.raw & PRESENT == PRESENT {
            Some(Frame::from_index((e1.raw & ADDRESS_BITS) >> 12))
        } else {
            None
        }
    }

    /// Resolve a virtual address to a physical address, read-only and free
    /// of side effects.  The sub-page offset is carried over; a huge
    /// mapping's early stop is already folded into [`Self::mapping_of`].
    pub fn translate(&self, virtual_address: u64) -> (r: Option<u64>)
        requires
            self.wf(),
            canonical(virtual_address),
        ensures
            (match self.mapping_of(virtual_address / PAGE_SIZE) {
                Some(f) => r == Some((f * PAGE_SIZE + virtual_address % PAGE_SIZE) as u64)
                    && f * PAGE_SIZE + virtual_address % PAGE_SIZE <= u64::MAX,
                None => r is None,
            }),
    {
        let offset = virtual_address % PAGE_SIZE;
        let page = Page::containing_address(virtual_address);
        match self.translate_page(page) {
            Some(frame) => {
                proof {
                    self.lemma_mapping_bound(page.id());
                }
                Some(frame.num() * PAGE_SIZE + offset)
            },
            None => None,
        }
    }

    /// Any resolved frame index fits in 42 bits, so a physical address with
    /// its offset fits in a word.
    proof fn lemma_mapping_bound(self, n: u64)
        ensures
            (match self.mapping_of(n) {
                Some(f) => 0 <= f < 0x400_0000_0000,
                None => true,
            }),
    {
        lemma_page_indices(n);
        lemma_frame_num_bound(self.e3(n));
        lemma_frame_num_bound(self.e2(n));
        lemma_frame_num_bound(self.leaf_entry(n));
    }
}

/// The raw value of a live leaf entry: present among exactly the given
/// flags, not huge, carrying exactly the given frame.
pub proof fn lemma_leaf_entry(frame: u64, flags: u64)
    requires
        frame < MAX_FRAMES,
        flags & FLAG_BITS == flags,
        flags & HUGE_PAGE == 0,
    ensures
        (flags | PRESENT) & FLAG_BITS == (flags | PRESENT),
        is_present(encode_entry(frame, flags | PRESENT)),
        !is_huge(encode_entry(frame, flags | PRESENT)),
        frame_num(encode_entry(frame, flags | PRESENT)) == frame,
        flags_of(encode_entry(frame, flags | PRESENT)) == (flags | PRESENT),
{
    assert(((flags | 0x1u64) & 0x8000_0000_0000_01ffu64 == (flags | 0x1u64)) && (((frame << 12) | (
    flags | 0x1u64)) & 0x1u64 == 0x1u64) && (((frame << 12) | (flags | 0x1u64)) & 0x80u64
        != 0x80u64) && ((((frame << 12) | (flags | 0x1u64)) & 0x000f_ffff_ffff_f000u64) >> 12
        == frame) && (((frame << 12) | (flags | 0x1u64)) & 0x8000_0000_0000_01ffu64 == (flags
        | 0x1u64))) by (bit_vector)
        requires
            frame < 0x100_0000_0000u64,
            flags & 0x8000_0000_0000_01ffu64 == flags,
            flags & 0x80u64 == 0u64,
    ;
}

/// Setting an entry and reading it back: the recovered frame is exactly the
/// frame that was set, and the recovered flags are exactly the flags that
/// were set.  The present flag must have been among them, since a
/// non-present entry surrenders no frame.
pub proof fn lemma_entry_round_trip(frame: u64, flags: u64)
    requires
        frame < MAX_FRAMES,
        flags & FLAG_BITS == flags,
        flags & PRESENT == PRESENT,
    ensures
        is_present(encode_entry(frame, flags)),
        frame_num(encode_entry(frame, flags)) == frame,
        flags_of(encode_entry(frame, flags)) == flags,
{
    lemma_encode_entry(frame, flags);
    assert(has_flag(encode_entry(frame, flags), PRESENT));
}

/// Splitting an address into page number and offset inverts building the
/// address from them.
pub proof fn lemma_page_offset_decompose(n: u64, offset: u64)
    requires
        offset < PAGE_SIZE,
        n < 0x10_0000_0000_0000u64,
    ensures
        (n * PAGE_SIZE + offset) / (PAGE_SIZE as int) == n,
        (n * PAGE_SIZE + offset) % (PAGE_SIZE as int) == offset,
{
    vstd::arithmetic::div_mod::lemma_fundamental_div_mod_converse(
        n * PAGE_SIZE + offset,
        PAGE_SIZE as int,
        n as int,
        offset as int,
    );
}

impl ActivePageTable {
    /// A walk that meets only clear entries resolves to nothing: every page
    /// whose path is clear is unmapped.
    pub proof fn lemma_path_clear_unmapped(self, n: u64)
        requires
            self.path_clear(n),
        ensures
            self.mapping_of(n) is None,
    {
        lemma_zero_entry();
    }

    /// Conversely, a page that resolves to something does not have a clear
    /// walk: some entry on it is live.
    pub proof fn lemma_mapped_not_clear(self, n: u64)
        requires
            self.mapping_of(n) is Some,
        ensures
            !self.path_clear(n),
    {
        if self.path_clear(n) {
            let e = self.leaf_entry(n);
            assert(is_present(e) ==> e != 0) by (bit_vector);
        }
    }

    /// Translating any address inside page `n` follows that page's mapping:
    /// the same frame for every sub-page offset when mapped, nothing for
    /// every sub-page offset when unmapped.
    pub proof fn lemma_translate_offsets(self, n: u64, offset: u64)
        requires
            offset < PAGE_SIZE,
            n < 0x10_0000_0000_0000u64,
        ensures
            self.mapping_of(((n * PAGE_SIZE + offset) as u64) / PAGE_SIZE) == self.mapping_of(n),
    {
        lemma_page_offset_decompose(n, offset);
        assert(((n * PAGE_SIZE + offset) as u64) / PAGE_SIZE == n);
    }

    /// The reserved slot of the walk root always resolves back to the root
    /// itself: the recursive self-mapping invariant.
    pub proof fn lemma_recursive_slot(self)
        requires
            self.wf(),
        ensures
            is_present(self.ent(self.root(), 511)),
            !is_huge(self.ent(self.root(), 511)),
            frame_num(self.ent(self.root(), 511)) == self.root(),
    {
    }


    /// A mapping operation leaves every other page's resolution alone: the
    /// four walks of the five states below read only slots the operation
    /// never wrote.  `n` is the mapped page, `q` any page differing from it
    /// in at least one index; the states are before the operation, after
    /// each of the three child-creation steps, and after the leaf write.
    #[verifier::rlimit(100)]
    proof fn lemma_other_walks_preserved(
        s0: ActivePageTable,
        s1: ActivePageTable,
        s2: ActivePageTable,
        s3: ActivePageTable,
        s4: ActivePageTable,
        root: u64,
        t3: u64,
        t2: u64,
        t1: u64,
        n: u64,
        q: u64,
    )
        requires
            s0.wf(),
            p4i(n) != 511,
            s0.path_clear(n) || s0.mapped_4k(n),
            root == s0.root(),
            // step one: the third-level link
            if is_present(s0.ent(root, p4i(n))) {
                &&& t3 == frame_num(s0.ent(root, p4i(n)))
                &&& forall|g: u64| s1.has_table(g) == s0.has_table(g)
                &&& forall|g: u64, i: int|
                    s0.has_table(g) && 0 <= i < 512 ==> s1.ent(g, i) == s0.ent(g, i)
            } else {
                &&& !s0.has_table(t3)
                &&& forall|g: u64| #[trigger] s1.has_table(g) == (s0.has_table(g) || g == t3)
                &&& forall|i: int| 0 <= i < 512 ==> s1.ent(t3, i) == 0
                &&& s1.ent(root, p4i(n)) == encode_entry(t3, TABLE_FLAGS)
                &&& forall|g: u64, i: int|
                    s0.has_table(g) && 0 <= i < 512 && !(g == root && i == p4i(n)) ==> s1.ent(g, i)
                        == s0.ent(g, i)
            },
            forall|g: u64| s0.has_table(g) ==> #[trigger] s1.lv(g) == s0.lv(g),
            // step two: the second-level link
            if is_present(s1.ent(t3, p3i(n))) {
                &&& t2 == frame_num(s1.ent(t3, p3i(n)))
                &&& forall|g: u64| s2.has_table(g) == s1.has_table(g)
                &&& forall|g: u64, i: int|
                    s1.has_table(g) && 0 <= i < 512 ==> s2.ent(g, i) == s1.ent(g, i)
            } else {
                &&& !s1.has_table(t2)
                &&& forall|g: u64| #[trigger] s2.has_table(g) == (s1.has_table(g) || g == t2)
                &&& forall|i: int| 0 <= i < 512 ==> s2.ent(t2, i) == 0
                &&& s2.ent(t3, p3i(n)) == encode_entry(t2, TABLE_FLAGS)
                &&& forall|g: u64, i: int|
                    s1.has_table(g) && 0 <= i < 512 && !(g == t3 && i == p3i(n)) ==> s2.ent(g, i)
                        == s1.ent(g, i)
            },
            forall|g: u64| s1.has_table(g) ==> #[trigger] s2.lv(g) == s1.lv(g),
            // step three: the leaf-table link
            if is_present(s2.ent(t2, p2i(n))) {
                &&& t1 == frame_num(s2.ent(t2, p2i(n)))
                &&& forall|g: u64| s3.has_table(g) == s2.has_table(g)
                &&& forall|g: u64, i: int|
                    s2.has_table(g) && 0 <= i < 512 ==> s3.ent(g, i) == s2.ent(g, i)
            } else {
                &&& !s2.has_table(t1)
                &&& forall|g: u64| #[trigger] s3.has_table(g) == (s2.has_table(g) || g == t1)
                &&& forall|i: int| 0 <= i < 512 ==> s3.ent(t1, i) == 0
                &&& s3.ent(t2, p2i(n)) == encode_entry(t1, TABLE_FLAGS)
                &&& forall|g: u64, i: int|
                    s2.has_table(g) && 0 <= i < 512 && !(g == t2 && i == p2i(n)) ==> s3.ent(g, i)
                        == s2.ent(g, i)
            },
            forall|g: u64| s2.has_table(g) ==> #[trigger] s3.lv(g) == s2.lv(g),
            // the leaf write itself
            forall|g: u64| s4.has_table(g) == s3.has_table(g),
            forall|g: u64, i: int|
                s3.has_table(g) && 0 <= i < 512 && !(g == t1 && i == p1i(n)) ==> s4.ent(g, i)
                    == s3.ent(g, i),
            s3.lv(root) == 4 && s3.lv(t3) == 3 && s3.lv(t2) == 2 && s3.lv(t1) == 1,
            s3.has_table(t3) && s3.has_table(t2) && s3.has_table(t1),
            s4.root() == root,
            t3 < MAX_FRAMES,
            t2 < MAX_FRAMES,
            t1 < MAX_FRAMES,
            // the other page
            p4i(q) != 511,
            !(p4i(q) == p4i(n) && p3i(q) == p3i(n) && p2i(q) == p2i(n) && p1i(q) == p1i(n)),
        ensures
            s4.mapping_of(q) == s0.mapping_of(q),
            s4.path_clear(q) == s0.path_clear(q),
    {
        lemma_page_indices(n);
        lemma_page_indices(q);
        lemma_zero_entry();
        lemma_table_link(t3);
        lemma_table_link(t2);
        lemma_table_link(t1);
        s0.lemma_walk_strict(q);
        s0.lemma_walk_strict(n);
        let i4 = p4i(n);
        let i3 = p3i(n);
        let i2 = p2i(n);
        let i1 = p1i(n);
        let j4 = p4i(q);
        let j3 = p3i(q);
        let j2 = p2i(q);
        let j1 = p1i(q);
        let c4 = !is_present(s0.ent(root, i4));
        let c3 = !is_present(s1.ent(t3, i3));
        let c2 = !is_present(s2.ent(t2, i2));
        // which tables existed before: each level's table frame is distinct
        // from root by its level, and fresh frames are outside the old store
        assert(s0.has_table(root) && s0.lv(root) == 4);
        assert(t3 != root && t2 != root && t1 != root);
        assert(t2 != t3 && t1 != t3 && t1 != t2);
        if j4 != i4 {
            // the walk diverges at the top: nothing on it was written
            assert(s4.ent(root, j4) == s0.ent(root, j4));
            assert(s4.e4(q) == s0.e4(q));
            if is_present(s0.e4(q)) && !is_huge(s0.e4(q)) {
                let w3 = s0.walk3(q);
                assert(s0.has_table(w3) && s0.lv(w3) == 3);
                if !c4 {
                    assert(frame_num(s0.ent(root, j4)) != frame_num(s0.ent(root, i4)));
                }
                assert(w3 != t3 && w3 != t2 && w3 != t1 && w3 != root);
                assert(s4.ent(w3, j3) == s0.ent(w3, j3));
                assert(s4.walk3(q) == w3 && s4.e3(q) == s0.e3(q));
                if is_present(s0.e3(q)) && !is_huge(s0.e3(q)) {
                    let w2 = s0.walk2(q);
                    assert(s0.has_table(w2) && s0.lv(w2) == 2);
                    if !c4 && !c3 {
                        assert(s1.ent(w3, j3) == s0.ent(w3, j3));
                        assert(s1.ent(t3, i3) == s0.ent(t3, i3));
                        assert(frame_num(s0.ent(w3, j3)) != frame_num(s0.ent(t3, i3)));
                    }
                    assert(w2 != t2 && w2 != t1 && w2 != root && w2 != t3);
                    assert(s4.ent(w2, j2) == s0.ent(w2, j2));
                    assert(s4.walk2(q) == w2 && s4.e2(q) == s0.e2(q));
                    if is_present(s0.e2(q)) && !is_huge(s0.e2(q)) {
                        let w1 = s0.walk1(q);
                        assert(s0.has_table(w1) && s0.lv(w1) == 1);
                        if !c4 && !c3 && !c2 {
                            assert(s2.ent(w2, j2) == s0.ent(w2, j2));
                            assert(s2.ent(t2, i2) == s0.ent(t2, i2));
                            assert(frame_num(s0.ent(w2, j2)) != frame_num(s0.ent(t2, i2)));
                        }
                        assert(w1 != t1 && w1 != root && w1 != t3 && w1 != t2);
                        assert(s4.ent(w1, j1) == s0.ent(w1, j1));
                        assert(s4.walk1(q) == w1 && s4.leaf_entry(q) == s0.leaf_entry(q));
                    }
                }
            }
            assert(s4.mapping_of(q) == s0.mapping_of(q));
        } else {
            // shared top index
            if c4 {
                // the whole chain below is fresh: the old walk died here and
                // the new one reads only zeroed slots off the mapped path
                assert(s0.mapping_of(q) is None);
                assert(s0.path_clear(q));
                assert(s4.ent(root, i4) == encode_entry(t3, TABLE_FLAGS));
                assert(s4.walk3(q) == t3);
                assert(c3);
                if j3 != i3 {
                    assert(s4.ent(t3, j3) == 0);
                    assert(s4.mapping_of(q) is None);
                    assert(s4.path_clear(q));
                } else {
                    assert(s4.ent(t3, i3) == encode_entry(t2, TABLE_FLAGS));
                    assert(s4.walk2(q) == t2);
                    assert(c2);
                    if j2 != i2 {
                        assert(s4.ent(t2, j2) == 0);
                        assert(s4.mapping_of(q) is None);
                        assert(s4.path_clear(q));
                    } else {
                        assert(s4.ent(t2, i2) == encode_entry(t1, TABLE_FLAGS));
                        assert(s4.walk1(q) == t1);
                        assert(j1 != i1);
                        assert(s4.ent(t1, j1) == 0);
                        assert(s4.mapping_of(q) is None);
                        assert(s4.path_clear(q));
                    }
                }
            } else {
                // the third-level table is shared
                assert(t3 == s0.walk3(n));
                assert(!is_huge(s0.ent(root, i4)));
                assert(s4.ent(root, i4) == s0.ent(root, i4));
                assert(s4.e4(q) == s0.e4(q) && s4.walk3(q) == t3 && s0.walk3(q) == t3);
                if j3 != i3 {
                    assert(s4.ent(t3, j3) == s0.ent(t3, j3));
                    assert(s4.e3(q) == s0.e3(q));
                    if is_present(s0.e3(q)) && !is_huge(s0.e3(q)) {
                        let w2 = s0.walk2(q);
                        assert(s0.has_table(w2) && s0.lv(w2) == 2);
                        if !c3 {
                            assert(s1.ent(t3, j3) == s0.ent(t3, j3));
                            assert(s1.ent(t3, i3) == s0.ent(t3, i3));
                            assert(frame_num(s0.ent(t3, j3)) != frame_num(s0.ent(t3, i3)));
                        }
                        assert(w2 != t2 && w2 != t1 && w2 != root && w2 != t3);
                        assert(s4.ent(w2, j2) == s0.ent(w2, j2));
                        assert(s4.walk2(q) == w2 && s4.e2(q) == s0.e2(q));
                        if is_present(s0.e2(q)) && !is_huge(s0.e2(q)) {
                            let w1 = s0.walk1(q);
                            assert(s0.has_table(w1) && s0.lv(w1) == 1);
                            if !c3 && !c2 {
                                assert(s2.ent(w2, j2) == s0.ent(w2, j2));
                                assert(s2.ent(t2, i2) == s0.ent(t2, i2));
                                assert(frame_num(s0.ent(w2, j2)) != frame_num(s0.ent(t2, i2)));
                            }
                            assert(w1 != t1 && w1 != root && w1 != t3 && w1 != t2);
                            assert(s4.ent(w1, j1) == s0.ent(w1, j1));
                            assert(s4.walk1(q) == w1 && s4.leaf_entry(q) == s0.leaf_entry(q));
                        }
                    }
                    assert(s4.mapping_of(q) == s0.mapping_of(q));
                } else {
                    // second-level table shared too
                    if c3 {
                        assert(s0.ent(t3, i3) == s1.ent(t3, i3));
                        assert(s0.mapping_of(q) is None);
                        assert(s0.path_clear(q));
                        assert(s4.ent(t3, i3) == encode_entry(t2, TABLE_FLAGS));
                        assert(s4.walk2(q) == t2);
                        assert(c2);
                        if j2 != i2 {
                            assert(s4.ent(t2, j2) == 0);
                            assert(s4.mapping_of(q) is None);
                            assert(s4.path_clear(q));
                        } else {
                            assert(s4.ent(t2, i2) == encode_entry(t1, TABLE_FLAGS));
                            assert(s4.walk1(q) == t1);
                            assert(j1 != i1);
                            assert(s4.ent(t1, j1) == 0);
                            assert(s4.mapping_of(q) is None);
                            assert(s4.path_clear(q));
                        }
                    } else {
                        assert(t2 == frame_num(s0.ent(t3, i3)));
                        assert(!is_huge(s0.ent(t3, i3)));
                        assert(s4.ent(t3, i3) == s0.ent(t3, i3));
                        assert(s4.walk2(q) == t2 && s0.walk2(q) == t2);
                        if j2 != i2 {
                            assert(s4.ent(t2, j2) == s0.ent(t2, j2));
                            assert(s4.e2(q) == s0.e2(q));
                            if is_present(s0.e2(q)) && !is_huge(s0.e2(q)) {
                                let w1 = s0.walk1(q);
                                assert(s0.has_table(w1) && s0.lv(w1) == 1);
                                if !c2 {
                                    assert(s2.ent(t2, j2) == s0.ent(t2, j2));
                                    assert(s2.ent(t2, i2) == s0.ent(t2, i2));
                                    assert(frame_num(s0.ent(t2, j2)) != frame_num(
                                        s0.ent(t2, i2),
                                    ));
                                }
                                assert(w1 != t1 && w1 != root && w1 != t3 && w1 != t2);
                                assert(s4.ent(w1, j1) == s0.ent(w1, j1));
                                assert(s4.walk1(q) == w1 && s4.leaf_entry(q) == s0.leaf_entry(
                                    q,
                                ));
                            }
                            assert(s4.mapping_of(q) == s0.mapping_of(q));
                        } else {
                            // only the leaf index differs
                            assert(j1 != i1);
                            if c2 {
                                assert(s0.ent(t2, i2) == s2.ent(t2, i2));
                                assert(s0.mapping_of(q) is None);
                                assert(s0.path_clear(q));
                                assert(s4.ent(t2, i2) == encode_entry(t1, TABLE_FLAGS));
                                assert(s4.walk1(q) == t1);
                                assert(s4.ent(t1, j1) == 0);
                                assert(s4.mapping_of(q) is None);
                                assert(s4.path_clear(q));
                            } else {
                                assert(t1 == frame_num(s0.ent(t2, i2)));
                                assert(!is_huge(s0.ent(t2, i2)));
                                assert(s4.ent(t2, i2) == s0.ent(t2, i2));
                                assert(s4.walk1(q) == t1 && s0.walk1(q) == t1);
                                assert(s4.ent(t1, j1) == s0.ent(t1, j1));
                                assert(s4.leaf_entry(q) == s0.leaf_entry(q));
                                assert(s4.mapping_of(q) == s0.mapping_of(q));
                            }
                        }
                    }
                }
            }
        }
    }

    /// Child table at `index` below the table at `table`, creating it if the
    /// slot is empty: a fresh frame is taken from the allocator, zeroed, and
    /// linked present and writable.  Descending through a huge entry is a
    /// contract violation, excluded here rather than detected at run time.
    pub fn next_table_create<A: FrameAllocator>(
        &mut self,
        table: u64,
        index: usize,
        allocator: &mut A,
    ) -> (r: Result<u64, PagingError>)
        requires
            old(self).wf(),
            old(self).has_table(table),
            2 <= old(self).lv(table),
            index < 512,
            !(old(self).lv(table) == 4 && index == 511),
            !is_huge(old(self).ent(table, index as int)),
            old(allocator).wf(),
            is_present(old(self).ent(table, index as int)) || old(self).alloc_ok(
                old(allocator).avail(),
            ),
        ensures
            final(allocator).wf(),
            final(self).wf(),
            final(self).p4_spec() == old(self).p4_spec(),
            final(self).root() == old(self).root(),
            old(self).alloc_ok(old(allocator).avail()) ==> final(self).alloc_ok(
                final(allocator).avail(),
            ),
            final(allocator).avail().subset_of(old(allocator).avail()),
            forall|g: u64|
                old(self).has_table(g) ==> #[trigger] final(self).has_table(g) && final(self).lv(g)
                    == old(self).lv(g),
            forall|g: u64|
                #[trigger] final(self).has_table(g) ==> old(self).has_table(g) || old(allocator).avail().contains(g),
            (match r {
                Ok(c) => {
                    &&& final(self).has_table(c)
                    &&& final(self).lv(c) == old(self).lv(table) - 1
                    &&& is_present(final(self).ent(table, index as int))
                    &&& !is_huge(final(self).ent(table, index as int))
                    &&& frame_num(final(self).ent(table, index as int)) == c
                    &&& if is_present(old(self).ent(table, index as int)) {
                        &&& c == frame_num(old(self).ent(table, index as int))
                        &&& forall|g: u64| final(self).has_table(g) == old(self).has_table(g)
                        &&& forall|g: u64, i: int|
                            old(self).has_table(g) && 0 <= i < 512 ==> final(self).ent(g, i)
                                == old(self).ent(g, i)
                        &&& final(allocator).avail() == old(allocator).avail()
                    } else {
                        &&& !old(self).has_table(c)
                        &&& old(allocator).avail().contains(c)
                        &&& final(allocator).avail() == old(allocator).avail().remove(c)
                        &&& forall|g: u64|
                            #[trigger] final(self).has_table(g) == (old(self).has_table(g) || g
                                == c)
                        &&& forall|i: int| 0 <= i < 512 ==> final(self).ent(c, i) == 0
                        &&& final(self).ent(table, index as int) == encode_entry(c, TABLE_FLAGS)
                        &&& forall|g: u64, i: int|
                            old(self).has_table(g) && 0 <= i < 512 && !(g == table && i
                                == index as int) ==> final(self).ent(g, i) == old(self).ent(g, i)
                    }
                },
                Err(e) => {
                    &&& e == PagingError::OutOfFrames
                    &&& old(allocator).avail() =~= Set::<u64>::empty()
                    &&& final(allocator).avail() =~= Set::<u64>::empty()
                    &&& !is_present(old(self).ent(table, index as int))
                    &&& forall|g: u64| final(self).has_table(g) == old(self).has_table(g)
                    &&& forall|g: u64, i: int|
                        old(self).has_table(g) && 0 <= i < 512 ==> final(self).ent(g, i) == old(self).ent(g, i)
                },
            }),
    {
        let e = self.mem.read_entry(table, index);
        if e.raw & PRESENT == PRESENT {
            let c = (e.raw & ADDRESS_BITS) >> 12;
            proof {
                assert(self.ent(table, index as int) == e.raw_spec());
            }
            Ok(c)
        } else {
            match allocator.allocate_frame() {
                None => Err(PagingError::OutOfFrames),
                Some(fresh) => {
                    let c = fresh.num();
                    let ghost lvc = self.lv(table) - 1;
                    self.mem.put_zeroed(c, Ghost(lvc));
                    self.mem.set_entry(table, index, Entry { raw: (c << 12) | TABLE_FLAGS });
                    proof {
                        lemma_table_link(c);
                        lemma_zero_entry();
                        let s0 = *old(self);
                        let s2 = *self;
                        assert(s2.ent(table, index as int) == encode_entry(c, TABLE_FLAGS));
                        assert forall|g: u64, i: int|
                            s0.has_table(g) && 0 <= i < 512 && !(g == table && i == index as int)
                            implies s2.ent(g, i) == s0.ent(g, i) by {}
                        assert forall|i: int| 0 <= i < 512 implies s2.ent(c, i) == 0 by {}
                        assert forall|g: u64|
                            s0.has_table(g) implies #[trigger] s2.has_table(g) && s2.lv(g) == s0.lv(
                            g,
                        ) by {}
                        // Well-formedness of the grown hierarchy.
                        assert forall|f: u64| #[trigger] s2.has_table(f) implies 1 <= s2.lv(f) <= 4
                            && f < MAX_FRAMES by {
                            if f != c {
                                assert(s0.has_table(f));
                            }
                        }
                        assert forall|f: u64, i: int|
                            s2.has_table(f) && 0 <= i < 512 && s2.lv(f) >= 2 && !(s2.lv(f) == 4 && i
                                == 511) && is_present(#[trigger] s2.ent(f, i)) && !is_huge(
                                s2.ent(f, i),
                            ) implies s2.has_table(frame_num(s2.ent(f, i))) && s2.lv(
                            frame_num(s2.ent(f, i)),
                        ) == s2.lv(f) - 1 by {
                            if f == c {
                                assert(s2.ent(f, i) == 0);
                            } else if f == table && i == index as int {
                                assert(frame_num(s2.ent(f, i)) == c);
                            } else {
                                assert(s0.has_table(f));
                                assert(s2.ent(f, i) == s0.ent(f, i));
                                let g0 = frame_num(s0.ent(f, i));
                                assert(s0.has_table(g0) && s0.lv(g0) == s0.lv(f) - 1);
                            }
                        }
                        assert forall|f: u64, i: int|
                            s2.has_table(f) && 0 <= i < 512 && is_present(#[trigger] s2.ent(f, i))
                                && is_huge(s2.ent(f, i)) implies (s2.lv(f) == 3 ==> frame_num(
                            s2.ent(f, i),
                        ) % 0x40000 == 0) && (s2.lv(f) == 2 ==> frame_num(s2.ent(f, i)) % 512
                            == 0) by {
                            if f == c {
                                assert(s2.ent(f, i) == 0);
                            } else if f == table && i == index as int {
                            } else {
                                assert(s0.has_table(f));
                                assert(s2.ent(f, i) == s0.ent(f, i));
                            }
                        }
                        assert(s2.ent(s0.p4_spec(), 511) == s0.ent(s0.p4_spec(), 511));
                        assert(s2.root() == s0.root());
                        assert(s2.ent(s0.root(), 511) == s0.ent(s0.root(), 511));
                        assert(s2.wf());
                    }
                    Ok(c)
                },
            }
        }
    }

    /// Map `page` to `frame` with `flags` (the present flag is added).  The
    /// three intermediate tables are created on demand from the allocator;
    /// only allocator exhaustion is an error, and with three frames at hand
    /// (or the chain already present) success is owed.  The target leaf slot
    /// must be unused and the walk free of huge entries, which is what
    /// [`Self::path_clear`] says; pages under the reserved recursive slot
    /// are excluded, since writing there would tear the self-mapping that
    /// every walk depends on.
    #[verifier::rlimit(100)]
    pub fn map_to<A: FrameAllocator>(
        &mut self,
        page: Page,
        frame: Frame,
        flags: u64,
        allocator: &mut A,
    ) -> (r: Result<(), PagingError>)
        requires
            old(self).wf(),
            p4i(page.id()) != 511,
            old(self).path_clear(page.id()),
            frame.id() < MAX_FRAMES,
            flags & FLAG_BITS == flags,
            flags & HUGE_PAGE == 0,
            old(allocator).wf(),
            old(self).chain_complete(page.id()) || old(self).alloc_ok(old(allocator).avail()),
        ensures
            final(self).wf(),
            final(allocator).wf(),
            final(self).p4_spec() == old(self).p4_spec(),
            final(self).root() == old(self).root(),
            old(self).alloc_ok(old(allocator).avail()) ==> final(self).alloc_ok(
                final(allocator).avail(),
            ),
            final(allocator).avail().subset_of(old(allocator).avail()),
            forall|g: u64|
                old(self).has_table(g) ==> #[trigger] final(self).has_table(g) && final(self).lv(g)
                    == old(self).lv(g),
            forall|g: u64|
                #[trigger] final(self).has_table(g) ==> old(self).has_table(g) || old(allocator).avail().contains(g),
            forall|g: u64, i: int|
                old(self).has_table(g) && 0 <= i < 512 && old(self).lv(g) == 4 && !(g == old(self).root() && i == p4i(page.id())) ==> final(self).ent(g, i) == old(self).ent(g, i),
            old(self).chain_complete(page.id()) || old(allocator).avail().len() >= 3 ==> r is Ok,
            (!old(self).chain_complete(page.id()) && old(self).alloc_ok(old(allocator).avail())
                && r is Ok) ==> final(allocator).avail().len() < old(allocator).avail().len(),
            (!is_present(old(self).e4(page.id())) && old(self).alloc_ok(old(allocator).avail())
                && r is Ok) ==> final(allocator).avail().len() + 3 == old(
                allocator,
            ).avail().len(),
            (match r {
                Ok(u) => {
                    &&& final(self).mapped_4k(page.id())
                    &&& final(self).mapping_of(page.id()) == Some(frame.id() as int)
                    &&& final(self).leaf_entry(page.id()) == encode_entry(
                        frame.id(),
                        flags | PRESENT,
                    )
                    &&& forall|q: u64|
                        p4i(q) != 511 && !(p4i(q) == p4i(page.id()) && p3i(q) == p3i(page.id())
                            && p2i(q) == p2i(page.id()) && p1i(q) == p1i(page.id()))
                            ==> #[trigger] final(self).mapping_of(q) == old(self).mapping_of(q)
                    &&& forall|q: u64|
                        p4i(q) != 511 && !(p4i(q) == p4i(page.id()) && p3i(q) == p3i(page.id())
                            && p2i(q) == p2i(page.id()) && p1i(q) == p1i(page.id()))
                            ==> #[trigger] final(self).path_clear(q) == old(self).path_clear(q)
                },
                Err(e) => {
                    &&& e == PagingError::OutOfFrames
                    &&& final(allocator).avail() =~= Set::<u64>::empty()
                    &&& final(self).mapping_of(page.id()) is None
                },
            }),
    {
        let ghost n = page.id();
        let ghost s0 = *self;
        let ghost a0 = old(allocator).avail();
        let root = self.walk_root();
        let i4 = page.p4_index();
        let i3 = page.p3_index();
        let i2 = page.p2_index();
        let i1 = page.p1_index();
        proof {
            lemma_zero_entry();
            assert(s0.ent(root, i4 as int) == s0.e4(n));
            if s0.chain_complete(n) {
                assert(is_present(s0.ent(root, i4 as int)));
            }
        }
        let t3 = match self.next_table_create(root, i4, allocator) {
            Ok(c) => c,
            Err(e) => {
                proof {
                    assert(self.ent(self.root(), i4 as int) == s0.ent(root, i4 as int));
                    assert(!is_present(self.e4(n)));
                    assert forall|g: u64| s0.has_table(g) implies #[trigger] self.has_table(g)
                        && self.lv(g) == s0.lv(g) by {
                        assert(self.has_table(g));
                        assert(self.lv(g) == s0.lv(g));
                    }
                    assert forall|g: u64, i: int|
                        s0.has_table(g) && 0 <= i < 512 implies self.ent(g, i) == s0.ent(g, i) by {}
                    broadcast use vstd::set::axiom_set_empty_len;
                }
                return Err(e);
            },
        };
        let ghost s1 = *self;
        let ghost a1 = allocator.avail();
        proof {
            if is_present(s0.ent(root, i4 as int)) {
                assert(t3 == s0.walk3(n));
                assert(s1.ent(t3, i3 as int) == s0.e3(n));
            } else {
                assert(s1.ent(t3, i3 as int) == 0);
            }
            if !is_present(s1.ent(t3, i3 as int)) {
                assert(!s0.chain_complete(n));
                assert(s0.alloc_ok(a0));
                assert(s1.alloc_ok(a1));
            }
        }
        let t2 = match self.next_table_create(t3, i3, allocator) {
            Ok(c) => c,
            Err(e) => {
                proof {
                    assert(self.ent(self.root(), i4 as int) == s1.ent(root, i4 as int));
                    assert(is_present(self.e4(n)) && !is_huge(self.e4(n)));
                    assert(self.walk3(n) == t3);
                    assert(self.ent(t3, i3 as int) == s1.ent(t3, i3 as int));
                    assert(!is_present(self.e3(n)));
                    if s0.chain_complete(n) {
                        assert(is_present(s1.ent(t3, i3 as int)));
                        assert(false);
                    }
                    assert forall|g: u64| s0.has_table(g) implies #[trigger] self.has_table(g)
                        && self.lv(g) == s0.lv(g) by {
                        assert(s1.has_table(g));
                        assert(s1.lv(g) == s0.lv(g));
                    }
                    assert forall|g: u64| #[trigger] self.has_table(g) implies s0.has_table(g)
                        || a0.contains(g) by {
                        if !s1.has_table(g) {
                            assert(a1.contains(g));
                        } else if !s0.has_table(g) {
                            assert(a0.contains(g));
                        }
                    }
                    assert forall|g: u64, i: int|
                        s0.has_table(g) && 0 <= i < 512 && s0.lv(g) == 4 && !(g == s0.root() && i
                            == i4 as int) implies self.ent(g, i) == s0.ent(g, i) by {
                        assert(s1.ent(g, i) == s0.ent(g, i));
                        assert(self.ent(g, i) == s1.ent(g, i));
                    }
                    broadcast use vstd::set::axiom_set_empty_len;
                    if a0.len() >= 3 {
                        vstd::set::axiom_set_remove_len(a0, t3);
                        assert(false);
                    }
                }
                return Err(e);
            },
        };
        let ghost s2 = *self;
        let ghost a2 = allocator.avail();
        proof {
            if is_present(s1.ent(t3, i3 as int)) {
                assert(t2 == frame_num(s1.ent(t3, i3 as int)));
                if is_present(s0.ent(root, i4 as int)) {
                    assert(t2 == s0.walk2(n));
                    assert(s2.ent(t2, i2 as int) == s0.e2(n));
                }
            } else {
                assert(s2.ent(t2, i2 as int) == 0);
            }
            if !is_present(s0.ent(root, i4 as int)) {
                // the third-level table was fresh, so its slot was empty and
                // the second-level table is fresh too
                assert(s1.ent(t3, i3 as int) == 0);
                assert(s2.ent(t2, i2 as int) == 0);
            }
            assert(!is_huge(s2.ent(t2, i2 as int)));
            if !is_present(s2.ent(t2, i2 as int)) {
                assert(!s0.chain_complete(n));
                assert(s0.alloc_ok(a0));
                assert(s1.alloc_ok(a1));
                assert(s2.alloc_ok(a2));
            }
        }
        let t1 = match self.next_table_create(t2, i2, allocator) {
            Ok(c) => c,
            Err(e) => {
                proof {
                    assert(self.ent(self.root(), i4 as int) == s2.ent(root, i4 as int));
                    assert(self.walk3(n) == t3);
                    assert(self.ent(t3, i3 as int) == s2.ent(t3, i3 as int));
                    assert(is_present(self.e3(n)) && !is_huge(self.e3(n)));
                    assert(self.walk2(n) == t2);
                    assert(self.ent(t2, i2 as int) == s2.ent(t2, i2 as int));
                    assert(!is_present(self.e2(n)));
                    if s0.chain_complete(n) {
                        assert(is_present(s1.ent(t3, i3 as int)));
                        assert(is_present(s2.ent(t2, i2 as int)));
                        assert(false);
                    }
                    assert forall|g: u64| s0.has_table(g) implies #[trigger] self.has_table(g)
                        && self.lv(g) == s0.lv(g) by {
                        assert(s1.has_table(g));
                        assert(s1.lv(g) == s0.lv(g));
                        assert(s2.has_table(g));
                        assert(s2.lv(g) == s1.lv(g));
                    }
                    assert forall|g: u64| #[trigger] self.has_table(g) implies s0.has_table(g)
                        || a0.contains(g) by {
                        if !s2.has_table(g) {
                            assert(a2.contains(g));
                            assert(a0.contains(g));
                        } else if !s1.has_table(g) {
                            assert(a1.contains(g));
                            assert(a0.contains(g));
                        } else if !s0.has_table(g) {
                            assert(a0.contains(g));
                        }
                    }
                    assert forall|g: u64, i: int|
                        s0.has_table(g) && 0 <= i < 512 && s0.lv(g) == 4 && !(g == s0.root() && i
                            == i4 as int) implies self.ent(g, i) == s0.ent(g, i) by {
                        assert(s1.ent(g, i) == s0.ent(g, i));
                        assert(s1.has_table(g));
                        assert(s1.lv(g) == 4);
                        assert(s2.ent(g, i) == s1.ent(g, i));
                        assert(self.ent(g, i) == s2.ent(g, i));
                    }
                    broadcast use vstd::set::axiom_set_empty_len;
                    if a0.len() >= 3 {
                        vstd::set::axiom_set_remove_len(a0, t3);
                        vstd::set::axiom_set_remove_len(a0.remove(t3), t2);
                        assert(false);
                    }
                }
                return Err(e);
            },
        };
        let ghost s3 = *self;
        let fv = frame.num();
        proof {
            assert(s3.lv(root) == 4 && s3.lv(t3) == 3 && s3.lv(t2) == 2 && s3.lv(t1) == 1);
            assert(s3.has_table(t1));
            lemma_leaf_entry(frame.id(), flags);
        }
        self.mem.set_entry(t1, i1, Entry { raw: (fv << 12) | (flags | PRESENT) });
        proof {
            let s4 = *self;
            assert(s4.ent(t1, i1 as int) == encode_entry(frame.id(), flags | PRESENT));
            assert forall|g: u64, i: int|
                s3.has_table(g) && 0 <= i < 512 && !(g == t1 && i == i1 as int) implies s4.ent(g, i)
                == s3.ent(g, i) by {}
            assert forall|g: u64|
                s3.has_table(g) implies #[trigger] s4.has_table(g) && s4.lv(g) == s3.lv(g) by {}
            // The four tables of the walk are pairwise distinct, so the leaf
            // write disturbs none of the three links above it.
            assert(t1 != root && t1 != t3 && t1 != t2);
            assert(s4.ent(s3.p4_spec(), 511) == s3.ent(s3.p4_spec(), 511));
            assert(s4.root() == s3.root() && s3.root() == root);
            assert(s4.e4(n) == s3.ent(root, i4 as int));
            assert(is_present(s4.e4(n)) && !is_huge(s4.e4(n)) && frame_num(s4.e4(n)) == t3);
            assert(s4.walk3(n) == t3);
            assert(s4.e3(n) == s3.ent(t3, i3 as int));
            assert(is_present(s4.e3(n)) && !is_huge(s4.e3(n)) && frame_num(s4.e3(n)) == t2);
            assert(s4.walk2(n) == t2);
            assert(s4.e2(n) == s3.ent(t2, i2 as int));
            assert(is_present(s4.e2(n)) && !is_huge(s4.e2(n)) && frame_num(s4.e2(n)) == t1);
            assert(s4.walk1(n) == t1);
            assert(s4.leaf_entry(n) == encode_entry(frame.id(), flags | PRESENT));
            assert(s4.mapped_4k(n));
            assert(s4.mapping_of(n) == Some(frame.id() as int));
            // Well-formedness: the write sits in a leaf table, which no edge
            // or alignment clause constrains.
            assert forall|f: u64, i: int|
                s4.has_table(f) && 0 <= i < 512 && s4.lv(f) >= 2 && !(s4.lv(f) == 4 && i == 511)
                    && is_present(#[trigger] s4.ent(f, i)) && !is_huge(s4.ent(f, i)) implies
                s4.has_table(frame_num(s4.ent(f, i))) && s4.lv(frame_num(s4.ent(f, i))) == s4.lv(f)
                - 1 by {
                assert(f != t1);
                assert(s4.ent(f, i) == s3.ent(f, i));
                let g0 = frame_num(s3.ent(f, i));
                assert(s3.has_table(g0) && s3.lv(g0) == s3.lv(f) - 1);
            }
            assert forall|f: u64, i: int|
                s4.has_table(f) && 0 <= i < 512 && is_present(#[trigger] s4.ent(f, i)) && is_huge(
                    s4.ent(f, i),
                ) implies (s4.lv(f) == 3 ==> frame_num(s4.ent(f, i)) % 0x40000 == 0) && (s4.lv(f)
                == 2 ==> frame_num(s4.ent(f, i)) % 512 == 0) by {
                if f == t1 {
                    if i == i1 as int {
                        assert(!is_huge(s4.ent(f, i)));
                    } else {
                        assert(s4.ent(f, i) == s3.ent(f, i));
                    }
                } else {
                    assert(s4.ent(f, i) == s3.ent(f, i));
                }
            }
            assert forall|f: u64| #[trigger] s4.has_table(f) implies 1 <= s4.lv(f) <= 4 && f
                < MAX_FRAMES by {
                assert(s3.has_table(f));
            }
            assert forall|g: u64| s0.has_table(g) implies #[trigger] s4.has_table(g) && s4.lv(g)
                == s0.lv(g) by {
                assert(s1.has_table(g));
                assert(s1.lv(g) == s0.lv(g));
                assert(s2.has_table(g));
                assert(s2.lv(g) == s1.lv(g));
                assert(s3.has_table(g));
                assert(s3.lv(g) == s2.lv(g));
                assert(s4.has_table(g));
                assert(s4.lv(g) == s3.lv(g));
            }
            let ghost a3 = allocator.avail();
            assert forall|g: u64| #[trigger] s4.has_table(g) implies s0.has_table(g) || a0.contains(
                g,
            ) by {
                assert(s3.has_table(g));
                if !s2.has_table(g) {
                    assert(a2.contains(g));
                    assert(a0.contains(g));
                } else if !s1.has_table(g) {
                    assert(a1.contains(g));
                    assert(a0.contains(g));
                } else if !s0.has_table(g) {
                    assert(a0.contains(g));
                }
            }
            if s0.alloc_ok(a0) {
                assert(s3.alloc_ok(a3));
                assert forall|f: u64| #[trigger] a3.contains(f) implies !s4.has_table(f) && f
                    < MAX_FRAMES by {
                    assert(!s3.has_table(f));
                }
                assert(s4.alloc_ok(a3));
            }
            assert forall|g: u64, i: int|
                s0.has_table(g) && 0 <= i < 512 && s0.lv(g) == 4 && !(g == s0.root() && i
                    == i4 as int) implies s4.ent(g, i) == s0.ent(g, i) by {
                assert(s1.ent(g, i) == s0.ent(g, i));
                assert(s1.has_table(g));
                assert(s1.lv(g) == 4);
                assert(s2.ent(g, i) == s1.ent(g, i));
                assert(s2.has_table(g));
                assert(s2.lv(g) == 4);
                assert(s3.ent(g, i) == s2.ent(g, i));
                assert(s3.has_table(g));
                assert(s3.lv(g) == 4);
                assert(s4.ent(g, i) == s3.ent(g, i));
            }
            lemma_frame_num_bound(s0.ent(root, i4 as int));
            lemma_frame_num_bound(s1.ent(t3, i3 as int));
            lemma_frame_num_bound(s2.ent(t2, i2 as int));
            assert(t3 < MAX_FRAMES && t2 < MAX_FRAMES && t1 < MAX_FRAMES);
            if s0.alloc_ok(a0) {
                broadcast use vstd::set::axiom_set_remove_len;

                if !s0.chain_complete(n) {
                    if is_present(s0.ent(root, i4 as int)) {
                        if is_present(s1.ent(t3, i3 as int)) {
                            assert(!is_present(s2.ent(t2, i2 as int)));
                        }
                    }
                    assert(a3.len() < a0.len());
                }
                if !is_present(s0.e4(n)) {
                    assert(a1 == a0.remove(t3));
                    assert(s1.ent(t3, i3 as int) == 0);
                    assert(a2 == a1.remove(t2));
                    assert(s2.ent(t2, i2 as int) == 0);
                    assert(a3 == a2.remove(t1));
                    assert(a3.len() + 3 == a0.len());
                }
            }
            assert forall|q: u64|
                p4i(q) != 511 && !(p4i(q) == p4i(n) && p3i(q) == p3i(n) && p2i(q) == p2i(n)
                    && p1i(q) == p1i(n)) implies #[trigger] s4.mapping_of(q) == s0.mapping_of(
                q,
            ) by {
                Self::lemma_other_walks_preserved(
                    s0,
                    s1,
                    s2,
                    s3,
                    s4,
                    root,
                    t3,
                    t2,
                    t1,
                    n,
                    q,
                );
            }
            assert forall|q: u64|
                p4i(q) != 511 && !(p4i(q) == p4i(n) && p3i(q) == p3i(n) && p2i(q) == p2i(n)
                    && p1i(q) == p1i(n)) implies #[trigger] s4.path_clear(q) == s0.path_clear(
                q,
            ) by {
                Self::lemma_other_walks_preserved(
                    s0,
                    s1,
                    s2,
                    s3,
                    s4,
                    root,
                    t3,
                    t2,
                    t1,
                    n,
                    q,
                );
            }
            assert(s4.wf());
        }
        Ok(())
    }

    /// Map `page` to a frame freshly taken from the allocator.
    pub fn map<A: FrameAllocator>(&mut self, page: Page, flags: u64, allocator: &mut A) -> (r:
        Result<(), PagingError>)
        requires
            old(self).wf(),
            p4i(page.id()) != 511,
            old(self).path_clear(page.id()),
            flags & FLAG_BITS == flags,
            flags & HUGE_PAGE == 0,
            old(allocator).wf(),
            old(self).alloc_ok(old(allocator).avail()),
        ensures
            final(self).wf(),
            final(allocator).wf(),
            final(self).p4_spec() == old(self).p4_spec(),
            final(self).root() == old(self).root(),
            final(self).alloc_ok(final(allocator).avail()),
            final(allocator).avail().subset_of(old(allocator).avail()),
            forall|g: u64|
                old(self).has_table(g) ==> #[trigger] final(self).has_table(g) && final(self).lv(g)
                    == old(self).lv(g),
            forall|g: u64|
                #[trigger] final(self).has_table(g) ==> old(self).has_table(g) || old(allocator).avail().contains(g),
            forall|g: u64, i: int|
                old(self).has_table(g) && 0 <= i < 512 && old(self).lv(g) == 4 && !(g == old(self).root() && i == p4i(page.id())) ==> final(self).ent(g, i) == old(self).ent(g, i),
            old(allocator).avail().len() >= 4 ==> r is Ok,
            (match r {
                Ok(u) => {
                    &&& final(self).mapped_4k(page.id())
                    &&& exists|f: u64|
                        old(allocator).avail().contains(f) && final(self).mapping_of(page.id())
                            == Some(f as int)
                    &&& forall|q: u64|
                        p4i(q) != 511 && !(p4i(q) == p4i(page.id()) && p3i(q) == p3i(page.id())
                            && p2i(q) == p2i(page.id()) && p1i(q) == p1i(page.id()))
                            ==> #[trigger] final(self).mapping_of(q) == old(self).mapping_of(q)
                    &&& forall|q: u64|
                        p4i(q) != 511 && !(p4i(q) == p4i(page.id()) && p3i(q) == p3i(page.id())
                            && p2i(q) == p2i(page.id()) && p1i(q) == p1i(page.id()))
                            ==> #[trigger] final(self).path_clear(q) == old(self).path_clear(q)
                },
                Err(e) => {
                    &&& e == PagingError::OutOfFrames
                    &&& final(allocator).avail() =~= Set::<u64>::empty()
                    &&& final(self).mapping_of(page.id()) is None
                },
            }),
    {
        let ghost a0 = old(allocator).avail();
        match allocator.allocate_frame() {
            None => {
                proof {
                    self.lemma_path_clear_unmapped(page.id());
                    broadcast use vstd::set::axiom_set_empty_len;
                }
                Err(PagingError::OutOfFrames)
            },
            Some(frame) => {
                let ghost fid = frame.id();
                proof {
                    if a0.len() >= 4 {
                        vstd::set::axiom_set_remove_len(a0, fid);
                    }
                }
                let r = self.map_to(page, frame, flags, allocator);
                proof {
                    if r is Ok {
                        assert(a0.contains(fid) && self.mapping_of(page.id()) == Some(fid as int));
                    }
                }
                r
            },
        }
    }

    /// Identity-map `frame`: the page with the frame's own index maps to it,
    /// so the region keeps equal virtual and physical addresses.
    pub fn identity_map<A: FrameAllocator>(
        &mut self,
        frame: Frame,
        flags: u64,
        allocator: &mut A,
    ) -> (r: Result<(), PagingError>)
        requires
            old(self).wf(),
            frame.id() < 0x8_0000_0000u64,
            old(self).path_clear(frame.id()),
            flags & FLAG_BITS == flags,
            flags & HUGE_PAGE == 0,
            old(allocator).wf(),
            old(self).alloc_ok(old(allocator).avail()),
        ensures
            final(self).wf(),
            final(allocator).wf(),
            final(self).p4_spec() == old(self).p4_spec(),
            final(self).root() == old(self).root(),
            final(self).alloc_ok(final(allocator).avail()),
            final(allocator).avail().subset_of(old(allocator).avail()),
            forall|g: u64|
                old(self).has_table(g) ==> #[trigger] final(self).has_table(g) && final(self).lv(g)
                    == old(self).lv(g),
            forall|g: u64|
                #[trigger] final(self).has_table(g) ==> old(self).has_table(g) || old(allocator).avail().contains(g),
            forall|g: u64, i: int|
                old(self).has_table(g) && 0 <= i < 512 && old(self).lv(g) == 4 && !(g == old(self).root() && i == p4i(frame.id())) ==> final(self).ent(g, i) == old(self).ent(g, i),
            old(allocator).avail().len() >= 3 ==> r is Ok,
            (match r {
                Ok(u) => {
                    &&& final(self).mapped_4k(frame.id())
                    &&& final(self).mapping_of(frame.id()) == Some(frame.id() as int)
                    &&& forall|q: u64|
                        p4i(q) != 511 && !(p4i(q) == p4i(frame.id()) && p3i(q) == p3i(frame.id())
                            && p2i(q) == p2i(frame.id()) && p1i(q) == p1i(frame.id()))
                            ==> #[trigger] final(self).mapping_of(q) == old(self).mapping_of(q)
                    &&& forall|q: u64|
                        p4i(q) != 511 && !(p4i(q) == p4i(frame.id()) && p3i(q) == p3i(frame.id())
                            && p2i(q) == p2i(frame.id()) && p1i(q) == p1i(frame.id()))
                            ==> #[trigger] final(self).path_clear(q) == old(self).path_clear(q)
                },
                Err(e) => {
                    &&& e == PagingError::OutOfFrames
                    &&& final(allocator).avail() =~= Set::<u64>::empty()
                    &&& final(self).mapping_of(frame.id()) is None
                },
            }),
    {
        let page = Page { number: frame.num() };
        proof {
            let n = frame.id();
            assert((n >> 27) & 0o777 != 511) by (bit_vector)
                requires
                    n < 0x8_0000_0000u64,
            ;
        }
        let r = self.map_to(page, frame, flags, allocator);
        proof {
            assert forall|g: u64| old(self).has_table(g) implies #[trigger] self.has_table(g) by {
                assert(self.has_table(g));
            }
            assert forall|g: u64| old(self).has_table(g) && #[trigger] self.has_table(g) implies
                self.lv(g) == old(self).lv(g) by {
                assert(self.lv(g) == old(self).lv(g));
            }
            assert forall|g: u64| old(self).has_table(g) implies #[trigger] self.lv(g) == old(
                self,
            ).lv(g) by {
                assert(self.has_table(g));
            }
        }
        r
    }

    /// Remove the 4 KiB mapping of `page` and hand its frame back to the
    /// caller: intermediate tables are never freed here, and the frame is
    /// deliberately not returned to any allocator.  The leaf slot is left
    /// holding exactly the unused sentinel.
    pub fn unmap(&mut self, page: Page) -> (r: Frame)
        requires
            old(self).wf(),
            p4i(page.id()) != 511,
            old(self).mapped_4k(page.id()),
        ensures
            final(self).wf(),
            final(self).p4_spec() == old(self).p4_spec(),
            final(self).root() == old(self).root(),
            forall|g: u64| final(self).has_table(g) == old(self).has_table(g),
            forall|g: u64|
                old(self).has_table(g) ==> final(self).lv(g) == old(self).lv(g),
            old(self).mapping_of(page.id()) == Some(r.id() as int),
            final(self).mapping_of(page.id()) is None,
            final(self).leaf_entry(page.id()) == 0,
            final(self).path_clear(page.id()),
            final(self).chain_complete(page.id()),
            forall|g: u64, i: int|
                old(self).has_table(g) && 0 <= i < 512 && !(g == old(self).walk1(page.id()) && i
                    == p1i(page.id())) ==> final(self).ent(g, i) == old(self).ent(g, i),
            forall|q: u64|
                p4i(q) != 511 && !(p4i(q) == p4i(page.id()) && p3i(q) == p3i(page.id()) && p2i(q)
                    == p2i(page.id()) && p1i(q) == p1i(page.id()))
                    ==> #[trigger] final(self).mapping_of(q) == old(self).mapping_of(q),
    {
        let ghost n = page.id();
        let ghost s0 = *self;
        proof {
            s0.lemma_walk_strict(n);
            lemma_zero_entry();
        }
        let root = self.walk_root();
        let i4 = page.p4_index();
        let i3 = page.p3_index();
        let i2 = page.p2_index();
        let i1 = page.p1_index();
        let e4 = self.mem.read_entry(root, i4);
        let t3 = (e4.raw & ADDRESS_BITS) >> 12;
        let e3 = self.mem.read_entry(t3, i3);
        let t2 = (e3.raw & ADDRESS_BITS) >> 12;
        let e2 = self.mem.read_entry(t2, i2);
        let t1 = (e2.raw & ADDRESS_BITS) >> 12;
        let e1 = self.mem.read_entry(t1, i1);
        proof {
            assert(t3 == s0.walk3(n) && t2 == s0.walk2(n) && t1 == s0.walk1(n));
            assert(s0.lv(root) == 4 && s0.lv(t3) == 3 && s0.lv(t2) == 2 && s0.lv(t1) == 1);
            assert(e1.raw_spec() == s0.leaf_entry(n));
        }
        self.mem.set_entry(t1, i1, Entry { raw: 0 });
        proof {
            let s4 = *self;
            assert forall|g: u64, i: int|
                s0.has_table(g) && 0 <= i < 512 && !(g == t1 && i == i1 as int) implies s4.ent(g, i)
                == s0.ent(g, i) by {}
            assert(t1 != root && t1 != t3 && t1 != t2);
            assert(s4.ent(s0.p4_spec(), 511) == s0.ent(s0.p4_spec(), 511));
            assert(s4.root() == s0.root() && s0.root() == root);
            assert(s4.e4(n) == s0.e4(n));
            assert(s4.walk3(n) == t3 && s4.e3(n) == s0.e3(n));
            assert(s4.walk2(n) == t2 && s4.e2(n) == s0.e2(n));
            assert(s4.walk1(n) == t1);
            assert(s4.leaf_entry(n) == 0);
            assert(s4.mapping_of(n) is None);
            assert forall|f: u64, i: int|
                s4.has_table(f) && 0 <= i < 512 && s4.lv(f) >= 2 && !(s4.lv(f) == 4 && i == 511)
                    && is_present(#[trigger] s4.ent(f, i)) && !is_huge(s4.ent(f, i)) implies
                s4.has_table(frame_num(s4.ent(f, i))) && s4.lv(frame_num(s4.ent(f, i))) == s4.lv(f)
                - 1 by {
                assert(f != t1);
                assert(s4.ent(f, i) == s0.ent(f, i));
                let g0 = frame_num(s0.ent(f, i));
                assert(s0.has_table(g0) && s0.lv(g0) == s0.lv(f) - 1);
            }
            assert forall|f: u64, i: int|
                s4.has_table(f) && 0 <= i < 512 && is_present(#[trigger] s4.ent(f, i)) && is_huge(
                    s4.ent(f, i),
                ) implies (s4.lv(f) == 3 ==> frame_num(s4.ent(f, i)) % 0x40000 == 0) && (s4.lv(f)
                == 2 ==> frame_num(s4.ent(f, i)) % 512 == 0) by {
                if f == t1 && i == i1 as int {
                    assert(!is_present(s4.ent(f, i)));
                } else {
                    assert(s4.ent(f, i) == s0.ent(f, i));
                }
            }
            assert forall|f: u64| #[trigger] s4.has_table(f) implies 1 <= s4.lv(f) <= 4 && f
                < MAX_FRAMES by {
                assert(s0.has_table(f));
            }
            assert(s4.wf());
            lemma_frame_num_bound(s0.ent(root, i4 as int));
            lemma_frame_num_bound(s0.ent(t3, i3 as int));
            lemma_frame_num_bound(s0.ent(t2, i2 as int));
            assert forall|q: u64|
                p4i(q) != 511 && !(p4i(q) == p4i(n) && p3i(q) == p3i(n) && p2i(q) == p2i(n)
                    && p1i(q) == p1i(n)) implies #[trigger] s4.mapping_of(q) == s0.mapping_of(
                q,
            ) by {
                Self::lemma_other_walks_preserved(
                    s0,
                    s0,
                    s0,
                    s0,
                    s4,
                    root,
                    t3,
                    t2,
                    t1,
                    n,
                    q,
                );
            }
        }
        proof {
            assert(frame_num(e1.raw_spec()) == frame_num(s0.leaf_entry(n)));
            lemma_frame_num_bound(e1.raw_spec());
        }
        Frame::from_index((e1.raw & ADDRESS_BITS) >> 12)
    }

    /// Would identity-mapping this frame find its page unmapped?
    pub fn is_unused(&self, frame: &Frame) -> (r: bool)
        requires
            self.wf(),
            frame.id() < 0x8_0000_0000u64,
        ensures
            r == (self.mapping_of(frame.id()) is None),
    {
        let page = Page { number: frame.num() };
        self.translate_page(page).is_none()
    }

    /// Does the walk of `page` allow a fresh mapping: no huge entry on the
    /// way, and an unused leaf slot if the chain is complete?
    pub fn can_map(&self, page: Page) -> (r: bool)
        requires
            self.wf(),
        ensures
            r == self.path_clear(page.id()),
    {
        proof {
            self.lemma_walk_tables(page.id());
        }
        let root = self.walk_root();
        let e4 = self.mem.read_entry(root, page.p4_index());
        if e4.raw & HUGE_PAGE == HUGE_PAGE {
            return false;
        }
        if e4.raw & PRESENT != PRESENT {
            return true;
        }
        let t3 = (e4.raw & ADDRESS_BITS) >> 12;
        let e3 = self.mem.read_entry(t3, page.p3_index());
        if e3.raw & HUGE_PAGE == HUGE_PAGE {
            return false;
        }
        if e3.raw & PRESENT != PRESENT {
            return true;
        }
        let t2 = (e3.raw & ADDRESS_BITS) >> 12;
        let e2 = self.mem.read_entry(t2, page.p2_index());
        if e2.raw & HUGE_PAGE == HUGE_PAGE {
            return false;
        }
        if e2.raw & PRESENT != PRESENT {
            return true;
        }
        let t1 = (e2.raw & ADDRESS_BITS) >> 12;
        let e1 = self.mem.read_entry(t1, page.p1_index());
        e1.raw == 0
    }

    /// Is `page` mapped through a complete four-level chain with no huge
    /// shortcut, so that it can be unmapped?
    pub fn has_4k_mapping(&self, page: Page) -> (r: bool)
        requires
            self.wf(),
        ensures
            r == self.mapped_4k(page.id()),
    {
        proof {
            self.lemma_walk_tables(page.id());
        }
        let root = self.walk_root();
        let e4 = self.mem.read_entry(root, page.p4_index());
        if e4.raw & PRESENT != PRESENT || e4.raw & HUGE_PAGE == HUGE_PAGE {
            return false;
        }
        let t3 = (e4.raw & ADDRESS_BITS) >> 12;
        let e3 = self.mem.read_entry(t3, page.p3_index());
        if e3.raw & PRESENT != PRESENT || e3.raw & HUGE_PAGE == HUGE_PAGE {
            return false;
        }
        let t2 = (e3.raw & ADDRESS_BITS) >> 12;
        let e2 = self.mem.read_entry(t2, page.p2_index());
        if e2.raw & PRESENT != PRESENT || e2.raw & HUGE_PAGE == HUGE_PAGE {
            return false;
        }
        let t1 = (e2.raw & ADDRESS_BITS) >> 12;
        let e1 = self.mem.read_entry(t1, page.p1_index());
        e1.raw & PRESENT == PRESENT
    }

    /// Install `new_table` in the (simulated) root-pointer register and hand
    /// back a descriptor of the hierarchy that was active until now.  No
    /// table changes: only the register moves.
    pub fn switch(&mut self, new_table: InactivePageTable) -> (r: InactivePageTable)
        requires
            old(self).wf(),
            old(self).has_table(new_table.frame_id()),
            old(self).lv(new_table.frame_id()) == 4,
            old(self).ent(new_table.frame_id(), 511) == encode_entry(
                new_table.frame_id(),
                TABLE_FLAGS,
            ),
        ensures
            final(self).wf(),
            final(self).self_mapped(),
            final(self).p4_spec() == new_table.frame_id(),
            r.frame_id() == old(self).p4_spec(),
            forall|g: u64| final(self).has_table(g) == old(self).has_table(g),
            forall|g: u64| old(self).has_table(g) ==> final(self).lv(g) == old(self).lv(g),
            forall|g: u64, i: int|
                old(self).has_table(g) && 0 <= i < 512 ==> final(self).ent(g, i) == old(self).ent(
                    g,
                    i,
                ),
    {
        let old_frame = Frame::from_index(self.p4);
        let new_root = new_table.p4_frame.num();
        self.p4 = new_root;
        proof {
            let s0 = *old(self);
            let s1 = *self;
            lemma_table_link(new_root);
            assert forall|g: u64, i: int| true implies s1.ent(g, i) == s0.ent(g, i) by {}
            assert forall|g: u64| true implies s1.has_table(g) == s0.has_table(g) && s1.lv(g)
                == s0.lv(g) by {}
            assert(s1.ent(new_root, 511) == encode_entry(new_root, TABLE_FLAGS));
            assert(s1.root() == new_root);
            assert forall|f: u64| #[trigger] s1.has_table(f) implies 1 <= s1.lv(f) <= 4 && f
                < MAX_FRAMES by {
                assert(s0.has_table(f));
            }
            assert forall|f: u64, i: int|
                s1.has_table(f) && 0 <= i < 512 && s1.lv(f) >= 2 && !(s1.lv(f) == 4 && i == 511)
                    && is_present(#[trigger] s1.ent(f, i)) && !is_huge(s1.ent(f, i)) implies
                s1.has_table(frame_num(s1.ent(f, i))) && s1.lv(frame_num(s1.ent(f, i))) == s1.lv(f)
                - 1 by {
                assert(s0.ent(f, i) == s1.ent(f, i));
                let g0 = frame_num(s0.ent(f, i));
                assert(s0.has_table(g0));
                assert(s0.lv(g0) == s0.lv(f) - 1);
            }
            assert forall|f: u64, i: int|
                s1.has_table(f) && 0 <= i < 512 && is_present(#[trigger] s1.ent(f, i)) && is_huge(
                    s1.ent(f, i),
                ) implies (s1.lv(f) == 3 ==> frame_num(s1.ent(f, i)) % 0x40000 == 0) && (s1.lv(f)
                == 2 ==> frame_num(s1.ent(f, i)) % 512 == 0) by {
                assert(s0.ent(f, i) == s1.ent(f, i));
            }
            assert(s1.wf());
        }
        InactivePageTable { p4_frame: old_frame }
    }
}

/// Entry flags for a loaded kernel section with the given permission intent:
/// present iff the section is resident, writable iff it is writable, and
/// no-execute unless it is executable.
pub fn section_flags(allocated: bool, writable: bool, executable: bool) -> (r: u64)
    ensures
        r == (if allocated { PRESENT } else { 0u64 }) | (if writable { WRITABLE } else { 0u64 })
            | (if executable { 0u64 } else { NO_EXECUTE }),
        r & FLAG_BITS == r,
        r & HUGE_PAGE == 0,
{
    let a: u64 = if allocated {
        PRESENT
    } else {
        0
    };
    let w: u64 = if writable {
        WRITABLE
    } else {
        0
    };
    let x: u64 = if executable {
        0
    } else {
        NO_EXECUTE
    };
    proof {
        assert((a | w | x) & 0x8000_0000_0000_01ffu64 == (a | w | x) && (a | w | x) & 0x80u64
            == 0u64) by (bit_vector)
            requires
                a == 0x1u64 || a == 0u64,
                w == 0x2u64 || w == 0u64,
                x == 0x8000_0000_0000_0000u64 || x == 0u64,
        ;
    }
    a | w | x
}

/// A freshly built table hierarchy that is not installed in the register:
/// zeroed, with its reserved slot pointing back at its own root, ready to be
/// populated and switched to.
pub struct InactivePageTable {
    p4_frame: Frame,
}

impl InactivePageTable {
    /// Frame index of the root table.
    pub closed spec fn frame_id(self) -> u64 {
        self.p4_frame.id()
    }

    /// The root frame.
    pub fn root_frame(&self) -> (r: Frame)
        ensures
            r.id() == self.frame_id(),
    {
        self.p4_frame.clone()
    }

    /// Build a valid, not-yet-installed hierarchy in `frame`: the frame is
    /// temporarily mapped at the scratch page, zeroed there, and given its
    /// recursive slot, so the new root is self-consistent while the CPU
    /// still runs on the old hierarchy.  The scratch page is unmapped again
    /// before returning.
    pub fn new(
        frame: Frame,
        active_table: &mut ActivePageTable,
        temporary_page: &mut TemporaryPage,
    ) -> (r: InactivePageTable)
        requires
            old(active_table).wf(),
            old(temporary_page).wf(),
            old(active_table).path_clear(old(temporary_page).page_id()),
            old(active_table).chain_complete(old(temporary_page).page_id()) || (old(temporary_page).cache_full() && old(active_table).alloc_ok(old(temporary_page).cache())),
            old(active_table).chain_complete(old(temporary_page).page_id()) ==> old(
                temporary_page,
            ).cache().len() < 3,
            p4i(old(temporary_page).page_id()) != 511,
            frame.id() < MAX_FRAMES,
            !old(active_table).has_table(frame.id()),
            !old(temporary_page).cache().contains(frame.id()),
        ensures
            final(active_table).wf(),
            final(temporary_page).wf(),
            final(temporary_page).page_id() == old(temporary_page).page_id(),
            r.frame_id() == frame.id(),
            final(active_table).p4_spec() == old(active_table).p4_spec(),
            final(active_table).root() == old(active_table).root(),
            final(active_table).has_table(frame.id()),
            final(active_table).lv(frame.id()) == 4,
            forall|i: int|
                0 <= i < 512 && i != 511 ==> final(active_table).ent(frame.id(), i) == 0,
            final(active_table).ent(frame.id(), 511) == encode_entry(frame.id(), TABLE_FLAGS),
            final(active_table).mapping_of(old(temporary_page).page_id()) is None,
            final(active_table).path_clear(old(temporary_page).page_id()),
            final(active_table).chain_complete(old(temporary_page).page_id()),
            forall|g: u64|
                old(active_table).has_table(g) ==> #[trigger] final(active_table).has_table(g),
            forall|g: u64|
                old(active_table).has_table(g) ==> #[trigger] final(active_table).lv(g) == old(active_table).lv(g),
            forall|g: u64|
                #[trigger] final(active_table).has_table(g) ==> old(active_table).has_table(g)
                    || old(temporary_page).cache().contains(g) || g == frame.id(),
            forall|g: u64, i: int|
                old(active_table).has_table(g) && 0 <= i < 512 && old(active_table).lv(g) == 4 && !(
                g == old(active_table).root() && i == p4i(old(temporary_page).page_id())) ==> final(active_table).ent(g, i) == old(active_table).ent(g, i),
            final(temporary_page).cache().subset_of(
                old(temporary_page).cache().insert(frame.id()),
            ),
            !is_present(old(active_table).e4(old(temporary_page).page_id())) && old(
                active_table,
            ).alloc_ok(old(temporary_page).cache()) ==> final(temporary_page).cache().len() == old(
                temporary_page,
            ).cache().len() - 3 + 1,
            forall|q: u64|
                p4i(q) != 511 && !(p4i(q) == p4i(old(temporary_page).page_id()) && p3i(q) == p3i(
                    old(temporary_page).page_id(),
                ) && p2i(q) == p2i(old(temporary_page).page_id()) && p1i(q) == p1i(
                    old(temporary_page).page_id(),
                )) ==> #[trigger] final(active_table).mapping_of(q) == old(
                    active_table,
                ).mapping_of(q),
    {
        let ghost pid = old(temporary_page).page_id();
        let ghost s0 = *active_table;
        let fid = frame.num();
        let _va = temporary_page.map(frame.clone(), active_table);
        let ghost s1 = *active_table;
        proof {
            assert(!s1.has_table(fid));
            s1.lemma_walk_tables(pid);
            s1.lemma_walk_strict(pid);
        }
        active_table.mem.put_zeroed(fid, Ghost(4int));
        let ghost s2 = *active_table;
        proof {
            lemma_zero_entry();
            assert forall|g: u64| s1.has_table(g) implies #[trigger] s2.has_table(g) && s2.lv(g)
                == s1.lv(g) by {}
            assert forall|g: u64, i: int| s1.has_table(g) && 0 <= i < 512 implies s2.ent(g, i)
                == s1.ent(g, i) by {}
            assert forall|i: int| 0 <= i < 512 implies s2.ent(fid, i) == 0 by {}
            assert forall|f: u64| #[trigger] s2.has_table(f) implies 1 <= s2.lv(f) <= 4 && f
                < MAX_FRAMES by {
                if f != fid {
                    assert(s1.has_table(f));
                }
            }
            assert forall|f: u64, i: int|
                s2.has_table(f) && 0 <= i < 512 && s2.lv(f) >= 2 && !(s2.lv(f) == 4 && i == 511)
                    && is_present(#[trigger] s2.ent(f, i)) && !is_huge(s2.ent(f, i)) implies
                s2.has_table(frame_num(s2.ent(f, i))) && s2.lv(frame_num(s2.ent(f, i))) == s2.lv(f)
                - 1 by {
                if f == fid {
                    assert(s2.ent(f, i) == 0);
                } else {
                    assert(s1.has_table(f));
                    assert(s2.ent(f, i) == s1.ent(f, i));
                    let g0 = frame_num(s1.ent(f, i));
                    assert(s1.has_table(g0));
                    assert(s1.lv(g0) == s1.lv(f) - 1);
                }
            }
            assert forall|f: u64, i: int|
                s2.has_table(f) && 0 <= i < 512 && is_present(#[trigger] s2.ent(f, i)) && is_huge(
                    s2.ent(f, i),
                ) implies (s2.lv(f) == 3 ==> frame_num(s2.ent(f, i)) % 0x40000 == 0) && (s2.lv(f)
                == 2 ==> frame_num(s2.ent(f, i)) % 512 == 0) by {
                if f == fid {
                    assert(s2.ent(f, i) == 0);
                } else {
                    assert(s1.has_table(f));
                    assert(s2.ent(f, i) == s1.ent(f, i));
                }
            }
            assert(s2.ent(s1.p4_spec(), 511) == s1.ent(s1.p4_spec(), 511));
            assert(s2.root() == s1.root());
            assert(s2.wf());
        }
        active_table.mem.set_entry(fid, 511, Entry { raw: (fid << 12) | TABLE_FLAGS });
        let ghost s3 = *active_table;
        proof {
            lemma_table_link(fid);
            lemma_zero_entry();
            assert(s3.ent(fid, 511) == encode_entry(fid, TABLE_FLAGS));
            assert forall|g: u64| s2.has_table(g) implies #[trigger] s3.has_table(g) && s3.lv(g)
                == s2.lv(g) by {}
            assert forall|g: u64, i: int|
                s2.has_table(g) && 0 <= i < 512 && !(g == fid && i == 511) implies s3.ent(g, i)
                == s2.ent(g, i) by {}
            assert forall|f: u64| #[trigger] s3.has_table(f) implies 1 <= s3.lv(f) <= 4 && f
                < MAX_FRAMES by {
                assert(s2.has_table(f));
            }
            assert forall|f: u64, i: int|
                s3.has_table(f) && 0 <= i < 512 && s3.lv(f) >= 2 && !(s3.lv(f) == 4 && i == 511)
                    && is_present(#[trigger] s3.ent(f, i)) && !is_huge(s3.ent(f, i)) implies
                s3.has_table(frame_num(s3.ent(f, i))) && s3.lv(frame_num(s3.ent(f, i))) == s3.lv(f)
                - 1 by {
                assert(!(f == fid && i == 511));
                assert(s3.ent(f, i) == s2.ent(f, i));
                let g0 = frame_num(s2.ent(f, i));
                assert(s2.has_table(g0));
                assert(s2.lv(g0) == s2.lv(f) - 1);
            }
            assert forall|f: u64, i: int|
                s3.has_table(f) && 0 <= i < 512 && is_present(#[trigger] s3.ent(f, i)) && is_huge(
                    s3.ent(f, i),
                ) implies (s3.lv(f) == 3 ==> frame_num(s3.ent(f, i)) % 0x40000 == 0) && (s3.lv(f)
                == 2 ==> frame_num(s3.ent(f, i)) % 512 == 0) by {
                if f == fid && i == 511 {
                    assert(!is_huge(s3.ent(f, i)));
                } else {
                    assert(s3.ent(f, i) == s2.ent(f, i));
                }
            }
            assert(fid != s2.p4_spec() && fid != s2.root());
            assert(s3.ent(s2.p4_spec(), 511) == s2.ent(s2.p4_spec(), 511));
            assert(s3.root() == s2.root());
            assert(s3.wf());
            // the scratch mapping survives both writes, which touch only the
            // fresh root frame
            assert(s1.mapped_4k(pid));
            let w3 = s1.walk3(pid);
            let w2 = s1.walk2(pid);
            let w1 = s1.walk1(pid);
            assert(s1.has_table(w3) && s1.has_table(w2) && s1.has_table(w1));
            assert(w3 != fid && w2 != fid && w1 != fid && s1.root() != fid);
            assert(s3.ent(s1.root(), p4i(pid)) == s1.e4(pid));
            assert(s3.e4(pid) == s1.e4(pid));
            assert(s3.walk3(pid) == w3);
            assert(s3.e3(pid) == s1.e3(pid));
            assert(s3.walk2(pid) == w2);
            assert(s3.e2(pid) == s1.e2(pid));
            assert(s3.walk1(pid) == w1);
            assert(s3.leaf_entry(pid) == s1.leaf_entry(pid));
            assert(s3.mapped_4k(pid));
            assert(s3.mapping_of(pid) == Some(fid as int));
            // the two writes touch only the fresh root frame, which no walk
            // of the running hierarchy reaches
            assert forall|q: u64| p4i(q) != 511 implies #[trigger] s3.mapping_of(q)
                == s1.mapping_of(q) by {
                lemma_page_indices(q);
                s1.lemma_walk_tables(q);
                assert(s1.root() != fid && s3.root() == s1.root());
                let r1 = s1.root();
                assert(s3.ent(r1, p4i(q)) == s1.ent(r1, p4i(q)));
                if is_present(s1.e4(q)) && !is_huge(s1.e4(q)) {
                    let w3 = s1.walk3(q);
                    assert(s1.has_table(w3));
                    assert(w3 != fid);
                    assert(s3.ent(w3, p3i(q)) == s1.ent(w3, p3i(q)));
                    assert(s3.e3(q) == s1.e3(q));
                    if is_present(s1.e3(q)) && !is_huge(s1.e3(q)) {
                        let w2 = s1.walk2(q);
                        assert(s1.has_table(w2));
                        assert(w2 != fid);
                        assert(s3.ent(w2, p2i(q)) == s1.ent(w2, p2i(q)));
                        assert(s3.e2(q) == s1.e2(q));
                        if is_present(s1.e2(q)) && !is_huge(s1.e2(q)) {
                            let w1 = s1.walk1(q);
                            assert(s1.has_table(w1));
                            assert(w1 != fid);
                            assert(s3.ent(w1, p1i(q)) == s1.ent(w1, p1i(q)));
                            assert(s3.leaf_entry(q) == s1.leaf_entry(q));
                        }
                    }
                }
            }
            // the cache is below capacity: either the mapping consumed a
            // cache frame, or the chain existed and the cache was already low
            old(temporary_page).lemma_cache_at_most_3();
            if !s0.chain_complete(pid) {
                assert(temporary_page.cache().len() < old(temporary_page).cache().len());
            } else {
                vstd::set_lib::lemma_len_subset(
                    temporary_page.cache(),
                    old(temporary_page).cache(),
                );
            }
            assert(temporary_page.cache().len() < 3);
            assert(!temporary_page.cache().contains(fid));
        }
        let ghost cache_mid = temporary_page.cache();
        let ghost tp_mid = *temporary_page;
        temporary_page.unmap(active_table);
        proof {
            broadcast use vstd::set::axiom_set_insert_len;

            assert(s3.mapping_of(pid) is Some);
            let f0 = s3.mapping_of(pid).unwrap();
            assert(temporary_page.cache() == cache_mid.insert(f0 as u64));
            assert(f0 == fid as int);
            assert((f0 as u64) == fid);
            assert(temporary_page.cache() == cache_mid.insert(fid));
            let s4 = *active_table;
            assert forall|q: u64|
                p4i(q) != 511 && !(p4i(q) == p4i(pid) && p3i(q) == p3i(pid) && p2i(q) == p2i(pid)
                    && p1i(q) == p1i(pid)) implies #[trigger] s4.mapping_of(q) == s0.mapping_of(
                q,
            ) by {
                assert(tp_mid.page_id() == pid);
                assert(s1.mapping_of(q) == s0.mapping_of(q));
                assert(s3.mapping_of(q) == s1.mapping_of(q));
                assert(s4.mapping_of(q) == s3.mapping_of(q));
            }
        }
        proof {
            let s4 = *active_table;
            assert(s4.has_table(fid));
            assert(s4.lv(fid) == 4);
            assert(s3.walk1(pid) != fid);
            assert forall|i: int| 0 <= i < 512 && i != 511 implies s4.ent(fid, i) == 0 by {
                assert(s3.ent(fid, i) == 0);
                assert(s4.ent(fid, i) == s3.ent(fid, i));
            }
            assert(s4.ent(fid, 511) == s3.ent(fid, 511));
            assert forall|g: u64| s0.has_table(g) implies #[trigger] s4.has_table(g) by {
                assert(s1.has_table(g));
            }
            assert forall|g: u64| s0.has_table(g) implies #[trigger] s4.lv(g) == s0.lv(g) by {
                assert(s1.has_table(g));
                assert(s1.lv(g) == s0.lv(g));
                assert(s2.lv(g) == s1.lv(g));
                assert(s3.lv(g) == s2.lv(g));
                assert(s4.lv(g) == s3.lv(g));
            }
            assert forall|g: u64| #[trigger] s4.has_table(g) implies s0.has_table(g) || old(temporary_page).cache().contains(g) || g == fid by {
                if g != fid {
                    assert(s3.has_table(g));
                    assert(s2.has_table(g));
                    assert(s1.has_table(g));
                }
            }
            assert forall|g: u64, i: int|
                s0.has_table(g) && 0 <= i < 512 && s0.lv(g) == 4 && !(g == s0.root() && i == p4i(
                    pid,
                )) implies s4.ent(g, i) == s0.ent(g, i) by {
                assert(s1.ent(g, i) == s0.ent(g, i));
                assert(s1.has_table(g));
                assert(g != fid);
                assert(s2.ent(g, i) == s1.ent(g, i));
                assert(s3.ent(g, i) == s2.ent(g, i));
                assert(s1.lv(g) == 4);
                assert(s1.lv(s1.walk1(pid)) == 1);
                assert(g != s3.walk1(pid));
                assert(s4.ent(g, i) == s3.ent(g, i));
            }
        }
        InactivePageTable { p4_frame: frame }
    }
}

/// The fixed scratch page number used while bootstrapping a new hierarchy:
/// outside the canonical hole and outside every real kernel range.
pub const SCRATCH_PAGE: u64 = 0xcafe_babe;

/// What one step of window work preserves: the register, the walk root,
/// every table that existed (with its level), the origin of any new table,
/// and every row of every level-4 table but the root's own mapped slots
/// (its reserved slot 511 always included).
pub open spec fn window_preserved(
    s0: ActivePageTable,
    s1: ActivePageTable,
    a0: Set<u64>,
    a1: Set<u64>,
) -> bool {
    &&& s1.wf()
    &&& s1.p4_spec() == s0.p4_spec()
    &&& s1.root() == s0.root()
    &&& a1.subset_of(a0)
    &&& forall|g: u64| s0.has_table(g) ==> #[trigger] s1.has_table(g)
    &&& forall|g: u64| s0.has_table(g) ==> #[trigger] s1.lv(g) == s0.lv(g)
    &&& forall|g: u64| #[trigger] s1.has_table(g) ==> s0.has_table(g) || a0.contains(g)
    &&& forall|g: u64, i: int|
        s0.has_table(g) && 0 <= i < 512 && s0.lv(g) == 4 && (g != s0.root() || i == 511)
            ==> #[trigger] s1.ent(g, i) == s0.ent(g, i)
}

/// Window preservation composes.
pub proof fn lemma_window_trans(
    s0: ActivePageTable,
    s1: ActivePageTable,
    s2: ActivePageTable,
    a0: Set<u64>,
    a1: Set<u64>,
    a2: Set<u64>,
)
    requires
        window_preserved(s0, s1, a0, a1),
        window_preserved(s1, s2, a1, a2),
    ensures
        window_preserved(s0, s2, a0, a2),
{
    assert forall|g: u64| s0.has_table(g) implies #[trigger] s2.has_table(g) by {
        assert(s1.has_table(g));
    }
    assert forall|g: u64| s0.has_table(g) implies #[trigger] s2.lv(g) == s0.lv(g) by {
        assert(s1.has_table(g));
        assert(s1.lv(g) == s0.lv(g));
        assert(s2.lv(g) == s1.lv(g));
    }
    assert forall|g: u64| #[trigger] s2.has_table(g) implies s0.has_table(g) || a0.contains(g) by {
        if !s1.has_table(g) {
            assert(a1.contains(g));
        } else if !s0.has_table(g) {
            assert(a0.contains(g));
        }
    }
    assert forall|g: u64, i: int|
        s0.has_table(g) && 0 <= i < 512 && s0.lv(g) == 4 && (g != s0.root() || i == 511) implies
        #[trigger] s2.ent(g, i) == s0.ent(g, i) by {
        assert(s1.ent(g, i) == s0.ent(g, i));
        assert(s1.has_table(g));
        assert(s1.lv(g) == 4);
        assert(s2.ent(g, i) == s1.ent(g, i));
    }
}

/// The present and writable flags on their own are valid non-huge flag sets.
pub proof fn lemma_basic_flags()
    ensures
        PRESENT & FLAG_BITS == PRESENT,
        PRESENT & HUGE_PAGE == 0,
        WRITABLE & FLAG_BITS == WRITABLE,
        WRITABLE & HUGE_PAGE == 0,
{
    assert(0x1u64 & 0x8000_0000_0000_01ffu64 == 0x1u64 && 0x1u64 & 0x80u64 == 0u64 && 0x2u64
        & 0x8000_0000_0000_01ffu64 == 0x2u64 && 0x2u64 & 0x80u64 == 0u64) by (bit_vector);
}

/// Frames `a` through `b`, both included.
pub open spec fn frame_span(a: u64, b: u64) -> Set<u64> {
    Set::new(|f: u64| a <= f <= b)
}

/// During the bootstrap window the populated hierarchy holds exactly the
/// identity mappings of `covered`: every covered page resolves to its own
/// frame, and every other walkable page is untouched and still clear.
pub open spec fn window_mapped(s: ActivePageTable, covered: Set<u64>) -> bool {
    forall|q: u64|
        #![trigger s.mapping_of(q)]
        q < 0x10_0000_0000u64 && p4i(q) != 511 ==> {
            &&& (covered.contains(q) ==> s.mapping_of(q) == Some(q as int))
            &&& (!covered.contains(q) ==> s.path_clear(q) && s.mapping_of(q) is None)
        }
}

/// Frames of the resident sections before position `upto`.
pub open spec fn sections_frames(layout: BootLayout, upto: int) -> Set<u64> {
    Set::new(
        |f: u64|
            exists|k: int|
                0 <= k < upto && k < layout.sections.len() && (
                #[trigger] layout.sections@[k]).allocated && layout.sections@[k].addr / PAGE_SIZE
                    <= f <= ((layout.sections@[k].addr + layout.sections@[k].size - 1) as u64)
                    / PAGE_SIZE,
    )
}

/// Frames of the discovery spans and their follow-up header pages before
/// position `upto`.
pub open spec fn spans_frames(layout: BootLayout, upto: int) -> Set<u64> {
    Set::new(
        |f: u64|
            exists|k: int|
                0 <= k < upto && k < layout.sdt_spans.len() && ((#[trigger] layout.sdt_spans@[k]).0
                    / PAGE_SIZE <= f <= layout.sdt_spans@[k].1 / PAGE_SIZE || (
                layout.sdt_spans@[k].2 != 0 && f == layout.sdt_spans@[k].2 / PAGE_SIZE)),
    )
}

/// Every frame the bootstrap layout asks to be identity-mapped: the
/// resident sections, the text-output device page, the boot-information
/// block, the discovery spans with their follow-up pages, and the
/// interrupt-controller ranges.
pub open spec fn layout_frames(layout: BootLayout) -> Set<u64> {
    sections_frames(layout, layout.sections.len() as int).union(
        frame_span(0xb8u64, 0xb8u64),
    ).union(
        frame_span(
            layout.multiboot_start / PAGE_SIZE,
            ((layout.multiboot_end - 1) as u64) / PAGE_SIZE,
        ),
    ).union(spans_frames(layout, layout.sdt_spans.len() as int)).union(
        frame_span(layout.ioapic_start / PAGE_SIZE, layout.ioapic_end / PAGE_SIZE),
    ).union(frame_span(layout.lapic_ctrl / PAGE_SIZE, layout.lapic_ctrl / PAGE_SIZE))
}

/// The regions the bootstrap maps unconditionally claim no frame twice:
/// resident sections are pairwise disjoint and avoid the device page and
/// the boot-information block, which also avoid each other.
pub open spec fn layout_strict_disjoint(layout: BootLayout) -> bool {
    &&& forall|j: int, k: int|
        0 <= j < k < layout.sections.len() && (#[trigger] layout.sections@[j]).allocated && (
        #[trigger] layout.sections@[k]).allocated ==> ((layout.sections@[j].addr
            + layout.sections@[j].size - 1) as u64) / PAGE_SIZE < layout.sections@[k].addr
            / PAGE_SIZE || ((layout.sections@[k].addr + layout.sections@[k].size - 1) as u64)
            / PAGE_SIZE < layout.sections@[j].addr / PAGE_SIZE
    &&& forall|j: int|
        0 <= j < layout.sections.len() && (#[trigger] layout.sections@[j]).allocated ==> !(
        layout.sections@[j].addr / PAGE_SIZE <= 0xb8u64 <= ((layout.sections@[j].addr
            + layout.sections@[j].size - 1) as u64) / PAGE_SIZE)
    &&& forall|j: int|
        0 <= j < layout.sections.len() && (#[trigger] layout.sections@[j]).allocated ==> (((
        layout.sections@[j].addr + layout.sections@[j].size - 1) as u64) / PAGE_SIZE
            < layout.multiboot_start / PAGE_SIZE || ((layout.multiboot_end - 1) as u64) / PAGE_SIZE
            < layout.sections@[j].addr / PAGE_SIZE)
    &&& !(layout.multiboot_start / PAGE_SIZE <= 0xb8u64 <= ((layout.multiboot_end - 1) as u64)
        / PAGE_SIZE)
}

/// One loaded kernel section: its placement and its permission intent.
#[derive(Debug, Clone, Copy, PartialEq, Eq, Structural)]
pub struct KernelSection {
    /// First byte of the section.
    pub addr: u64,
    /// Length in bytes.
    pub size: u64,
    /// The section may be written.
    pub writable: bool,
    /// The section holds code.
    pub executable: bool,
    /// The section is resident in memory; others are skipped.
    pub allocated: bool,
}

/// Everything the bootstrap remap must cover: the kernel's own sections,
/// the text-output device page, the boot-information block, and the
/// platform-discovery regions.
pub struct BootLayout {
    /// Loaded kernel sections.
    pub sections: Vec<KernelSection>,
    /// First byte of the boot-information block.
    pub multiboot_start: u64,
    /// One past the last byte of the boot-information block.
    pub multiboot_end: u64,
    /// Platform-discovery table spans, each with the address of the next
    /// table header (zero for none).
    pub sdt_spans: Vec<(u64, u64, u64)>,
    /// First byte of the interrupt-controller I/O range.
    pub ioapic_start: u64,
    /// Last byte of the interrupt-controller I/O range.
    pub ioapic_end: u64,
    /// Interrupt-controller control block address.
    pub lapic_ctrl: u64,
}

impl BootLayout {
    /// Every resident section is page-aligned, non-empty and in the lower
    /// half of the address space, and every other covered address is in the
    /// lower half too.  A misaligned resident section means the boot image
    /// is malformed and is rejected outright.
    pub open spec fn wf(self) -> bool {
        &&& forall|j: int|
            0 <= j < self.sections.len() && (#[trigger] self.sections@[j]).allocated ==> {
                &&& self.sections@[j].addr % PAGE_SIZE == 0
                &&& self.sections@[j].size >= 1
                &&& self.sections@[j].addr + self.sections@[j].size <= 0x7fff_ffff_f000u64
            }
        &&& self.multiboot_start < self.multiboot_end <= 0x7fff_ffff_f000u64
        &&& forall|j: int|
            0 <= j < self.sdt_spans.len() ==> {
                &&& (#[trigger] self.sdt_spans@[j]).0 <= self.sdt_spans@[j].1
                    < 0x7fff_ffff_f000u64
                &&& self.sdt_spans@[j].2 < 0x7fff_ffff_f000u64
            }
        &&& self.ioapic_start <= self.ioapic_end < 0x7fff_ffff_f000u64
        &&& self.lapic_ctrl < 0x7fff_ffff_f000u64
    }
}

/// The span of memory the resident kernel sections cover: the lowest start
/// address and the highest end address among them, or nothing when no
/// section is resident.
#[verifier::loop_isolation(false)]
pub fn kernel_bounds(sections: &Vec<KernelSection>) -> (r: Option<(u64, u64)>)
    requires
        forall|j: int|
            0 <= j < sections.len() && (#[trigger] sections@[j]).allocated ==> sections@[j].addr
                + sections@[j].size <= u64::MAX,
    ensures
        (match r {
            Some((lo, hi)) => {
                &&& forall|j: int|
                    0 <= j < sections.len() && (#[trigger] sections@[j]).allocated ==> lo
                        <= sections@[j].addr && sections@[j].addr + sections@[j].size <= hi
                &&& exists|j: int|
                    0 <= j < sections.len() && (#[trigger] sections@[j]).allocated && sections@[j].addr
                        == lo
                &&& exists|j: int|
                    0 <= j < sections.len() && (#[trigger] sections@[j]).allocated && sections@[j].addr
                        + sections@[j].size == hi
            },
            None => forall|j: int| 0 <= j < sections.len() ==> !(#[trigger] sections@[j]).allocated,
        }),
{
    let mut best: Option<(u64, u64)> = None;
    let mut j: usize = 0;
    while j < sections.len()
        invariant
            j <= sections.len(),
            (match best {
                Some((lo, hi)) => {
                    &&& forall|k: int|
                        0 <= k < j && (#[trigger] sections@[k]).allocated ==> lo
                            <= sections@[k].addr && sections@[k].addr + sections@[k].size <= hi
                    &&& exists|k: int|
                        0 <= k < j && (#[trigger] sections@[k]).allocated && sections@[k].addr
                            == lo
                    &&& exists|k: int|
                        0 <= k < j && (#[trigger] sections@[k]).allocated && sections@[k].addr
                            + sections@[k].size == hi
                },
                None => forall|k: int| 0 <= k < j ==> !(#[trigger] sections@[k]).allocated,
            }),
        decreases sections.len() - j,
    {
        let s = &sections[j];
        if s.allocated {
            let send = s.addr + s.size;
            match best {
                None => {
                    best = Some((s.addr, send));
                },
                Some((lo, hi)) => {
                    let nlo = if s.addr < lo {
                        s.addr
                    } else {
                        lo
                    };
                    let nhi = if send > hi {
                        send
                    } else {
                        hi
                    };
                    best = Some((nlo, nhi));
                },
            }
        }
        j = j + 1;
    }
    best
}

impl ActivePageTable {
    /// Redirect the reserved slot 511 of the register's own table at
    /// `target`, which must be a self-referential root (or the register's
    /// table itself, restoring the normal state).  Every software walk
    /// afterwards runs over `target`'s hierarchy.
    fn set_recursive_slot(&mut self, target: u64)
        requires
            old(self).wf(),
            old(self).has_table(target),
            old(self).lv(target) == 4,
            target == old(self).p4_spec() || old(self).ent(target, 511) == encode_entry(
                target,
                TABLE_FLAGS,
            ),
        ensures
            final(self).wf(),
            final(self).p4_spec() == old(self).p4_spec(),
            final(self).root() == target,
            forall|g: u64| #[trigger] final(self).has_table(g) == old(self).has_table(g),
            forall|g: u64| old(self).has_table(g) ==> #[trigger] final(self).lv(g) == old(self).lv(g),
            forall|g: u64, i: int|
                old(self).has_table(g) && 0 <= i < 512 && !(g == old(self).p4_spec() && i == 511)
                    ==> #[trigger] final(self).ent(g, i) == old(self).ent(g, i),
            final(self).ent(old(self).p4_spec(), 511) == encode_entry(target, TABLE_FLAGS),
    {
        let ghost s0 = *old(self);
        let p4 = self.p4;
        proof {
            lemma_table_link(target);
        }
        self.mem.set_entry(p4, 511, Entry { raw: (target << 12) | TABLE_FLAGS });
        proof {
            let s1 = *self;
            assert(s1.ent(p4, 511) == encode_entry(target, TABLE_FLAGS));
            assert forall|g: u64, i: int|
                s0.has_table(g) && 0 <= i < 512 && !(g == p4 && i == 511) implies #[trigger] s1.ent(
                g, i) == s0.ent(g, i) by {}
            assert(s1.root() == target);
            assert forall|f: u64| #[trigger] s1.has_table(f) implies 1 <= s1.lv(f) <= 4 && f
                < MAX_FRAMES by {
                assert(s0.has_table(f));
            }
            assert forall|f: u64, i: int|
                s1.has_table(f) && 0 <= i < 512 && s1.lv(f) >= 2 && !(s1.lv(f) == 4 && i == 511)
                    && is_present(#[trigger] s1.ent(f, i)) && !is_huge(s1.ent(f, i)) implies
                s1.has_table(frame_num(s1.ent(f, i))) && s1.lv(frame_num(s1.ent(f, i))) == s1.lv(f)
                - 1 by {
                assert(!(f == p4 && i == 511));
                assert(s1.ent(f, i) == s0.ent(f, i));
                let g0 = frame_num(s0.ent(f, i));
                assert(s0.has_table(g0));
                assert(s0.lv(g0) == s0.lv(f) - 1);
            }
            assert forall|f: u64, i: int|
                s1.has_table(f) && 0 <= i < 512 && is_present(#[trigger] s1.ent(f, i)) && is_huge(
                    s1.ent(f, i)) implies (s1.lv(f) == 3 ==> frame_num(s1.ent(f, i)) % 0x40000
                == 0) && (s1.lv(f) == 2 ==> frame_num(s1.ent(f, i)) % 512 == 0) by {
                if f == p4 && i == 511 {
                    assert(!is_huge(s1.ent(f, i)));
                } else {
                    assert(s1.ent(f, i) == s0.ent(f, i));
                }
            }
            if target == p4 {
                assert(s1.ent(s1.root(), 511) == encode_entry(target, TABLE_FLAGS));
            } else {
                assert(s1.ent(target, 511) == s0.ent(target, 511));
            }
            assert(s1.wf());
        }
    }

    /// Identity-map every frame from `first` to `last`, both included, with
    /// `flags`.  A page that cannot take a fresh mapping is already covered
    /// and is an error under `strict` (an overlapping layout); otherwise it
    /// is left alone, already carrying its identity mapping.
    #[verifier::loop_isolation(false)]
    fn identity_map_range<A: FrameAllocator>(
        &mut self,
        first: u64,
        last: u64,
        flags: u64,
        strict: bool,
        allocator: &mut A,
        covered: Ghost<Set<u64>>,
    ) -> (r: Result<(), PagingError>)
        requires
            old(self).wf(),
            old(allocator).wf(),
            old(self).alloc_ok(old(allocator).avail()),
            first <= last < 0x8_0000_0000u64,
            flags & FLAG_BITS == flags,
            flags & HUGE_PAGE == 0,
            window_mapped(*old(self), covered@),
        ensures
            final(self).wf(),
            final(allocator).wf(),
            final(self).alloc_ok(final(allocator).avail()),
            window_preserved(*old(self), *final(self), old(allocator).avail(), final(
                allocator).avail()),
            r is Ok ==> window_mapped(*final(self), covered@.union(frame_span(first, last))),
            (r matches Err(e) ==> e == PagingError::OutOfFrames || (strict && e
                == PagingError::AlreadyMapped)),
            (r matches Err(e) && e == PagingError::OutOfFrames ==> final(allocator).avail()
                =~= Set::<u64>::empty()),
            (r matches Err(e) && e == PagingError::AlreadyMapped ==> exists|f: u64|
                first <= f <= last && #[trigger] covered@.contains(f)),
    {
        let ghost s0 = *old(self);
        let ghost a0 = old(allocator).avail();
        let mut fnum = first;
        proof {
            assert(window_preserved(s0, s0, a0, a0));
            assert(covered@.union(Set::new(|f: u64| first <= f < first)) =~= covered@);
        }
        while fnum <= last
            invariant
                self.wf(),
                allocator.wf(),
                self.alloc_ok(allocator.avail()),
                window_preserved(s0, *self, a0, allocator.avail()),
                first <= fnum <= last,
                window_mapped(*self, covered@.union(Set::new(|f: u64| first <= f < fnum))),
                last < 0x8_0000_0000u64,
                flags & FLAG_BITS == flags,
                flags & HUGE_PAGE == 0,
            decreases last - fnum,
        {
            let ghost sk = *self;
            let ghost ak = allocator.avail();
            let ghost ck = covered@.union(Set::new(|f: u64| first <= f < fnum));
            let page = Page { number: fnum };
            proof {
                assert((fnum >> 27) & 0o777 != 511) by (bit_vector)
                    requires
                        fnum < 0x8_0000_0000u64,
                ;
            }
            if self.can_map(page) {
                proof {
                    // a page with a clear walk is not covered yet
                    if ck.contains(fnum) {
                        sk.lemma_mapped_not_clear(fnum);
                    }
                }
                let outcome = self.identity_map(Frame::from_index(fnum), flags, allocator);
                proof {
                    let s1 = *self;
                    let a1 = allocator.avail();
                    assert forall|g: u64| sk.has_table(g) implies #[trigger] s1.has_table(g) by {
                        assert(s1.has_table(g));
                    }
                    assert forall|g: u64| sk.has_table(g) implies #[trigger] s1.lv(g) == sk.lv(
                        g,
                    ) by {
                        assert(s1.has_table(g));
                        assert(s1.lv(g) == sk.lv(g));
                    }
                    assert forall|g: u64, i: int|
                        sk.has_table(g) && 0 <= i < 512 && sk.lv(g) == 4 && (g != sk.root() || i
                            == 511) implies #[trigger] s1.ent(g, i) == sk.ent(g, i) by {
                        assert(!(g == sk.root() && i == p4i(fnum)));
                        assert(s1.ent(g, i) == sk.ent(g, i));
                    }
                    assert(window_preserved(sk, s1, ak, a1));
                    lemma_window_trans(s0, sk, s1, a0, ak, a1);
                    if outcome is Ok {
                        assert forall|q: u64|
                            #![trigger s1.mapping_of(q)]
                            q < 0x10_0000_0000u64 && p4i(q) != 511 implies {
                            &&& (ck.insert(fnum).contains(q) ==> s1.mapping_of(q) == Some(
                                q as int,
                            ))
                            &&& (!ck.insert(fnum).contains(q) ==> s1.path_clear(q)
                                && s1.mapping_of(q) is None)
                        } by {
                            if q != fnum {
                                lemma_indices_distinct(fnum, q);
                                assert(s1.mapping_of(q) == sk.mapping_of(q));
                                assert(s1.path_clear(q) == sk.path_clear(q));
                            }
                        }
                        assert(window_mapped(s1, ck.insert(fnum)));
                    }
                }
                match outcome {
                    Ok(_) => {},
                    Err(e) => {
                        return Err(e);
                    },
                }
            } else {
                proof {
                    // only a covered page lacks a clear walk
                    assert(ck.contains(fnum));
                }
                if strict {
                    proof {
                        if !covered@.contains(fnum) {
                            assert(Set::new(|f: u64| first <= f < fnum).contains(fnum));
                            assert(false);
                        }
                    }
                    return Err(PagingError::AlreadyMapped);
                }
            }
            proof {
                assert(ck.insert(fnum) =~= covered@.union(
                    Set::new(|f: u64| first <= f < fnum + 1),
                ));
            }
            if fnum == last {
                proof {
                    assert(window_mapped(*self, ck.insert(fnum)));
                    assert(ck.insert(fnum) == covered@.union(frame_span(first, last)));
                    assert(window_mapped(*self, covered@.union(frame_span(first, last))));
                }
                break;
            }
            fnum = fnum + 1;
        }
        Ok(())
    }

    /// Map the whole boot layout, identity-wise, into the hierarchy the
    /// software walks currently target: every resident kernel section with
    /// its own permissions, the text-output device page, the
    /// boot-information block, and each platform-discovery region that is
    /// not already covered.  Starting from an all-clear hierarchy, success
    /// leaves exactly the layout's frames identity-mapped.
    #[verifier::loop_isolation(false)]
    fn map_layout<A: FrameAllocator>(&mut self, allocator: &mut A, layout: &BootLayout) -> (r:
        Result<(), PagingError>)
        requires
            old(self).wf(),
            old(allocator).wf(),
            old(self).alloc_ok(old(allocator).avail()),
            layout.wf(),
            window_mapped(*old(self), Set::<u64>::empty()),
        ensures
            final(self).wf(),
            final(allocator).wf(),
            final(self).alloc_ok(final(allocator).avail()),
            window_preserved(*old(self), *final(self), old(allocator).avail(), final(
                allocator).avail()),
            r is Ok ==> window_mapped(*final(self), layout_frames(*layout)),
            (r matches Err(e) ==> e == PagingError::OutOfFrames || e
                == PagingError::AlreadyMapped),
            (r matches Err(e) && e == PagingError::OutOfFrames ==> final(allocator).avail()
                =~= Set::<u64>::empty()),
            (r matches Err(e) && e == PagingError::AlreadyMapped ==> !layout_strict_disjoint(
                *layout,
            )),
    {
        let ghost s0 = *old(self);
        let ghost a0 = old(allocator).avail();
        proof {
            lemma_basic_flags();
            assert(window_preserved(s0, s0, a0, a0));
            assert(sections_frames(*layout, 0) =~= Set::<u64>::empty());
        }
        // Kernel sections, skipping the ones not resident in memory.
        let mut j: usize = 0;
        while j < layout.sections.len()
            invariant
                self.wf(),
                allocator.wf(),
                self.alloc_ok(allocator.avail()),
                window_preserved(s0, *self, a0, allocator.avail()),
                window_mapped(*self, sections_frames(*layout, j as int)),
                layout.wf(),
                j <= layout.sections.len(),
            decreases layout.sections.len() - j,
        {
            let ghost sk = *self;
            let ghost ak = allocator.avail();
            let ghost cj = sections_frames(*layout, j as int);
            let section = &layout.sections[j];
            if section.allocated {
                let flags = section_flags(section.allocated, section.writable, section.executable);
                let first = section.addr / PAGE_SIZE;
                let last = (section.addr + section.size - 1) / PAGE_SIZE;
                let outcome = self.identity_map_range(
                    first,
                    last,
                    flags,
                    true,
                    allocator,
                    Ghost(cj),
                );
                proof {
                    lemma_window_trans(s0, sk, *self, a0, ak, allocator.avail());
                }
                match outcome {
                    Ok(_) => {},
                    Err(e) => {
                        proof {
                            if e == PagingError::AlreadyMapped {
                                let f = choose|f: u64|
                                    first <= f <= last && #[trigger] cj.contains(f);
                                let k = choose|k: int|
                                    0 <= k < j && k < layout.sections.len() && (
                                    #[trigger] layout.sections@[k]).allocated
                                        && layout.sections@[k].addr / PAGE_SIZE <= f <= ((
                                    layout.sections@[k].addr + layout.sections@[k].size
                                        - 1) as u64) / PAGE_SIZE;
                                assert(!layout_strict_disjoint(*layout)) by {
                                    if layout_strict_disjoint(*layout) {
                                        assert(((layout.sections@[k].addr
                                            + layout.sections@[k].size - 1) as u64) / PAGE_SIZE
                                            < layout.sections@[j as int].addr / PAGE_SIZE || ((
                                        layout.sections@[j as int].addr
                                            + layout.sections@[j as int].size - 1) as u64)
                                            / PAGE_SIZE < layout.sections@[k].addr / PAGE_SIZE);
                                        assert(false);
                                    }
                                }
                            }
                        }
                        return Err(e);
                    },
                }
                proof {
                    assert(cj.union(frame_span(first, last)) =~= sections_frames(
                        *layout,
                        j as int + 1,
                    )) by {
                        assert forall|f: u64|
                            sections_frames(*layout, j as int + 1).contains(f) implies cj.union(
                            frame_span(first, last),
                        ).contains(f) by {
                            let k = choose|k: int|
                                0 <= k < j + 1 && k < layout.sections.len() && (
                                #[trigger] layout.sections@[k]).allocated
                                    && layout.sections@[k].addr / PAGE_SIZE <= f <= ((
                                layout.sections@[k].addr + layout.sections@[k].size - 1) as u64)
                                    / PAGE_SIZE;
                            if k < j {
                                assert(cj.contains(f));
                            }
                        }
                    }
                }
            } else {
                proof {
                    assert(sections_frames(*layout, j as int + 1) =~= cj) by {
                        assert forall|f: u64|
                            sections_frames(*layout, j as int + 1).contains(f) implies cj.contains(
                            f,
                        ) by {
                            let k = choose|k: int|
                                0 <= k < j + 1 && k < layout.sections.len() && (
                                #[trigger] layout.sections@[k]).allocated
                                    && layout.sections@[k].addr / PAGE_SIZE <= f <= ((
                                layout.sections@[k].addr + layout.sections@[k].size - 1) as u64)
                                    / PAGE_SIZE;
                            assert(k != j);
                        }
                    }
                }
            }
            j = j + 1;
        }
        let ghost call_sections = sections_frames(*layout, layout.sections.len() as int);
        // The text-output device page.
        let ghost sv = *self;
        let ghost av = allocator.avail();
        let vga = 0xb8000u64 / PAGE_SIZE;
        let outcome = self.identity_map_range(vga, vga, WRITABLE, true, allocator, Ghost(
            call_sections,
        ));
        proof {
            lemma_window_trans(s0, sv, *self, a0, av, allocator.avail());
        }
        match outcome {
            Ok(_) => {},
            Err(e) => {
                proof {
                    if e == PagingError::AlreadyMapped {
                        let f = choose|f: u64|
                            vga <= f <= vga && #[trigger] call_sections.contains(f);
                        let k = choose|k: int|
                            0 <= k < layout.sections.len() && (
                            #[trigger] layout.sections@[k]).allocated && layout.sections@[k].addr
                                / PAGE_SIZE <= f <= ((layout.sections@[k].addr
                                + layout.sections@[k].size - 1) as u64) / PAGE_SIZE;
                        assert(!layout_strict_disjoint(*layout));
                    }
                }
                return Err(e);
            },
        }
        let ghost c_vga = call_sections.union(frame_span(vga, vga));
        // The boot-information block.
        let ghost sm = *self;
        let ghost am = allocator.avail();
        let mb_first = layout.multiboot_start / PAGE_SIZE;
        let mb_last = (layout.multiboot_end - 1) / PAGE_SIZE;
        let outcome = self.identity_map_range(
            mb_first,
            mb_last,
            PRESENT,
            true,
            allocator,
            Ghost(c_vga),
        );
        proof {
            lemma_window_trans(s0, sm, *self, a0, am, allocator.avail());
        }
        match outcome {
            Ok(_) => {},
            Err(e) => {
                proof {
                    if e == PagingError::AlreadyMapped {
                        let f = choose|f: u64|
                            mb_first <= f <= mb_last && #[trigger] c_vga.contains(f);
                        if call_sections.contains(f) {
                            let k = choose|k: int|
                                0 <= k < layout.sections.len() && (
                                #[trigger] layout.sections@[k]).allocated
                                    && layout.sections@[k].addr / PAGE_SIZE <= f <= ((
                                layout.sections@[k].addr + layout.sections@[k].size - 1) as u64)
                                    / PAGE_SIZE;
                            assert(!layout_strict_disjoint(*layout));
                        } else {
                            assert(f == vga);
                            assert(!layout_strict_disjoint(*layout));
                        }
                    }
                }
                return Err(e);
            },
        }
        let ghost c_mb = c_vga.union(frame_span(mb_first, mb_last));
        // Platform-discovery spans, each mapped only where nothing covers
        // the frame yet, since these regions may overlap each other.
        proof {
            assert(c_mb.union(spans_frames(*layout, 0)) =~= c_mb);
        }
        let mut k: usize = 0;
        while k < layout.sdt_spans.len()
            invariant
                self.wf(),
                allocator.wf(),
                self.alloc_ok(allocator.avail()),
                window_preserved(s0, *self, a0, allocator.avail()),
                window_mapped(*self, c_mb.union(spans_frames(*layout, k as int))),
                layout.wf(),
                k <= layout.sdt_spans.len(),
            decreases layout.sdt_spans.len() - k,
        {
            let ghost sk = *self;
            let ghost ak = allocator.avail();
            let ghost ckk = c_mb.union(spans_frames(*layout, k as int));
            let span = layout.sdt_spans[k];
            let first = span.0 / PAGE_SIZE;
            let last = span.1 / PAGE_SIZE;
            let outcome = self.identity_map_range(
                first,
                last,
                PRESENT,
                false,
                allocator,
                Ghost(ckk),
            );
            proof {
                lemma_window_trans(s0, sk, *self, a0, ak, allocator.avail());
            }
            match outcome {
                Ok(_) => {},
                Err(e) => {
                    return Err(e);
                },
            }
            let ghost c_span = ckk.union(frame_span(first, last));
            if span.2 != 0 {
                let ghost sn = *self;
                let ghost an = allocator.avail();
                let next = span.2 / PAGE_SIZE;
                let outcome = self.identity_map_range(
                    next,
                    next,
                    PRESENT,
                    false,
                    allocator,
                    Ghost(c_span),
                );
                proof {
                    lemma_window_trans(s0, sn, *self, a0, an, allocator.avail());
                }
                match outcome {
                    Ok(_) => {},
                    Err(e) => {
                        return Err(e);
                    },
                }
                proof {
                    assert(c_span.union(frame_span(next, next)) =~= c_mb.union(
                        spans_frames(*layout, k as int + 1),
                    )) by {
                        assert forall|f: u64|
                            c_mb.union(spans_frames(*layout, k as int + 1)).contains(f) implies
                            c_span.union(frame_span(next, next)).contains(f) by {
                            if !c_mb.contains(f) {
                                let m = choose|m: int|
                                    0 <= m < k + 1 && m < layout.sdt_spans.len() && ((
                                    #[trigger] layout.sdt_spans@[m]).0 / PAGE_SIZE <= f
                                        <= layout.sdt_spans@[m].1 / PAGE_SIZE || (
                                    layout.sdt_spans@[m].2 != 0 && f == layout.sdt_spans@[m].2
                                        / PAGE_SIZE));
                                if m < k {
                                    assert(ckk.contains(f));
                                }
                            }
                        }
                    }
                }
            } else {
                proof {
                    assert(c_span =~= c_mb.union(spans_frames(*layout, k as int + 1))) by {
                        assert forall|f: u64|
                            c_mb.union(spans_frames(*layout, k as int + 1)).contains(f) implies
                            c_span.contains(f) by {
                            if !c_mb.contains(f) {
                                let m = choose|m: int|
                                    0 <= m < k + 1 && m < layout.sdt_spans.len() && ((
                                    #[trigger] layout.sdt_spans@[m]).0 / PAGE_SIZE <= f
                                        <= layout.sdt_spans@[m].1 / PAGE_SIZE || (
                                    layout.sdt_spans@[m].2 != 0 && f == layout.sdt_spans@[m].2
                                        / PAGE_SIZE));
                                if m < k {
                                    assert(ckk.contains(f));
                                }
                            }
                        }
                    }
                }
            }
            k = k + 1;
        }
        let ghost c_spans = c_mb.union(spans_frames(*layout, layout.sdt_spans.len() as int));
        // The interrupt controller's I/O range and control block.
        let ghost si = *self;
        let ghost ai = allocator.avail();
        let io_first = layout.ioapic_start / PAGE_SIZE;
        let io_last = layout.ioapic_end / PAGE_SIZE;
        let outcome = self.identity_map_range(
            io_first,
            io_last,
            WRITABLE,
            false,
            allocator,
            Ghost(c_spans),
        );
        proof {
            lemma_window_trans(s0, si, *self, a0, ai, allocator.avail());
        }
        match outcome {
            Ok(_) => {},
            Err(e) => {
                return Err(e);
            },
        }
        let ghost c_io = c_spans.union(frame_span(io_first, io_last));
        let ghost sl = *self;
        let ghost al = allocator.avail();
        let lapic = layout.lapic_ctrl / PAGE_SIZE;
        let outcome = self.identity_map_range(
            lapic,
            lapic,
            WRITABLE,
            false,
            allocator,
            Ghost(c_io),
        );
        proof {
            lemma_window_trans(s0, sl, *self, a0, al, allocator.avail());
        }
        match outcome {
            Ok(_) => {},
            Err(e) => {
                return Err(e);
            },
        }
        proof {
            assert(c_io.union(frame_span(lapic, lapic)) =~= layout_frames(*layout));
        }
        Ok(())
    }
}

/// The walks of a hierarchy rooted away from the running register survive
/// the window teardown: restoring the register's reserved slot and
/// clearing the scratch page's leaf touch no slot such a walk reads — the
/// slot sits in the register's own table, or in a leaf table that link
/// injectivity places in the register's hierarchy, not the other one.
#[verifier::rlimit(100)]
proof fn lemma_window_walks_survive(
    s_we: ActivePageTable,
    sh: ActivePageTable,
    p4v: u64,
    wrote_leaf: bool,
    l1: u64,
    l1_index: int,
    s3c: u64,
    s2c: u64,
    q: u64,
)
    requires
        s_we.wf(),
        p4i(q) != 511,
        s_we.root() != p4v,
        s_we.has_table(p4v),
        s_we.lv(p4v) == 4,
        sh.root() == s_we.root(),
        forall|g: u64| s_we.has_table(g) ==> #[trigger] sh.has_table(g),
        forall|g: u64| s_we.has_table(g) ==> #[trigger] sh.lv(g) == s_we.lv(g),
        forall|g: u64, i: int|
            s_we.has_table(g) && 0 <= i < 512 && !(g == p4v && i == 511) && !(wrote_leaf && g == l1
                && i == l1_index) ==> #[trigger] sh.ent(g, i) == s_we.ent(g, i),
        wrote_leaf ==> {
            &&& 0 <= l1_index < 512
            &&& is_present(s_we.ent(p4v, p4i(SCRATCH_PAGE))) && !is_huge(
                s_we.ent(p4v, p4i(SCRATCH_PAGE)),
            )
            &&& frame_num(s_we.ent(p4v, p4i(SCRATCH_PAGE))) == s3c
            &&& s_we.has_table(s3c) && s_we.lv(s3c) == 3
            &&& is_present(s_we.ent(s3c, p3i(SCRATCH_PAGE))) && !is_huge(
                s_we.ent(s3c, p3i(SCRATCH_PAGE)),
            )
            &&& frame_num(s_we.ent(s3c, p3i(SCRATCH_PAGE))) == s2c
            &&& s_we.has_table(s2c) && s_we.lv(s2c) == 2
            &&& is_present(s_we.ent(s2c, p2i(SCRATCH_PAGE))) && !is_huge(
                s_we.ent(s2c, p2i(SCRATCH_PAGE)),
            )
            &&& frame_num(s_we.ent(s2c, p2i(SCRATCH_PAGE))) == l1
            &&& s_we.has_table(l1) && s_we.lv(l1) == 1
        },
    ensures
        sh.mapping_of(q) == s_we.mapping_of(q),
{
    lemma_page_indices(q);
    lemma_page_indices(SCRATCH_PAGE);
    s_we.lemma_walk_strict(q);
    let nr = s_we.root();
    assert((0xcafe_babeu64 >> 27) & 0o777 != 511) by (bit_vector);
    assert(sh.ent(nr, p4i(q)) == s_we.ent(nr, p4i(q)));
    assert(sh.e4(q) == s_we.e4(q));
    if is_present(s_we.e4(q)) && !is_huge(s_we.e4(q)) {
        let t3q = s_we.walk3(q);
        assert(s_we.has_table(t3q) && s_we.lv(t3q) == 3);
        assert(sh.ent(t3q, p3i(q)) == s_we.ent(t3q, p3i(q)));
        assert(sh.walk3(q) == t3q && sh.e3(q) == s_we.e3(q));
        if is_present(s_we.e3(q)) && !is_huge(s_we.e3(q)) {
            let t2q = s_we.walk2(q);
            assert(s_we.has_table(t2q) && s_we.lv(t2q) == 2);
            assert(sh.ent(t2q, p2i(q)) == s_we.ent(t2q, p2i(q)));
            assert(sh.walk2(q) == t2q && sh.e2(q) == s_we.e2(q));
            if is_present(s_we.e2(q)) && !is_huge(s_we.e2(q)) {
                let t1q = s_we.walk1(q);
                assert(s_we.has_table(t1q) && s_we.lv(t1q) == 1);
                if wrote_leaf && t1q == l1 {
                    // the two leaf tables would share a parent chain, which
                    // injectivity forbids for distinct roots
                    assert(s_we.ent(t2q, p2i(q)) == s_we.e2(q));
                    assert(s_we.ent(s2c, p2i(SCRATCH_PAGE)) == s_we.ent(
                        s2c,
                        p2i(SCRATCH_PAGE),
                    ));
                    assert(t2q == s2c && p2i(q) == p2i(SCRATCH_PAGE));
                    assert(s_we.ent(s3c, p3i(SCRATCH_PAGE)) == s_we.ent(
                        s3c,
                        p3i(SCRATCH_PAGE),
                    ));
                    assert(t3q == s3c && p3i(q) == p3i(SCRATCH_PAGE));
                    assert(s_we.ent(nr, p4i(q)) == s_we.e4(q));
                    assert(s_we.ent(p4v, p4i(SCRATCH_PAGE)) == s_we.ent(
                        p4v,
                        p4i(SCRATCH_PAGE),
                    ));
                    assert(nr == p4v);
                    assert(false);
                }
                assert(sh.ent(t1q, p1i(q)) == s_we.ent(t1q, p1i(q)));
                assert(sh.walk1(q) == t1q && sh.leaf_entry(q) == s_we.leaf_entry(q));
            }
        }
    }
}

/// The bootstrap protocol.  A fresh hierarchy is built in a frame from the
/// allocator and populated with the whole boot layout while the CPU still
/// walks the old one: the reserved recursive slot of the running root is
/// redirected at the new root, so the ordinary mapping code populates the
/// new hierarchy, and the slot is restored before any return, error
/// included.  Then the register is switched to the new hierarchy and the
/// old root's page is unmapped from it.  The old root's frame is
/// deliberately not handed back to the allocator.  On real hardware every
/// cached translation is flushed when the slot is redirected, when it is
/// restored, and when single mappings are removed.
pub fn remap_the_kernel<A: FrameAllocator>(
    active_table: ActivePageTable,
    allocator: &mut A,
    layout: &BootLayout,
) -> (r: Result<ActivePageTable, PagingError>)
    requires
        active_table.wf(),
        active_table.self_mapped(),
        active_table.p4_spec() < 0x8_0000_0000u64,
        old(allocator).wf(),
        active_table.alloc_ok(old(allocator).avail()),
        old(allocator).avail().len() >= 4,
        active_table.path_clear(SCRATCH_PAGE),
        !is_present(active_table.e4(SCRATCH_PAGE)),
        layout.wf(),
    ensures
        final(allocator).wf(),
        (match r {
            Ok(t) => {
                &&& t.wf()
                &&& t.self_mapped()
                &&& t.p4_spec() != active_table.p4_spec()
                &&& !t.mapped_4k(active_table.p4_spec())
                &&& forall|q: u64|
                    #![trigger t.mapping_of(q)]
                    q < 0x10_0000_0000u64 && p4i(q) != 511 && layout_frames(*layout).contains(q)
                        && q != active_table.p4_spec() ==> t.mapping_of(q) == Some(q as int)
            },
            Err(e) => {
                &&& e == PagingError::OutOfFrames || e == PagingError::AlreadyMapped
                &&& (e == PagingError::OutOfFrames ==> final(allocator).avail() =~= Set::<
                    u64,
                >::empty())
                &&& (e == PagingError::AlreadyMapped ==> !layout_strict_disjoint(*layout))
            },
        }),
{
    let mut active = active_table;
    let ghost s0 = active;
    let ghost a0 = old(allocator).avail();
    proof {
        assert((0xcafe_babeu64 >> 27) & 0o777 != 511 && 0xcafe_babeu64 < 0x10_0000_0000_0000u64)
            by (bit_vector);
        broadcast use vstd::set::axiom_set_empty_len;
        broadcast use vstd::set::axiom_set_remove_len;

    }
    let scratch = Page { number: SCRATCH_PAGE };
    let mut temporary_page = TemporaryPage::new(scratch, allocator);
    let ghost cache0 = temporary_page.cache();
    let ghost a1 = allocator.avail();
    let frame = match allocator.allocate_frame() {
        Some(f) => f,
        None => {
            return Err(PagingError::OutOfFrames);
        },
    };
    let fid = frame.num();
    let ghost a2 = allocator.avail();
    proof {
        assert(!s0.has_table(fid) && fid < MAX_FRAMES);
        assert(!cache0.contains(fid));
        assert forall|f: u64| #[trigger] cache0.contains(f) implies !s0.has_table(f) && f
            < MAX_FRAMES by {
            assert(a0.contains(f));
        }
        assert(s0.alloc_ok(cache0));
    }
    let new_table = InactivePageTable::new(frame, &mut active, &mut temporary_page);
    let ghost sb = active;
    let backup = active.root_table_frame();
    proof {
        assert(backup.id() == s0.p4_spec());
        assert(sb.has_table(backup.id()));
    }
    let _scratch_va = temporary_page.map(backup, &mut active);
    let ghost sc = active;
    proof {
        // the new root's self-referential row survives the scratch mapping
        assert(sc.has_table(fid));
        assert(sc.lv(fid) == 4);
        assert(fid != sb.root());
        assert(sc.ent(fid, 511) == sb.ent(fid, 511));
        assert(sc.ent(fid, 511) == encode_entry(fid, TABLE_FLAGS));
    }
    let new_root = new_table.p4_frame.num();
    active.set_recursive_slot(new_root);
    let ghost sd = active;
    proof {
        assert(sd.root() == fid);
        assert(sd.ent(fid, 511) == sc.ent(fid, 511));
        lemma_zero_entry();
        // below the reserved slot the fresh root is still all clear, so the
        // window starts with nothing covered
        assert forall|i: int| 0 <= i < 512 && i != 511 implies sd.ent(fid, i) == 0 by {
            assert(sb.ent(fid, i) == 0);
            assert(sc.ent(fid, i) == sb.ent(fid, i));
            assert(sd.ent(fid, i) == sc.ent(fid, i));
        }
        assert forall|q: u64|
            #![trigger sd.mapping_of(q)]
            q < 0x10_0000_0000u64 && p4i(q) != 511 implies sd.path_clear(q) && sd.mapping_of(
            q,
        ) is None by {
            lemma_page_indices(q);
            assert(sd.e4(q) == 0);
        }
        assert(window_mapped(sd, Set::<u64>::empty()));
        // the allocator still conflicts with no table
        assert forall|f: u64| #[trigger] a2.contains(f) implies !sd.has_table(f) && f
            < MAX_FRAMES by {
            assert(a0.contains(f));
            if sd.has_table(f) {
                assert(sc.has_table(f));
                assert(sb.has_table(f) || cache0.contains(f));
                if sb.has_table(f) {
                    assert(s0.has_table(f) || cache0.contains(f) || f == fid);
                }
                if cache0.contains(f) {
                    assert(cache0.disjoint(a1));
                    assert(a2.subset_of(a1));
                    assert(false);
                }
                if f == fid {
                    assert(!a2.contains(fid));
                }
            }
        }
        assert(sd.alloc_ok(a2));
    }
    let work = active.map_layout(allocator, layout);
    let ghost se = active;
    let ghost a3 = allocator.avail();
    proof {
        assert(window_preserved(sd, se, a2, a3));
        assert(se.has_table(fid));
        assert(se.lv(fid) == 4);
        assert(se.ent(fid, 511) == sd.ent(fid, 511));
        assert(se.p4_spec() == s0.p4_spec());
    }
    let p4_value = active.root_table_frame();
    active.set_recursive_slot(p4_value.num());
    let ghost sf = active;
    let ghost p4v = s0.p4_spec();
    let ghost mut wrote_leaf = false;
    let ghost mut l1: u64 = 0;
    let ghost mut s3c: u64 = 0;
    let ghost mut s2c: u64 = 0;
    proof {
        assert(sf.self_mapped());
        assert(fid != sf.p4_spec());
        assert(sf.ent(fid, 511) == se.ent(fid, 511));
        assert(sf.has_table(fid) && sf.lv(fid) == 4);
    }
    if active.has_4k_mapping(scratch) && temporary_page.cached() < 3 {
        let mapped_to = active.translate_page(scratch);
        let already_cached = match &mapped_to {
            Some(f) => temporary_page.caches(f.num()),
            None => false,
        };
        if !already_cached {
            proof {
                sf.lemma_walk_strict(SCRATCH_PAGE);
                assert(sf.lv(sf.walk1(SCRATCH_PAGE)) == 1);
                sf.lemma_mapping_bound(SCRATCH_PAGE);
                wrote_leaf = true;
                s3c = sf.walk3(SCRATCH_PAGE);
                s2c = sf.walk2(SCRATCH_PAGE);
                l1 = sf.walk1(SCRATCH_PAGE);
            }
            temporary_page.unmap(&mut active);
            proof {
                let sg = active;
                assert(sg.ent(fid, 511) == sf.ent(fid, 511));
                assert(sg.has_table(fid) && sg.lv(fid) == 4);
            }
        }
    }
    let ghost sh = active;
    proof {
        assert(sh.ent(fid, 511) == encode_entry(fid, TABLE_FLAGS));
        assert(sh.has_table(fid) && sh.lv(fid) == 4);
        assert(sh.p4_spec() == s0.p4_spec());
        // everything the teardown wrote sits outside the new hierarchy's
        // rows: the old register row's reserved slot and the scratch leaf
        assert forall|g: u64, i: int|
            se.has_table(g) && 0 <= i < 512 && !(g == p4v && i == 511) && !(wrote_leaf && g == l1
                && i == p1i(SCRATCH_PAGE)) implies #[trigger] sh.ent(g, i) == se.ent(g, i) by {
            assert(sf.ent(g, i) == se.ent(g, i));
            assert(sf.has_table(g));
            assert(sh.ent(g, i) == sf.ent(g, i));
        }
        assert forall|g: u64| se.has_table(g) implies #[trigger] sh.has_table(g) by {
            assert(sf.has_table(g));
            assert(sh.has_table(g));
        }
        assert forall|g: u64| se.has_table(g) implies #[trigger] sh.lv(g) == se.lv(g) by {
            assert(sf.has_table(g));
            assert(sf.lv(g) == se.lv(g));
            assert(sh.lv(g) == sf.lv(g));
        }
        assert(s0.has_table(p4v) && sb.has_table(p4v) && sc.has_table(p4v));
        assert(sd.has_table(p4v) && se.has_table(p4v));
        assert(se.lv(p4v) == 4) by {
            assert(sf.has_table(p4v));
            assert(sf.lv(p4v) == 4);
            assert(sf.lv(p4v) == se.lv(p4v));
        }
        if wrote_leaf {
            lemma_page_indices(SCRATCH_PAGE);
            assert((0xcafe_babeu64 >> 27) & 0o777 != 511 && (0xcafe_babeu64 >> 18) & 0o777 != 511
                && (0xcafe_babeu64 >> 9) & 0o777 != 511) by (bit_vector);
            assert(sf.has_table(s3c) && sf.lv(s3c) == 3);
            assert(sf.has_table(s2c) && sf.lv(s2c) == 2);
            assert(sf.has_table(l1) && sf.lv(l1) == 1);
            assert(se.has_table(s3c) && se.has_table(s2c) && se.has_table(l1));
            assert(se.lv(s3c) == 3 && se.lv(s2c) == 2 && se.lv(l1) == 1);
            assert(s3c != p4v && s2c != p4v && l1 != p4v);
            assert(se.ent(p4v, p4i(SCRATCH_PAGE)) == sf.ent(p4v, p4i(SCRATCH_PAGE)));
            assert(se.ent(s3c, p3i(SCRATCH_PAGE)) == sf.ent(s3c, p3i(SCRATCH_PAGE)));
            assert(se.ent(s2c, p2i(SCRATCH_PAGE)) == sf.ent(s2c, p2i(SCRATCH_PAGE)));
        }
    }
    match work {
        Ok(_) => {},
        Err(e) => {
            return Err(e);
        },
    }
    let old_table = active.switch(new_table);
    let ghost si = active;
    proof {
        assert(si.self_mapped());
        assert(si.p4_spec() == fid);
        assert(old_table.frame_id() == s0.p4_spec());
        assert(fid != s0.p4_spec());
        assert(se.root() == fid && si.root() == fid);
        assert(se.has_table(p4v) && se.lv(p4v) == 4);
        assert forall|q: u64| p4i(q) != 511 implies #[trigger] si.mapping_of(q) == se.mapping_of(
            q,
        ) by {
            lemma_window_walks_survive(
                se,
                si,
                p4v,
                wrote_leaf,
                l1,
                p1i(SCRATCH_PAGE),
                s3c,
                s2c,
                q,
            );
        }
    }
    let old_root = old_table.root_frame();
    let old_page = Page { number: old_root.num() };
    proof {
        let b = s0.p4_spec();
        assert((b >> 27) & 0o777 != 511) by (bit_vector)
            requires
                b < 0x8_0000_0000u64,
        ;
    }
    if active.has_4k_mapping(old_page) {
        let _freed = active.unmap(old_page);
        proof {
            lemma_zero_entry();
            assert(active.leaf_entry(s0.p4_spec()) == 0);
            assert(!active.mapped_4k(s0.p4_spec()));
            assert forall|q: u64|
                q < 0x10_0000_0000u64 && p4i(q) != 511 && q != p4v implies
                #[trigger] active.mapping_of(q) == si.mapping_of(q) by {
                lemma_indices_distinct(p4v, q);
            }
        }
    } else {
        proof {
            assert forall|q: u64|
                q < 0x10_0000_0000u64 && p4i(q) != 511 && q != p4v implies
                #[trigger] active.mapping_of(q) == si.mapping_of(q) by {}
        }
    }
    proof {
        assert(!active.mapped_4k(s0.p4_spec()));
        assert(active.p4_spec() == fid && fid != s0.p4_spec());
        assert(window_mapped(se, layout_frames(*layout)));
        assert forall|q: u64|
            #![trigger active.mapping_of(q)]
            q < 0x10_0000_0000u64 && p4i(q) != 511 && layout_frames(*layout).contains(q) && q
                != s0.p4_spec() implies active.mapping_of(q) == Some(q as int) by {
            assert(se.mapping_of(q) == Some(q as int));
            assert(si.mapping_of(q) == se.mapping_of(q));
            assert(active.mapping_of(q) == si.mapping_of(q));
        }
    }
    Ok(active)
}

} // verus!
