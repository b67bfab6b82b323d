//! A bump allocator over a fixed heap range, and the alignment helpers it
//! rests on.

use vstd::prelude::*;

verus! {

/// First address of the kernel heap; any unused address works.
pub const HEAP_START: u64 = 0x4000_0000;

/// Size of the kernel heap in bytes.
pub const HEAP_SIZE: u64 = 100 * 1024;

/// Is `a` a power of two?
pub open spec fn is_pow2(a: u64) -> bool {
    a != 0 && a & ((a - 1) as u64) == 0
}

/// Align downwards: the greatest multiple of `align` that is at most
/// `addr`.  A zero alignment leaves the address alone; any other alignment
/// must be a power of two.
pub fn align_down(addr: u64, align: u64) -> (r: u64)
    requires
        align == 0 || is_pow2(align),
    ensures
        align != 0 ==> r == addr - addr % align,
        align == 0 ==> r == addr,
{
    if align != 0 {
        proof {
            assert(addr % align <= addr) by (nonlinear_arith)
                requires
                    align > 0,
            ;
        }
        addr - addr % align
    } else {
        addr
    }
}

/// Align upwards: the smallest multiple of `align` that is at least
/// `addr`.
pub fn align_up(addr: u64, align: u64) -> (r: u64)
    requires
        is_pow2(align),
        addr + align - 1 <= u64::MAX,
    ensures
        r % align == 0,
        addr <= r < addr + align,
{
    let r = align_down(addr + (align - 1), align);
    proof {
        let xi = (addr + align - 1) as int;
        let ai = align as int;
        assert((xi - xi % ai) % ai == 0 && 0 <= xi % ai < ai) by (nonlinear_arith)
            requires
                ai > 0,
        ;
    }
    r
}

/// Hands out addresses from a fixed heap range, only ever moving forward.
#[derive(Debug)]
pub struct BumpAllocator {
    heap_start: u64,
    heap_size: u64,
    next: u64,
}

impl BumpAllocator {
    /// The bump position stays inside the heap range, which stays inside
    /// the address space with room for alignment arithmetic.
    pub closed spec fn wf(self) -> bool {
        &&& self.heap_start <= self.next
        &&& self.next <= self.heap_start + self.heap_size
        &&& self.heap_start + self.heap_size < 0x8000_0000_0000_0000u64
    }

    /// The heap range.
    pub closed spec fn range_spec(self) -> (u64, u64) {
        (self.heap_start, self.heap_size)
    }

    /// The next address to try.
    pub closed spec fn next_spec(self) -> u64 {
        self.next
    }

    /// A fresh allocator over `[heap_start, heap_start + heap_size)`.
    pub fn new(heap_start: u64, heap_size: u64) -> (r: BumpAllocator)
        requires
            heap_start + heap_size < 0x8000_0000_0000_0000u64,
        ensures
            r.wf(),
            r.range_spec() == (heap_start, heap_size),
            r.next_spec() == heap_start,
    {
        BumpAllocator { heap_start, heap_size, next: heap_start }
    }

    /// Allocate `size` bytes at alignment `align`: the block starts exactly
    /// at the bump position aligned up, and the position advances past the
    /// block.  Nothing is handed out exactly when that block would leave
    /// the heap, and the position then stays put.  (An aligned address in
    /// `[next, next + align)` is unique, so the clauses below pin the block
    /// completely.)
    pub fn allocate(&mut self, size: u64, align: u64) -> (r: Option<u64>)
        requires
            old(self).wf(),
            is_pow2(align),
            align < 0x8000_0000_0000_0000u64,
            size < 0x8000_0000_0000_0000u64,
        ensures
            final(self).wf(),
            final(self).range_spec() == old(self).range_spec(),
            (match r {
                Some(a) => {
                    &&& a % align == 0
                    &&& old(self).next_spec() <= a < old(self).next_spec() + align
                    &&& a + size <= old(self).range_spec().0 + old(self).range_spec().1
                    &&& final(self).next_spec() == a + size
                },
                None => {
                    &&& final(self).next_spec() == old(self).next_spec()
                    &&& exists|s: u64|
                        #[trigger] (s % align) == 0 && old(self).next_spec() <= s < old(
                            self,
                        ).next_spec() + align && s + size > old(self).range_spec().0 + old(
                            self,
                        ).range_spec().1
                },
            }),
    {
        let alloc_start = align_up(self.next, align);
        if alloc_start <= u64::MAX - size {
            let alloc_end = alloc_start + size;
            if alloc_end <= self.heap_start + self.heap_size {
                self.next = alloc_end;
                return Some(alloc_start);
            }
        }
        proof {
            assert(alloc_start % align == 0 && self.next <= alloc_start < self.next + align
                && alloc_start + size > self.heap_start + self.heap_size);
        }
        None
    }
}

} // verus!
