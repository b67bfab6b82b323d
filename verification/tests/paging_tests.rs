//! Scenario tests of the page-table subsystem against a simulated machine.

use oskern::memory::area_frame_allocator::AreaFrameAllocator;
use oskern::memory::area_frame_allocator::MemoryArea;
use oskern::memory::paging::temporary_page::TemporaryPage;
use oskern::memory::paging::ActivePageTable;
use oskern::memory::paging::BootLayout;
use oskern::memory::paging::Entry;
use oskern::memory::paging::InactivePageTable;
use oskern::memory::paging::KernelSection;
use oskern::memory::paging::kernel_bounds;
use oskern::memory::paging::Page;
use oskern::memory::paging::PagingError;
use oskern::memory::paging::Table;
use oskern::memory::paging::NO_EXECUTE;
use oskern::memory::paging::PRESENT;
use oskern::memory::paging::WRITABLE;
use oskern::memory::paging::remap_the_kernel;
use oskern::memory::Frame;
use oskern::memory::FrameAllocator;

#[test]
fn it_works() {}

/// A plentiful allocator over one high memory area, with nothing reserved.
fn test_allocator() -> AreaFrameAllocator {
    let areas = vec![MemoryArea { base_addr: 0x100_0000, length: 0x100_0000 }];
    AreaFrameAllocator::new(0x1000, 0x2000, 0x3000, 0x4000, areas)
}

fn fresh_table() -> ActivePageTable {
    ActivePageTable::new(Frame::containing_address(0x7000_0000))
}

#[test]
fn entry_round_trip() {
    // setting an entry and reading it back yields exactly the frame and
    // exactly the flags that were set
    let mut e = Entry::unused();
    assert!(e.is_unused());
    let frame = Frame::containing_address(0x42000);
    e.set(frame, PRESENT | WRITABLE);
    assert!(e.pointed_frame() == Some(Frame::containing_address(0x42000)));
    assert!(e.flags() == (PRESENT | WRITABLE));
    e.set_unused();
    assert!(e.is_unused());
    // without the present flag no frame is surrendered
    let mut quiet = Entry::unused();
    quiet.set(Frame::containing_address(0x42000), NO_EXECUTE);
    assert!(quiet.pointed_frame() == None);
}

#[test]
fn zero_is_idempotent() {
    let mut once = Table::new();
    let mut entry = Entry::unused();
    entry.set(Frame::containing_address(0x9000), PRESENT);
    once.set_at(5, entry);
    assert!(!once.get(5).is_unused());
    once.zero();
    let mut twice = Table::new();
    twice.set_at(5, entry);
    twice.zero();
    twice.zero();
    for i in 0..512 {
        assert!(once.get(i).is_unused());
        assert!(twice.get(i).is_unused());
    }
}

#[test]
fn translate_boundaries() {
    let mut table = fresh_table();
    let mut allocator = test_allocator();
    // address zero on an empty hierarchy resolves to nothing
    assert!(table.translate(0) == None);
    // highest canonical address below the hole, likewise
    assert!(table.translate(0x7fff_ffff_ffff) == None);
    // once page zero is mapped, address zero follows the first entry
    let frame = Frame::containing_address(0xaa000);
    let page = Page::containing_address(0);
    table.map_to(page, frame, WRITABLE, &mut allocator).unwrap();
    assert!(table.translate(0) == Some(0xaa000));
    assert!(table.translate(17) == Some(0xaa011));
    assert!(table.translate(4095) == Some(0xaafff));
    assert!(table.translate(4096) == None);
}

#[test]
fn second_level_boundary_mapping() {
    // map the page at the second-level boundary and check both sides of it
    let mut table = fresh_table();
    let mut allocator = test_allocator();
    let addr = 512 * 4096;
    let page = Page::containing_address(addr);
    let frame = Frame::containing_address(0xbb000);
    table.map_to(page, frame, 0, &mut allocator).unwrap();
    assert!(table.translate(addr) == Some(0xbb000));
    assert!(table.translate(addr - 1) == None);
}

#[test]
fn map_then_unmap_round_trip() {
    let mut table = fresh_table();
    let mut allocator = test_allocator();
    let addr = 42 * 512 * 512 * 4096;
    let page = Page::containing_address(addr);
    let frame = Frame::containing_address(0xcc000);
    assert!(table.translate(addr) == None);
    table.map_to(page, frame, 0, &mut allocator).unwrap();
    assert!(table.translate(addr) == Some(0xcc000));
    let freed = table.unmap(page);
    assert!(freed == Frame::containing_address(0xcc000));
    assert!(table.translate(addr) == None);
    // the slot holds exactly the unused sentinel: mapping it again works
    table.map_to(page, Frame::containing_address(0xdd000), 0, &mut allocator).unwrap();
    assert!(table.translate(addr) == Some(0xdd000));
}

#[test]
fn three_frame_chain_exhaustion() {
    // a temporary page starts with exactly three cached frames; one mapping
    // that must create all three intermediate tables drains the cache, and
    // the unmapping hands one frame back
    let mut table = fresh_table();
    let mut allocator = test_allocator();
    let scratch = Page::containing_address(0xcafebabe * 4096);
    let mut tp = TemporaryPage::new(scratch, &mut allocator);
    assert!(tp.cached() == 3);
    let target = Frame::containing_address(0xee000);
    let va = tp.map(target, &mut table);
    assert!(va == 0xcafebabe * 4096);
    assert!(tp.cached() == 0);
    assert!(table.translate(va) == Some(0xee000));
    tp.unmap(&mut table);
    assert!(tp.cached() == 1);
    assert!(table.translate(va) == None);
}

#[test]
fn inactive_table_is_self_mapped() {
    let mut table = fresh_table();
    let mut allocator = test_allocator();
    let scratch = Page::containing_address(0xcafebabe * 4096);
    let mut tp = TemporaryPage::new(scratch, &mut allocator);
    let root = allocator.allocate_frame().unwrap();
    let inactive = InactivePageTable::new(root, &mut table, &mut tp);
    let inactive_root = inactive.root_frame();
    // the new hierarchy's reserved slot points back at its own root even
    // though it is not installed anywhere
    let child = table.next_table(&inactive_root, 511);
    assert!(child == Some(inactive.root_frame()));
}

#[test]
fn recursive_slot_resolves_to_root() {
    // the active table's reserved slot resolves back to the table itself
    let table = fresh_table();
    let root = table.root_table_frame();
    assert!(table.next_table(&root, 511) == Some(table.root_table_frame()));
}

fn test_layout() -> BootLayout {
    BootLayout {
        sections: vec![
            KernelSection {
                addr: 0x100000,
                size: 0x3000,
                writable: false,
                executable: true,
                allocated: true,
            },
            KernelSection {
                addr: 0x104000,
                size: 0x1000,
                writable: true,
                executable: false,
                allocated: true,
            },
            KernelSection {
                addr: 0,
                size: 0,
                writable: false,
                executable: false,
                allocated: false,
            },
        ],
        multiboot_start: 0x9000,
        multiboot_end: 0xa000,
        sdt_spans: vec![(0x7fe_0000, 0x7fe_0100, 0x7fe_1000)],
        ioapic_start: 0xfec0_0000,
        ioapic_end: 0xfec0_0020,
        lapic_ctrl: 0xfee0_0000,
    }
}

#[test]
fn bootstrap_switch() {
    // the full remap protocol: afterwards the register holds the new root,
    // the kernel sections still translate to themselves, and the old root's
    // page no longer translates
    let table = fresh_table();
    let old_root = table.root_table_frame();
    let old_root_addr = old_root.start_address();
    let mut allocator = test_allocator();
    let layout = test_layout();
    let new_table = remap_the_kernel(table, &mut allocator, &layout).unwrap();
    // the register moved to a different root, which is again self-mapped
    let new_root = new_table.root_table_frame();
    assert!(new_root != Frame::containing_address(old_root_addr));
    assert!(new_table.next_table(&new_root, 511) == Some(new_table.root_table_frame()));
    // every byte of every resident section keeps its identity mapping
    for addr in [0x100000u64, 0x101000, 0x102fff, 0x104000, 0x104fff] {
        assert!(new_table.translate(addr) == Some(addr));
    }
    // the device page and the boot-information block too
    assert!(new_table.translate(0xb8000) == Some(0xb8000));
    assert!(new_table.translate(0x9000) == Some(0x9000));
    // the platform-discovery span as well
    assert!(new_table.translate(0x7fe_0000) == Some(0x7fe_0000));
    assert!(new_table.translate(0x7fe_1000) == Some(0x7fe_1000));
    // the old root's page is gone from the new hierarchy
    assert!(new_table.translate(old_root_addr) == None);
}

#[test]
fn remap_reports_overlapping_sections() {
    let table = fresh_table();
    let mut allocator = test_allocator();
    let mut layout = test_layout();
    // a second section over the same addresses cannot be mapped twice
    let first = layout.sections[0];
    layout.sections.push(first);
    match remap_the_kernel(table, &mut allocator, &layout) {
        Err(e) => assert!(e == PagingError::AlreadyMapped),
        Ok(_) => panic!("overlapping sections were mapped twice"),
    }
}

#[test]
fn exhausted_allocator_reports_out_of_frames() {
    // two frames cannot hold the three tables one fresh mapping needs
    let mut table = fresh_table();
    let areas = vec![MemoryArea { base_addr: 0x200_0000, length: 2 * 4096 }];
    let mut allocator = AreaFrameAllocator::new(0x1000, 0x1fff, 0x1000, 0x1fff, areas);
    let page = Page::containing_address(0x5000_0000);
    let frame = Frame::containing_address(0xff000);
    let outcome = table.map_to(page, frame, 0, &mut allocator);
    assert!(outcome == Err(PagingError::OutOfFrames));
    assert!(table.translate(0x5000_0000) == None);
}

#[test]
fn kernel_bounds_span_resident_sections() {
    let layout = test_layout();
    assert!(kernel_bounds(&layout.sections) == Some((0x100000, 0x105000)));
    let none: Vec<KernelSection> = Vec::new();
    assert!(kernel_bounds(&none) == None);
}

#[test]
fn frame_iteration_covers_range() {
    let mut iter = Frame::range_inclusive(
        Frame::containing_address(0x1000),
        Frame::containing_address(0x3000),
    );
    assert!(iter.next() == Some(Frame::containing_address(0x1000)));
    assert!(iter.next() == Some(Frame::containing_address(0x2000)));
    assert!(iter.next() == Some(Frame::containing_address(0x3000)));
    assert!(iter.next() == None);
}

#[test]
fn page_indices_decompose() {
    let page = Page::containing_address(0o056_123_741_334_0000);
    assert!(page.p4_index() == 0o056);
    assert!(page.p3_index() == 0o123);
    assert!(page.p2_index() == 0o741);
    assert!(page.p1_index() == 0o334);
    let mut iter = Page::range_inclusive(
        Page::containing_address(0x4000),
        Page::containing_address(0x5000),
    );
    assert!(iter.next() == Some(Page::containing_address(0x4000)));
    assert!(iter.next() == Some(Page::containing_address(0x5000)));
    assert!(iter.next() == None);
}
