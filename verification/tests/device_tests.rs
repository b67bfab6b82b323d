//! Tests of the peripheral helpers: processor identification, keyboard
//! translation, interrupt packing, table signatures, the text screen, and
//! the allocators.

use oskern::acpi::find_type;
use oskern::acpi::sdt_loc_new;
use oskern::acpi::ACPISDTHeader;
use oskern::acpi::SDTtype;
use oskern::bump_allocator::align_down;
use oskern::bump_allocator::align_up;
use oskern::bump_allocator::BumpAllocator;
use oskern::cpuid::features::Features;
use oskern::cpuid::CPUID;
use oskern::io::data_to_ascii;
use oskern::io::shifted_ascii;
use oskern::io::gen_irq;
use oskern::memory::area_frame_allocator::AreaFrameAllocator;
use oskern::memory::area_frame_allocator::MemoryArea;
use oskern::memory::Frame;
use oskern::memory::FrameAllocator;
use oskern::vga_buffer::Color;
use oskern::vga_buffer::ColorCode;
use oskern::vga_buffer::Writer;

#[test]
fn feature_bits_decode() {
    // bit 31 of the first basic register: hypervisor present
    let f = Features::new(0x8000_0000, 0, 0, 0, 0, 0);
    assert!(f.hv());
    assert!(!f.rdrand());
    // bit 25 of the second basic register: streaming extensions
    let f = Features::new(0, 1 << 25, 0, 0, 0, 0);
    assert!(f.sse());
    assert!(!f.sse2());
    // bit 2 of the first secondary register comes from the secondary
    // arguments, not the basic ones
    let f = Features::new(0, 0, 1 << 2, 1 << 30, 0, 0);
    assert!(f.sgx());
    assert!(f.sgx_lc());
    assert!(!f.hv());
    // bit 29 of the second extended register: long mode
    let f = Features::new(0, 0, 0, 0, 0, 1 << 29);
    assert!(f.lm());
    assert!(!f.tscp());
}

#[test]
fn cpuid_limits_and_decode() {
    let id = CPUID::new(13, 0, 1, 0x8000_0008, 0, 0);
    assert!(id.basic_available());
    assert!(!id.xenon_phi_available());
    assert!(id.hypervisor_available());
    assert!(id.ext_available());
    assert!(!id.transmeta_available());
    assert!(!id.centaur_available());
    // family-model-stepping word: family 6, model 0x9e, stepping 10
    let a = 0x000906ea;
    let b = 0x00100800;
    let model = id.cpu_info((a, b)).unwrap();
    assert!(model.stepping == 0xa);
    assert!(model.family == 6);
    assert!(model.cpu_cnt == 0x10);
    assert!(model.clflush == 8);
    // with no basic options available, nothing is decoded
    let bare = CPUID::new(0, 0, 0, 0, 0, 0);
    assert!(bare.cpu_info((a, b)) == None);
}

#[test]
fn feature_queries_respect_limits() {
    // basic limit 13 admits both basic leaves; the extended limit admits
    // the extended flags leaf
    let id = CPUID::new(13, 0, 0, 0x8000_0008, 0, 0);
    let f = id.features((1, 2), (3, 4), (5, 6));
    assert!(f.hv() == false);
    assert!(f.sse3());  // basic first register, bit 0
    // a basic limit below the secondary leaf drops only the secondary pair
    let id = CPUID::new(1, 0, 0, 0x8000_0008, 0, 0);
    let f = id.features((1 << 30, 0), (1 << 2, 0), (0, 1 << 29));
    assert!(!f.sgx());
    assert!(f.lm());
    // an extended limit below the extended flags leaf drops the pair
    let id = CPUID::new(13, 0, 0, 0x8000_0000, 0, 0);
    let f = id.features((0, 0), (0, 0), (0, 1 << 29));
    assert!(!f.lm());
}

#[test]
fn keyboard_translation() {
    assert!(data_to_ascii(0x10) == b'Q');
    assert!(data_to_ascii(0x32) == b'M');
    assert!(data_to_ascii(0x0b) == b'0');
    assert!(data_to_ascii(0x02) == b'1');
    assert!(data_to_ascii(0x1c) == b'\n');
    assert!(data_to_ascii(0x39) == b' ');
    assert!(data_to_ascii(0x0e) == 0x08);
    assert!(data_to_ascii(0xc8) == 0x82);
    assert!(data_to_ascii(0xd0) == 0x83);
    // a released letter key yields nothing
    assert!(data_to_ascii(0x90) == 0x00);
}

#[test]
fn shift_state_changes_case() {
    assert!(shifted_ascii(0x10, true) == b'Q');
    assert!(shifted_ascii(0x10, false) == b'q');
    // digits and control values are unaffected by shift
    assert!(shifted_ascii(0x02, false) == b'1');
    assert!(shifted_ascii(0x1c, false) == b'\n');
}

#[test]
fn irq_entry_packing() {
    let (hi, lo) = gen_irq(0x3, 1, 1, 0, 1, 0b101, 0x21);
    assert!(hi == 0x3 << 24);
    assert!(lo == (1 << 16) | (1 << 13) | (1 << 11) | (0b101 << 8) | 0x21);
}

fn header_with_signature(sig: [u8; 4]) -> ACPISDTHeader {
    ACPISDTHeader {
        signature: sig,
        length: 40,
        revision: 1,
        checksum: 0,
        oemid: [0; 6],
        oem_table_id: [0; 8],
        oem_rev: 0,
        creator_id: 0,
        creator_rev: 0,
    }
}

#[test]
fn table_signatures() {
    assert!(find_type(&header_with_signature(*b"RSDT")) == Some(SDTtype::RSDT));
    assert!(find_type(&header_with_signature(*b"APIC")) == Some(SDTtype::MADT));
    assert!(find_type(&header_with_signature(*b"FACP")) == None);
}

#[test]
fn sdt_bookkeeping() {
    let mut loc = sdt_loc_new();
    assert!(loc.cur_start == 0 && loc.cur_end == 0);
    assert!(loc.lapic_ctrl == 0 && loc.ioapic_start == 0 && loc.ioapic_end == 0);
    loc.sdt_loc_load(0x7fe_0000, 100);
    assert!(loc.cur_start == 0x7fe_0000);
    assert!(loc.cur_end == 0x7fe_0064);
    assert!(loc.rsdt_next == 0x7fe_0024);
    assert!(loc.rsdt_end == 0x7fe_0064);
}

#[test]
fn screen_writes_and_scrolls() {
    let color = ColorCode::new(Color::White, Color::Black);
    let mut writer = Writer::new(color);
    writer.write_byte(b'H');
    writer.write_byte(b'i');
    writer.write_str(", there");
    // a newline moves the text up: nothing observable through the public
    // surface beyond not panicking, so fill a whole row and wrap
    writer.write_byte(b'\n');
    for _ in 0..85 {
        writer.write_byte(b'x');
    }
    let _ = writer.write_str("end\n");
}

#[test]
fn color_codes_pack() {
    let code = ColorCode::new(Color::Yellow, Color::Blue);
    let again = ColorCode::new(Color::Yellow, Color::Blue);
    assert!(code == again);
    assert!(code != ColorCode::new(Color::Blue, Color::Yellow));
}

#[test]
fn alignment_helpers() {
    assert!(align_down(0x1234, 0x1000) == 0x1000);
    assert!(align_down(0x1000, 0x1000) == 0x1000);
    assert!(align_down(0x1234, 0) == 0x1234);
    assert!(align_up(0x1234, 0x1000) == 0x2000);
    assert!(align_up(0x1000, 0x1000) == 0x1000);
    assert!(align_up(7, 8) == 8);
}

#[test]
fn bump_allocation_moves_forward() {
    let mut bump = BumpAllocator::new(0x4000_0000, 100 * 1024);
    let a = bump.allocate(10, 8).unwrap();
    assert!(a == 0x4000_0000);
    let b = bump.allocate(100, 16).unwrap();
    assert!(b == 0x4000_0010);
    assert!(b % 16 == 0);
    // exhaustion: nothing is handed out past the heap end
    assert!(bump.allocate(200 * 1024, 8) == None);
}

#[test]
fn area_allocation_skips_reserved_ranges() {
    // one area of six frames; the middle two are the kernel and the boot
    // block, so allocation skips them
    let areas = vec![MemoryArea { base_addr: 0x10000, length: 0x6000 }];
    let mut alloc = AreaFrameAllocator::new(0x12000, 0x12fff, 0x13000, 0x13fff, areas);
    assert!(alloc.allocate_frame() == Some(Frame::containing_address(0x10000)));
    assert!(alloc.allocate_frame() == Some(Frame::containing_address(0x11000)));
    assert!(alloc.allocate_frame() == Some(Frame::containing_address(0x14000)));
    assert!(alloc.allocate_frame() == Some(Frame::containing_address(0x15000)));
    assert!(alloc.allocate_frame() == None);
}
