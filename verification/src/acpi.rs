//! Platform-discovery table bookkeeping.
//!
//! The system descriptor tables live in firmware-owned memory; what this
//! module holds of them are plain values: the fixed header layout, the two
//! table kinds of interest, and the address bookkeeping that walking the
//! root table produces.  Reading the tables out of raw memory is the
//! surrounding program's business.

use vstd::prelude::*;

verus! {

/// The fixed system-descriptor-table header, 36 bytes of plain fields.
pub struct ACPISDTHeader {
    /// Four-character table kind signature.
    pub signature: [u8; 4],
    /// Length of the whole table, header included.
    pub length: u32,
    /// Table revision.
    pub revision: u8,
    /// Whole-table checksum byte.
    pub checksum: u8,
    /// Vendor identifier.
    pub oemid: [u8; 6],
    /// Vendor table identifier.
    pub oem_table_id: [u8; 8],
    /// Vendor revision.
    pub oem_rev: u32,
    /// Creator identifier.
    pub creator_id: u32,
    /// Creator revision.
    pub creator_rev: u32,
}

/// Size in bytes of [`ACPISDTHeader`] in firmware memory.
pub const SDT_HEADER_SIZE: u64 = 36;

/// The table kinds this crate recognises.
#[derive(Debug, PartialEq, Eq, Structural, Clone, Copy)]
pub enum SDTtype {
    /// The root table, holding pointers to all the others.
    RSDT,
    /// The interrupt-controller description table.
    MADT,
}

/// The root system description table: a header followed by the first of an
/// array of 32-bit pointers to the other tables.
pub struct RSDT {
    /// The table header.
    pub header: ACPISDTHeader,
    /// The first pointer of the array; the array's byte length is the
    /// header length minus the header size.
    pub first_ptr: u32,
}

/// The interrupt-controller description table.
pub struct MADT {
    /// The table header.
    pub header: ACPISDTHeader,
    /// Local controller address.
    pub local_ctrl: u32,
    /// Controller flags.
    pub flags: u32,
    /// First byte of the variable-length controller records.
    pub first_intctr: u8,
}

/// Which table kind a header announces, by its four-character signature.
pub fn find_type(header: &ACPISDTHeader) -> (r: Option<SDTtype>)
    ensures
        (header.signature@ =~= seq![0x52u8, 0x53u8, 0x44u8, 0x54u8]) ==> r == Some(SDTtype::RSDT),
        (header.signature@ =~= seq![0x41u8, 0x50u8, 0x49u8, 0x43u8]) ==> r == Some(SDTtype::MADT),
        !(header.signature@ =~= seq![0x52u8, 0x53u8, 0x44u8, 0x54u8]) && !(header.signature@ =~= seq![
            0x41u8,
            0x50u8,
            0x49u8,
            0x43u8,
        ]) ==> r is None,
{
    let s = &header.signature;
    if s[0] == 0x52 && s[1] == 0x53 && s[2] == 0x44 && s[3] == 0x54 {
        proof {
            assert(header.signature@ =~= seq![0x52u8, 0x53u8, 0x44u8, 0x54u8]);
        }
        Some(SDTtype::RSDT)
    } else if s[0] == 0x41 && s[1] == 0x50 && s[2] == 0x49 && s[3] == 0x43 {
        proof {
            assert(header.signature@ =~= seq![0x41u8, 0x50u8, 0x49u8, 0x43u8]);
        }
        Some(SDTtype::MADT)
    } else {
        None
    }
}

/// Universal header of one interrupt-controller record.
pub struct IntCtrlHeaderEntry {
    /// Kind of interrupt controller the record describes.
    pub entry_type: u8,
    /// Byte length of the record.
    pub record_length: u8,
}

/// A single processor with its local interrupt controller.
pub struct LAPICEntry {
    /// Universal record header.
    pub header: IntCtrlHeaderEntry,
    /// Processor identifier.
    pub acpi_proc_id: u8,
    /// Local controller identifier.
    pub apic_id: u8,
    /// Enabled when the lowest bit is set.
    pub flags: u32,
}

/// An input/output interrupt controller.
pub struct IOAPICEntry {
    /// Universal record header.
    pub header: IntCtrlHeaderEntry,
    /// Controller identifier.
    pub id: u8,
    /// Always zero.
    pub reserved: u8,
    /// Controller address.
    pub address: u32,
    /// First global system interrupt the controller handles.
    pub gsib: u32,
}

/// An input/output interrupt controller with a wide interrupt base.
pub struct IOSAPICEntry {
    /// Universal record header.
    pub header: IntCtrlHeaderEntry,
    /// Controller identifier.
    pub id: u8,
    /// Always zero.
    pub reserved: u8,
    /// Controller address.
    pub address: u32,
    /// First global system interrupt the controller handles.
    pub gsib: u64,
}

/// An interrupt source override record.
pub struct ISOEntry {
    /// Universal record header.
    pub header: IntCtrlHeaderEntry,
    /// Bus the interrupt comes from.
    pub bus_source: u8,
    /// Interrupt line on that bus.
    pub irq_source: u8,
    /// Global system interrupt it maps to.
    pub global_sys_int: u32,
    /// Override flags.
    pub flags: u16,
}

/// The root-table pointer descriptor that firmware leaves in low memory.
pub struct RSDPdesc {
    /// Fixed eight-character signature.
    pub signature: [u8; 8],
    /// Makes the byte sum of the descriptor zero.
    pub checksum: u8,
    /// Vendor identifier.
    pub oemid: [u8; 6],
    /// Firmware interface revision.
    pub revision: u8,
    /// Address of the root table.
    pub rsdt_addr: u32,
}

/// Address bookkeeping for walking the root table: the span of the table
/// being looked at, the position in the root table's pointer array, and the
/// special addresses found along the way.
#[allow(non_camel_case_types)]
pub struct SDT_Loc {
    /// Start of the table currently looked at.
    pub cur_start: u64,
    /// End of the table currently looked at.
    pub cur_end: u64,
    /// Position in the root table's pointer array.
    pub rsdt_next: u64,
    /// End of the root table's pointer array.
    pub rsdt_end: u64,
    /// Interrupt-controller control block address.
    pub lapic_ctrl: u64,
    /// Start of the interrupt-controller I/O range.
    pub ioapic_start: u64,
    /// End of the interrupt-controller I/O range.
    pub ioapic_end: u64,
}

/// Empty bookkeeping: every address zero.
pub fn sdt_loc_new() -> (r: SDT_Loc)
    ensures
        r.cur_start == 0,
        r.cur_end == 0,
        r.rsdt_next == 0,
        r.rsdt_end == 0,
        r.lapic_ctrl == 0,
        r.ioapic_start == 0,
        r.ioapic_end == 0,
{
    SDT_Loc {
        cur_start: 0,
        cur_end: 0,
        rsdt_next: 0,
        rsdt_end: 0,
        lapic_ctrl: 0,
        ioapic_start: 0,
        ioapic_end: 0,
    }
}

impl SDT_Loc {
    /// Point the bookkeeping at a root table: the current span covers the
    /// whole table, the array position stands on the first pointer just
    /// past the header, and the special addresses are cleared.
    pub fn sdt_loc_load(&mut self, rsdt_addr: u64, rsdt_length: u32)
        requires
            rsdt_addr + rsdt_length <= u64::MAX,
            rsdt_length >= SDT_HEADER_SIZE,
        ensures
            final(self).cur_start == rsdt_addr,
            final(self).cur_end == rsdt_addr + rsdt_length,
            final(self).rsdt_next == rsdt_addr + SDT_HEADER_SIZE,
            final(self).rsdt_end == rsdt_addr + rsdt_length,
            final(self).lapic_ctrl == 0,
            final(self).ioapic_start == 0,
            final(self).ioapic_end == 0,
    {
        self.cur_start = rsdt_addr;
        self.cur_end = rsdt_addr + rsdt_length as u64;
        self.rsdt_next = rsdt_addr + SDT_HEADER_SIZE;
        self.rsdt_end = rsdt_addr + rsdt_length as u64;
        self.lapic_ctrl = 0;
        self.ioapic_start = 0;
        self.ioapic_end = 0;
    }
}

} // verus!
