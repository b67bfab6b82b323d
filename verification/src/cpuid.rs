//! Decoding of processor-identification data.
//!
//! A [`CPUID`] value remembers the highest option each query level offers;
//! the raw registers of the hardware queries themselves are handed in as
//! plain values and decoded here into the model record and the feature set.

use vstd::prelude::*;

pub mod features;

use self::features::Features;

verus! {

/// Query option of the family-model-stepping and basic flag registers.
pub const BASIC_FMS_FLAGS: u32 = 0x1;

/// Query option of the secondary basic flag registers.
pub const BASIC_FLAGS: u32 = 0x7;

/// Query option of the extended flag registers.
pub const EXT_FMS_FLAGS: u32 = 0x8000_0001;

/// Processor type, family, model and stepping, decoded from the
/// family-model-stepping query registers.
#[derive(Debug, Clone, Copy, PartialEq, Eq, Structural)]
pub struct CPUModel {
    /// Processor type, two bits.
    pub cpu_type: u8,
    /// Processor family, base plus extended.
    pub family: u8,
    /// Processor model, extended high half and base low half.
    pub model: u16,
    /// Brand index.
    pub brand: u8,
    /// Stepping value.
    pub stepping: u8,
    /// Logical processor count field.
    pub cpu_cnt: u8,
    /// Default interrupt-controller identifier.
    pub apic_id: u8,
    /// Cache-line flush chunk count.
    pub clflush: u8,
}

/// Highest available option for each query level of the processor.
pub struct CPUID {
    basic_limit: u32,
    xenon_phi_limit: u32,
    hypervisor_limit: u32,
    ext_limit: u32,
    transmeta_limit: u32,
    centaur_limit: u32,
}

impl CPUID {
    /// The six recorded limits, in declaration order.
    pub closed spec fn limits_spec(self) -> (u32, u32, u32, u32, u32, u32) {
        (
            self.basic_limit,
            self.xenon_phi_limit,
            self.hypervisor_limit,
            self.ext_limit,
            self.transmeta_limit,
            self.centaur_limit,
        )
    }

    /// Record the limits that the hardware queries reported.
    pub fn new(
        basic_limit: u32,
        xenon_phi_limit: u32,
        hypervisor_limit: u32,
        ext_limit: u32,
        transmeta_limit: u32,
        centaur_limit: u32,
    ) -> (r: CPUID)
        ensures
            r.limits_spec() == (
                basic_limit,
                xenon_phi_limit,
                hypervisor_limit,
                ext_limit,
                transmeta_limit,
                centaur_limit,
            ),
    {
        CPUID {
            basic_limit,
            xenon_phi_limit,
            hypervisor_limit,
            ext_limit,
            transmeta_limit,
            centaur_limit,
        }
    }

    /// Are basic options available?
    pub fn basic_available(&self) -> (r: bool)
        ensures
            r == (self.limits_spec().0 > 0),
    {
        self.basic_limit > 0
    }

    /// Are coprocessor options available?
    pub fn xenon_phi_available(&self) -> (r: bool)
        ensures
            r == (self.limits_spec().1 > 0),
    {
        self.xenon_phi_limit > 0
    }

    /// Are hypervisor options available?
    pub fn hypervisor_available(&self) -> (r: bool)
        ensures
            r == (self.limits_spec().2 > 0),
    {
        self.hypervisor_limit > 0
    }

    /// Are extended options available?
    pub fn ext_available(&self) -> (r: bool)
        ensures
            r == (self.limits_spec().3 > 0),
    {
        self.ext_limit > 0
    }

    /// Are the first vendor-specific options available?
    pub fn transmeta_available(&self) -> (r: bool)
        ensures
            r == (self.limits_spec().4 > 0),
    {
        self.transmeta_limit > 0
    }

    /// Are the second vendor-specific options available?
    pub fn centaur_available(&self) -> (r: bool)
        ensures
            r == (self.limits_spec().5 > 0),
    {
        self.centaur_limit > 0
    }

    /// Decode family, model and stepping from the first two registers of
    /// the family-model-stepping query.  Nothing is decoded when that query
    /// option exceeds the recorded basic limit.
    pub fn cpu_info(&self, regs: (u32, u32)) -> (r: Option<CPUModel>)
        ensures
            BASIC_FMS_FLAGS <= self.limits_spec().0 ==> (r matches Some(m) && {
                let (a, b) = regs;
                &&& m.cpu_type == ((a >> 12) & 0xf) as u8
                &&& m.family == (((a >> 8) & 0xff) + ((a >> 20) & 0xff)) as u8
                &&& m.model == (((a >> 12) & 0xff0) | ((a >> 4) & 0xff)) as u16
                &&& m.brand == (b & 0xff) as u8
                &&& m.stepping == (a & 0xf) as u8
                &&& m.cpu_cnt == ((b >> 16) & 0xff) as u8
                &&& m.apic_id == ((b >> 24) & 0xff) as u8
                &&& m.clflush == ((b >> 8) & 0xff) as u8
            }),
            BASIC_FMS_FLAGS > self.limits_spec().0 ==> r is None,
    {
        if BASIC_FMS_FLAGS > self.basic_limit {
            return None;
        }
        let (a, b) = regs;
        proof {
            assert((a >> 8) & 0xff <= 0xff && (a >> 20) & 0xff <= 0xff) by (bit_vector);
        }
        Some(
            CPUModel {
                cpu_type: ((a >> 12) & 0xf) as u8,
                family: (((a >> 8) & 0xff) + ((a >> 20) & 0xff)) as u8,
                model: (((a >> 12) & 0xff0) | ((a >> 4) & 0xff)) as u16,
                brand: (b & 0xff) as u8,
                stepping: (a & 0xf) as u8,
                cpu_cnt: ((b >> 16) & 0xff) as u8,
                apic_id: ((b >> 24) & 0xff) as u8,
                clflush: ((b >> 8) & 0xff) as u8,
            },
        )
    }

    /// Build the feature record from the flag registers of the three
    /// feature queries.  Each pair counts only when its query option is
    /// within the level's recorded limit; beyond the limit the level
    /// contributes zero flags.
    pub fn features(&self, basic: (u32, u32), basic2: (u32, u32), ext: (u32, u32)) -> (r: Features)
        ensures
            r.basic_spec() == (if BASIC_FMS_FLAGS <= self.limits_spec().0 {
                basic
            } else {
                (0u32, 0u32)
            }),
            r.basic2_spec() == (if BASIC_FLAGS <= self.limits_spec().0 {
                basic2
            } else {
                (0u32, 0u32)
            }),
            r.ext_spec() == (if EXT_FMS_FLAGS <= self.limits_spec().3 {
                ext
            } else {
                (0u32, 0u32)
            }),
    {
        let (basic_ecx, basic_edx) = if BASIC_FMS_FLAGS <= self.basic_limit {
            basic
        } else {
            (0, 0)
        };
        let (basic2_ecx, basic2_edx) = if BASIC_FLAGS <= self.basic_limit {
            basic2
        } else {
            (0, 0)
        };
        let (ext_ecx, ext_edx) = if EXT_FMS_FLAGS <= self.ext_limit {
            ext
        } else {
            (0, 0)
        };
        Features::new(basic_ecx, basic_edx, basic2_ecx, basic2_edx, ext_ecx, ext_edx)
    }
}

} // verus!
