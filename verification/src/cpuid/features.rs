//! CPU feature flags, decoded from the feature-information registers.
//!
//! A [`Features`] value holds the raw flag registers of the basic, extended
//! basic and extended feature-information queries; each accessor tests one
//! documented bit.

use vstd::prelude::*;

verus! {

/// The raw feature flag registers: for each query level, the pair of the
/// first and second flag register.
pub struct Features {
    basic: (u32, u32),
    basic2: (u32, u32),
    ext: (u32, u32),
}

impl Features {
    /// Raw basic feature flags.
    pub closed spec fn basic_spec(self) -> (u32, u32) {
        self.basic
    }

    /// Raw secondary basic feature flags.
    pub closed spec fn basic2_spec(self) -> (u32, u32) {
        self.basic2
    }

    /// Raw extended feature flags.
    pub closed spec fn ext_spec(self) -> (u32, u32) {
        self.ext
    }

    /// Bundle raw flag registers into a feature record, one pair per query
    /// level.
    pub fn new(
        basic_ecx: u32,
        basic_edx: u32,
        basic2_ecx: u32,
        basic2_edx: u32,
        ext_ecx: u32,
        ext_edx: u32,
    ) -> (r: Features)
        ensures
            r.basic_spec() == (basic_ecx, basic_edx),
            r.basic2_spec() == (basic2_ecx, basic2_edx),
            r.ext_spec() == (ext_ecx, ext_edx),
    {
        Features {
            basic: (basic_ecx, basic_edx),
            basic2: (basic2_ecx, basic2_edx),
            ext: (ext_ecx, ext_edx),
        }
    }

    /// Bit 31 of the basic register pair's first half.
    pub fn hv(&self) -> (r: bool)
        ensures
            r == ((self.basic_spec().0 & 0x80000000) > 0),
    {
        (self.basic.0 & 0x80000000) > 0
    }

    /// Bit 30 of the basic register pair's first half.
    pub fn rdrand(&self) -> (r: bool)
        ensures
            r == ((self.basic_spec().0 & 0x40000000) > 0),
    {
        (self.basic.0 & 0x40000000) > 0
    }

    /// Bit 29 of the basic register pair's first half.
    pub fn f16c(&self) -> (r: bool)
        ensures
            r == ((self.basic_spec().0 & 0x20000000) > 0),
    {
        (self.basic.0 & 0x20000000) > 0
    }

    /// Bit 28 of the basic register pair's first half.
    pub fn avx(&self) -> (r: bool)
        ensures
            r == ((self.basic_spec().0 & 0x10000000) > 0),
    {
        (self.basic.0 & 0x10000000) > 0
    }

    /// Bit 27 of the basic register pair's first half.
    pub fn osxsave(&self) -> (r: bool)
        ensures
            r == ((self.basic_spec().0 & 0x8000000) > 0),
    {
        (self.basic.0 & 0x8000000) > 0
    }

    /// Bit 26 of the basic register pair's first half.
    pub fn xsave(&self) -> (r: bool)
        ensures
            r == ((self.basic_spec().0 & 0x4000000) > 0),
    {
        (self.basic.0 & 0x4000000) > 0
    }

    /// Bit 25 of the basic register pair's first half.
    pub fn aes(&self) -> (r: bool)
        ensures
            r == ((self.basic_spec().0 & 0x2000000) > 0),
    {
        (self.basic.0 & 0x2000000) > 0
    }

    /// Bit 24 of the basic register pair's first half.
    pub fn tscd(&self) -> (r: bool)
        ensures
            r == ((self.basic_spec().0 & 0x1000000) > 0),
    {
        (self.basic.0 & 0x1000000) > 0
    }

    /// Bit 23 of the basic register pair's first half.
    pub fn popcnt(&self) -> (r: bool)
        ensures
            r == ((self.basic_spec().0 & 0x800000) > 0),
    {
        (self.basic.0 & 0x800000) > 0
    }

    /// Bit 22 of the basic register pair's first half.
    pub fn movbe(&self) -> (r: bool)
        ensures
            r == ((self.basic_spec().0 & 0x400000) > 0),
    {
        (self.basic.0 & 0x400000) > 0
    }

    /// Bit 21 of the basic register pair's first half.
    pub fn x2apic(&self) -> (r: bool)
        ensures
            r == ((self.basic_spec().0 & 0x200000) > 0),
    {
        (self.basic.0 & 0x200000) > 0
    }

    /// Bit 20 of the basic register pair's first half.
    pub fn sse4_2(&self) -> (r: bool)
        ensures
            r == ((self.basic_spec().0 & 0x100000) > 0),
    {
        (self.basic.0 & 0x100000) > 0
    }

    /// Bit 19 of the basic register pair's first half.
    pub fn sse4_1(&self) -> (r: bool)
        ensures
            r == ((self.basic_spec().0 & 0x80000) > 0),
    {
        (self.basic.0 & 0x80000) > 0
    }

    /// Bit 18 of the basic register pair's first half.
    pub fn dca(&self) -> (r: bool)
        ensures
            r == ((self.basic_spec().0 & 0x40000) > 0),
    {
        (self.basic.0 & 0x40000) > 0
    }

    /// Bit 17 of the basic register pair's first half.
    pub fn pcid(&self) -> (r: bool)
        ensures
            r == ((self.basic_spec().0 & 0x20000) > 0),
    {
        (self.basic.0 & 0x20000) > 0
    }

    /// Bit 15 of the basic register pair's first half.
    pub fn pdcm(&self) -> (r: bool)
        ensures
            r == ((self.basic_spec().0 & 0x8000) > 0),
    {
        (self.basic.0 & 0x8000) > 0
    }

    /// Bit 14 of the basic register pair's first half.
    pub fn etprd(&self) -> (r: bool)
        ensures
            r == ((self.basic_spec().0 & 0x4000) > 0),
    {
        (self.basic.0 & 0x4000) > 0
    }

    /// Bit 13 of the basic register pair's first half.
    pub fn cx16(&self) -> (r: bool)
        ensures
            r == ((self.basic_spec().0 & 0x2000) > 0),
    {
        (self.basic.0 & 0x2000) > 0
    }

    /// Bit 12 of the basic register pair's first half.
    pub fn fma(&self) -> (r: bool)
        ensures
            r == ((self.basic_spec().0 & 0x1000) > 0),
    {
        (self.basic.0 & 0x1000) > 0
    }

    /// Bit 11 of the basic register pair's first half.
    pub fn sdbg(&self) -> (r: bool)
        ensures
            r == ((self.basic_spec().0 & 0x800) > 0),
    {
        (self.basic.0 & 0x800) > 0
    }

    /// Bit 10 of the basic register pair's first half.
    pub fn cid(&self) -> (r: bool)
        ensures
            r == ((self.basic_spec().0 & 0x400) > 0),
    {
        (self.basic.0 & 0x400) > 0
    }

    /// Bit 9 of the basic register pair's first half.
    pub fn ssse3(&self) -> (r: bool)
        ensures
            r == ((self.basic_spec().0 & 0x200) > 0),
    {
        (self.basic.0 & 0x200) > 0
    }

    /// Bit 8 of the basic register pair's first half.
    pub fn tm2(&self) -> (r: bool)
        ensures
            r == ((self.basic_spec().0 & 0x100) > 0),
    {
        (self.basic.0 & 0x100) > 0
    }

    /// Bit 7 of the basic register pair's first half.
    pub fn est(&self) -> (r: bool)
        ensures
            r == ((self.basic_spec().0 & 0x80) > 0),
    {
        (self.basic.0 & 0x80) > 0
    }

    /// Bit 6 of the basic register pair's first half.
    pub fn smx(&self) -> (r: bool)
        ensures
            r == ((self.basic_spec().0 & 0x40) > 0),
    {
        (self.basic.0 & 0x40) > 0
    }

    /// Bit 5 of the basic register pair's first half.
    pub fn vmx(&self) -> (r: bool)
        ensures
            r == ((self.basic_spec().0 & 0x20) > 0),
    {
        (self.basic.0 & 0x20) > 0
    }

    /// Bit 4 of the basic register pair's first half.
    pub fn dscpl(&self) -> (r: bool)
        ensures
            r == ((self.basic_spec().0 & 0x10) > 0),
    {
        (self.basic.0 & 0x10) > 0
    }

    /// Bit 3 of the basic register pair's first half.
    pub fn mon(&self) -> (r: bool)
        ensures
            r == ((self.basic_spec().0 & 0x8) > 0),
    {
        (self.basic.0 & 0x8) > 0
    }

    /// Bit 2 of the basic register pair's first half.
    pub fn dtes64(&self) -> (r: bool)
        ensures
            r == ((self.basic_spec().0 & 0x4) > 0),
    {
        (self.basic.0 & 0x4) > 0
    }

    /// Bit 1 of the basic register pair's first half.
    pub fn pclmul(&self) -> (r: bool)
        ensures
            r == ((self.basic_spec().0 & 0x2) > 0),
    {
        (self.basic.0 & 0x2) > 0
    }

    /// Bit 0 of the basic register pair's first half.
    pub fn sse3(&self) -> (r: bool)
        ensures
            r == ((self.basic_spec().0 & 0x1) > 0),
    {
        (self.basic.0 & 0x1) > 0
    }

    /// Bit 31 of the basic register pair's second half.
    pub fn pbe(&self) -> (r: bool)
        ensures
            r == ((self.basic_spec().1 & 0x80000000) > 0),
    {
        (self.basic.1 & 0x80000000) > 0
    }

    /// Bit 30 of the basic register pair's second half.
    pub fn ia64(&self) -> (r: bool)
        ensures
            r == ((self.basic_spec().1 & 0x40000000) > 0),
    {
        (self.basic.1 & 0x40000000) > 0
    }

    /// Bit 29 of the basic register pair's second half.
    pub fn tm1(&self) -> (r: bool)
        ensures
            r == ((self.basic_spec().1 & 0x20000000) > 0),
    {
        (self.basic.1 & 0x20000000) > 0
    }

    /// Bit 28 of the basic register pair's second half.
    pub fn htt(&self) -> (r: bool)
        ensures
            r == ((self.basic_spec().1 & 0x10000000) > 0),
    {
        (self.basic.1 & 0x10000000) > 0
    }

    /// Bit 27 of the basic register pair's second half.
    pub fn ss(&self) -> (r: bool)
        ensures
            r == ((self.basic_spec().1 & 0x8000000) > 0),
    {
        (self.basic.1 & 0x8000000) > 0
    }

    /// Bit 26 of the basic register pair's second half.
    pub fn sse2(&self) -> (r: bool)
        ensures
            r == ((self.basic_spec().1 & 0x4000000) > 0),
    {
        (self.basic.1 & 0x4000000) > 0
    }

    /// Bit 25 of the basic register pair's second half.
    pub fn sse(&self) -> (r: bool)
        ensures
            r == ((self.basic_spec().1 & 0x2000000) > 0),
    {
        (self.basic.1 & 0x2000000) > 0
    }

    /// Bit 24 of the basic register pair's second half.
    pub fn fxsr(&self) -> (r: bool)
        ensures
            r == ((self.basic_spec().1 & 0x1000000) > 0),
    {
        (self.basic.1 & 0x1000000) > 0
    }

    /// Bit 22 of the basic register pair's second half.
    pub fn acpi(&self) -> (r: bool)
        ensures
            r == ((self.basic_spec().1 & 0x400000) > 0),
    {
        (self.basic.1 & 0x400000) > 0
    }

    /// Bit 21 of the basic register pair's second half.
    pub fn dtes(&self) -> (r: bool)
        ensures
            r == ((self.basic_spec().1 & 0x200000) > 0),
    {
        (self.basic.1 & 0x200000) > 0
    }

    /// Bit 19 of the basic register pair's second half.
    pub fn clfl(&self) -> (r: bool)
        ensures
            r == ((self.basic_spec().1 & 0x80000) > 0),
    {
        (self.basic.1 & 0x80000) > 0
    }

    /// Bit 18 of the basic register pair's second half.
    pub fn psn(&self) -> (r: bool)
        ensures
            r == ((self.basic_spec().1 & 0x40000) > 0),
    {
        (self.basic.1 & 0x40000) > 0
    }

    /// Bit 16 of the basic register pair's second half.
    pub fn pat(&self) -> (r: bool)
        ensures
            r == ((self.basic_spec().1 & 0x10000) > 0),
    {
        (self.basic.1 & 0x10000) > 0
    }

    /// Bit 11 of the basic register pair's second half.
    pub fn sep(&self) -> (r: bool)
        ensures
            r == ((self.basic_spec().1 & 0x800) > 0),
    {
        (self.basic.1 & 0x800) > 0
    }

    /// Bit 31 of the basic2 register pair's first half.
    pub fn avx512vl(&self) -> (r: bool)
        ensures
            r == ((self.basic2_spec().0 & 0x80000000) > 0),
    {
        (self.basic2.0 & 0x80000000) > 0
    }

    /// Bit 30 of the basic2 register pair's first half.
    pub fn avx512nw(&self) -> (r: bool)
        ensures
            r == ((self.basic2_spec().0 & 0x40000000) > 0),
    {
        (self.basic2.0 & 0x40000000) > 0
    }

    /// Bit 29 of the basic2 register pair's first half.
    pub fn sha(&self) -> (r: bool)
        ensures
            r == ((self.basic2_spec().0 & 0x20000000) > 0),
    {
        (self.basic2.0 & 0x20000000) > 0
    }

    /// Bit 28 of the basic2 register pair's first half.
    pub fn avx512cd(&self) -> (r: bool)
        ensures
            r == ((self.basic2_spec().0 & 0x10000000) > 0),
    {
        (self.basic2.0 & 0x10000000) > 0
    }

    /// Bit 27 of the basic2 register pair's first half.
    pub fn avx512er(&self) -> (r: bool)
        ensures
            r == ((self.basic2_spec().0 & 0x8000000) > 0),
    {
        (self.basic2.0 & 0x8000000) > 0
    }

    /// Bit 26 of the basic2 register pair's first half.
    pub fn avx512pf(&self) -> (r: bool)
        ensures
            r == ((self.basic2_spec().0 & 0x4000000) > 0),
    {
        (self.basic2.0 & 0x4000000) > 0
    }

    /// Bit 25 of the basic2 register pair's first half.
    pub fn pt(&self) -> (r: bool)
        ensures
            r == ((self.basic2_spec().0 & 0x2000000) > 0),
    {
        (self.basic2.0 & 0x2000000) > 0
    }

    /// Bit 24 of the basic2 register pair's first half.
    pub fn clwb(&self) -> (r: bool)
        ensures
            r == ((self.basic2_spec().0 & 0x1000000) > 0),
    {
        (self.basic2.0 & 0x1000000) > 0
    }

    /// Bit 23 of the basic2 register pair's first half.
    pub fn clflushopt(&self) -> (r: bool)
        ensures
            r == ((self.basic2_spec().0 & 0x800000) > 0),
    {
        (self.basic2.0 & 0x800000) > 0
    }

    /// Bit 22 of the basic2 register pair's first half.
    pub fn pcommit(&self) -> (r: bool)
        ensures
            r == ((self.basic2_spec().0 & 0x400000) > 0),
    {
        (self.basic2.0 & 0x400000) > 0
    }

    /// Bit 21 of the basic2 register pair's first half.
    pub fn avx512ifma(&self) -> (r: bool)
        ensures
            r == ((self.basic2_spec().0 & 0x200000) > 0),
    {
        (self.basic2.0 & 0x200000) > 0
    }

    /// Bit 20 of the basic2 register pair's first half.
    pub fn smap(&self) -> (r: bool)
        ensures
            r == ((self.basic2_spec().0 & 0x100000) > 0),
    {
        (self.basic2.0 & 0x100000) > 0
    }

    /// Bit 19 of the basic2 register pair's first half.
    pub fn adx(&self) -> (r: bool)
        ensures
            r == ((self.basic2_spec().0 & 0x80000) > 0),
    {
        (self.basic2.0 & 0x80000) > 0
    }

    /// Bit 18 of the basic2 register pair's first half.
    pub fn rdseed(&self) -> (r: bool)
        ensures
            r == ((self.basic2_spec().0 & 0x40000) > 0),
    {
        (self.basic2.0 & 0x40000) > 0
    }

    /// Bit 17 of the basic2 register pair's first half.
    pub fn avx512dq(&self) -> (r: bool)
        ensures
            r == ((self.basic2_spec().0 & 0x20000) > 0),
    {
        (self.basic2.0 & 0x20000) > 0
    }

    /// Bit 16 of the basic2 register pair's first half.
    pub fn avx512f(&self) -> (r: bool)
        ensures
            r == ((self.basic2_spec().0 & 0x10000) > 0),
    {
        (self.basic2.0 & 0x10000) > 0
    }

    /// Bit 15 of the basic2 register pair's first half.
    pub fn pqe(&self) -> (r: bool)
        ensures
            r == ((self.basic2_spec().0 & 0x8000) > 0),
    {
        (self.basic2.0 & 0x8000) > 0
    }

    /// Bit 14 of the basic2 register pair's first half.
    pub fn mpx(&self) -> (r: bool)
        ensures
            r == ((self.basic2_spec().0 & 0x4000) > 0),
    {
        (self.basic2.0 & 0x4000) > 0
    }

    /// Bit 13 of the basic2 register pair's first half.
    pub fn fpcsds(&self) -> (r: bool)
        ensures
            r == ((self.basic2_spec().0 & 0x2000) > 0),
    {
        (self.basic2.0 & 0x2000) > 0
    }

    /// Bit 12 of the basic2 register pair's first half.
    pub fn pqm(&self) -> (r: bool)
        ensures
            r == ((self.basic2_spec().0 & 0x1000) > 0),
    {
        (self.basic2.0 & 0x1000) > 0
    }

    /// Bit 11 of the basic2 register pair's first half.
    pub fn rtm(&self) -> (r: bool)
        ensures
            r == ((self.basic2_spec().0 & 0x800) > 0),
    {
        (self.basic2.0 & 0x800) > 0
    }

    /// Bit 10 of the basic2 register pair's first half.
    pub fn invpcid(&self) -> (r: bool)
        ensures
            r == ((self.basic2_spec().0 & 0x400) > 0),
    {
        (self.basic2.0 & 0x400) > 0
    }

    /// Bit 9 of the basic2 register pair's first half.
    pub fn erms(&self) -> (r: bool)
        ensures
            r == ((self.basic2_spec().0 & 0x200) > 0),
    {
        (self.basic2.0 & 0x200) > 0
    }

    /// Bit 8 of the basic2 register pair's first half.
    pub fn bmi2(&self) -> (r: bool)
        ensures
            r == ((self.basic2_spec().0 & 0x100) > 0),
    {
        (self.basic2.0 & 0x100) > 0
    }

    /// Bit 7 of the basic2 register pair's first half.
    pub fn smep(&self) -> (r: bool)
        ensures
            r == ((self.basic2_spec().0 & 0x80) > 0),
    {
        (self.basic2.0 & 0x80) > 0
    }

    /// Bit 6 of the basic2 register pair's first half.
    pub fn fpdp(&self) -> (r: bool)
        ensures
            r == ((self.basic2_spec().0 & 0x40) > 0),
    {
        (self.basic2.0 & 0x40) > 0
    }

    /// Bit 5 of the basic2 register pair's first half.
    pub fn avx2(&self) -> (r: bool)
        ensures
            r == ((self.basic2_spec().0 & 0x20) > 0),
    {
        (self.basic2.0 & 0x20) > 0
    }

    /// Bit 4 of the basic2 register pair's first half.
    pub fn hle(&self) -> (r: bool)
        ensures
            r == ((self.basic2_spec().0 & 0x10) > 0),
    {
        (self.basic2.0 & 0x10) > 0
    }

    /// Bit 3 of the basic2 register pair's first half.
    pub fn bmi1(&self) -> (r: bool)
        ensures
            r == ((self.basic2_spec().0 & 0x8) > 0),
    {
        (self.basic2.0 & 0x8) > 0
    }

    /// Bit 2 of the basic2 register pair's first half.
    pub fn sgx(&self) -> (r: bool)
        ensures
            r == ((self.basic2_spec().0 & 0x4) > 0),
    {
        (self.basic2.0 & 0x4) > 0
    }

    /// Bit 1 of the basic2 register pair's first half.
    pub fn tsc_adjust(&self) -> (r: bool)
        ensures
            r == ((self.basic2_spec().0 & 0x2) > 0),
    {
        (self.basic2.0 & 0x2) > 0
    }

    /// Bit 0 of the basic2 register pair's first half.
    pub fn fsgsbase(&self) -> (r: bool)
        ensures
            r == ((self.basic2_spec().0 & 0x1) > 0),
    {
        (self.basic2.0 & 0x1) > 0
    }

    /// Bit 30 of the basic2 register pair's second half.
    pub fn sgx_lc(&self) -> (r: bool)
        ensures
            r == ((self.basic2_spec().1 & 0x40000000) > 0),
    {
        (self.basic2.1 & 0x40000000) > 0
    }

    /// Bit 22 of the basic2 register pair's second half.
    pub fn rdpid(&self) -> (r: bool)
        ensures
            r == ((self.basic2_spec().1 & 0x400000) > 0),
    {
        (self.basic2.1 & 0x400000) > 0
    }

    /// Bit 4 of the basic2 register pair's second half.
    pub fn ospke(&self) -> (r: bool)
        ensures
            r == ((self.basic2_spec().1 & 0x10) > 0),
    {
        (self.basic2.1 & 0x10) > 0
    }

    /// Bit 3 of the basic2 register pair's second half.
    pub fn pku(&self) -> (r: bool)
        ensures
            r == ((self.basic2_spec().1 & 0x8) > 0),
    {
        (self.basic2.1 & 0x8) > 0
    }

    /// Bit 2 of the basic2 register pair's second half.
    pub fn umip(&self) -> (r: bool)
        ensures
            r == ((self.basic2_spec().1 & 0x4) > 0),
    {
        (self.basic2.1 & 0x4) > 0
    }

    /// Bit 1 of the basic2 register pair's second half.
    pub fn avx512vbmi(&self) -> (r: bool)
        ensures
            r == ((self.basic2_spec().1 & 0x2) > 0),
    {
        (self.basic2.1 & 0x2) > 0
    }

    /// Bit 0 of the basic2 register pair's second half.
    pub fn prefetchwt1(&self) -> (r: bool)
        ensures
            r == ((self.basic2_spec().1 & 0x1) > 0),
    {
        (self.basic2.1 & 0x1) > 0
    }

    /// Bit 29 of the ext register pair's first half.
    pub fn monx(&self) -> (r: bool)
        ensures
            r == ((self.ext_spec().0 & 0x20000000) > 0),
    {
        (self.ext.0 & 0x20000000) > 0
    }

    /// Bit 28 of the ext register pair's first half.
    pub fn pcx_l2i(&self) -> (r: bool)
        ensures
            r == ((self.ext_spec().0 & 0x10000000) > 0),
    {
        (self.ext.0 & 0x10000000) > 0
    }

    /// Bit 27 of the ext register pair's first half.
    pub fn perftsc(&self) -> (r: bool)
        ensures
            r == ((self.ext_spec().0 & 0x8000000) > 0),
    {
        (self.ext.0 & 0x8000000) > 0
    }

    /// Bit 26 of the ext register pair's first half.
    pub fn dbx(&self) -> (r: bool)
        ensures
            r == ((self.ext_spec().0 & 0x4000000) > 0),
    {
        (self.ext.0 & 0x4000000) > 0
    }

    /// Bit 24 of the ext register pair's first half.
    pub fn pcx_nb(&self) -> (r: bool)
        ensures
            r == ((self.ext_spec().0 & 0x1000000) > 0),
    {
        (self.ext.0 & 0x1000000) > 0
    }

    /// Bit 23 of the ext register pair's first half.
    pub fn pcx_core(&self) -> (r: bool)
        ensures
            r == ((self.ext_spec().0 & 0x800000) > 0),
    {
        (self.ext.0 & 0x800000) > 0
    }

    /// Bit 22 of the ext register pair's first half.
    pub fn topx(&self) -> (r: bool)
        ensures
            r == ((self.ext_spec().0 & 0x400000) > 0),
    {
        (self.ext.0 & 0x400000) > 0
    }

    /// Bit 21 of the ext register pair's first half.
    pub fn tbm(&self) -> (r: bool)
        ensures
            r == ((self.ext_spec().0 & 0x200000) > 0),
    {
        (self.ext.0 & 0x200000) > 0
    }

    /// Bit 19 of the ext register pair's first half.
    pub fn nodeid(&self) -> (r: bool)
        ensures
            r == ((self.ext_spec().0 & 0x80000) > 0),
    {
        (self.ext.0 & 0x80000) > 0
    }

    /// Bit 17 of the ext register pair's first half.
    pub fn tce(&self) -> (r: bool)
        ensures
            r == ((self.ext_spec().0 & 0x20000) > 0),
    {
        (self.ext.0 & 0x20000) > 0
    }

    /// Bit 16 of the ext register pair's first half.
    pub fn fma4(&self) -> (r: bool)
        ensures
            r == ((self.ext_spec().0 & 0x10000) > 0),
    {
        (self.ext.0 & 0x10000) > 0
    }

    /// Bit 15 of the ext register pair's first half.
    pub fn lwp(&self) -> (r: bool)
        ensures
            r == ((self.ext_spec().0 & 0x8000) > 0),
    {
        (self.ext.0 & 0x8000) > 0
    }

    /// Bit 13 of the ext register pair's first half.
    pub fn wdt(&self) -> (r: bool)
        ensures
            r == ((self.ext_spec().0 & 0x2000) > 0),
    {
        (self.ext.0 & 0x2000) > 0
    }

    /// Bit 12 of the ext register pair's first half.
    pub fn skinit(&self) -> (r: bool)
        ensures
            r == ((self.ext_spec().0 & 0x1000) > 0),
    {
        (self.ext.0 & 0x1000) > 0
    }

    /// Bit 11 of the ext register pair's first half.
    pub fn xop(&self) -> (r: bool)
        ensures
            r == ((self.ext_spec().0 & 0x800) > 0),
    {
        (self.ext.0 & 0x800) > 0
    }

    /// Bit 10 of the ext register pair's first half.
    pub fn ibs(&self) -> (r: bool)
        ensures
            r == ((self.ext_spec().0 & 0x400) > 0),
    {
        (self.ext.0 & 0x400) > 0
    }

    /// Bit 9 of the ext register pair's first half.
    pub fn osvw(&self) -> (r: bool)
        ensures
            r == ((self.ext_spec().0 & 0x200) > 0),
    {
        (self.ext.0 & 0x200) > 0
    }

    /// Bit 8 of the ext register pair's first half.
    pub fn _3dnow_p(&self) -> (r: bool)
        ensures
            r == ((self.ext_spec().0 & 0x100) > 0),
    {
        (self.ext.0 & 0x100) > 0
    }

    /// Bit 7 of the ext register pair's first half.
    pub fn msse(&self) -> (r: bool)
        ensures
            r == ((self.ext_spec().0 & 0x80) > 0),
    {
        (self.ext.0 & 0x80) > 0
    }

    /// Bit 6 of the ext register pair's first half.
    pub fn sse4a(&self) -> (r: bool)
        ensures
            r == ((self.ext_spec().0 & 0x40) > 0),
    {
        (self.ext.0 & 0x40) > 0
    }

    /// Bit 5 of the ext register pair's first half.
    pub fn lzcnt(&self) -> (r: bool)
        ensures
            r == ((self.ext_spec().0 & 0x20) > 0),
    {
        (self.ext.0 & 0x20) > 0
    }

    /// Bit 4 of the ext register pair's first half.
    pub fn cr8d(&self) -> (r: bool)
        ensures
            r == ((self.ext_spec().0 & 0x10) > 0),
    {
        (self.ext.0 & 0x10) > 0
    }

    /// Bit 3 of the ext register pair's first half.
    pub fn eas(&self) -> (r: bool)
        ensures
            r == ((self.ext_spec().0 & 0x8) > 0),
    {
        (self.ext.0 & 0x8) > 0
    }

    /// Bit 2 of the ext register pair's first half.
    pub fn svm(&self) -> (r: bool)
        ensures
            r == ((self.ext_spec().0 & 0x4) > 0),
    {
        (self.ext.0 & 0x4) > 0
    }

    /// Bit 1 of the ext register pair's first half.
    pub fn cmp(&self) -> (r: bool)
        ensures
            r == ((self.ext_spec().0 & 0x2) > 0),
    {
        (self.ext.0 & 0x2) > 0
    }

    /// Bit 0 of the ext register pair's first half.
    pub fn ahf64(&self) -> (r: bool)
        ensures
            r == ((self.ext_spec().0 & 0x1) > 0),
    {
        (self.ext.0 & 0x1) > 0
    }

    /// Bit 31 of the ext register pair's second half.
    pub fn _3dnow(&self) -> (r: bool)
        ensures
            r == ((self.ext_spec().1 & 0x80000000) > 0),
    {
        (self.ext.1 & 0x80000000) > 0
    }

    /// Bit 30 of the ext register pair's second half.
    pub fn _3dnow_ext(&self) -> (r: bool)
        ensures
            r == ((self.ext_spec().1 & 0x40000000) > 0),
    {
        (self.ext.1 & 0x40000000) > 0
    }

    /// Bit 29 of the ext register pair's second half.
    pub fn lm(&self) -> (r: bool)
        ensures
            r == ((self.ext_spec().1 & 0x20000000) > 0),
    {
        (self.ext.1 & 0x20000000) > 0
    }

    /// Bit 27 of the ext register pair's second half.
    pub fn tscp(&self) -> (r: bool)
        ensures
            r == ((self.ext_spec().1 & 0x8000000) > 0),
    {
        (self.ext.1 & 0x8000000) > 0
    }

    /// Bit 26 of the ext register pair's second half.
    pub fn pg1g(&self) -> (r: bool)
        ensures
            r == ((self.ext_spec().1 & 0x4000000) > 0),
    {
        (self.ext.1 & 0x4000000) > 0
    }

    /// Bit 25 of the ext register pair's second half.
    pub fn ffxsr(&self) -> (r: bool)
        ensures
            r == ((self.ext_spec().1 & 0x2000000) > 0),
    {
        (self.ext.1 & 0x2000000) > 0
    }

    /// Bit 24 of the ext register pair's second half.
    pub fn cyrix_mmx_ext(&self) -> (r: bool)
        ensures
            r == ((self.ext_spec().1 & 0x1000000) > 0),
    {
        (self.ext.1 & 0x1000000) > 0
    }

    /// Bit 22 of the ext register pair's second half.
    pub fn amd_mmx_ext(&self) -> (r: bool)
        ensures
            r == ((self.ext_spec().1 & 0x400000) > 0),
    {
        (self.ext.1 & 0x400000) > 0
    }

    /// Bit 20 of the ext register pair's second half.
    pub fn nx(&self) -> (r: bool)
        ensures
            r == ((self.ext_spec().1 & 0x100000) > 0),
    {
        (self.ext.1 & 0x100000) > 0
    }

    /// Bit 19 of the ext register pair's second half.
    pub fn mp(&self) -> (r: bool)
        ensures
            r == ((self.ext_spec().1 & 0x80000) > 0),
    {
        (self.ext.1 & 0x80000) > 0
    }

    /// Bit 16 of the ext register pair's second half.
    pub fn fcmov(&self) -> (r: bool)
        ensures
            r == ((self.ext_spec().1 & 0x10000) > 0),
    {
        (self.ext.1 & 0x10000) > 0
    }

    /// Bit 16 of the ext register pair's second half.
    pub fn amd_k7_pat(&self) -> (r: bool)
        ensures
            r == ((self.ext_spec().1 & 0x10000) > 0),
    {
        (self.ext.1 & 0x10000) > 0
    }

    /// Bit 11 of the ext register pair's second half.
    pub fn sep2(&self) -> (r: bool)
        ensures
            r == ((self.ext_spec().1 & 0x800) > 0),
    {
        (self.ext.1 & 0x800) > 0
    }

    /// Bit 15 of the basic register pair's second half.
    pub fn cmov(&self) -> (r: bool)
        ensures
            r == ((self.basic_spec().1 & 0x8000) > 0),
    {
        (self.basic.1 & 0x8000) > 0
    }

    /// Bit 14 of the basic register pair's second half.
    pub fn mca(&self) -> (r: bool)
        ensures
            r == ((self.basic_spec().1 & 0x4000) > 0),
    {
        (self.basic.1 & 0x4000) > 0
    }

    /// Bit 13 of the basic register pair's second half.
    pub fn pge(&self) -> (r: bool)
        ensures
            r == ((self.basic_spec().1 & 0x2000) > 0),
    {
        (self.basic.1 & 0x2000) > 0
    }

    /// Bit 12 of the basic register pair's second half.
    pub fn mtrr(&self) -> (r: bool)
        ensures
            r == ((self.basic_spec().1 & 0x1000) > 0),
    {
        (self.basic.1 & 0x1000) > 0
    }

    /// Bit 9 of the basic register pair's second half.
    pub fn apic(&self) -> (r: bool)
        ensures
            r == ((self.basic_spec().1 & 0x200) > 0),
    {
        (self.basic.1 & 0x200) > 0
    }

    /// Bit 8 of the basic register pair's second half.
    pub fn cx8(&self) -> (r: bool)
        ensures
            r == ((self.basic_spec().1 & 0x100) > 0),
    {
        (self.basic.1 & 0x100) > 0
    }

    /// Bit 7 of the basic register pair's second half.
    pub fn mce(&self) -> (r: bool)
        ensures
            r == ((self.basic_spec().1 & 0x80) > 0),
    {
        (self.basic.1 & 0x80) > 0
    }

    /// Bit 6 of the basic register pair's second half.
    pub fn pae(&self) -> (r: bool)
        ensures
            r == ((self.basic_spec().1 & 0x40) > 0),
    {
        (self.basic.1 & 0x40) > 0
    }

    /// Bit 5 of the basic register pair's second half.
    pub fn msr(&self) -> (r: bool)
        ensures
            r == ((self.basic_spec().1 & 0x20) > 0),
    {
        (self.basic.1 & 0x20) > 0
    }

    /// Bit 4 of the basic register pair's second half.
    pub fn tsc(&self) -> (r: bool)
        ensures
            r == ((self.basic_spec().1 & 0x10) > 0),
    {
        (self.basic.1 & 0x10) > 0
    }

    /// Bit 3 of the basic register pair's second half.
    pub fn pse(&self) -> (r: bool)
        ensures
            r == ((self.basic_spec().1 & 0x8) > 0),
    {
        (self.basic.1 & 0x8) > 0
    }

    /// Bit 2 of the basic register pair's second half.
    pub fn de(&self) -> (r: bool)
        ensures
            r == ((self.basic_spec().1 & 0x4) > 0),
    {
        (self.basic.1 & 0x4) > 0
    }

    /// Bit 1 of the basic register pair's second half.
    pub fn vme(&self) -> (r: bool)
        ensures
            r == ((self.basic_spec().1 & 0x2) > 0),
    {
        (self.basic.1 & 0x2) > 0
    }

    /// Bit 0 of the basic register pair's second half.
    pub fn fpu(&self) -> (r: bool)
        ensures
            r == ((self.basic_spec().1 & 0x1) > 0),
    {
        (self.basic.1 & 0x1) > 0
    }

    /// Bit 23 of the basic register pair's second half.
    pub fn mmx(&self) -> (r: bool)
        ensures
            r == ((self.basic_spec().1 & 0x800000) > 0),
    {
        (self.basic.1 & 0x800000) > 0
    }

    /// Bit 17 of the basic register pair's second half.
    pub fn pse36(&self) -> (r: bool)
        ensures
            r == ((self.basic_spec().1 & 0x20000) > 0),
    {
        (self.basic.1 & 0x20000) > 0
    }
}

} // verus!
