//! Register images of the PMSAv7 memory protection unit.
//!
//! Each type wraps the 32-bit value of one MPU register.  Fields are read
//! with spec accessors and written with `with_*` builders that leave every
//! other bit of the register untouched.

use vstd::prelude::*;

verus! {

/// Value `1` for a set flag and `0` for a clear one.
pub open spec fn flag_bit(v: bool) -> u32 {
    if v {
        1u32
    } else {
        0u32
    }
}

/// The register value `raw` with the bits selected by `mask` replaced by
/// `field << shift`.
pub open spec fn with_field(raw: u32, mask: u32, shift: u32, field: u32) -> u32 {
    (raw & !mask) | ((field << shift) & mask)
}

/// The bits of `raw` selected by `mask`, moved down by `shift`.
pub open spec fn field_of(raw: u32, mask: u32, shift: u32) -> u32 {
    (raw & mask) >> shift
}

fn put_field(raw: u32, mask: u32, shift: u32, field: u32) -> (r: u32)
    requires
        shift < 32,
    ensures
        r == with_field(raw, mask, shift, field),
{
    (raw & !mask) | ((field << shift) & mask)
}

fn get_field(raw: u32, mask: u32, shift: u32) -> (r: u32)
    requires
        shift < 32,
    ensures
        r == field_of(raw, mask, shift),
{
    (raw & mask) >> shift
}

fn bit_of(v: bool) -> (r: u32)
    ensures
        r == flag_bit(v),
{
    if v {
        1
    } else {
        0
    }
}

/// `MPU_CTRL`: `ENABLE[0]`, `HFNMIENA[1]`, `PRIVDEFENA[2]`.
#[derive(Clone, Copy, Debug, PartialEq, Eq, Structural)]
pub struct CtrlVal(pub u32);

impl CtrlVal {
    pub open spec fn spec_enable(self) -> bool {
        field_of(self.0, 0x1, 0) == 1
    }

    pub open spec fn spec_hfnmiena(self) -> bool {
        field_of(self.0, 0x2, 1) == 1
    }

    pub open spec fn spec_privdefena(self) -> bool {
        field_of(self.0, 0x4, 2) == 1
    }

    /// The reset value of the register.
    pub fn const_default() -> (r: Self)
        ensures
            r.0 == 0,
    {
        CtrlVal(0)
    }

    #[verifier::when_used_as_spec(spec_enable)]
    pub fn enable(self) -> (r: bool)
        ensures
            r == self.spec_enable(),
    {
        get_field(self.0, 0x1, 0) == 1
    }

    #[verifier::when_used_as_spec(spec_hfnmiena)]
    pub fn hfnmiena(self) -> (r: bool)
        ensures
            r == self.spec_hfnmiena(),
    {
        get_field(self.0, 0x2, 1) == 1
    }

    #[verifier::when_used_as_spec(spec_privdefena)]
    pub fn privdefena(self) -> (r: bool)
        ensures
            r == self.spec_privdefena(),
    {
        get_field(self.0, 0x4, 2) == 1
    }

    pub fn with_enable(self, v: bool) -> (r: Self)
        ensures
            r.0 == with_field(self.0, 0x1, 0, flag_bit(v)),
    {
        CtrlVal(put_field(self.0, 0x1, 0, bit_of(v)))
    }

    pub fn with_hfnmiena(self, v: bool) -> (r: Self)
        ensures
            r.0 == with_field(self.0, 0x2, 1, flag_bit(v)),
    {
        CtrlVal(put_field(self.0, 0x2, 1, bit_of(v)))
    }

    pub fn with_privdefena(self, v: bool) -> (r: Self)
        ensures
            r.0 == with_field(self.0, 0x4, 2, flag_bit(v)),
    {
        CtrlVal(put_field(self.0, 0x4, 2, bit_of(v)))
    }
}

/// `MPU_RNR`: `REGION[7:0]`.
#[derive(Clone, Copy, Debug, PartialEq, Eq, Structural)]
pub struct RnrVal(pub u32);

impl RnrVal {
    pub open spec fn spec_region(self) -> u8 {
        field_of(self.0, 0xff, 0) as u8
    }

    /// The reset value of the register.
    pub fn const_default() -> (r: Self)
        ensures
            r.0 == 0,
    {
        RnrVal(0)
    }

    #[verifier::when_used_as_spec(spec_region)]
    pub fn region(self) -> (r: u8)
        ensures
            r == self.spec_region(),
    {
        let raw: u32 = self.0;
        let f: u32 = get_field(raw, 0xff, 0);
        assert(f <= 0xff) by (bit_vector)
            requires
                f == (raw & 0xff) >> 0u32,
        ;
        f as u8
    }

    pub fn with_region(self, region: u8) -> (r: Self)
        ensures
            r.0 == with_field(self.0, 0xff, 0, region as u32),
    {
        RnrVal(put_field(self.0, 0xff, 0, region as u32))
    }
}

/// `MPU_RBAR`: `REGION[3:0]`, `VALID[4]`, `ADDR[31:5]`.
#[derive(Clone, Copy, Debug, PartialEq, Eq, Structural)]
pub struct RbarVal(pub u32);

impl RbarVal {
    pub open spec fn spec_region(self) -> u8 {
        field_of(self.0, 0xf, 0) as u8
    }

    pub open spec fn spec_valid(self) -> bool {
        field_of(self.0, 0x10, 4) == 1
    }

    /// The region base address: the register with its low five bits cleared.
    pub open spec fn spec_addr(self) -> u32 {
        self.0 & 0xffff_ffe0
    }

    /// The reset value of the register.
    pub fn const_default() -> (r: Self)
        ensures
            r.0 == 0,
    {
        RbarVal(0)
    }

    #[verifier::when_used_as_spec(spec_region)]
    pub fn region(self) -> (r: u8)
        ensures
            r == self.spec_region(),
    {
        let raw: u32 = self.0;
        let f: u32 = get_field(raw, 0xf, 0);
        assert(f <= 0xf) by (bit_vector)
            requires
                f == (raw & 0xf) >> 0u32,
        ;
        f as u8
    }

    #[verifier::when_used_as_spec(spec_valid)]
    pub fn valid(self) -> (r: bool)
        ensures
            r == self.spec_valid(),
    {
        get_field(self.0, 0x10, 4) == 1
    }

    #[verifier::when_used_as_spec(spec_addr)]
    pub fn addr(self) -> (r: u32)
        ensures
            r == self.spec_addr(),
    {
        self.0 & 0xffff_ffe0
    }

    pub fn with_region(self, region: u8) -> (r: Self)
        ensures
            r.0 == with_field(self.0, 0xf, 0, region as u32),
    {
        RbarVal(put_field(self.0, 0xf, 0, region as u32))
    }

    pub fn with_valid(self, v: bool) -> (r: Self)
        ensures
            r.0 == with_field(self.0, 0x10, 4, flag_bit(v)),
    {
        RbarVal(put_field(self.0, 0x10, 4, bit_of(v)))
    }

    /// Sets the base address.  `addr` is a byte address; its low five bits
    /// do not belong to the field and are dropped.
    pub fn with_addr(self, addr: u32) -> (r: Self)
        ensures
            r.0 == with_field(self.0, 0xffff_ffe0, 0, addr),
    {
        RbarVal(put_field(self.0, 0xffff_ffe0, 0, addr))
    }
}

/// Access permission of a region, the `AP` field of `MPU_RASR`.
#[derive(Clone, Copy, Debug, PartialEq, Eq, Structural)]
pub enum RasrAp {
    /// No access at any privilege level.
    NoAccess,
    /// Read and write for privileged code only.
    RwPrivileged,
    /// Read and write for privileged code, read-only for unprivileged code.
    RwPrivilegedRoUnprivileged,
    /// Read and write at any privilege level.
    RwAny,
    /// Read-only for privileged code only.
    RoPrivileged,
    /// Read-only at any privilege level.
    RoAny,
}

impl RasrAp {
    /// The three-bit encoding of the permission.
    pub open spec fn spec_bits(self) -> u8 {
        match self {
            RasrAp::NoAccess => 0b000u8,
            RasrAp::RwPrivileged => 0b001u8,
            RasrAp::RwPrivilegedRoUnprivileged => 0b010u8,
            RasrAp::RwAny => 0b011u8,
            RasrAp::RoPrivileged => 0b101u8,
            RasrAp::RoAny => 0b110u8,
        }
    }

    #[verifier::when_used_as_spec(spec_bits)]
    pub fn bits(self) -> (r: u8)
        ensures
            r == self.spec_bits(),
    {
        match self {
            RasrAp::NoAccess => 0b000,
            RasrAp::RwPrivileged => 0b001,
            RasrAp::RwPrivilegedRoUnprivileged => 0b010,
            RasrAp::RwAny => 0b011,
            RasrAp::RoPrivileged => 0b101,
            RasrAp::RoAny => 0b110,
        }
    }

    /// The permission that a three-bit field value stands for.  `0b100` is
    /// reserved; `0b111` is a second encoding of read-only at any level.
    pub open spec fn spec_from_bits(bits: u8) -> Option<RasrAp> {
        if bits == 0b000 {
            Some(RasrAp::NoAccess)
        } else if bits == 0b001 {
            Some(RasrAp::RwPrivileged)
        } else if bits == 0b010 {
            Some(RasrAp::RwPrivilegedRoUnprivileged)
        } else if bits == 0b011 {
            Some(RasrAp::RwAny)
        } else if bits == 0b101 {
            Some(RasrAp::RoPrivileged)
        } else if bits == 0b110 || bits == 0b111 {
            Some(RasrAp::RoAny)
        } else {
            None
        }
    }

    #[verifier::when_used_as_spec(spec_from_bits)]
    pub fn from_bits(bits: u8) -> (r: Option<RasrAp>)
        ensures
            r == Self::spec_from_bits(bits),
    {
        if bits == 0b000 {
            Some(RasrAp::NoAccess)
        } else if bits == 0b001 {
            Some(RasrAp::RwPrivileged)
        } else if bits == 0b010 {
            Some(RasrAp::RwPrivilegedRoUnprivileged)
        } else if bits == 0b011 {
            Some(RasrAp::RwAny)
        } else if bits == 0b101 {
            Some(RasrAp::RoPrivileged)
        } else if bits == 0b110 || bits == 0b111 {
            Some(RasrAp::RoAny)
        } else {
            None
        }
    }
}

/// The `MPU_RASR` value with the given fields and every other bit clear.
/// `size`, `tex` and `ap` keep their low five, three and three bits.
pub open spec fn rasr_value(
    enable: bool,
    size: u8,
    srd: u8,
    b: bool,
    c: bool,
    s: bool,
    tex: u8,
    ap: u8,
    xn: bool,
) -> u32 {
    flag_bit(enable) | (((size as u32) & 0x1f) << 1) | ((srd as u32) << 8) | (flag_bit(b) << 16)
        | (flag_bit(c) << 17) | (flag_bit(s) << 18) | (((tex as u32) & 0x7) << 19) | (((
    ap as u32) & 0x7) << 24) | (flag_bit(xn) << 28)
}

/// `MPU_RASR`: `ENABLE[0]`, `SIZE[5:1]`, `SRD[15:8]`, `B[16]`, `C[17]`,
/// `S[18]`, `TEX[21:19]`, `AP[26:24]`, `XN[28]`.
#[derive(Clone, Copy, Debug, PartialEq, Eq, Structural)]
pub struct RasrVal(pub u32);

impl RasrVal {
    pub open spec fn spec_enable(self) -> bool {
        field_of(self.0, 0x1, 0) == 1
    }

    pub open spec fn spec_size(self) -> u8 {
        field_of(self.0, 0x3e, 1) as u8
    }

    pub open spec fn spec_srd(self) -> u8 {
        field_of(self.0, 0xff00, 8) as u8
    }

    pub open spec fn spec_b(self) -> bool {
        field_of(self.0, 0x1_0000, 16) == 1
    }

    pub open spec fn spec_c(self) -> bool {
        field_of(self.0, 0x2_0000, 17) == 1
    }

    pub open spec fn spec_s(self) -> bool {
        field_of(self.0, 0x4_0000, 18) == 1
    }

    pub open spec fn spec_tex(self) -> u8 {
        field_of(self.0, 0x38_0000, 19) as u8
    }

    pub open spec fn spec_ap_bits(self) -> u8 {
        field_of(self.0, 0x700_0000, 24) as u8
    }

    pub open spec fn spec_xn(self) -> bool {
        field_of(self.0, 0x1000_0000, 28) == 1
    }

    /// The reset value of the register: a disabled region.
    pub fn const_default() -> (r: Self)
        ensures
            r.0 == 0,
    {
        RasrVal(0)
    }

    #[verifier::when_used_as_spec(spec_enable)]
    pub fn enable(self) -> (r: bool)
        ensures
            r == self.spec_enable(),
    {
        get_field(self.0, 0x1, 0) == 1
    }

    #[verifier::when_used_as_spec(spec_size)]
    pub fn size(self) -> (r: u8)
        ensures
            r == self.spec_size(),
    {
        let raw: u32 = self.0;
        let f: u32 = get_field(raw, 0x3e, 1);
        assert(f <= 0x1f) by (bit_vector)
            requires
                f == (raw & 0x3e) >> 1u32,
        ;
        f as u8
    }

    #[verifier::when_used_as_spec(spec_srd)]
    pub fn srd(self) -> (r: u8)
        ensures
            r == self.spec_srd(),
    {
        let raw: u32 = self.0;
        let f: u32 = get_field(raw, 0xff00, 8);
        assert(f <= 0xff) by (bit_vector)
            requires
                f == (raw & 0xff00) >> 8u32,
        ;
        f as u8
    }

    #[verifier::when_used_as_spec(spec_b)]
    pub fn b(self) -> (r: bool)
        ensures
            r == self.spec_b(),
    {
        get_field(self.0, 0x1_0000, 16) == 1
    }

    #[verifier::when_used_as_spec(spec_c)]
    pub fn c(self) -> (r: bool)
        ensures
            r == self.spec_c(),
    {
        get_field(self.0, 0x2_0000, 17) == 1
    }

    #[verifier::when_used_as_spec(spec_s)]
    pub fn s(self) -> (r: bool)
        ensures
            r == self.spec_s(),
    {
        get_field(self.0, 0x4_0000, 18) == 1
    }

    #[verifier::when_used_as_spec(spec_tex)]
    pub fn tex(self) -> (r: u8)
        ensures
            r == self.spec_tex(),
    {
        let raw: u32 = self.0;
        let f: u32 = get_field(raw, 0x38_0000, 19);
        assert(f <= 0x7) by (bit_vector)
            requires
                f == (raw & 0x38_0000) >> 19u32,
        ;
        f as u8
    }

    #[verifier::when_used_as_spec(spec_ap_bits)]
    pub fn ap_bits(self) -> (r: u8)
        ensures
            r == self.spec_ap_bits(),
    {
        let raw: u32 = self.0;
        let f: u32 = get_field(raw, 0x700_0000, 24);
        assert(f <= 0x7) by (bit_vector)
            requires
                f == (raw & 0x700_0000) >> 24u32,
        ;
        f as u8
    }

    #[verifier::when_used_as_spec(spec_xn)]
    pub fn xn(self) -> (r: bool)
        ensures
            r == self.spec_xn(),
    {
        get_field(self.0, 0x1000_0000, 28) == 1
    }

    pub fn with_enable(self, v: bool) -> (r: Self)
        ensures
            r.0 == with_field(self.0, 0x1, 0, flag_bit(v)),
    {
        RasrVal(put_field(self.0, 0x1, 0, bit_of(v)))
    }

    /// Sets `SIZE`; the region spans `2^(size + 1)` bytes.
    pub fn with_size(self, size: u8) -> (r: Self)
        ensures
            r.0 == with_field(self.0, 0x3e, 1, size as u32),
    {
        RasrVal(put_field(self.0, 0x3e, 1, size as u32))
    }

    /// Sets `SRD`; bit `i` disables the `i`-th eighth of the region.
    pub fn with_srd(self, srd: u8) -> (r: Self)
        ensures
            r.0 == with_field(self.0, 0xff00, 8, srd as u32),
    {
        RasrVal(put_field(self.0, 0xff00, 8, srd as u32))
    }

    pub fn with_b(self, v: bool) -> (r: Self)
        ensures
            r.0 == with_field(self.0, 0x1_0000, 16, flag_bit(v)),
    {
        RasrVal(put_field(self.0, 0x1_0000, 16, bit_of(v)))
    }

    pub fn with_c(self, v: bool) -> (r: Self)
        ensures
            r.0 == with_field(self.0, 0x2_0000, 17, flag_bit(v)),
    {
        RasrVal(put_field(self.0, 0x2_0000, 17, bit_of(v)))
    }

    pub fn with_s(self, v: bool) -> (r: Self)
        ensures
            r.0 == with_field(self.0, 0x4_0000, 18, flag_bit(v)),
    {
        RasrVal(put_field(self.0, 0x4_0000, 18, bit_of(v)))
    }

    pub fn with_tex(self, tex: u8) -> (r: Self)
        ensures
            r.0 == with_field(self.0, 0x38_0000, 19, tex as u32),
    {
        RasrVal(put_field(self.0, 0x38_0000, 19, tex as u32))
    }

    pub fn with_ap(self, ap: RasrAp) -> (r: Self)
        ensures
            r.0 == with_field(self.0, 0x700_0000, 24, ap.spec_bits() as u32),
    {
        RasrVal(put_field(self.0, 0x700_0000, 24, ap.bits() as u32))
    }

    pub fn with_xn(self, v: bool) -> (r: Self)
        ensures
            r.0 == with_field(self.0, 0x1000_0000, 28, flag_bit(v)),
    {
        RasrVal(put_field(self.0, 0x1000_0000, 28, bit_of(v)))
    }
}

} // verus!
