//! PMSAv7 (ARMv7-M) memory protection.
//!
//! A PMSAv7 region is a naturally placed power-of-two block of at least 32
//! bytes, cut into eight equal sub-regions that can be disabled one by one.
//! [`MpuRegion::from_memory_region`] finds such a block for an arbitrary
//! address range and encodes it, with the attributes of the region's type,
//! into the `RBAR`/`RASR` register pair.

use vstd::prelude::*;
use crate::memory_config::{MemoryRegion, MemoryRegionType};
use crate::regs::{CtrlVal, RasrAp, RasrVal, RbarVal, RnrVal, flag_bit, rasr_value, with_field};

verus! {

/// Number of regions of the MPU.
pub const NUM_MPU_REGIONS: usize = 8;

/// The smallest region the hardware supports, in bytes.
pub const MIN_REGION_SIZE: u64 = 32;

/// The largest region this module emits: 2 GiB, `SIZE` = 30.
pub const MAX_REGION_SIZE: u64 = 0x8000_0000;

/// Frame size below which a region's base is never moved.  Flash and RAM
/// occupy neighbouring frames of this size, and a base that slid into the
/// frame below would make a RAM region overlap flash.
pub const PAGE_256KB: u64 = 0x4_0000;

/// `2^k`.
pub open spec fn two_pow(k: nat) -> int
    decreases k,
{
    if k == 0 {
        1
    } else {
        2 * two_pow((k - 1) as nat)
    }
}

/// `n` is `2^k` for some `k`.
pub open spec fn is_power_of_two(n: int) -> bool
    decreases n,
{
    if n <= 1 {
        n == 1
    } else {
        n % 2 == 0 && is_power_of_two(n / 2)
    }
}

/// The position of the highest set bit of `n`; `0` for `n <= 1`.
pub open spec fn floor_log2(n: int) -> int
    decreases n,
{
    if n <= 1 {
        0
    } else {
        1 + floor_log2(n / 2)
    }
}

/// The `SIZE` field for a region of `size` bytes: `log2(size) - 1`, and
/// never less than 4, the code of the 32-byte minimum.
pub open spec fn size_field_of(size: int) -> int {
    if floor_log2(size) < 5 {
        4
    } else {
        floor_log2(size) - 1
    }
}

/// `x` rounded down to a multiple of `a`.
pub open spec fn align_down(x: int, a: int) -> int {
    x - x % a
}

/// The first of `size`, `2 * size`, `4 * size`, ... that is at least `req`
/// bytes, or the first that exceeds the architectural maximum.
pub open spec fn min_region_size(req: int, size: int) -> int
    decreases 0x1_0000_0000 - size,
{
    if size >= req || size > MAX_REGION_SIZE || size <= 0 {
        size
    } else {
        min_region_size(req, 2 * size)
    }
}

/// The base of a region of `size` bytes for a range that starts at `start`:
/// `start` rounded down to `size`, but never below the 256 KiB frame that
/// holds `start`.
pub open spec fn guarded_base(start: int, size: int) -> int {
    let naive = align_down(start, size);
    let page = align_down(start, PAGE_256KB as int);
    if naive < page {
        page
    } else {
        naive
    }
}

/// The region at the guarded base reaches the end of the range.
pub open spec fn region_covers(start: int, end: int, size: int) -> bool {
    guarded_base(start, size) + size >= end
}

/// The first of `size`, `2 * size`, `4 * size`, ... whose region covers
/// `[start, end)`, or the first that exceeds the architectural maximum.
pub open spec fn covering_size(start: int, end: int, size: int) -> int
    decreases 0x1_0000_0000 - size,
{
    if region_covers(start, end, size) || size > MAX_REGION_SIZE || size <= 0 {
        size
    } else {
        covering_size(start, end, 2 * size)
    }
}

/// Sub-region `i` of the region `[base, base + size)` shares at least one
/// address with `[start, end)`.
pub open spec fn subregion_overlaps(base: int, size: int, i: int, start: int, end: int) -> bool {
    let sub = size / 8;
    base + i * sub < end && base + i * sub + sub > start
}

/// The bit of sub-region `i` in a disable mask.
pub open spec fn srd_bit(i: int) -> u8 {
    1u8 << (i as u8)
}

/// The disable bits of the first `n` sub-regions: bit `i` is set exactly
/// when sub-region `i` shares no address with `[start, end)`.
pub open spec fn srd_prefix(base: int, size: int, start: int, end: int, n: int) -> u8
    decreases n,
{
    if n <= 0 {
        0u8
    } else if subregion_overlaps(base, size, n - 1, start, end) {
        srd_prefix(base, size, start, end, n - 1)
    } else {
        srd_prefix(base, size, start, end, n - 1) | srd_bit(n - 1)
    }
}

/// A region placement: one power-of-two block and its sub-region mask.
#[derive(Clone, Copy, Debug, PartialEq, Eq, Structural)]
pub struct AlignedRegion {
    /// First address of the block.
    pub base: u32,
    /// `log2(size) - 1`, between 4 and 30.
    pub size_field: u8,
    /// Bit `i` set: sub-region `i` is disabled.
    pub srd_mask: u8,
}

impl AlignedRegion {
    /// The lower 2 GiB with every sub-region enabled.
    pub open spec fn whole_space() -> AlignedRegion {
        AlignedRegion { base: 0, size_field: 30, srd_mask: 0 }
    }

    /// Size of the block in bytes.
    pub open spec fn size(self) -> int {
        two_pow((self.size_field + 1) as nat)
    }

    /// First address of sub-region `i`.
    pub open spec fn subregion_start(self, i: int) -> int {
        self.base + i * (self.size() / 8)
    }

    /// One past the last address of sub-region `i`.
    pub open spec fn subregion_end(self, i: int) -> int {
        self.subregion_start(i) + self.size() / 8
    }

    /// Bit `i` of the disable mask is clear.
    pub open spec fn subregion_enabled(self, i: int) -> bool {
        self.srd_mask & srd_bit(i) == 0
    }

    /// Some enabled sub-region holds the address `a`.
    pub open spec fn covers_address(self, a: int) -> bool {
        exists|i: int|
            0 <= i < 8 && #[trigger] self.subregion_enabled(i) && self.subregion_start(i) <= a
                < self.subregion_end(i)
    }
}

/// The size of the first block, counted up from 32 bytes in doublings,
/// that holds `end - start` bytes and, at its guarded base, reaches `end`.
pub open spec fn fitted_size(start: int, end: int) -> int {
    covering_size(start, end, min_region_size(end - start, MIN_REGION_SIZE as int))
}

/// The range gets the whole-space region: it spans 2 GiB or more, or no
/// block of up to 2 GiB reaches its end.
pub open spec fn is_whole_space_fallback(start: int, end: int) -> bool {
    ||| end - start >= MAX_REGION_SIZE
    ||| min_region_size(end - start, MIN_REGION_SIZE as int) > MAX_REGION_SIZE
    ||| fitted_size(start, end) > MAX_REGION_SIZE
}

/// The placement for the range `[start, end)`.
///
/// A range of 2 GiB or more gets the whole-space region.  Any other range
/// gets the smallest power-of-two block of at least 32 bytes that, placed
/// at its guarded base, reaches `end`; where no block up to 2 GiB does, the
/// whole-space region stands in.
pub open spec fn aligned_region(start: int, end: int) -> AlignedRegion {
    if is_whole_space_fallback(start, end) {
        AlignedRegion::whole_space()
    } else {
        let size = fitted_size(start, end);
        let base = guarded_base(start, size);
        AlignedRegion {
            base: base as u32,
            size_field: size_field_of(size) as u8,
            srd_mask: srd_prefix(base, size, start, end, 8),
        }
    }
}

/// A number below `2^k` has its highest set bit below position `k`.
pub proof fn lemma_floor_log2_bound(n: int, k: nat)
    requires
        n < two_pow(k),
        k >= 1,
    ensures
        0 <= floor_log2(n) < k,
    decreases k,
{
    reveal_with_fuel(two_pow, 2);
    if n > 1 {
        lemma_floor_log2_bound(n / 2, (k - 1) as nat);
    }
}

/// A multiple of `size` is a multiple of every divisor `d` of `size`.
pub proof fn lemma_align_down_multiple(x: int, size: int, d: int)
    requires
        x >= 0,
        size > 0,
        d > 0,
        size % d == 0,
    ensures
        align_down(x, size) % d == 0,
        align_down(x, size) % size == 0,
        0 <= align_down(x, size) <= x,
{
    vstd::arithmetic::div_mod::lemma_fundamental_div_mod(x, size);
    vstd::arithmetic::div_mod::lemma_fundamental_div_mod(size, d);
    vstd::arithmetic::div_mod::lemma_mod_pos_bound(x, size);
    let q = x / size;
    let k = size / d;
    assert(align_down(x, size) == size * q);
    assert(size == d * k);
    assert(size * q == d * (k * q)) by (nonlinear_arith)
        requires
            size == d * k,
    ;
    vstd::arithmetic::div_mod::lemma_mod_multiples_basic(k * q, d);
    vstd::arithmetic::div_mod::lemma_mod_multiples_basic(q, size);
    assert((k * q) * d == d * (k * q)) by (nonlinear_arith);
    assert(q * size == size * q) by (nonlinear_arith);
}

proof fn lemma_two_pow_32()
    ensures
        two_pow(32) == 0x1_0000_0000,
{
    reveal_with_fuel(two_pow, 33);
}

proof fn lemma_two_pow_64()
    ensures
        two_pow(64) == 0x1_0000_0000_0000_0000,
{
    reveal_with_fuel(two_pow, 65);
}

/// The base for a block of `size` bytes: `start` rounded down to `size`,
/// unless that falls below `page`, the frame that holds `start`.
fn base_for(start: u64, size: u64, page: u64) -> (base: u64)
    requires
        size > 0,
        page == align_down(start as int, PAGE_256KB as int),
    ensures
        base == guarded_base(start as int, size as int),
        base <= start,
        size % 32 == 0 ==> base % 32 == 0,
{
    proof {
        lemma_align_down_multiple(start as int, size as int, 1);
        lemma_align_down_multiple(start as int, PAGE_256KB as int, 32);
        if size % 32 == 0 {
            lemma_align_down_multiple(start as int, size as int, 32);
        }
    }
    let naive: u64 = start - start % size;
    if naive < page {
        page
    } else {
        naive
    }
}

impl MpuRegion {
    /// Helper to calculate the `SIZE` field from a region size in bytes.
    pub fn calculate_size_field(size_bytes: u64) -> (r: u8)
        ensures
            r == size_field_of(size_bytes as int),
            4 <= r <= 62,
    {
        let mut size: u64 = size_bytes;
        let mut bits: u8 = 0;
        proof {
            lemma_two_pow_64();
            lemma_floor_log2_bound(size_bytes as int, 64);
        }
        while size > 1
            invariant
                floor_log2(size_bytes as int) == bits + floor_log2(size as int),
                floor_log2(size as int) >= 0,
                floor_log2(size_bytes as int) < 64,
            decreases size,
        {
            assert(size >> 1 == size / 2) by (bit_vector);
            proof {
                lemma_two_pow_64();
                lemma_floor_log2_bound((size / 2) as int, 64);
            }
            size >>= 1;
            bits += 1;
        }
        if bits < 5 {
            4
        } else {
            bits - 1
        }
    }

    /// Calculate an aligned region that covers `[start, end)` using
    /// sub-regions.
    pub fn calculate_aligned_region(start: u32, end: u32) -> (r: AlignedRegion)
        requires
            start < end,
        ensures
            r == aligned_region(start as int, end as int),
            r.base % 32 == 0,
            4 <= r.size_field <= 30,
    {
        let requested: u64 = (end - start) as u64;
        if requested >= MAX_REGION_SIZE {
            return AlignedRegion { base: 0, size_field: 30, srd_mask: 0 };
        }
        let mut size: u64 = MIN_REGION_SIZE;
        while size < requested
            invariant
                0 < size <= MAX_REGION_SIZE,
                size % 32 == 0,
                requested < MAX_REGION_SIZE,
                requested == end - start,
                min_region_size(requested as int, size as int) == min_region_size(
                    requested as int,
                    MIN_REGION_SIZE as int,
                ),
            decreases 2 * MAX_REGION_SIZE - size,
        {
            let ghost prev = size as int;
            size = size * 2;
            assert(min_region_size(requested as int, prev) == min_region_size(
                requested as int,
                size as int,
            ));
            if size > MAX_REGION_SIZE {
                assert(min_region_size(requested as int, size as int) == size);
                return AlignedRegion { base: 0, size_field: 30, srd_mask: 0 };
            }
        }
        let ghost first = size as int;
        let start64: u64 = start as u64;
        let end64: u64 = end as u64;
        let page: u64 = start64 - start64 % PAGE_256KB;
        let mut base: u64 = base_for(start64, size, page);
        while base + size < end64
            invariant
                0 < size <= MAX_REGION_SIZE,
                size % 32 == 0,
                base % 32 == 0,
                start64 == start,
                end64 == end,
                page == align_down(start64 as int, PAGE_256KB as int),
                base == guarded_base(start64 as int, size as int),
                base <= start64,
                covering_size(start as int, end as int, size as int) == covering_size(
                    start as int,
                    end as int,
                    first,
                ),
                first == min_region_size((end - start) as int, MIN_REGION_SIZE as int),
                first <= MAX_REGION_SIZE,
                end - start < MAX_REGION_SIZE,
            decreases 2 * MAX_REGION_SIZE - size,
        {
            let ghost prev = size as int;
            size = size * 2;
            assert(covering_size(start as int, end as int, prev) == covering_size(
                start as int,
                end as int,
                size as int,
            ));
            if size > MAX_REGION_SIZE {
                assert(covering_size(start as int, end as int, size as int) == size);
                return AlignedRegion { base: 0, size_field: 30, srd_mask: 0 };
            }
            base = base_for(start64, size, page);
        }
        let size_field: u8 = Self::calculate_size_field(size);
        proof {
            lemma_two_pow_32();
            lemma_floor_log2_bound(size as int, 32);
        }
        let subregion_size: u64 = size / 8;
        let mut srd_mask: u8 = 0;
        let mut i: u8 = 0;
        while i < 8
            invariant
                i <= 8,
                subregion_size == size / 8,
                size <= MAX_REGION_SIZE,
                base <= start64,
                start64 == start,
                end64 == end,
                srd_mask == srd_prefix(
                    base as int,
                    size as int,
                    start as int,
                    end as int,
                    i as int,
                ),
            decreases 8 - i,
        {
            assert((i as u64) * subregion_size <= 8 * subregion_size) by (nonlinear_arith)
                requires
                    i <= 8,
            ;
            let subregion_start: u64 = base + (i as u64) * subregion_size;
            let subregion_end: u64 = subregion_start + subregion_size;
            let overlaps = subregion_start < end64 && subregion_end > start64;
            if !overlaps {
                srd_mask = srd_mask | (1u8 << i);
            }
            i += 1;
        }
        AlignedRegion { base: base as u32, size_field, srd_mask }
    }
}

/// Why a logical region has no MPU encoding.
#[derive(Clone, Copy, Debug, PartialEq, Eq, Structural)]
pub enum ConfigError {
    /// The region is empty or reversed: its end is not above its start.
    InvalidRegion,
}

/// Memory attributes of a region type, as the `MPU_RASR` fields hold them.
#[derive(Clone, Copy, Debug, PartialEq, Eq, Structural)]
pub struct RegionAttributes {
    /// Execute never.
    pub xn: bool,
    /// Type extension.
    pub tex: u8,
    /// Shareable.
    pub s: bool,
    /// Cacheable.
    pub c: bool,
    /// Bufferable.
    pub b: bool,
    /// Access permission.
    pub ap: RasrAp,
}

impl RegionAttributes {
    /// Normal memory (`TEX=001, C=1, B=1`) is write-back cacheable; device
    /// memory is `TEX=000, C=0, B=1`.  Read-write data is not shareable, to
    /// match the cache behaviour of a single processor.
    pub open spec fn spec_of(ty: MemoryRegionType) -> RegionAttributes {
        match ty {
            MemoryRegionType::ReadOnlyData => RegionAttributes {
                xn: true,
                tex: 0b001,
                s: true,
                c: true,
                b: true,
                ap: RasrAp::RoAny,
            },
            MemoryRegionType::ReadWriteData => RegionAttributes {
                xn: true,
                tex: 0b001,
                s: false,
                c: true,
                b: true,
                ap: RasrAp::RwAny,
            },
            MemoryRegionType::ReadOnlyExecutable => RegionAttributes {
                xn: false,
                tex: 0b001,
                s: true,
                c: true,
                b: true,
                ap: RasrAp::RoAny,
            },
            MemoryRegionType::ReadWriteExecutable => RegionAttributes {
                xn: false,
                tex: 0b001,
                s: true,
                c: true,
                b: true,
                ap: RasrAp::RwAny,
            },
            MemoryRegionType::Device => RegionAttributes {
                xn: true,
                tex: 0b000,
                s: true,
                c: false,
                b: true,
                ap: RasrAp::RoAny,
            },
        }
    }

    /// The attributes of a region type.
    #[verifier::when_used_as_spec(spec_of)]
    pub fn of(ty: MemoryRegionType) -> (r: RegionAttributes)
        ensures
            r == Self::spec_of(ty),
    {
        match ty {
            MemoryRegionType::ReadOnlyData => RegionAttributes {
                xn: true,
                tex: 0b001,
                s: true,
                c: true,
                b: true,
                ap: RasrAp::RoAny,
            },
            MemoryRegionType::ReadWriteData => RegionAttributes {
                xn: true,
                tex: 0b001,
                s: false,
                c: true,
                b: true,
                ap: RasrAp::RwAny,
            },
            MemoryRegionType::ReadOnlyExecutable => RegionAttributes {
                xn: false,
                tex: 0b001,
                s: true,
                c: true,
                b: true,
                ap: RasrAp::RoAny,
            },
            MemoryRegionType::ReadWriteExecutable => RegionAttributes {
                xn: false,
                tex: 0b001,
                s: true,
                c: true,
                b: true,
                ap: RasrAp::RwAny,
            },
            MemoryRegionType::Device => RegionAttributes {
                xn: true,
                tex: 0b000,
                s: true,
                c: false,
                b: true,
                ap: RasrAp::RoAny,
            },
        }
    }
}

/// PMSAv7 MPU region: the register pair that programs one region.
#[derive(Clone, Copy, Debug, PartialEq, Eq, Structural)]
pub struct MpuRegion {
    pub rbar: RbarVal,
    pub rasr: RasrVal,
}

impl MpuRegion {
    /// The image of an enabled region placed at `placement`, with the
    /// attributes of `ty`.  `RBAR.VALID` is clear: the region number comes
    /// from `RNR`.
    pub open spec fn image(ty: MemoryRegionType, placement: AlignedRegion) -> MpuRegion {
        let attrs = RegionAttributes::spec_of(ty);
        MpuRegion {
            rbar: RbarVal(placement.base),
            rasr: RasrVal(
                rasr_value(
                    true,
                    placement.size_field,
                    placement.srd_mask,
                    attrs.b,
                    attrs.c,
                    attrs.s,
                    attrs.tex,
                    attrs.ap.spec_bits(),
                    attrs.xn,
                ),
            ),
        }
    }

    /// The register images of `region`, or the reason it has none.
    pub open spec fn spec_from_memory_region(region: MemoryRegion) -> Result<
        MpuRegion,
        ConfigError,
    > {
        if region.end <= region.start {
            Err(ConfigError::InvalidRegion)
        } else {
            Ok(Self::image(region.ty, aligned_region(region.start as int, region.end as int)))
        }
    }

    /// An unused slot: both registers zero, the region disabled.
    pub fn const_default() -> (r: Self)
        ensures
            r == (MpuRegion { rbar: RbarVal(0), rasr: RasrVal(0) }),
            !r.rasr.spec_enable(),
    {
        let r = MpuRegion { rbar: RbarVal::const_default(), rasr: RasrVal::const_default() };
        assert((0u32 & 0x1) >> 0u32 != 1) by (bit_vector);
        r
    }

    /// Compiles a logical region into its register images.
    ///
    /// Decoding the images gives back the placement: the base from `RBAR`,
    /// the size field and the sub-region mask from `RASR`.
    pub fn from_memory_region(region: &MemoryRegion) -> (r: Result<Self, ConfigError>)
        ensures
            r == Self::spec_from_memory_region(*region),
            r matches Ok(m) ==> {
                let placement = aligned_region(region.start as int, region.end as int);
                &&& m.rbar.spec_addr() == placement.base
                &&& m.rasr.spec_size() == placement.size_field
                &&& m.rasr.spec_srd() == placement.srd_mask
                &&& m.rasr.spec_enable()
                &&& !m.rbar.spec_valid()
            },
    {
        if region.end <= region.start {
            return Err(ConfigError::InvalidRegion);
        }
        // PMSAv7 requires power-of-2 sized regions aligned to their size.
        // Use sub-regions to handle arbitrary ranges.
        let aligned_region = Self::calculate_aligned_region(region.start, region.end);
        let attrs = RegionAttributes::of(region.ty);
        let rbar = RbarVal::const_default().with_valid(false).with_addr(aligned_region.base);
        let rasr = RasrVal::const_default().with_enable(true).with_size(
            aligned_region.size_field,
        ).with_srd(aligned_region.srd_mask).with_tex(attrs.tex).with_s(attrs.s).with_c(
            attrs.c,
        ).with_b(attrs.b).with_ap(attrs.ap).with_xn(attrs.xn);
        proof {
            lemma_rbar_image(aligned_region.base);
            lemma_rasr_image(
                aligned_region.size_field,
                aligned_region.srd_mask,
                attrs.b,
                attrs.c,
                attrs.s,
                attrs.tex,
                attrs.ap.spec_bits(),
                attrs.xn,
            );
        }
        Ok(MpuRegion { rbar, rasr })
    }
}

/// Writing `VALID = 0` and a 32-byte aligned address into a zero `RBAR`
/// leaves exactly the address.
pub proof fn lemma_rbar_image(base: u32)
    requires
        base % 32 == 0,
    ensures
        with_field(with_field(0, 0x10, 4, flag_bit(false)), 0xffff_ffe0, 0, base) == base,
        base & 0xffff_ffe0 == base,
        (base & 0x10) >> 4u32 != 1,
{
    assert(((((0u32 & !0x10u32) | ((0u32 << 4u32) & 0x10u32)) & !0xffff_ffe0u32) | ((base << 0u32)
        & 0xffff_ffe0u32)) == base && base & 0xffff_ffe0 == base && (base & 0x10) >> 4u32 != 1)
        by (bit_vector)
        requires
            base % 32 == 0,
    ;
}

/// The chain of field writes that builds a `RASR` from zero gives
/// `rasr_value` of the fields, and the fields read back unchanged.
pub proof fn lemma_rasr_image(size: u8, srd: u8, b: bool, c: bool, s: bool, tex: u8, ap: u8, xn: bool)
    requires
        size <= 0x1f,
    ensures
        ({
            let v = rasr_value(true, size, srd, b, c, s, tex, ap, xn);
            &&& with_field(
                with_field(
                    with_field(
                        with_field(
                            with_field(
                                with_field(
                                    with_field(
                                        with_field(
                                            with_field(0, 0x1, 0, flag_bit(true)),
                                            0x3e,
                                            1,
                                            size as u32,
                                        ),
                                        0xff00,
                                        8,
                                        srd as u32,
                                    ),
                                    0x38_0000,
                                    19,
                                    tex as u32,
                                ),
                                0x4_0000,
                                18,
                                flag_bit(s),
                            ),
                            0x2_0000,
                            17,
                            flag_bit(c),
                        ),
                        0x1_0000,
                        16,
                        flag_bit(b),
                    ),
                    0x700_0000,
                    24,
                    ap as u32,
                ),
                0x1000_0000,
                28,
                flag_bit(xn),
            ) == v
            &&& RasrVal(v).spec_size() == size
            &&& RasrVal(v).spec_srd() == srd
            &&& RasrVal(v).spec_enable()
        }),
{
    let fb = flag_bit(b);
    let fc = flag_bit(c);
    let fs = flag_bit(s);
    let fx = flag_bit(xn);
    let sz = size as u32;
    let sr = srd as u32;
    let tx = tex as u32;
    let a = ap as u32;
    let v = 1u32 | ((sz & 0x1f) << 1u32) | (sr << 8u32) | (fb << 16u32) | (fc << 17u32) | (fs
        << 18u32) | ((tx & 0x7) << 19u32) | ((a & 0x7) << 24u32) | (fx << 28u32);
    let w0 = (0u32 & !0x1u32) | ((1u32 << 0u32) & 0x1u32);
    let w1 = (w0 & !0x3eu32) | ((sz << 1u32) & 0x3eu32);
    let w2 = (w1 & !0xff00u32) | ((sr << 8u32) & 0xff00u32);
    let w3 = (w2 & !0x38_0000u32) | ((tx << 19u32) & 0x38_0000u32);
    let w4 = (w3 & !0x4_0000u32) | ((fs << 18u32) & 0x4_0000u32);
    let w5 = (w4 & !0x2_0000u32) | ((fc << 17u32) & 0x2_0000u32);
    let w6 = (w5 & !0x1_0000u32) | ((fb << 16u32) & 0x1_0000u32);
    let w7 = (w6 & !0x700_0000u32) | ((a << 24u32) & 0x700_0000u32);
    let w8 = (w7 & !0x1000_0000u32) | ((fx << 28u32) & 0x1000_0000u32);
    assert(w8 == v && (v & 0x3e) >> 1u32 == sz && (v & 0xff00) >> 8u32 == sr && (v & 0x1)
        >> 0u32 == 1) by (bit_vector)
        requires
            sz <= 0x1f,
            sr <= 0xff,
            tx <= 0xff,
            a <= 0xff,
            fb <= 1,
            fc <= 1,
            fs <= 1,
            fx <= 1,
            v == 1u32 | ((sz & 0x1f) << 1u32) | (sr << 8u32) | (fb << 16u32) | (fc << 17u32) | (fs
                << 18u32) | ((tx & 0x7) << 19u32) | ((a & 0x7) << 24u32) | (fx << 28u32),
            w0 == (0u32 & !0x1u32) | ((1u32 << 0u32) & 0x1u32),
            w1 == (w0 & !0x3eu32) | ((sz << 1u32) & 0x3eu32),
            w2 == (w1 & !0xff00u32) | ((sr << 8u32) & 0xff00u32),
            w3 == (w2 & !0x38_0000u32) | ((tx << 19u32) & 0x38_0000u32),
            w4 == (w3 & !0x4_0000u32) | ((fs << 18u32) & 0x4_0000u32),
            w5 == (w4 & !0x2_0000u32) | ((fc << 17u32) & 0x2_0000u32),
            w6 == (w5 & !0x1_0000u32) | ((fb << 16u32) & 0x1_0000u32),
            w7 == (w6 & !0x700_0000u32) | ((a << 24u32) & 0x700_0000u32),
            w8 == (w7 & !0x1000_0000u32) | ((fx << 28u32) & 0x1000_0000u32),
    ;
}

/// One step of programming the MPU.
#[derive(Clone, Copy, Debug, PartialEq, Eq, Structural)]
pub enum MpuAction {
    /// Read `MPU_CTRL` and hand the value to the next step.
    ReadCtrl,
    /// Write `MPU_CTRL`.
    WriteCtrl(CtrlVal),
    /// Write `MPU_RNR`, which selects the region that `RBAR` and `RASR`
    /// address.
    WriteRnr(RnrVal),
    /// Write `MPU_RBAR`.
    WriteRbar(RbarVal),
    /// Write `MPU_RASR`.
    WriteRasr(RasrVal),
    /// Data synchronization barrier: every register write before it has
    /// taken effect.
    Dsb,
    /// Instruction synchronization barrier: instructions after it are
    /// fetched under the new configuration.
    Isb,
    /// Nothing is left to do.
    Done,
}

/// Represents the full configuration of the Cortex-M memory configuration
/// through the MPU block for ARMv7-M processors (PMSAv7).
pub struct MemoryConfig {
    /// The register images, one per hardware region.
    pub mpu_regions: [MpuRegion; NUM_MPU_REGIONS],
    /// The logical regions the images were compiled from, kept for access
    /// checks in software.
    pub generic_regions: &'static [MemoryRegion],
}

impl MemoryConfig {
    /// Step at which the barriers begin: after the control register has
    /// been written for the second time.
    pub open spec fn barrier_step() -> int {
        3 * NUM_MPU_REGIONS + 4
    }

    /// The action at position `step` of the write protocol.  `ctrl` is the
    /// value that the `ReadCtrl` of the step before delivered; steps that
    /// do not follow a read ignore it.
    ///
    /// The MPU stays enabled throughout: the first control write turns on
    /// `ENABLE` and `PRIVDEFENA` and turns off `HFNMIENA`, then every
    /// region is written in index order as `RNR`, `RBAR`, `RASR`, then the
    /// control register is written once more with `ENABLE` set, and a `DSB`
    /// and an `ISB` close the sequence.
    pub open spec fn write_action(self, step: int, ctrl: CtrlVal) -> MpuAction {
        let n = NUM_MPU_REGIONS as int;
        if step == 0 {
            MpuAction::ReadCtrl
        } else if step == 1 {
            MpuAction::WriteCtrl(
                CtrlVal(
                    with_field(
                        with_field(
                            with_field(ctrl.0, 0x1, 0, flag_bit(true)),
                            0x2,
                            1,
                            flag_bit(false),
                        ),
                        0x4,
                        2,
                        flag_bit(true),
                    ),
                ),
            )
        } else if 2 <= step < 2 + 3 * n {
            let index = (step - 2) / 3;
            let part = (step - 2) % 3;
            if part == 0 {
                MpuAction::WriteRnr(RnrVal(with_field(0, 0xff, 0, index as u32)))
            } else if part == 1 {
                MpuAction::WriteRbar(self.mpu_regions[index].rbar)
            } else {
                MpuAction::WriteRasr(self.mpu_regions[index].rasr)
            }
        } else if step == 2 + 3 * n {
            MpuAction::ReadCtrl
        } else if step == 3 + 3 * n {
            MpuAction::WriteCtrl(CtrlVal(with_field(ctrl.0, 0x1, 0, flag_bit(true))))
        } else if step == 4 + 3 * n {
            MpuAction::Dsb
        } else if step == 5 + 3 * n {
            MpuAction::Isb
        } else {
            MpuAction::Done
        }
    }

    /// Create a new `MemoryConfig`.
    ///
    /// Region `i` of the MPU gets the image of `regions[i]`; the slots
    /// behind the last region stay disabled.  The configuration does not
    /// exist when a region has no image.
    pub fn const_new(regions: &'static [MemoryRegion]) -> (r: Result<Self, ConfigError>)
        requires
            regions@.len() <= NUM_MPU_REGIONS,
        ensures
            (forall|i: int|
                0 <= i < regions@.len() ==> (#[trigger] regions@[i]).start < regions@[i].end)
                <==> r is Ok,
            r matches Ok(config) ==> {
                &&& config.generic_regions@ == regions@
                &&& forall|i: int|
                    0 <= i < regions@.len() ==> Ok::<MpuRegion, ConfigError>(
                        #[trigger] config.mpu_regions[i],
                    ) == MpuRegion::spec_from_memory_region(regions@[i])
                &&& forall|i: int|
                    regions@.len() <= i < NUM_MPU_REGIONS ==> #[trigger] config.mpu_regions[i]
                        == (MpuRegion { rbar: RbarVal(0), rasr: RasrVal(0) })
            },
            r is Err ==> r == Err::<Self, ConfigError>(ConfigError::InvalidRegion),
    {
        let mut mpu_regions = [MpuRegion::const_default();NUM_MPU_REGIONS];
        let mut i: usize = 0;
        while i < regions.len()
            invariant
                i <= regions@.len() <= NUM_MPU_REGIONS,
                forall|j: int| 0 <= j < i ==> (#[trigger] regions@[j]).start < regions@[j].end,
                forall|j: int|
                    0 <= j < i ==> Ok::<MpuRegion, ConfigError>(#[trigger] mpu_regions[j])
                        == MpuRegion::spec_from_memory_region(regions@[j]),
                forall|j: int|
                    i <= j < NUM_MPU_REGIONS ==> #[trigger] mpu_regions[j] == (MpuRegion {
                        rbar: RbarVal(0),
                        rasr: RasrVal(0),
                    }),
            decreases regions@.len() - i,
        {
            match MpuRegion::from_memory_region(&regions[i]) {
                Ok(region) => {
                    mpu_regions[i] = region;
                },
                Err(e) => {
                    return Err(e);
                },
            }
            i += 1;
        }
        Ok(Self { mpu_regions, generic_regions: regions })
    }

    /// The configuration of kernel threads: the whole address space,
    /// readable, writable and executable, in region 0.
    pub fn kernel_thread_memory_config() -> (config: Self)
        ensures
            config.generic_regions@ == seq![
                MemoryRegion {
                    ty: MemoryRegionType::ReadWriteExecutable,
                    start: 0,
                    end: 0xffff_ffff,
                },
            ],
            config.mpu_regions[0] == MpuRegion::image(
                MemoryRegionType::ReadWriteExecutable,
                AlignedRegion::whole_space(),
            ),
            forall|i: int|
                1 <= i < NUM_MPU_REGIONS ==> #[trigger] config.mpu_regions[i] == (MpuRegion {
                    rbar: RbarVal(0),
                    rasr: RasrVal(0),
                }),
    {
        let regions: &'static [MemoryRegion] = &[
            MemoryRegion {
                ty: MemoryRegionType::ReadWriteExecutable,
                start: 0x0000_0000,
                end: 0xffff_ffff,
            },
        ];
        match Self::const_new(regions) {
            Ok(config) => config,
            Err(_) => {
                assert(regions@[0].start < regions@[0].end);
                vstd::pervasive::unreached()
            },
        }
    }

    /// The action at position `step` of writing this memory configuration
    /// to the MPU registers.
    ///
    /// The caller performs the actions of steps 0, 1, 2, ... in turn until
    /// `Done` comes back, and passes with each step the value that the last
    /// `ReadCtrl` delivered.  The caller must ensure that it is safe and
    /// sound to update the MPU with this memory config.
    pub fn write(&self, step: usize, ctrl: CtrlVal) -> (action: MpuAction)
        ensures
            action == self.write_action(step as int, ctrl),
    {
        if step == 0 {
            MpuAction::ReadCtrl
        } else if step == 1 {
            // The MPU is not disabled during reconfiguration: that would
            // lift every protection while the stack is in use.
            MpuAction::WriteCtrl(ctrl.with_enable(true).with_hfnmiena(false).with_privdefena(true))
        } else if step < 2 + 3 * NUM_MPU_REGIONS {
            let index: usize = (step - 2) / 3;
            let part: usize = (step - 2) % 3;
            if part == 0 {
                MpuAction::WriteRnr(RnrVal::const_default().with_region(index as u8))
            } else if part == 1 {
                MpuAction::WriteRbar(self.mpu_regions[index].rbar)
            } else {
                MpuAction::WriteRasr(self.mpu_regions[index].rasr)
            }
        } else if step == 2 + 3 * NUM_MPU_REGIONS {
            MpuAction::ReadCtrl
        } else if step == 3 + 3 * NUM_MPU_REGIONS {
            MpuAction::WriteCtrl(ctrl.with_enable(true))
        } else if step == 4 + 3 * NUM_MPU_REGIONS {
            MpuAction::Dsb
        } else if step == 5 + 3 * NUM_MPU_REGIONS {
            MpuAction::Isb
        } else {
            MpuAction::Done
        }
    }

    /// Whether the logical regions of this configuration grant an access of
    /// type `access_type` to all of `[start_addr, end_addr)`: one region
    /// covers the whole range and its type permits the access.
    pub fn range_has_access(
        &self,
        access_type: MemoryRegionType,
        start_addr: u32,
        end_addr: u32,
    ) -> (r: bool)
        ensures
            r == MemoryRegion::spec_regions_have_access(
                self.generic_regions@,
                MemoryRegion { ty: access_type, start: start_addr, end: end_addr },
            ),
    {
        let validation_region = MemoryRegion::new(access_type, start_addr, end_addr);
        MemoryRegion::regions_have_access(self.generic_regions, &validation_region)
    }
}

/// Initialize the MPU for supporting user space memory protection (PMSAv7).
///
/// PMSAv7 has no attribute indirection registers: memory attributes are
/// encoded directly in `RASR`, so nothing is left to set up here.
pub fn init() {
}

} // verus!
