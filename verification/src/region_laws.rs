//! What holds of every region that the region compiler emits, and of the
//! register write protocol.

use vstd::prelude::*;
use crate::protection_v7::{
    ConfigError,
    MemoryConfig,
    MpuAction,
    MpuRegion,
    RegionAttributes,
    NUM_MPU_REGIONS,
    align_down,
    aligned_region,
    covering_size,
    fitted_size,
    floor_log2,
    guarded_base,
    is_power_of_two,
    is_whole_space_fallback,
    lemma_align_down_multiple,
    lemma_rasr_image,
    lemma_rbar_image,
    min_region_size,
    region_covers,
    size_field_of,
    srd_bit,
    srd_prefix,
    subregion_overlaps,
    two_pow,
};
use crate::memory_config::MemoryRegion;
use crate::regs::CtrlVal;

verus! {

proof fn lemma_power_of_two_gap(a: int, b: int)
    requires
        is_power_of_two(a),
        is_power_of_two(b),
        a < b,
    ensures
        2 * a <= b,
    decreases b,
{
    if a > 1 {
        lemma_power_of_two_gap(a / 2, b / 2);
    }
}

proof fn lemma_power_of_two_constants()
    ensures
        is_power_of_two(32),
        is_power_of_two(0x8000_0000),
        two_pow(31) == 0x8000_0000,
{
    reveal_with_fuel(is_power_of_two, 33);
    reveal_with_fuel(two_pow, 32);
}

proof fn lemma_two_pow_floor_log2(n: int)
    requires
        is_power_of_two(n),
    ensures
        floor_log2(n) >= 0,
        two_pow(floor_log2(n) as nat) == n,
        n >= 32 ==> floor_log2(n) >= 5,
    decreases n,
{
    if n > 1 {
        lemma_two_pow_floor_log2(n / 2);
        reveal_with_fuel(floor_log2, 6);
    }
}

proof fn lemma_min_region_size(req: int, size: int)
    requires
        is_power_of_two(size),
        size <= 0x8000_0000,
    ensures
        is_power_of_two(min_region_size(req, size)),
        size <= min_region_size(req, size),
        req <= 0x8000_0000 ==> min_region_size(req, size) <= 0x8000_0000,
    decreases 0x1_0000_0000 - size,
{
    lemma_power_of_two_constants();
    if !(size >= req || size > 0x8000_0000 || size <= 0) {
        if size < 0x8000_0000 {
            lemma_power_of_two_gap(size, 0x8000_0000);
            lemma_min_region_size(req, 2 * size);
        }
    }
}

proof fn lemma_covering_size(start: int, end: int, size: int)
    requires
        0 <= start,
        is_power_of_two(size),
        size <= 0x1_0000_0000,
    ensures
        is_power_of_two(covering_size(start, end, size)),
        size <= covering_size(start, end, size),
        size <= 0x8000_0000 && end <= 0x8000_0000 ==> covering_size(start, end, size)
            <= 0x8000_0000,
        covering_size(start, end, size) <= 0x8000_0000 ==> region_covers(
            start,
            end,
            covering_size(start, end, size),
        ),
    decreases 0x1_0000_0000 - size,
{
    lemma_power_of_two_constants();
    if !(region_covers(start, end, size) || size > 0x8000_0000 || size <= 0) {
        if size < 0x8000_0000 {
            lemma_power_of_two_gap(size, 0x8000_0000);
        } else {
            lemma_align_down_multiple(start, size, 1);
            lemma_align_down_multiple(start, 0x4_0000, 1);
        }
        lemma_covering_size(start, end, 2 * size);
    }
}

/// In a mask of the first `n` sub-regions, bit `i` is clear exactly when
/// sub-region `i` lies behind the prefix or overlaps the range.
proof fn lemma_srd_bits(base: int, size: int, start: int, end: int, n: int, i: int)
    requires
        0 <= i < 8,
        0 <= n <= 8,
    ensures
        (srd_prefix(base, size, start, end, n) & srd_bit(i) == 0) <==> (i >= n
            || subregion_overlaps(base, size, i, start, end)),
    decreases n,
{
    let bit = srd_bit(i);
    if n == 0 {
        assert(0u8 & bit == 0) by (bit_vector);
    } else {
        lemma_srd_bits(base, size, start, end, n - 1, i);
        let prev = srd_prefix(base, size, start, end, n - 1);
        let last = srd_bit(n - 1);
        let iu = i as u8;
        let nu = (n - 1) as u8;
        assert(((prev | last) & bit == 0) <==> (prev & bit == 0 && last & bit == 0))
            by (bit_vector);
        assert(((1u8 << nu) & (1u8 << iu) == 0) <==> nu != iu) by (bit_vector)
            requires
                nu < 8,
                iu < 8,
        ;
    }
}

/// The size, base and mask of a region that is not the whole-space
/// fallback.
proof fn lemma_fitted_region(start: int, end: int)
    requires
        0 <= start < end <= 0xffff_ffff,
        !is_whole_space_fallback(start, end),
    ensures
        ({
            let r = aligned_region(start, end);
            let size = fitted_size(start, end);
            &&& is_power_of_two(size)
            &&& 32 <= size <= 0x8000_0000
            &&& size % 8 == 0
            &&& r.size() == size
            &&& r.base == guarded_base(start, size)
            &&& r.base <= start
            &&& r.base + size >= end
            &&& r.srd_mask == srd_prefix(r.base as int, size, start, end, 8)
            &&& r.base % 32 == 0
            &&& 4 <= r.size_field <= 30
        }),
{
    lemma_power_of_two_constants();
    let first = min_region_size(end - start, 32);
    lemma_min_region_size(end - start, 32);
    lemma_covering_size(start, end, first);
    let size = fitted_size(start, end);
    lemma_two_pow_floor_log2(size);
    lemma_align_down_multiple(start, size, 1);
    lemma_align_down_multiple(start, 0x4_0000, 1);
    crate::protection_v7::lemma_floor_log2_bound(size, 32);
    reveal_with_fuel(two_pow, 33);
    reveal_with_fuel(is_power_of_two, 4);
    assert(size_field_of(size) == floor_log2(size) - 1);
    assert(two_pow((floor_log2(size) - 1 + 1) as nat) == size);
    assert(size % 32 == 0) by {
        reveal_with_fuel(is_power_of_two, 6);
    }
    lemma_align_down_multiple(start, size, 32);
    lemma_align_down_multiple(start, 0x4_0000, 32);
}

/// Shape of the region emitted for a range below 2 GiB.
///
/// The block is a power of two between 32 bytes and 2 GiB.  Every address
/// of the range lies in an enabled sub-region, and no sub-region starts
/// below the 256 KiB frame that holds `start`.  The base is a multiple of
/// the size exactly when rounding `start` down to the size stays inside
/// that frame; where it would not, the base is the frame's start instead.
pub proof fn lemma_region_geometry(start: u32, end: u32)
    requires
        start < end,
        end < 0x8000_0000,
    ensures
        ({
            let r = aligned_region(start as int, end as int);
            let page = align_down(start as int, 0x4_0000);
            &&& is_power_of_two(r.size())
            &&& 32 <= r.size() <= 0x8000_0000
            &&& (r.base as int % r.size() == 0 <==> align_down(start as int, r.size()) >= page)
            &&& forall|a: int| start <= a < end ==> #[trigger] r.covers_address(a)
            &&& forall|i: int| 0 <= i < 8 ==> #[trigger] r.subregion_start(i) >= page
        }),
{
    let s = start as int;
    let e = end as int;
    let r = aligned_region(s, e);
    let page = align_down(s, 0x4_0000);
    lemma_power_of_two_constants();
    lemma_min_region_size(e - s, 32);
    lemma_covering_size(s, e, min_region_size(e - s, 32));
    assert(!is_whole_space_fallback(s, e));
    lemma_fitted_region(s, e);
    let size = fitted_size(s, e);
    let sub = size / 8;
    let naive = align_down(s, size);
    lemma_align_down_multiple(s, size, 1);
    lemma_align_down_multiple(s, 0x4_0000, 1);
    if naive < page {
        // A multiple of `size` at or below `start` is at or below `naive`.
        if page % size == 0 {
            lemma_multiple_below(page, s, size);
        }
    }
    assert forall|a: int| s <= a < e implies #[trigger] r.covers_address(a) by {
        let i = (a - r.base) / sub;
        vstd::arithmetic::div_mod::lemma_fundamental_div_mod(a - r.base, sub);
        vstd::arithmetic::div_mod::lemma_mod_pos_bound(a - r.base, sub);
        vstd::arithmetic::div_mod::lemma_div_pos_is_pos(a - r.base, sub);
        assert(i < 8) by (nonlinear_arith)
            requires
                a - r.base == sub * i + (a - r.base) % sub,
                0 <= (a - r.base) % sub,
                a - r.base < 8 * sub,
                sub > 0,
        ;
        assert(sub * i == i * sub) by (nonlinear_arith);
        lemma_srd_bits(r.base as int, size, s, e, 8, i);
        assert(subregion_overlaps(r.base as int, size, i, s, e));
        assert(r.subregion_enabled(i));
    }
    assert forall|i: int| 0 <= i < 8 implies #[trigger] r.subregion_start(i) >= page by {
        assert(i * sub >= 0) by (nonlinear_arith)
            requires
                i >= 0,
                sub >= 0,
        ;
    }
}

proof fn lemma_multiple_below(m: int, x: int, size: int)
    requires
        size > 0,
        0 <= m <= x,
        m % size == 0,
    ensures
        m <= align_down(x, size),
{
    vstd::arithmetic::div_mod::lemma_fundamental_div_mod(x, size);
    vstd::arithmetic::div_mod::lemma_fundamental_div_mod(m, size);
    vstd::arithmetic::div_mod::lemma_div_is_ordered(m, x, size);
    assert(size * (m / size) <= size * (x / size)) by (nonlinear_arith)
        requires
            m / size <= x / size,
            size > 0,
    ;
}

/// No sub-region is left enabled without need: every enabled sub-region
/// shares an address with the range.
///
/// The whole-space region, which stands in for ranges of 2 GiB or more and
/// for ranges that no block up to 2 GiB reaches, has all eight sub-regions
/// enabled; there this holds of the ranges that touch the first and the
/// last of them, and of no others: see [`lemma_whole_space_overreach`].
pub proof fn lemma_coverage_minimal(start: u32, end: u32)
    requires
        start < end,
        is_whole_space_fallback(start as int, end as int) ==> start < 0x1000_0000 && end
            > 0x7000_0000,
    ensures
        ({
            let r = aligned_region(start as int, end as int);
            forall|i: int|
                0 <= i < 8 && #[trigger] r.subregion_enabled(i) ==> r.subregion_start(i) < end
                    && r.subregion_end(i) > start
        }),
{
    let s = start as int;
    let e = end as int;
    let r = aligned_region(s, e);
    lemma_power_of_two_constants();
    if is_whole_space_fallback(s, e) {
        assert forall|i: int| 0 <= i < 8 && #[trigger] r.subregion_enabled(i) implies r.subregion_start(
            i,
        ) < e && r.subregion_end(i) > s by {
            assert(r.size() / 8 == 0x1000_0000);
            assert(i * 0x1000_0000 <= 7 * 0x1000_0000);
        }
    } else {
        lemma_fitted_region(s, e);
        let size = fitted_size(s, e);
        assert forall|i: int| 0 <= i < 8 && #[trigger] r.subregion_enabled(i) implies r.subregion_start(
            i,
        ) < e && r.subregion_end(i) > s by {
            lemma_srd_bits(r.base as int, size, s, e, 8, i);
        }
    }
}

/// Where the whole-space region leaves a sub-region enabled without need.
///
/// The whole-space region has all eight sub-regions enabled.  A range that
/// gets it and does not touch both the first and the last of them leaves
/// one of the two enabled although it shares no address with the range.
pub proof fn lemma_whole_space_overreach(start: u32, end: u32)
    requires
        start < end,
        is_whole_space_fallback(start as int, end as int),
        !(start < 0x1000_0000 && end > 0x7000_0000),
    ensures
        ({
            let r = aligned_region(start as int, end as int);
            exists|i: int|
                0 <= i < 8 && #[trigger] r.subregion_enabled(i) && !(r.subregion_start(i) < end
                    && r.subregion_end(i) > start)
        }),
{
    let r = aligned_region(start as int, end as int);
    lemma_power_of_two_constants();
    assert(r.size() / 8 == 0x1000_0000);
    assert(0u8 & (1u8 << 0u8) == 0 && 0u8 & (1u8 << 7u8) == 0) by (bit_vector);
    if start >= 0x1000_0000 {
        assert(r.subregion_enabled(0));
        assert(r.subregion_end(0) <= start);
    } else {
        assert(r.subregion_enabled(7));
        assert(r.subregion_start(7) >= end);
    }
}

/// Decoding the register images of a region gives back its placement: the
/// base from `RBAR`, the size field and the sub-region mask from `RASR`.
pub proof fn lemma_image_round_trip(region: MemoryRegion)
    requires
        region.start < region.end,
    ensures
        ({
            let placement = aligned_region(region.start as int, region.end as int);
            let m = MpuRegion::image(region.ty, placement);
            &&& MpuRegion::spec_from_memory_region(region) == Ok::<MpuRegion, ConfigError>(m)
            &&& m.rbar.spec_addr() == placement.base
            &&& m.rasr.spec_size() == placement.size_field
            &&& m.rasr.spec_srd() == placement.srd_mask
        }),
{
    let s = region.start as int;
    let e = region.end as int;
    let placement = aligned_region(s, e);
    if !is_whole_space_fallback(s, e) {
        lemma_fitted_region(s, e);
    }
    let attrs = RegionAttributes::spec_of(region.ty);
    lemma_rbar_image(placement.base);
    lemma_rasr_image(
        placement.size_field,
        placement.srd_mask,
        attrs.b,
        attrs.c,
        attrs.s,
        attrs.tex,
        attrs.ap.spec_bits(),
        attrs.xn,
    );
}

/// Order of the register writes.
///
/// Region `index` is written at steps `2 + 3 * index` and the two after it,
/// as `RNR`, `RBAR`, `RASR`; every such step comes before the barriers; the
/// `ISB` follows the `DSB` at once and ends the sequence.
pub proof fn lemma_write_order(config: MemoryConfig, ctrl: CtrlVal)
    ensures
        config.write_action(MemoryConfig::barrier_step(), ctrl) == MpuAction::Dsb,
        config.write_action(MemoryConfig::barrier_step() + 1, ctrl) == MpuAction::Isb,
        forall|step: int|
            step > MemoryConfig::barrier_step() + 1 ==> #[trigger] config.write_action(step, ctrl)
                == MpuAction::Done,
        forall|step: int|
            0 <= step < MemoryConfig::barrier_step() ==> !is_closing(
                #[trigger] config.write_action(step, ctrl),
            ),
        forall|index: int|
            0 <= index < NUM_MPU_REGIONS ==> #[trigger] writes_region(config, ctrl, index),
{
    assert forall|index: int| 0 <= index < NUM_MPU_REGIONS implies #[trigger] writes_region(
        config,
        ctrl,
        index,
    ) by {
        let x = index as u32;
        let w = (0u32 & !0xffu32) | ((x << 0u32) & 0xffu32);
        assert((w & 0xffu32) >> 0u32 == x) by (bit_vector)
            requires
                x < 8,
                w == (0u32 & !0xffu32) | ((x << 0u32) & 0xffu32),
        ;
    }
}

/// The action is a barrier or the end of the sequence.
pub open spec fn is_closing(action: MpuAction) -> bool {
    action == MpuAction::Dsb || action == MpuAction::Isb || action == MpuAction::Done
}

/// Steps `2 + 3 * index` to `4 + 3 * index` select region `index` and write
/// its two registers.
pub open spec fn writes_region(config: MemoryConfig, ctrl: CtrlVal, index: int) -> bool {
    let base = 2 + 3 * index;
    &&& config.write_action(base, ctrl) is WriteRnr
    &&& config.write_action(base, ctrl)->WriteRnr_0.spec_region() == index
    &&& config.write_action(base + 1, ctrl) == MpuAction::WriteRbar(config.mpu_regions[index].rbar)
    &&& config.write_action(base + 2, ctrl) == MpuAction::WriteRasr(config.mpu_regions[index].rasr)
}

/// Protection is never switched off on the way: every value that the
/// protocol writes to the control register has `ENABLE` set.
pub proof fn lemma_write_keeps_enabled(config: MemoryConfig, ctrl: CtrlVal, step: int)
    requires
        config.write_action(step, ctrl) is WriteCtrl,
    ensures
        config.write_action(step, ctrl)->WriteCtrl_0.spec_enable(),
{
    let c = ctrl.0;
    let w1 = (c & !0x1u32) | ((1u32 << 0u32) & 0x1u32);
    let w2 = (w1 & !0x2u32) | ((0u32 << 1u32) & 0x2u32);
    let w3 = (w2 & !0x4u32) | ((1u32 << 2u32) & 0x4u32);
    assert((w1 & 0x1u32) >> 0u32 == 1 && (w3 & 0x1u32) >> 0u32 == 1) by (bit_vector)
        requires
            w1 == (c & !0x1u32) | ((1u32 << 0u32) & 0x1u32),
            w2 == (w1 & !0x2u32) | ((0u32 << 1u32) & 0x2u32),
            w3 == (w2 & !0x4u32) | ((1u32 << 2u32) & 0x4u32),
    ;
}

} // verus!
