use pw_kernel_image::memory_config::{MemoryRegion, MemoryRegionType};
use pw_kernel_image::protection_v7::{
    AlignedRegion, ConfigError, MemoryConfig, MpuRegion, RegionAttributes,
    NUM_MPU_REGIONS,
};
use pw_kernel_image::regs::{RasrAp, RasrVal, RbarVal};

fn region_bytes(r: &AlignedRegion) -> u64 {
    1u64 << (r.size_field as u32 + 1)
}

fn enabled(r: &AlignedRegion, i: u32) -> bool {
    r.srd_mask & (1u8 << i) == 0
}

fn subregion(r: &AlignedRegion, i: u32) -> (u64, u64) {
    let sub = region_bytes(r) / 8;
    let start = r.base as u64 + i as u64 * sub;
    (start, start + sub)
}

/// Checks on one range what holds of every range below 2 GiB.
fn check_geometry(start: u32, end: u32) {
    let r = MpuRegion::calculate_aligned_region(start, end);
    let size = region_bytes(&r);
    let page = (start & !(0x40000 - 1)) as u64;
    assert!(size.is_power_of_two());
    assert!((32..=0x8000_0000).contains(&size));
    let naive = start as u64 & !(size - 1);
    assert_eq!(r.base as u64 % size == 0, naive >= page);
    for i in 0..8 {
        let (sub_start, sub_end) = subregion(&r, i);
        assert!(sub_start >= page);
        let overlaps = sub_start < end as u64 && sub_end > start as u64;
        assert_eq!(enabled(&r, i), overlaps);
    }
    // Both ends of the range, and a point in between, lie in enabled sub-regions.
    for a in [start as u64, start as u64 + (end - start) as u64 / 2, end as u64 - 1] {
        let covered = (0..8).any(|i| {
            let (sub_start, sub_end) = subregion(&r, i);
            enabled(&r, i) && sub_start <= a && a < sub_end
        });
        assert!(covered);
    }
}

#[test]
fn tight_ram_region() {
    let r = MpuRegion::calculate_aligned_region(0x40420, 0x60420);
    assert_eq!(r.base, 0x40000);
    assert_eq!(r.size_field, 17);
    assert_eq!(region_bytes(&r), 0x40000);
    assert_eq!(r.srd_mask, 0b1110_0000);
    // The mask follows from the overlap of each 32 KiB sub-region with the range.
    for i in 0..8 {
        let (sub_start, sub_end) = subregion(&r, i);
        assert_eq!(enabled(&r, i), sub_start < 0x60420 && sub_end > 0x40420);
    }
}

#[test]
fn cross_boundary_guard_not_triggered() {
    let r = MpuRegion::calculate_aligned_region(0x60420, 0x60500);
    assert_eq!(r.base, 0x60400);
    assert!(r.base >= 0x40000);
    assert_eq!(r.size_field, 7);
    assert_eq!(r.srd_mask, 0b0000_0001);
}

#[test]
fn cross_boundary_guard_triggered() {
    // 320 KiB from 0x60420 need a 512 KiB block; rounding down to 512 KiB would
    // reach address 0, below the frame at 0x40000.
    let r = MpuRegion::calculate_aligned_region(0x60420, 0xb0420);
    assert_eq!(r.base, 0x40000);
    assert_eq!(r.size_field, 18);
    assert_eq!(r.srd_mask, 0b0000_0011);
    assert_ne!(r.base as u64 % region_bytes(&r), 0);
}

#[test]
fn whole_space_kernel_view() {
    let r = MpuRegion::calculate_aligned_region(0x0000_0000, 0xffff_ffff);
    assert_eq!(r, AlignedRegion { base: 0, size_field: 30, srd_mask: 0 });
    let region = MemoryRegion::new(MemoryRegionType::ReadWriteExecutable, 0, 0xffff_ffff);
    let m = MpuRegion::from_memory_region(&region).unwrap();
    assert_eq!(m.rbar, RbarVal(0));
    assert_eq!(m.rasr, RasrVal(0x030f_003d));
}

#[test]
fn range_of_two_gib_gets_whole_space() {
    let r = MpuRegion::calculate_aligned_region(0x1000, 0x8000_1000);
    assert_eq!(r, AlignedRegion { base: 0, size_field: 30, srd_mask: 0 });
}

#[test]
fn range_that_no_block_reaches_gets_whole_space() {
    // One byte short of 2 GiB, starting at the top of the first frame: the 2 GiB
    // block at base 0 ends before the range does.
    let r = MpuRegion::calculate_aligned_region(0x3_ffff, 0x8003_fffe);
    assert_eq!(r, AlignedRegion { base: 0, size_field: 30, srd_mask: 0 });
}

#[test]
fn smallest_region_is_32_bytes() {
    let r = MpuRegion::calculate_aligned_region(0x2000_0000, 0x2000_0001);
    assert_eq!(r.base, 0x2000_0000);
    assert_eq!(r.size_field, 4);
    assert_eq!(r.srd_mask, 0b1111_1110);
}

#[test]
fn region_grows_until_it_reaches_the_end() {
    // 32 bytes that straddle a 32-byte boundary need a 64-byte block.
    let r = MpuRegion::calculate_aligned_region(0x1010, 0x1030);
    assert_eq!(r.base, 0x1000);
    assert_eq!(r.size_field, 5);
    assert_eq!(r.srd_mask, 0b1100_0011);
}

#[test]
fn range_at_the_top_of_the_address_space() {
    let r = MpuRegion::calculate_aligned_region(0xffff_ff00, 0xffff_ffff);
    assert_eq!(r.base, 0xffff_ff00);
    assert_eq!(r.size_field, 7);
    assert_eq!(r.srd_mask, 0);
}

#[test]
fn geometry_holds_on_sample_ranges() {
    let starts = [0u32, 1, 0x1f, 0x20, 0x420, 0x3_ffff, 0x4_0000, 0x4_0420, 0x6_0420, 0x1234_5678, 0x7fff_ff00];
    let lengths = [1u32, 2, 31, 32, 33, 0xe0, 0x100, 0x1000, 0x2_0000, 0x4_0000, 0x5_0000, 0x100_0000, 0x4000_0000];
    for start in starts {
        for len in lengths {
            if let Some(end) = start.checked_add(len) {
                if end < 0x8000_0000 {
                    check_geometry(start, end);
                }
            }
        }
    }
}

#[test]
fn enabled_subregions_overlap_the_range() {
    for (start, end) in [(0x40420u32, 0x60420u32), (0x60420, 0x60500), (0, 0xffff_ffff), (0x800_0000, 0x7800_0000)] {
        let r = MpuRegion::calculate_aligned_region(start, end);
        for i in 0..8 {
            if enabled(&r, i) {
                let (sub_start, sub_end) = subregion(&r, i);
                assert!(sub_start < end as u64 && sub_end > start as u64);
            }
        }
    }
}

#[test]
fn whole_space_may_enable_more_than_the_range() {
    // A range of 2 GiB that starts at 0x7000_0000 leaves the first seven
    // sub-regions of the whole-space region outside it, and they stay enabled.
    let r = MpuRegion::calculate_aligned_region(0x7000_0000, 0xf000_0000);
    assert_eq!(r, AlignedRegion { base: 0, size_field: 30, srd_mask: 0 });
    let (sub_start, sub_end) = subregion(&r, 0);
    assert!(enabled(&r, 0));
    assert!(!(sub_start < 0xf000_0000 && sub_end > 0x7000_0000));
}

#[test]
fn size_field_values() {
    assert_eq!(MpuRegion::calculate_size_field(0), 4);
    assert_eq!(MpuRegion::calculate_size_field(1), 4);
    assert_eq!(MpuRegion::calculate_size_field(16), 4);
    assert_eq!(MpuRegion::calculate_size_field(32), 4);
    assert_eq!(MpuRegion::calculate_size_field(63), 4);
    assert_eq!(MpuRegion::calculate_size_field(64), 5);
    assert_eq!(MpuRegion::calculate_size_field(256), 7);
    assert_eq!(MpuRegion::calculate_size_field(0x4_0000), 17);
    assert_eq!(MpuRegion::calculate_size_field(0x8000_0000), 30);
    assert_eq!(MpuRegion::calculate_size_field(u64::MAX), 62);
}

#[test]
fn empty_and_reversed_regions_are_invalid() {
    let empty = MemoryRegion::new(MemoryRegionType::ReadWriteData, 0x1000, 0x1000);
    assert_eq!(MpuRegion::from_memory_region(&empty), Err(ConfigError::InvalidRegion));
    let reversed = MemoryRegion::new(MemoryRegionType::ReadWriteData, 0x2000, 0x1000);
    assert_eq!(MpuRegion::from_memory_region(&reversed), Err(ConfigError::InvalidRegion));
}

#[test]
fn attribute_table() {
    let ro = RegionAttributes::of(MemoryRegionType::ReadOnlyData);
    assert_eq!((ro.xn, ro.tex, ro.s, ro.c, ro.b, ro.ap), (true, 0b001, true, true, true, RasrAp::RoAny));
    let rw = RegionAttributes::of(MemoryRegionType::ReadWriteData);
    assert_eq!((rw.xn, rw.tex, rw.s, rw.c, rw.b, rw.ap), (true, 0b001, false, true, true, RasrAp::RwAny));
    let rx = RegionAttributes::of(MemoryRegionType::ReadOnlyExecutable);
    assert_eq!((rx.xn, rx.tex, rx.s, rx.c, rx.b, rx.ap), (false, 0b001, true, true, true, RasrAp::RoAny));
    let rwx = RegionAttributes::of(MemoryRegionType::ReadWriteExecutable);
    assert_eq!((rwx.xn, rwx.tex, rwx.s, rwx.c, rwx.b, rwx.ap), (false, 0b001, true, true, true, RasrAp::RwAny));
    let dev = RegionAttributes::of(MemoryRegionType::Device);
    assert_eq!((dev.xn, dev.tex, dev.s, dev.c, dev.b, dev.ap), (true, 0b000, true, false, true, RasrAp::RoAny));
}

#[test]
fn register_images_of_each_type() {
    // 256 bytes at 0x2000_0000: SIZE = 7, no sub-region disabled.
    let image = |ty| {
        MpuRegion::from_memory_region(&MemoryRegion::new(ty, 0x2000_0000, 0x2000_0100)).unwrap()
    };
    let size_and_enable = (7 << 1) | 1;
    let normal = (0b001 << 19) | (1 << 17) | (1 << 16);
    let xn = 1 << 28;
    let s = 1 << 18;
    let ro_any = 0b110 << 24;
    let rw_any = 0b011 << 24;
    assert_eq!(image(MemoryRegionType::ReadOnlyData).rasr.0, size_and_enable | normal | s | ro_any | xn);
    assert_eq!(image(MemoryRegionType::ReadWriteData).rasr.0, size_and_enable | normal | rw_any | xn);
    assert_eq!(image(MemoryRegionType::ReadOnlyExecutable).rasr.0, size_and_enable | normal | s | ro_any);
    assert_eq!(image(MemoryRegionType::ReadWriteExecutable).rasr.0, size_and_enable | normal | s | rw_any);
    assert_eq!(image(MemoryRegionType::Device).rasr.0, size_and_enable | (1 << 16) | s | ro_any | xn);
    assert_eq!(image(MemoryRegionType::ReadOnlyData).rbar.0, 0x2000_0000);
}

#[test]
fn tight_ram_region_register_images() {
    let region = MemoryRegion::new(MemoryRegionType::ReadWriteData, 0x40420, 0x60420);
    let m = MpuRegion::from_memory_region(&region).unwrap();
    assert_eq!(m.rbar.0, 0x0004_0000);
    assert_eq!(m.rasr.0, 0x130b_e023);
}

#[test]
fn decoding_recovers_the_placement() {
    for (start, end) in [(0x40420u32, 0x60420u32), (0x60420, 0x60500), (0, 0xffff_ffff), (0x60420, 0xb0420), (0x2000_0000, 0x2000_0001)] {
        let placement = MpuRegion::calculate_aligned_region(start, end);
        let region = MemoryRegion::new(MemoryRegionType::ReadOnlyExecutable, start, end);
        let m = MpuRegion::from_memory_region(&region).unwrap();
        assert_eq!(m.rbar.addr(), placement.base);
        assert_eq!(m.rasr.size(), placement.size_field);
        assert_eq!(m.rasr.srd(), placement.srd_mask);
        assert!(m.rasr.enable());
        assert!(!m.rbar.valid());
    }
}

#[test]
fn default_region_is_disabled() {
    let m = MpuRegion::const_default();
    assert_eq!(m.rbar.0, 0);
    assert_eq!(m.rasr.0, 0);
    assert!(!m.rasr.enable());
}

#[test]
fn config_compiles_regions_in_order() {
    let regions: &'static [MemoryRegion] = &[
        MemoryRegion { ty: MemoryRegionType::ReadOnlyExecutable, start: 0x40420, end: 0x60420 },
        MemoryRegion { ty: MemoryRegionType::ReadWriteData, start: 0xa0420, end: 0xa4420 },
    ];
    assert!(regions.len() <= NUM_MPU_REGIONS);
    let config = MemoryConfig::const_new(regions).unwrap();
    assert_eq!(config.mpu_regions.len(), 8);
    assert_eq!(config.mpu_regions[0], MpuRegion::from_memory_region(&regions[0]).unwrap());
    assert_eq!(config.mpu_regions[1], MpuRegion::from_memory_region(&regions[1]).unwrap());
    for i in 2..8 {
        assert_eq!(config.mpu_regions[i], MpuRegion::const_default());
    }
    assert_eq!(config.generic_regions, regions);
}

#[test]
fn config_rejects_an_invalid_region() {
    let regions: &'static [MemoryRegion] = &[
        MemoryRegion { ty: MemoryRegionType::ReadOnlyExecutable, start: 0x40420, end: 0x60420 },
        MemoryRegion { ty: MemoryRegionType::ReadWriteData, start: 0xa4420, end: 0xa0420 },
    ];
    assert!(matches!(MemoryConfig::const_new(regions), Err(ConfigError::InvalidRegion)));
}

#[test]
fn kernel_thread_config_covers_everything() {
    let config = MemoryConfig::kernel_thread_memory_config();
    assert_eq!(config.mpu_regions[0].rbar.0, 0);
    assert_eq!(config.mpu_regions[0].rasr.0, 0x030f_003d);
    for i in 1..8 {
        assert_eq!(config.mpu_regions[i], MpuRegion::const_default());
    }
    assert!(config.range_has_access(MemoryRegionType::ReadWriteExecutable, 0, 0xffff_ffff));
    assert!(config.range_has_access(MemoryRegionType::ReadOnlyData, 0x1000, 0x2000));
    assert!(!config.range_has_access(MemoryRegionType::Device, 0x1000, 0x2000));
}

#[test]
fn range_access_needs_one_covering_region_of_a_permitting_type() {
    let regions: &'static [MemoryRegion] = &[
        MemoryRegion { ty: MemoryRegionType::ReadOnlyExecutable, start: 0x1000, end: 0x2000 },
        MemoryRegion { ty: MemoryRegionType::ReadWriteData, start: 0x2000, end: 0x3000 },
    ];
    let config = MemoryConfig::const_new(regions).unwrap();
    assert!(config.range_has_access(MemoryRegionType::ReadOnlyData, 0x1000, 0x2000));
    assert!(config.range_has_access(MemoryRegionType::ReadOnlyExecutable, 0x1800, 0x1900));
    assert!(!config.range_has_access(MemoryRegionType::ReadWriteData, 0x1000, 0x2000));
    assert!(config.range_has_access(MemoryRegionType::ReadWriteData, 0x2000, 0x3000));
    assert!(!config.range_has_access(MemoryRegionType::ReadOnlyExecutable, 0x2000, 0x3000));
    // No single region covers a range that spans both.
    assert!(!config.range_has_access(MemoryRegionType::ReadOnlyData, 0x1800, 0x2800));
    assert!(!config.range_has_access(MemoryRegionType::ReadOnlyData, 0x0fff, 0x2000));
    assert!(!config.range_has_access(MemoryRegionType::ReadOnlyData, 0x2000, 0x3001));
}

#[test]
fn access_between_region_types() {
    let ro_data = MemoryRegionType::ReadOnlyData;
    let rw_data = MemoryRegionType::ReadWriteData;
    let ro_exec = MemoryRegionType::ReadOnlyExecutable;
    let rw_exec = MemoryRegionType::ReadWriteExecutable;
    let device = MemoryRegionType::Device;
    let all = [ro_data, rw_data, ro_exec, rw_exec, device];
    for ty in all {
        assert!(ty.has_access(ty));
        assert!(ty.has_access(ro_data));
    }
    assert!(rw_exec.has_access(rw_data));
    assert!(rw_exec.has_access(ro_exec));
    assert!(!rw_exec.has_access(device));
    assert!(!ro_data.has_access(rw_data));
    assert!(!rw_data.has_access(ro_exec));
    assert!(!ro_exec.has_access(rw_data));
    assert!(device.has_access(rw_data));
    assert!(!device.has_access(ro_exec));
}

#[test]
fn init_does_nothing() {
    pw_kernel_image::protection_v7::init();
}
