use pw_kernel_image::memory_config::{MemoryRegion, MemoryRegionType};
use pw_kernel_image::protection_v7::{MemoryConfig, MpuAction, NUM_MPU_REGIONS};
use pw_kernel_image::regs::{CtrlVal, RasrVal, RbarVal, RnrVal};

/// A register file that records what is written to it.
struct Simulator {
    ctrl: u32,
    log: Vec<MpuAction>,
}

/// Performs the write protocol against the simulator, as a context switch would
/// against the hardware.
fn run(config: &MemoryConfig, initial_ctrl: u32) -> Simulator {
    let mut sim = Simulator { ctrl: initial_ctrl, log: Vec::new() };
    let mut last_read = CtrlVal(0);
    let mut step = 0;
    loop {
        let action = config.write(step, last_read);
        match action {
            MpuAction::ReadCtrl => last_read = CtrlVal(sim.ctrl),
            MpuAction::WriteCtrl(value) => sim.ctrl = value.0,
            MpuAction::Done => break,
            _ => {}
        }
        sim.log.push(action);
        step += 1;
        assert!(step < 1000);
    }
    sim
}

fn sample_config() -> MemoryConfig {
    let regions: &'static [MemoryRegion] = &[
        MemoryRegion { ty: MemoryRegionType::ReadOnlyExecutable, start: 0x40420, end: 0x60420 },
        MemoryRegion { ty: MemoryRegionType::ReadWriteData, start: 0xa0420, end: 0xa4420 },
    ];
    MemoryConfig::const_new(regions).unwrap()
}

#[test]
fn barriers_follow_the_last_region_write() {
    let config = sample_config();
    let sim = run(&config, 0);
    let last_rasr = sim.log.iter().rposition(|a| matches!(a, MpuAction::WriteRasr(_))).unwrap();
    let dsb = sim.log.iter().position(|a| *a == MpuAction::Dsb).unwrap();
    let isb = sim.log.iter().position(|a| *a == MpuAction::Isb).unwrap();
    assert!(last_rasr < dsb);
    assert_eq!(isb, dsb + 1);
    assert_eq!(isb, sim.log.len() - 1);
    // Nothing but the second control write stands between the last region
    // write and the barriers.
    assert_eq!(sim.log[last_rasr + 1], MpuAction::ReadCtrl);
    assert!(matches!(sim.log[last_rasr + 2], MpuAction::WriteCtrl(_)));
    assert_eq!(last_rasr + 3, dsb);
    assert_eq!(sim.log.iter().filter(|a| **a == MpuAction::Dsb).count(), 1);
    assert_eq!(sim.log.iter().filter(|a| **a == MpuAction::Isb).count(), 1);
}

#[test]
fn regions_are_written_in_order() {
    let config = sample_config();
    let sim = run(&config, 0);
    assert_eq!(sim.log.len(), 3 * NUM_MPU_REGIONS + 6);
    assert_eq!(sim.log[0], MpuAction::ReadCtrl);
    for i in 0..NUM_MPU_REGIONS {
        assert_eq!(sim.log[2 + 3 * i], MpuAction::WriteRnr(RnrVal(i as u32)));
        assert_eq!(sim.log[3 + 3 * i], MpuAction::WriteRbar(config.mpu_regions[i].rbar));
        assert_eq!(sim.log[4 + 3 * i], MpuAction::WriteRasr(config.mpu_regions[i].rasr));
    }
    // Unused slots are written too, with the region disabled.
    assert_eq!(sim.log[3 + 3 * 2], MpuAction::WriteRbar(RbarVal(0)));
    assert_eq!(sim.log[4 + 3 * 2], MpuAction::WriteRasr(RasrVal(0)));
}

#[test]
fn control_register_keeps_the_mpu_enabled() {
    let config = sample_config();
    // HFNMIENA set, everything else clear, and a bit outside the three fields.
    let sim = run(&config, 0x0000_0102);
    // ENABLE and PRIVDEFENA on, HFNMIENA off, other bits as they were.
    assert_eq!(sim.log[1], MpuAction::WriteCtrl(CtrlVal(0x0000_0105)));
    assert_eq!(sim.log[3 * NUM_MPU_REGIONS + 3], MpuAction::WriteCtrl(CtrlVal(0x0000_0105)));
    assert_eq!(sim.ctrl, 0x0000_0105);
    for action in &sim.log {
        if let MpuAction::WriteCtrl(value) = action {
            assert!(value.enable());
        }
    }
}

#[test]
fn second_control_write_only_sets_enable() {
    let config = sample_config();
    let penultimate = 3 * NUM_MPU_REGIONS + 3;
    assert_eq!(config.write(penultimate, CtrlVal(0x2)), MpuAction::WriteCtrl(CtrlVal(0x3)));
    assert_eq!(config.write(penultimate, CtrlVal(0x6)), MpuAction::WriteCtrl(CtrlVal(0x7)));
}

#[test]
fn protocol_ends_with_done() {
    let config = sample_config();
    assert_eq!(config.write(3 * NUM_MPU_REGIONS + 6, CtrlVal(0)), MpuAction::Done);
    assert_eq!(config.write(usize::MAX, CtrlVal(0)), MpuAction::Done);
}
