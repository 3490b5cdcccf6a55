use pw_kernel_image::regs::{CtrlVal, RasrAp, RasrVal, RbarVal, RnrVal};

#[test]
fn ctrl_fields() {
    let v = CtrlVal::const_default();
    assert_eq!(v.0, 0);
    let v = v.with_enable(true).with_hfnmiena(true).with_privdefena(true);
    assert_eq!(v.0, 0b111);
    assert!(v.enable() && v.hfnmiena() && v.privdefena());
    let v = v.with_hfnmiena(false);
    assert_eq!(v.0, 0b101);
    assert!(!v.hfnmiena());
    assert_eq!(CtrlVal(0xffff_ffff).with_enable(false).0, 0xffff_fffe);
}

#[test]
fn rnr_fields() {
    assert_eq!(RnrVal::const_default().with_region(7).0, 7);
    assert_eq!(RnrVal(0xffff_ff00).with_region(0xab).0, 0xffff_ffab);
    assert_eq!(RnrVal(0x1234_56ab).region(), 0xab);
}

#[test]
fn rbar_fields() {
    let v = RbarVal::const_default().with_addr(0x2000_0400).with_valid(true).with_region(5);
    assert_eq!(v.0, 0x2000_0415);
    assert_eq!(v.addr(), 0x2000_0400);
    assert!(v.valid());
    assert_eq!(v.region(), 5);
    // The low five bits of an address are not part of the field.
    assert_eq!(RbarVal(0).with_addr(0x1234_567f).0, 0x1234_5660);
    assert_eq!(RbarVal(0x1f).with_addr(0xffff_ffe0).0, 0xffff_ffff);
    assert_eq!(RbarVal(0).with_region(0x1f).0, 0xf);
}

#[test]
fn rasr_fields() {
    let v = RasrVal::const_default()
        .with_enable(true)
        .with_size(17)
        .with_srd(0xe0)
        .with_tex(0b001)
        .with_s(false)
        .with_c(true)
        .with_b(true)
        .with_ap(RasrAp::RwAny)
        .with_xn(true);
    assert_eq!(v.0, 0x130b_e023);
    assert!(v.enable());
    assert_eq!(v.size(), 17);
    assert_eq!(v.srd(), 0xe0);
    assert_eq!(v.tex(), 0b001);
    assert!(!v.s());
    assert!(v.c());
    assert!(v.b());
    assert_eq!(v.ap_bits(), 0b011);
    assert!(v.xn());
    // A field write leaves the other bits alone and drops what does not fit.
    assert_eq!(RasrVal(0xffff_ffff).with_size(0).0, 0xffff_ffc1);
    assert_eq!(RasrVal(0).with_size(0xff).0, 0x3e);
    assert_eq!(RasrVal(0).with_tex(0xff).0, 0x38_0000);
    assert_eq!(RasrVal(0xffff_ffff).with_srd(0).0, 0xffff_00ff);
}

#[test]
fn access_permission_encoding() {
    assert_eq!(RasrAp::NoAccess.bits(), 0b000);
    assert_eq!(RasrAp::RwPrivileged.bits(), 0b001);
    assert_eq!(RasrAp::RwPrivilegedRoUnprivileged.bits(), 0b010);
    assert_eq!(RasrAp::RwAny.bits(), 0b011);
    assert_eq!(RasrAp::RoPrivileged.bits(), 0b101);
    assert_eq!(RasrAp::RoAny.bits(), 0b110);
    for ap in [RasrAp::NoAccess, RasrAp::RwPrivileged, RasrAp::RwPrivilegedRoUnprivileged, RasrAp::RwAny, RasrAp::RoPrivileged, RasrAp::RoAny] {
        assert_eq!(RasrAp::from_bits(ap.bits()), Some(ap));
    }
    assert_eq!(RasrAp::from_bits(0b100), None);
    assert_eq!(RasrAp::from_bits(0b111), Some(RasrAp::RoAny));
    assert_eq!(RasrAp::from_bits(8), None);
}
