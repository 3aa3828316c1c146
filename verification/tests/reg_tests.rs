use cs86::cpu::msr::{IA32EFER, MSRIdx, MSRs};
use cs86::reg::{
    CR0, CR3, CR3NOPCID, CR3PCID, CR4, CR8, CRVals, CRs, DRs, DTR, FR, GPR, GPRs, IPR, InstrData, Mem,
    REX, SR,
};

#[test]
fn sr_set_then_get() {
    let mut sr = SR::new(0x1234);
    assert_eq!(sr.base, 0x12340);
    assert_eq!(sr.get(), 0x1234);
    sr.set(0xFFFF);
    assert_eq!(sr.base, 0xFFFF0);
    assert_eq!(sr.get(), 0xFFFF);
    assert_eq!(sr.limit, 0xFFF);
}

#[test]
fn sr_get_reads_bits_4_to_19() {
    let sr = SR { base: 0xFFFF_0000, limit: 0 };
    assert_eq!(sr.get(), 0xF000);
}

#[test]
fn cr8_keeps_low_four_bits() {
    let mut cr8 = CR8::new(0xAB);
    assert_eq!(cr8.get(), 0xB);
    assert_eq!(cr8.into_raw(), 0xB);
    let raw = CR8::from_raw(0x1234);
    assert_eq!(raw.get(), 0x4);
    assert_eq!(raw.into_raw(), 0x1234);
    cr8 = CR8::from_raw(0xFF);
    cr8.set(0x17);
    assert_eq!(cr8.into_raw(), 0x7);
}

#[test]
fn gpr_views_overlay() {
    let g = GPR { ur: 0x8899_AABB_CCDD_EEFF };
    assert_eq!(g.uw(), 0xEEFF);
    assert_eq!(g.ud(), 0xCCDD_EEFF);
    assert_eq!(g.ub().ls, 0xFF);
    assert_eq!(g.ub().ms, 0xEE);
    assert_eq!(g.sb().ls, -1);
    assert_eq!(g.sb().ms, -18);
    assert_eq!(g.sw(), -4353);
    assert_eq!(g.sd(), 0xCCDD_EEFFu32 as i32);
    assert_eq!(g.sr(), 0x8899_AABB_CCDD_EEFFu64 as i64);
}

#[test]
fn gpr_narrow_writes_keep_upper_bits() {
    let mut g = GPR { ur: 0x1122_3344_5566_7788 };
    g.set_uw(0xABCD);
    assert_eq!(g.ur, 0x1122_3344_5566_ABCD);
    g.set_ud(0x0102_0304);
    assert_eq!(g.ur, 0x1122_3344_0102_0304);
    assert_eq!(GPR::default().ur, 0);
}

#[test]
fn mem_views_and_writes() {
    let mut m = Mem { r: 0xFFFF_FFFF_FFFF_FFFF };
    assert_eq!(m.w(), 0xFFFF);
    assert_eq!(m.d(), 0xFFFF_FFFF);
    m.set_w(0x1234);
    assert_eq!(m.r, 0xFFFF_FFFF_FFFF_1234);
    m.set_d(0x5);
    assert_eq!(m.r, 0xFFFF_FFFF_0000_0005);
    assert_eq!(Mem::from_d(0xDEAD_BEEF).r, 0xDEAD_BEEF);
    assert_eq!(IPR::default().r, 0xFFF0);
}

#[test]
fn gpr_encodings_round_trip() {
    for v in 0u8..16 {
        let g = GPRs::try_from(v).unwrap();
        assert_eq!(g.index(), v as usize);
    }
    assert_eq!(GPRs::try_from(2u8), Ok(GPRs::DX));
    assert_eq!(GPRs::try_from(15u8), Ok(GPRs::R15));
    assert_eq!(GPRs::try_from(16u8), Err(()));
}

#[test]
fn control_and_debug_register_numbers() {
    assert!(matches!(CRs::try_from(0), Ok(CRs::CR0)));
    assert!(matches!(CRs::try_from(3), Ok(CRs::CR3)));
    assert!(matches!(CRs::try_from(8), Ok(CRs::CR8)));
    assert!(matches!(DRs::try_from(1), Ok(DRs::DR1)));
    assert!(matches!(DRs::try_from(7), Ok(DRs::DR7)));
}

#[test]
fn flags_contain_their_bits() {
    let f = FR::from_bits_retain(0x2_0001);
    assert!(f.contains(FR::from_bits_retain(FR::VM)));
    assert!(f.contains(FR::from_bits_retain(FR::CF)));
    assert!(!f.contains(FR::from_bits_retain(FR::ZF)));
    assert!(f.contains(FR::empty()));
    assert_eq!(f.bits(), 0x2_0001);
    let cr4 = CR4::from_bits_retain(CR4::PCIDE | CR4::PAE);
    assert!(cr4.contains(CR4::from_bits_retain(CR4::PCIDE)));
    assert!(!cr4.contains(CR4::from_bits_retain(CR4::PCIDE | CR4::VME)));
    let rex = REX::from_bits_retain(REX::W | REX::B);
    assert!(rex.contains(REX::from_bits_retain(REX::W)));
    assert!(!rex.contains(REX::from_bits_retain(REX::X)));
    assert_eq!(REX::empty().bits(), 0);
    let efer = IA32EFER::from_bits_retain(IA32EFER::LMA);
    assert!(efer.contains(IA32EFER::from_bits_retain(0x400)));
    assert_eq!(MSRs::default().ia32_efer.bits(), 0);
    assert_eq!(MSRIdx::IA32EFER.number(), 0xC000_0080);
}

#[test]
fn control_register_values_convert() {
    assert_eq!(CR0::try_from(CRVals::CR0(CR0::from_bits_retain(0x11))).map(|c| c.bits()), Ok(0x11));
    assert!(CR0::try_from(CRVals::CR2(5)).is_err());
    assert!(CR4::try_from(CRVals::CR0(CR0::empty())).is_err());
    assert_eq!(CR8::try_from(CRVals::CR8(CR8::from_raw(9))).map(|c| c.into_raw()), Ok(9));
    let on = CR3::Enabled(CR3PCID::from_bits_retain(0x123));
    assert_eq!(CR3PCID::try_from(on).map(|c| c.bits()), Ok(0x123));
    let off = CR3::Disabled(CR3NOPCID::from_bits_retain(0x10));
    assert!(CR3PCID::try_from(off).is_err());
    let off = CR3::Disabled(CR3NOPCID::from_bits_retain(0x10));
    assert_eq!(CR3NOPCID::try_from(off).map(|c| c.bits()), Ok(0x10));
    let val = CRVals::CR3(CR3::Enabled(CR3PCID::from_bits_retain(1)));
    assert!(matches!(CR3::try_from(val), Ok(CR3::Enabled(_))));
}

#[test]
fn defaults() {
    let d = DTR::default();
    assert_eq!(d.limit, 0xFFFF);
    assert_eq!(d.base.r, 0);
    let i = InstrData::default();
    assert_eq!(i.rex.bits(), 0);
    assert!(!i.null && !i.fs && !i.gs && !i.oper && !i.addr && !i.wait && !i.lock && !i.rep);
}
