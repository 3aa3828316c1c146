use cs86::cpu::decode::{GPRSize, Location, MemoryInfo, ModRM, RM};
use cs86::cpu::msr::IA32EFER;
use cs86::cpu::{CPU, Fault};
use cs86::ram::{RAM, RamError};
use cs86::reg::{CR0, CR3, CR3NOPCID, CR4, CR8, CRVals, CRs, DR6, DRVals, DRs, FR, GPR, GPRs, Mem, REX};

/// A program file: the header, the regions (virtual address, offset in
/// `body`), then `body`.
fn image(regions: &[(u32, u32)], body: &[u8]) -> Vec<u8> {
    let start = 8 + 8 * regions.len() as u32;
    let mut f = vec![b'C', b'S', b'8', b'6', regions.len() as u8, 0, 0, 0];
    for (virt, off) in regions {
        f.extend_from_slice(&virt.to_le_bytes());
        f.extend_from_slice(&(start + off).to_le_bytes());
    }
    f.extend_from_slice(body);
    f
}

/// Memory with four data bytes at `0xFFF0` and `code` at the reset address
/// `0xFFFF_FFF0`, and a processor just reset on it.
fn machine(code: &[u8]) -> (CPU, RAM) {
    let mut body = vec![0xAA, 0xBB, 0xCC, 0xDD];
    body.extend_from_slice(code);
    let mut ram = RAM::new(image(&[(0xFFF0, 0), (0xFFFF_FFF0, 4)], &body)).ok().unwrap();
    let cpu = CPU::new(&mut ram).ok().unwrap();
    (cpu, ram)
}

#[test]
fn reset_state() {
    let (cpu, _) = machine(&[0x90]);
    assert_eq!(cpu.gpr(GPRs::DX).ur, 0x00A7_0F41);
    assert_eq!(cpu.gpr(GPRs::AX).ur, 0);
    assert_eq!(cpu.sr(cs86::reg::SRs::CS).base, 0xFFFF_0000);
    assert_eq!(cpu.ip.r, 0xFFF0);
    assert_eq!(cpu.crs[0], 0x6000_0010);
    assert_eq!(cpu.drs[6], 0xFFFF_0FF0);
    assert_eq!(cpu.drs[7], 0x400);
    assert_eq!(cpu.flags.bits(), 1);
    assert_eq!(cpu.ir_cache, 0xFFF0);
    assert!(cpu.read_cache.is_none());
    assert!(cpu.is_real_mode());
    assert_eq!(cpu.get_mem_addr(), 0xFFFF_FFF0);
}

#[test]
fn reset_needs_a_region_at_0xfff0() {
    let mut ram = RAM::new(image(&[(0x10, 0)], &[1])).ok().unwrap();
    assert!(matches!(CPU::new(&mut ram), Err(Fault::Unmapped(0xFFF0))));
}

#[test]
fn add_register_to_register() {
    let (mut cpu, mut ram) = machine(&[0x03, 0xC2]);
    let lines = cpu.run(&mut ram).ok().unwrap();
    assert_eq!(lines, vec![String::from("ADD EAX, EDX"), String::from("FINAL VAL: 0xa70f41")]);
    assert_eq!(cpu.gpr(GPRs::AX).ur, 0x00A7_0F41);
    assert_eq!(cpu.ip.r, 0xFFF2);
    assert_eq!(cpu.ir, 0xC2);
    assert_eq!(cpu.ir_cache, 0xFFFF_FFF0);
}

#[test]
fn add_memory_to_register() {
    let (mut cpu, mut ram) = machine(&[0x03, 0x00]);
    cpu.set_gpr(GPRs::AX, GPR { ur: 0xFFF0 });
    let lines = cpu.run(&mut ram).ok().unwrap();
    assert_eq!(lines, vec![String::from("ADD EAX, [EAX]"), String::from("FINAL VAL: 0xddcdbb9a")]);
    assert_eq!(cpu.gpr(GPRs::AX).ur, 0xDDCD_BB9A);
    assert_eq!(cpu.read_cache, Some(0xFFF0));
}

#[test]
fn add_scaled_index_with_displacement() {
    let (mut cpu, mut ram) = machine(&[0x03, 0x44, 0x88, 0x10]);
    cpu.set_gpr(GPRs::AX, GPR { ur: 0xFFE0 });
    let lines = cpu.run(&mut ram).ok().unwrap();
    assert_eq!(lines, vec![String::from("ADD EAX, [EAX+ECX+0x10]"), String::from("FINAL VAL: 0xddcdbb8a")]);
    assert_eq!(cpu.ip.r, 0xFFF4);
}

#[test]
fn add_at_16_bits_keeps_upper_bits() {
    let (mut cpu, mut ram) = machine(&[0x03, 0xC2]);
    cpu.ir_data.oper = true;
    cpu.set_gpr(GPRs::AX, GPR { ur: 0x1234_0001 });
    let lines = cpu.run(&mut ram).ok().unwrap();
    assert_eq!(lines, vec![String::from("ADD AX, DX"), String::from("FINAL VAL: 0x12340f42")]);
    assert_eq!(cpu.gpr(GPRs::AX).ur, 0x1234_0F42);
}

#[test]
fn add_at_64_bits_with_rex() {
    let (mut cpu, mut ram) = machine(&[0x03, 0xC2]);
    cpu.ir_data.rex = REX::from_bits_retain(REX::W | REX::R);
    cpu.set_gpr(GPRs::R8, GPR { ur: 0x1_0000_0000 });
    let lines = cpu.run(&mut ram).ok().unwrap();
    assert_eq!(lines, vec![String::from("ADD R8, RDX"), String::from("FINAL VAL: 0x100a70f41")]);
}

#[test]
fn add_overflow_stops() {
    let (mut cpu, mut ram) = machine(&[0x03, 0xC2]);
    cpu.set_gpr(GPRs::AX, GPR { ur: 0xFFFF_FFFF });
    assert!(matches!(cpu.run(&mut ram), Err(Fault::Overflow)));
}

#[test]
fn memory_operand_below_every_region() {
    let (mut cpu, mut ram) = machine(&[0x03, 0x00]);
    assert!(matches!(cpu.run(&mut ram), Err(Fault::Ram(RamError::AddressBeforeRegion(0, 0xFFF0)))));
}

#[test]
fn unimplemented_opcode() {
    let (mut cpu, mut ram) = machine(&[0x90]);
    assert!(matches!(cpu.run(&mut ram), Err(Fault::Unimplemented(0x90))));
    assert_eq!(cpu.ip.r, 0xFFF1);
}

#[test]
fn instruction_reads_are_little_endian() {
    let (mut cpu, mut ram) = machine(&[1, 2, 3, 4, 5, 6, 7, 8, 9, 10, 11, 12, 13, 14, 15]);
    assert_eq!(cpu.read_u8(&mut ram).ok(), Some(1));
    assert_eq!(cpu.read_u16(&mut ram).ok(), Some(0x0302));
    assert_eq!(cpu.read_u32(&mut ram).ok(), Some(0x0706_0504));
    assert_eq!(cpu.read_u64(&mut ram).ok(), Some(0x0F0E_0D0C_0B0A_0908));
    assert_eq!(cpu.ip.r, 0xFFF0 + 15);
    assert!(matches!(cpu.read_u8(&mut ram), Err(Fault::Unmapped(0xFFFF_FFFF))));
}

#[test]
fn data_loads_are_little_endian() {
    let (mut cpu, mut ram) = machine(&[0x90]);
    assert!(matches!(cpu.get_u8(&mut ram, 0xFFF1), Err(Fault::Ram(RamError::AddressBeforeRegion(0xFFF1, 0xFFFF_FFF0)))));
    assert_eq!(cpu.get_u8(&mut ram, 0xFFF0).ok(), Some(0xAA));
    assert_eq!(cpu.get_u8(&mut ram, 0xFFF1).ok(), Some(0xBB));
    assert_eq!(cpu.get_u16(&mut ram, 0xFFF0).ok(), Some(0xBBAA));
    assert_eq!(cpu.get_u32(&mut ram, 0xFFF0).ok(), Some(0xDDCC_BBAA));
    assert_eq!(cpu.read_cache, Some(0xFFF0));
    assert_eq!(cpu.ip.r, 0xFFF0);
    assert!(matches!(cpu.get_u64(&mut ram, 0xFFF0), Err(Fault::Ram(RamError::AddressBeforeRegion(0xFFF4, 0xFFFF_FFF0)))));
    assert!(matches!(cpu.get_u16(&mut ram, u64::MAX), Err(_)));
}

#[test]
fn modes_follow_the_control_bits() {
    let (mut cpu, _) = machine(&[0x90]);
    assert!(cpu.is_real_mode() && !cpu.is_protected_mode() && !cpu.is_vm_mode() && !cpu.is_long_mode());
    cpu.set_cr(CRs::CR0, CRVals::CR0(CR0::from_bits_retain(CR0::PE)));
    assert!(!cpu.is_real_mode() && cpu.is_protected_mode());
    assert_eq!(cpu.get_mem_addr(), 0xFFFF_FFF0);
    cpu.flags = FR::from_bits_retain(FR::VM);
    assert!(cpu.is_vm_mode() && !cpu.is_protected_mode());
    cpu.flags = FR::empty();
    cpu.msrs.ia32_efer = IA32EFER::from_bits_retain(IA32EFER::LMA);
    assert!(cpu.is_long_mode() && !cpu.is_protected_mode());
    assert_eq!(cpu.get_mem_addr(), 0xFFF0);
    cpu.increment_ip();
    assert_eq!(cpu.ip.r, 0xFFF1);
}

#[test]
fn increment_touches_the_mode_width() {
    let (mut cpu, _) = machine(&[0x90]);
    cpu.ip = Mem { r: 0x1_0000_0010 };
    cpu.increment_ip();
    assert_eq!(cpu.ip.r, 0x1_0000_0011);
    assert_eq!(cpu.get_mem_addr(), 0xFFFF_0011);
}

#[test]
fn control_registers() {
    let (mut cpu, _) = machine(&[0x90]);
    cpu.set_cr(CRs::CR2, CRVals::CR2(0x1234));
    assert!(matches!(cpu.get_cr(&CRs::CR2), CRVals::CR2(0x1234)));
    assert!(matches!(cpu.read_cr(0), Ok(CRVals::CR0(c)) if c.bits() == 0x6000_0010));
    cpu.write_cr(4, CRVals::CR4(CR4::from_bits_retain(CR4::PCIDE)));
    assert!(matches!(cpu.get_cr(&CRs::CR4), CRVals::CR4(c) if c.bits() == CR4::PCIDE));
    assert!(matches!(cpu.get_cr(&CRs::CR3), CRVals::CR3(CR3::Enabled(_))));
    cpu.crs[4] = 0;
    assert!(matches!(cpu.get_cr(&CRs::CR3), CRVals::CR3(CR3::Disabled(_))));
    cpu.crs[8] = 0x35;
    assert!(matches!(cpu.read_cr(8), Ok(CRVals::CR8(c)) if c.get() == 5));
}

#[test]
fn control_register_3_and_8_writes_land_in_slots_2_and_4() {
    let (mut cpu, _) = machine(&[0x90]);
    cpu.set_cr(CRs::CR3, CRVals::CR3(CR3::Disabled(CR3NOPCID::from_bits_retain(0x77))));
    assert_eq!(cpu.crs[2], 0x77);
    assert_eq!(cpu.crs[3], 0);
    cpu.write_cr(8, CRVals::CR8(CR8::new(3)));
    assert_eq!(cpu.crs[4], 3);
    assert_eq!(cpu.crs[8], 0);
}

#[test]
fn debug_registers() {
    let (mut cpu, _) = machine(&[0x90]);
    cpu.set_dr(DRs::DR1, DRVals::DR1(0xAB));
    assert!(matches!(cpu.get_dr(&DRs::DR1), DRVals::DR1(0xAB)));
    cpu.write_dr(6, DRVals::DR6(DR6::from_bits_retain(0xF)));
    assert!(matches!(cpu.read_dr(6), Ok(DRVals::DR6(d)) if d.bits() == 0xF));
    assert!(matches!(cpu.read_dr(7), Ok(DRVals::DR7(d)) if d.bits() == 0x400));
    assert!(matches!(cpu.read_dr(0), Ok(DRVals::DR0(0))));
}

#[test]
fn sizes_follow_the_prefixes() {
    let (mut cpu, _) = machine(&[0x90]);
    assert!(matches!(cpu.decode_size(&Location::Operand), GPRSize::X32(0)));
    cpu.ir_data.rex = REX::from_bits_retain(REX::W);
    assert!(matches!(cpu.decode_size(&Location::Operand), GPRSize::X64(0)));
    cpu.ir_data.addr = true;
    assert!(matches!(cpu.decode_size(&Location::Address), GPRSize::X16(0)));
    assert!(matches!(cpu.decode_size(&Location::Operand), GPRSize::X64(0)));
    cpu.ir_data.oper = true;
    assert!(matches!(cpu.decode_gpr_size(2), GPRSize::X16(0x0F41)));
}

#[test]
fn memory_operand_address_by_size() {
    let (mut cpu, mut ram) = machine(&[0x90]);
    let addr = Mem { r: 0x1_0000_FFF0 };
    cpu.ir_data.rex = REX::from_bits_retain(REX::W);
    assert!(matches!(cpu.decode_mem_size(&mut ram, addr), Ok(GPRSize::X64(_)) | Err(_)));
    cpu.ir_data.rex = REX::empty();
    cpu.ir_data.addr = true;
    cpu.ir_data.oper = true;
    assert!(matches!(cpu.decode_mem_size(&mut ram, addr), Ok(GPRSize::X16(0xBBAA))));
    let m = ModRM { reg1: 0, reg2: RM::Reg(2) };
    assert!(matches!(cpu.decode_rm_size(&mut ram, &m), Ok(GPRSize::X16(0x0F41))));
}

#[test]
fn modrm_register_form() {
    let (mut cpu, mut ram) = machine(&[0xD9]);
    cpu.ir_data.rex = REX::from_bits_retain(REX::R | REX::B);
    let m = cpu.decode_modrm(&mut ram).ok().unwrap();
    assert_eq!(m.reg1, 11);
    assert!(matches!(m.reg2, RM::Reg(9)));
}

#[test]
fn modrm_sib_with_32_bit_displacement() {
    let (mut cpu, mut ram) = machine(&[0x04, 0x25, 0x78, 0x56, 0x34, 0x12]);
    let m = cpu.decode_modrm(&mut ram).ok().unwrap();
    assert_eq!(m.reg1, 0);
    match m.reg2 {
        RM::Addr(mi) => {
            assert_eq!(mi.addr.r, 0x1234_5678);
            assert_eq!(mi.off, Some(0x1234_5678));
            assert_eq!(mi.base, None);
            assert_eq!(mi.idx, None);
        },
        RM::Reg(_) => panic!("expected a memory operand"),
    }
}

#[test]
fn modrm_instruction_pointer_base() {
    let (mut cpu, mut ram) = machine(&[0x45, 0x04]);
    let m = cpu.decode_modrm(&mut ram).ok().unwrap();
    match m.reg2 {
        RM::Addr(mi) => {
            assert_eq!(mi.addr.r, 0xFFF1 + 4);
            assert_eq!(mi.off, Some(4));
            assert_eq!(mi.base, Some(5));
        },
        RM::Reg(_) => panic!("expected a memory operand"),
    }
}

#[test]
fn sib_index_5_means_no_index() {
    let (mut cpu, mut ram) = machine(&[0x04, 0x6B]);
    cpu.set_gpr(GPRs::BX, GPR { ur: 0x40 });
    let m = cpu.decode_modrm(&mut ram).ok().unwrap();
    match m.reg2 {
        RM::Addr(mi) => {
            assert_eq!(mi.addr.r, 0x40);
            assert_eq!(mi.base, Some(3));
            assert_eq!(mi.idx, None);
        },
        RM::Reg(_) => panic!("expected a memory operand"),
    }
}

#[test]
fn sib_scale_one_is_factor_zero() {
    let (mut cpu, mut ram) = machine(&[0x04, 0x0B]);
    cpu.set_gpr(GPRs::BX, GPR { ur: 0x40 });
    cpu.set_gpr(GPRs::CX, GPR { ur: 0x5 });
    let m = cpu.decode_modrm(&mut ram).ok().unwrap();
    match m.reg2 {
        RM::Addr(mi) => {
            assert_eq!(mi.addr.r, 0x40);
            assert_eq!(mi.idx, Some(1));
        },
        RM::Reg(_) => panic!("expected a memory operand"),
    }
}

#[test]
fn sib_scaled_index_overflow() {
    let (mut cpu, mut ram) = machine(&[0x04, 0xCB]);
    cpu.ir_data.rex = REX::from_bits_retain(REX::W);
    cpu.set_gpr(GPRs::CX, GPR { ur: u64::MAX / 4 });
    assert!(matches!(cpu.decode_modrm(&mut ram), Err(Fault::Overflow)));
}

#[test]
fn names() {
    assert_eq!(CPU::get_lo8_name(9), "R9B");
    assert_eq!(CPU::get_lo8_name(4), "SPL");
    assert_eq!(CPU::get_hi8_name(3), "BH");
    assert_eq!(CPU::get_gpr_name(10, &GPRSize::X16(0)), "R10W");
    assert_eq!(CPU::get_gpr_name(0, &GPRSize::X32(0)), "EAX");
    assert_eq!(CPU::get_gpr_name(15, &GPRSize::X64(0)), "R15");
    let full = MemoryInfo { addr: Mem { r: 0 }, base: Some(0), idx: Some(1), off: Some(0x10) };
    assert_eq!(CPU::get_mem_name(&full, &GPRSize::X64(0)), "[RAX+RCX+0x10]");
    let disp = MemoryInfo { addr: Mem { r: 0 }, base: None, idx: None, off: Some(0) };
    assert_eq!(CPU::get_mem_name(&disp, &GPRSize::X32(0)), "[0x0]");
    let base = MemoryInfo { addr: Mem { r: 0 }, base: Some(5), idx: None, off: Some(0xDEAD_BEEF) };
    assert_eq!(CPU::get_mem_name(&base, &GPRSize::X16(0)), "[BP0xdeadbeef]");
    let ebx = MemoryInfo { addr: Mem { r: 0 }, base: Some(3), idx: None, off: Some(8) };
    assert_eq!(CPU::get_mem_name(&ebx, &GPRSize::X32(0)), "[EBX0x8]");
    let idx = MemoryInfo { addr: Mem { r: 0 }, base: None, idx: Some(6), off: None };
    assert_eq!(CPU::get_mem_name(&idx, &GPRSize::X32(0)), "[ESI]");
    assert_eq!(CPU::get_rm_name(&RM::Reg(3), &GPRSize::X16(0), &GPRSize::X64(0)), "BX");
    assert_eq!(CPU::get_rm_name(&RM::Addr(full), &GPRSize::X16(0), &GPRSize::X32(0)), "[EAX+ECX+0x10]");
}

fn strings(lines: &[&str]) -> Vec<String> {
    lines.iter().map(|l| String::from(*l)).collect()
}

#[test]
fn reset_logs_its_read() {
    let (_, mut ram) = machine(&[0x90]);
    assert_eq!(ram.take_log(), strings(&["reading 0xfff0 with no cache", "CACHING --- 0xfff0"]));
    assert!(ram.take_log().is_empty());
}

#[test]
fn add_logs_each_instruction_read() {
    let (mut cpu, mut ram) = machine(&[0x03, 0xC2]);
    ram.take_log();
    assert!(cpu.run(&mut ram).is_ok());
    assert_eq!(
        ram.take_log(),
        strings(&[
            "reading 0xfffffff0 cached @ 0xfff0",
            "CACHING --- 0xfffffff0",
            "reading 0xfffffff1 cached @ 0xfffffff0",
        ])
    );
}

#[test]
fn add_logs_each_data_read() {
    let (mut cpu, mut ram) = machine(&[0x03, 0x00]);
    cpu.set_gpr(GPRs::AX, GPR { ur: 0xFFF0 });
    ram.take_log();
    assert!(cpu.run(&mut ram).is_ok());
    assert_eq!(
        ram.take_log(),
        strings(&[
            "reading 0xfffffff0 cached @ 0xfff0",
            "CACHING --- 0xfffffff0",
            "reading 0xfffffff1 cached @ 0xfffffff0",
            "reading 0xfff0 with no cache",
            "CACHING --- 0xfff0",
            "reading 0xfff1 cached @ 0xfff0",
            "reading 0xfff2 cached @ 0xfff0",
            "reading 0xfff3 cached @ 0xfff0",
        ])
    );
}

#[test]
fn unimplemented_opcode_logs_its_fetch() {
    let (mut cpu, mut ram) = machine(&[0x90]);
    ram.take_log();
    assert!(cpu.run(&mut ram).is_err());
    assert_eq!(ram.take_log(), strings(&["reading 0xfffffff0 cached @ 0xfff0", "CACHING --- 0xfffffff0"]));
}
