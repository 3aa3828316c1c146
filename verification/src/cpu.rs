use vstd::prelude::*;
use crate::cpu::msr::{IA32EFER, MSRs};
use crate::ram::{RAM, RamError, read_result, wf};
use crate::reg::{CR0, CRVals, CRs, DR6, DR7, DRVals, DRs, DTR, FR, GPR, GPRs, IPR, InstrData, SR, SRs};

pub mod msr;
pub mod opcodes;
pub mod debug;
pub mod decode;
pub mod reg;
pub mod rw;

verus! {

/// Why the machine stops.
pub enum Fault {
    /// Memory cannot serve a read.
    Ram(RamError),
    /// No region serves the address read.
    Unmapped(u64),
    /// An address or a register sum does not fit its width.
    Overflow,
    /// The opcode has no implementation.
    Unimplemented(u8),
}

/// The state of the processor.
pub struct CPU {
    pub gprs: [GPR; 16],
    pub ip: IPR,
    pub srs: [SR; 6],
    pub flags: FR,
    pub crs: [u64; 16],
    pub drs: [u64; 8],
    pub msrs: MSRs,
    pub gdtr: DTR,
    pub idtr: DTR,
    pub ldtr: SR,
    pub tr: SR,
    pub ir: u8,
    pub ir_data: InstrData,
    pub ir_cache: u64,
    pub read_cache: Option<u64>,
}

impl CPU {
    /// Protection is enabled: bit 0 of control register 0.
    pub open spec fn pe(&self) -> bool {
        self.crs[0] & 1 == 1
    }

    /// The virtual-8086 flag: bit 17 of the flags.
    pub open spec fn vm(&self) -> bool {
        self.flags.0 & 0x2_0000 == 0x2_0000
    }

    /// Long mode is active: bit 10 of the extended feature enable register.
    pub open spec fn lma(&self) -> bool {
        self.msrs.ia32_efer.0 & 0x400 == 0x400
    }

    pub open spec fn spec_real_mode(&self) -> bool {
        !self.pe()
    }

    pub open spec fn spec_protected_mode(&self) -> bool {
        self.pe() && !self.vm() && !self.lma()
    }

    pub open spec fn spec_vm_mode(&self) -> bool {
        self.pe() && self.vm() && !self.lma()
    }

    pub open spec fn spec_long_mode(&self) -> bool {
        self.pe() && !self.vm() && self.lma()
    }

    /// The code segment register.
    pub open spec fn cs(&self) -> SR {
        self.srs[1]
    }

    /// Whether the address of the next instruction byte fits in 32 bits where
    /// protected mode asks it to.
    pub open spec fn mem_addr_ok(&self) -> bool {
        !self.spec_long_mode() && self.spec_protected_mode() ==> self.ip.r % 0x1_0000_0000 + self.cs().base
            <= u32::MAX
    }

    /// The address of the next instruction byte: the instruction pointer in
    /// long mode; else its low 32 (protected mode) or 16 bits plus the code
    /// segment's base.
    pub open spec fn mem_addr(&self) -> u64 {
        if self.spec_long_mode() {
            self.ip.r
        } else if self.spec_protected_mode() {
            (self.ip.r % 0x1_0000_0000 + self.cs().base) as u64
        } else {
            (self.ip.r % 0x1_0000 + self.cs().base) as u64
        }
    }

    /// Whether the part of the instruction pointer the mode uses (64, 32 or 16
    /// bits) can grow by one.
    pub open spec fn increment_ok(&self) -> bool {
        if self.spec_long_mode() {
            self.ip.r < u64::MAX
        } else if self.spec_protected_mode() {
            self.ip.r % 0x1_0000_0000 < u32::MAX
        } else {
            self.ip.r % 0x1_0000 < u16::MAX
        }
    }

    /// The general purpose register `index`.
    pub fn gpr(&self, index: GPRs) -> (ret: &GPR)
        ensures
            *ret == self.gprs[index.encoding() as int],
    {
        &self.gprs[index.index()]
    }

    /// Replaces the general purpose register `index` by `val`.
    pub fn set_gpr(&mut self, index: GPRs, val: GPR)
        ensures
            final(self).gprs@ == old(self).gprs@.update(index.encoding() as int, val),
            *final(self) == (CPU { gprs: final(self).gprs, ..*old(self) }),
    {
        self.gprs[index.index()] = val;
    }

    /// The segment register `index`.
    pub fn sr(&self, index: SRs) -> (ret: &SR)
        ensures
            *ret == self.srs[index.encoding() as int],
    {
        &self.srs[index.index()]
    }

    /// Whether protection is off.
    pub fn is_real_mode(&self) -> (ret: bool)
        ensures
            ret == self.spec_real_mode(),
    {
        let cr0 = CR0::from_bits_retain(self.crs[0]);
        let is_protected = cr0.contains(CR0::from_bits_retain(0x1));
        !is_protected
    }

    /// Whether protection is on, outside virtual-8086 and long mode.
    pub fn is_protected_mode(&self) -> (ret: bool)
        ensures
            ret == self.spec_protected_mode(),
    {
        let cr0 = CR0::from_bits_retain(self.crs[0]);
        let is_protected = cr0.contains(CR0::from_bits_retain(0x1));
        let is_in_vm = self.flags.contains(FR::from_bits_retain(0x20000));
        let long_mode_active = self.msrs.ia32_efer.contains(IA32EFER::from_bits_retain(0x400));
        is_protected && !is_in_vm && !long_mode_active
    }

    /// Whether protection is on in virtual-8086 mode, outside long mode.
    pub fn is_vm_mode(&self) -> (ret: bool)
        ensures
            ret == self.spec_vm_mode(),
    {
        let cr0 = CR0::from_bits_retain(self.crs[0]);
        let is_protected = cr0.contains(CR0::from_bits_retain(0x1));
        let is_in_vm = self.flags.contains(FR::from_bits_retain(0x20000));
        let long_mode_active = self.msrs.ia32_efer.contains(IA32EFER::from_bits_retain(0x400));
        is_protected && is_in_vm && !long_mode_active
    }

    /// Whether protection is on in long mode, outside virtual-8086 mode.
    pub fn is_long_mode(&self) -> (ret: bool)
        ensures
            ret == self.spec_long_mode(),
    {
        let cr0 = CR0::from_bits_retain(self.crs[0]);
        let is_protected = cr0.contains(CR0::from_bits_retain(0x1));
        let is_in_vm = self.flags.contains(FR::from_bits_retain(0x20000));
        let long_mode_active = self.msrs.ia32_efer.contains(IA32EFER::from_bits_retain(0x400));
        is_protected && !is_in_vm && long_mode_active
    }

    /// The address of the next instruction byte.
    pub fn get_mem_addr(&self) -> (ret: u64)
        requires
            self.mem_addr_ok(),
        ensures
            ret == self.mem_addr(),
    {
        if self.is_long_mode() {
            self.ip.r
        } else if self.is_protected_mode() {
            (self.ip.d() + self.srs[1].base) as u64
        } else {
            self.ip.w() as u64 + self.srs[1].base as u64
        }
    }

    /// Moves the instruction pointer to the next byte: the part the mode uses
    /// grows by one, which leaves the other bits alone.
    pub fn increment_ip(&mut self)
        requires
            old(self).increment_ok(),
        ensures
            *final(self) == (CPU { ip: IPR { r: (old(self).ip.r + 1) as u64 }, ..*old(self) }),
    {
        if self.is_long_mode() {
            self.ip.r = self.ip.r + 1;
        } else if self.is_protected_mode() {
            let d = self.ip.d();
            self.ip.set_d(d + 1);
        } else {
            let w = self.ip.w();
            self.ip.set_w(w + 1);
        }
    }

    /// The processor at reset, with instruction fetches going through the
    /// region that serves address `0xFFF0`: EDX holds `0x00A7_0F41`, the code
    /// segment's base is `0xFFFF_0000`, the instruction pointer `0xFFF0`, and
    /// control register 0 and debug registers 6 and 7 their reset values.
    pub fn new(ram: &mut RAM) -> (ret: Result<Self, Fault>)
        requires
            wf(old(ram)@),
        ensures
            wf(final(ram)@),
            final(ram)@ == read_result(old(ram)@, None, 0xFFF0).1,
            match read_result(old(ram)@, None, 0xFFF0).0 {
                Err(e) => ret == Err::<CPU, Fault>(Fault::Ram(e)),
                Ok(None) => ret == Err::<CPU, Fault>(Fault::Unmapped(0xFFF0)),
                Ok(Some((_, c))) => ret is Ok && ret->Ok_0.ir_cache == c,
            },
            ret matches Ok(c) ==> {
                &&& forall|i: int| 0 <= i < 16 ==> (#[trigger] c.gprs[i]).ur == if i == 2 { 0x00A7_0F41u64 } else { 0u64 }
                &&& c.ip.r == 0xFFF0
                &&& forall|i: int|
                    0 <= i < 6 ==> (#[trigger] c.srs[i]).limit == 0xFFF && c.srs[i].base == if i == 1 {
                        0xFFFF_0000u32
                    } else {
                        0u32
                    }
                &&& c.flags.0 == 1
                &&& forall|i: int| 0 <= i < 16 ==> #[trigger] c.crs[i] == if i == 0 { 0x6000_0010u64 } else { 0u64 }
                &&& forall|i: int|
                    0 <= i < 8 ==> #[trigger] c.drs[i] == if i == 6 {
                        0xFFFF_0FF0u64
                    } else if i == 7 {
                        0x400u64
                    } else {
                        0u64
                    }
                &&& c.msrs.ia32_efer.0 == 0
                &&& c.gdtr.limit == 0xFFFF && c.gdtr.base.r == 0
                &&& c.idtr.limit == 0xFFFF && c.idtr.base.r == 0
                &&& c.ldtr.base == 0 && c.ldtr.limit == 0xFFF
                &&& c.tr.base == 0 && c.tr.limit == 0xFFF
                &&& c.ir == 0
                &&& c.ir_data.rex.0 == 0
                &&& !c.ir_data.null && !c.ir_data.fs && !c.ir_data.gs && !c.ir_data.oper
                &&& !c.ir_data.addr && !c.ir_data.wait && !c.ir_data.lock && !c.ir_data.rep
                &&& c.read_cache is None
            },
    {
        let z = GPR::default();
        let mut cpu = Self {
            gprs: [z, z, z, z, z, z, z, z, z, z, z, z, z, z, z, z],
            ip: IPR::default(),
            srs: [SR::new(0), SR::new(0), SR::new(0), SR::new(0), SR::new(0), SR::new(0)],
            flags: FR::from_bits_retain(1),
            crs: [0, 0, 0, 0, 0, 0, 0, 0, 0, 0, 0, 0, 0, 0, 0, 0],
            drs: [0, 0, 0, 0, 0, 0, 0, 0],
            msrs: MSRs::default(),
            gdtr: DTR::default(),
            idtr: DTR::default(),
            ldtr: SR::new(0),
            tr: SR::new(0),
            ir: 0,
            ir_data: InstrData::default(),
            ir_cache: 0,
            read_cache: None,
        };
        assert(cpu.mem_addr() == 0xFFF0);
        match cpu.setup_cache(ram) {
            Ok(()) => {},
            Err(e) => {
                return Err(e);
            },
        }
        let mut dx = *cpu.gpr(GPRs::DX);
        dx.set_ud(0x00A7_0F41);
        cpu.set_gpr(GPRs::DX, dx);
        let limit = cpu.srs[1].limit;
        cpu.srs[1] = SR { base: 0xFFFF_0000, limit };
        cpu.ip.set_d(0x0000_FFF0);
        let cr0 = CR0::from_bits_retain(0x6000_0010);
        cpu.set_cr(CRs::CR0, CRVals::CR0(cr0));
        let dr6 = DR6::from_bits_retain(0xFFFF_0FF0);
        cpu.set_dr(DRs::DR6, DRVals::DR6(dr6));
        let dr7 = DR7::from_bits_retain(0x0000_0400);
        cpu.set_dr(DRs::DR7, DRVals::DR7(dr7));
        Ok(cpu)
    }
}


/// The processor is in at most one of real, protected, virtual-8086 and long
/// mode, and it is in real mode exactly when protection is off.
pub proof fn lemma_modes_exclusive(cpu: &CPU)
    ensures
        cpu.spec_real_mode() ==> !cpu.spec_protected_mode() && !cpu.spec_vm_mode() && !cpu.spec_long_mode(),
        cpu.spec_protected_mode() ==> !cpu.spec_vm_mode() && !cpu.spec_long_mode(),
        cpu.spec_vm_mode() ==> !cpu.spec_long_mode(),
        cpu.spec_real_mode() <==> !cpu.pe(),
{
}


/// The address of the next instruction byte, by the control bits: with
/// protection on (bit 0 of control register 0), the virtual-8086 flag (bit 17
/// of the flags) clear and long mode active (bit 10 of the extended feature
/// enable register), the whole instruction pointer; with protection on and
/// both others clear, the instruction pointer's low 32 bits plus the code
/// segment's base; else its low 16 bits plus that base.
pub proof fn lemma_fetch_address_by_mode(cpu: CPU)
    ensures
        ({
            let pe = cpu.crs[0] & 1 == 1;
            let vm = cpu.flags.0 & 0x2_0000 == 0x2_0000;
            let lma = cpu.msrs.ia32_efer.0 & 0x400 == 0x400;
            &&& pe && !vm && lma ==> cpu.mem_addr() == cpu.ip.r
            &&& pe && !vm && !lma ==> cpu.mem_addr_ok() == (cpu.ip.r % 0x1_0000_0000 + cpu.srs[1].base
                < 0x1_0000_0000)
            &&& pe && !vm && !lma && cpu.mem_addr_ok() ==> cpu.mem_addr() == cpu.ip.r % 0x1_0000_0000
                + cpu.srs[1].base
            &&& !(pe && !vm) ==> cpu.mem_addr_ok() && cpu.mem_addr() == cpu.ip.r % 0x1_0000
                + cpu.srs[1].base
        }),
{
}

/// In protected mode, two instruction pointers that agree in their low 16 bits
/// but not in their low 32 bits give different fetch addresses.
pub proof fn lemma_protected_mode_fetches_use_32_bits(cpu: CPU, ip: u64)
    requires
        cpu.crs[0] & 1 == 1,
        cpu.flags.0 & 0x2_0000 == 0,
        cpu.msrs.ia32_efer.0 & 0x400 == 0,
        cpu.mem_addr_ok(),
        (CPU { ip: IPR { r: ip }, ..cpu }).mem_addr_ok(),
        ip % 0x1_0000 == cpu.ip.r % 0x1_0000,
        ip % 0x1_0000_0000 != cpu.ip.r % 0x1_0000_0000,
    ensures
        (CPU { ip: IPR { r: ip }, ..cpu }).mem_addr() != cpu.mem_addr(),
{
}

} // verus!
