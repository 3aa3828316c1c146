use vstd::prelude::*;
use crate::cpu::{CPU, Fault};
use crate::cpu::debug::mem_regs_ok;
use crate::cpu::rw::{fetch, fetch_seq, le, lemma_fetch_advances, lemma_fetch_seq_len, lemma_le_bound, load_seq, pow256};
use crate::ram::{RAM, RamView, wf};
use crate::reg::{GPRs, InstrData, Mem, REX};

verus! {

/// A memory operand: its address, and the base register, index register and
/// displacement it was formed from.
#[derive(Clone, Copy)]
pub struct MemoryInfo {
    pub addr: Mem,
    pub base: Option<u8>,
    pub idx: Option<u8>,
    pub off: Option<u32>,
}

/// The register-or-memory operand of a ModR/M byte.
#[derive(Clone, Copy)]
pub enum RM {
    Addr(MemoryInfo),
    Reg(u8),
}

/// A decoded ModR/M byte: the register operand and the register-or-memory operand.
pub struct ModRM {
    pub reg1: u8,
    pub reg2: RM,
}

/// An operand size, with a value of that size.
#[derive(Clone, Copy)]
pub enum GPRSize {
    X16(u16),
    X32(u32),
    X64(u64),
}

/// Which size is asked for: that of an address or that of an operand.
#[derive(PartialEq, Eq, Structural)]
pub enum Location {
    Address,
    Operand,
}


impl CPU {
    /// The REX.B bit: it extends the base or ModR/M rm register.
    pub open spec fn rex_b(&self) -> bool {
        self.ir_data.rex.0 & 1 == 1
    }

    /// The REX.X bit: it extends the index register.
    pub open spec fn rex_x(&self) -> bool {
        self.ir_data.rex.0 & 2 == 2
    }

    /// The REX.R bit: it extends the ModR/M reg register.
    pub open spec fn rex_r(&self) -> bool {
        self.ir_data.rex.0 & 4 == 4
    }

    /// The REX.W bit: 64-bit operands.
    pub open spec fn rex_w(&self) -> bool {
        self.ir_data.rex.0 & 8 == 8
    }

    /// The size asked for at `location`: 16 bits where the matching prefix is
    /// present, else 64 bits where REX.W is set, else 32 bits; each with value 0.
    pub open spec fn size_at(&self, location: Location) -> GPRSize {
        if location == Location::Address && self.ir_data.addr || location == Location::Operand
            && self.ir_data.oper {
            GPRSize::X16(0)
        } else if self.rex_w() {
            GPRSize::X64(0)
        } else {
            GPRSize::X32(0)
        }
    }

    /// Register `reg` read at 64 bits where REX.W is set, else at 32 bits.
    pub open spec fn wide_value(&self, reg: int) -> nat {
        if self.rex_w() {
            self.gprs[reg].ur as nat
        } else {
            (self.gprs[reg].ur % 0x1_0000_0000) as nat
        }
    }

    /// The value of register `reg` at the operand size.
    pub open spec fn gpr_at_size(&self, reg: int) -> GPRSize {
        match self.size_at(Location::Operand) {
            GPRSize::X16(_) => GPRSize::X16((self.gprs[reg].ur % 0x1_0000) as u16),
            GPRSize::X32(_) => GPRSize::X32((self.gprs[reg].ur % 0x1_0000_0000) as u32),
            GPRSize::X64(_) => GPRSize::X64(self.gprs[reg].ur),
        }
    }

    /// The address a memory operand at `addr` is read from, by the address
    /// size: its low 16 bits at 16 bits, all of it at 32 bits, its low 32 bits
    /// at 64 bits.
    pub open spec fn mem_operand_addr(&self, addr: Mem) -> u64 {
        match self.size_at(Location::Address) {
            GPRSize::X16(_) => (addr.r % 0x1_0000) as u64,
            GPRSize::X32(_) => addr.r,
            GPRSize::X64(_) => (addr.r % 0x1_0000_0000) as u64,
        }
    }
}

/// The factor a SIB scale field selects.
pub open spec fn sib_factor(ss: int) -> nat {
    if ss == 0 {
        0
    } else if ss == 1 {
        2
    } else if ss == 2 {
        4
    } else {
        8
    }
}

/// Decoding a SIB byte: fetch it; with base 5 and scale 0 the operand is a
/// 32-bit displacement that follows; else the base register (extended by
/// REX.B) plus, unless the index is 5 without REX.X, the index register
/// (extended by REX.X) times the scale's factor.
pub open spec fn sib_decoded(cpu: CPU, m: RamView) -> (Result<MemoryInfo, Fault>, CPU, RamView) {
    let (r, c1, m1) = fetch(cpu, m);
    match r {
        Err(e) => (Err(e), c1, m1),
        Ok(sib) => {
            let ss = sib / 64;
            let idx = (sib / 8) % 8;
            let base = sib % 8;
            if base == 5 && ss == 0 {
                let (r2, c2, m2) = fetch_seq(c1, m1, 4);
                match r2 {
                    Err(e) => (Err(e), c2, m2),
                    Ok(bs) => (
                        Ok(MemoryInfo { addr: Mem { r: le(bs) as u64 }, base: None, idx: None, off: Some(le(bs) as u32) }),
                        c2,
                        m2,
                    ),
                }
            } else {
                let reg1: int = if c1.rex_b() { 8 + base } else { base as int };
                let reg2: int = if c1.rex_x() { 8 + idx } else { idx as int };
                let a = c1.wide_value(reg1 as int);
                if idx == 5 && !c1.rex_x() {
                    (Ok(MemoryInfo { addr: Mem { r: a as u64 }, base: Some(reg1 as u8), idx: None, off: None }), c1, m1)
                } else {
                    let sum = a + c1.wide_value(reg2 as int) * sib_factor(ss as int);
                    if sum > u64::MAX {
                        (Err(Fault::Overflow), c1, m1)
                    } else {
                        (
                            Ok(MemoryInfo { addr: Mem { r: sum as u64 }, base: Some(reg1 as u8), idx: Some(reg2 as u8), off: None }),
                            c1,
                            m1,
                        )
                    }
                }
            }
        },
    }
}

impl CPU {
    /// Decodes a SIB byte and what follows it.
    fn decode_sib_64(&mut self, ram: &mut RAM) -> (ret: Result<MemoryInfo, Fault>)
        requires
            wf(old(ram)@),
        ensures
            (ret, *final(self), final(ram)@) == sib_decoded(*old(self), old(ram)@),
            ret matches Ok(mi) ==> mem_regs_ok(mi),
            wf(final(ram)@),
    {
        let sib = match self.read_u8(ram) {
            Ok(b) => b,
            Err(e) => {
                return Err(e);
            },
        };
        let ss = (sib & 0b1100_0000) >> 6;
        let idx = (sib & 0b0011_1000) >> 3;
        let base = (sib & 0b0000_0111) >> 0;
        assert(ss == sib / 64 && idx == (sib / 8) % 8 && base == sib % 8) by (bit_vector)
            requires
                ss == (sib & 0b1100_0000u8) >> 6u8,
                idx == (sib & 0b0011_1000u8) >> 3u8,
                base == (sib & 0b0000_0111u8) >> 0u8,
        ;
        if base == 5 && ss == 0 {
            let off = match self.read_u32(ram) {
                Ok(v) => v,
                Err(e) => {
                    return Err(e);
                },
            };
            return Ok(MemoryInfo { addr: Mem::from_d(off), base: None, idx: None, off: Some(off) });
        }
        let rex_b = self.ir_data.rex.contains(REX::from_bits_retain(REX::B));
        let rex_x = self.ir_data.rex.contains(REX::from_bits_retain(REX::X));
        let rex_w = self.ir_data.rex.contains(REX::from_bits_retain(REX::W));
        let highbyte1: u8 = if rex_b { 1 } else { 0 };
        let highbyte2: u8 = if rex_x { 1 } else { 0 };
        let reg1 = (highbyte1 << 3) | base;
        let reg2 = (highbyte2 << 3) | idx;
        assert(reg1 == highbyte1 * 8 + base && reg2 == highbyte2 * 8 + idx) by (bit_vector)
            requires
                highbyte1 < 2,
                highbyte2 < 2,
                base < 8,
                idx < 8,
                reg1 == (highbyte1 << 3u8) | base,
                reg2 == (highbyte2 << 3u8) | idx,
        ;
        let gpr1: GPRs = match GPRs::try_from(reg1) {
            Ok(g) => g,
            Err(()) => GPRs::AX,
        };
        let gpr2: GPRs = match GPRs::try_from(reg2) {
            Ok(g) => g,
            Err(()) => GPRs::AX,
        };
        let mul: u64 = if ss == 0 {
            0
        } else if ss == 1 {
            2
        } else if ss == 2 {
            4
        } else {
            8
        };
        let addr: u64 = if rex_w { self.gpr(gpr1).ur } else { self.gpr(gpr1).ud() as u64 };
        if idx == 5 && !rex_x {
            Ok(MemoryInfo { addr: Mem { r: addr }, base: Some(reg1), idx: None, off: None })
        } else {
            let scaled: u64 = if rex_w { self.gpr(gpr2).ur } else { self.gpr(gpr2).ud() as u64 };
            if mul != 0 && scaled > u64::MAX / mul {
                proof {
                    assert(scaled * mul > u64::MAX) by (nonlinear_arith)
                        requires
                            mul > 0,
                            scaled > u64::MAX / mul,
                    ;
                }
                return Err(Fault::Overflow);
            }
            proof {
                assert(scaled * mul <= u64::MAX) by (nonlinear_arith)
                    requires
                        mul == 0 || scaled <= u64::MAX / mul,
                ;
            }
            let product = scaled * mul;
            if addr > u64::MAX - product {
                return Err(Fault::Overflow);
            }
            Ok(MemoryInfo { addr: Mem { r: addr + product }, base: Some(reg1), idx: Some(reg2), off: None })
        }
    }
}


/// Whether the registers a decoded ModR/M names exist.
pub open spec fn modrm_regs_ok(mr: ModRM) -> bool {
    &&& mr.reg1 < 16
    &&& match mr.reg2 {
        RM::Addr(mi) => mem_regs_ok(mi),
        RM::Reg(r) => r < 16,
    }
}

/// The operand `mi` with the displacement `disp` added to its address, as the
/// memory operand of a ModR/M whose register operand is `reg1`.
pub open spec fn with_disp(mi: MemoryInfo, disp: u32, reg1: u8, c: CPU, m: RamView) -> (
    Result<ModRM, Fault>,
    CPU,
    RamView,
) {
    if mi.addr.r + disp > u64::MAX {
        (Err(Fault::Overflow), c, m)
    } else {
        (
            Ok(
                ModRM {
                    reg1,
                    reg2: RM::Addr(
                        MemoryInfo { addr: Mem { r: (mi.addr.r + disp) as u64 }, base: mi.base, idx: mi.idx, off: Some(disp) },
                    ),
                },
            ),
            c,
            m,
        )
    }
}

/// Decoding a ModR/M byte in 64-bit mode: fetch it; its reg field (extended by
/// REX.R) names the register operand. With mod 3 its rm field (extended by
/// REX.B) names a register operand too. Else the memory operand is based on
/// that register (read at 64 bits with REX.B, else at 32), or given by a SIB
/// byte when rm is 4, or based on the instruction pointer when rm is 5 and mod
/// is 1; mod 1 adds an 8-bit displacement, mod 2 a 32-bit one.
pub open spec fn modrm_decoded(cpu: CPU, m: RamView) -> (Result<ModRM, Fault>, CPU, RamView) {
    let (r, c1, m1) = fetch(cpu, m);
    match r {
        Err(e) => (Err(e), c1, m1),
        Ok(modrm) => {
            let md = modrm / 64;
            let reg = (modrm / 8) % 8;
            let rm = modrm % 8;
            let reg1 = (if c1.rex_r() { 8 + reg } else { reg as int }) as u8;
            let reg2 = (if c1.rex_b() { 8 + rm } else { rm as int }) as u8;
            if md == 3 {
                (Ok(ModRM { reg1, reg2: RM::Reg(reg2) }), c1, m1)
            } else {
                let plain = MemoryInfo {
                    addr: Mem {
                        r: if c1.rex_b() {
                            c1.gprs[reg2 as int].ur
                        } else {
                            (c1.gprs[reg2 as int].ur % 0x1_0000_0000) as u64
                        },
                    },
                    base: Some(reg2),
                    idx: None,
                    off: None,
                };
                let (r2, c2, m2) = if rm == 4 {
                    sib_decoded(c1, m1)
                } else if rm == 5 && md == 1 {
                    (
                        Ok(
                            MemoryInfo {
                                addr: Mem {
                                    r: if c1.rex_b() {
                                        c1.ip.r
                                    } else {
                                        (c1.ip.r % 0x1_0000_0000) as u64
                                    },
                                },
                                base: plain.base,
                                idx: plain.idx,
                                off: plain.off,
                            },
                        ),
                        c1,
                        m1,
                    )
                } else {
                    (Ok(plain), c1, m1)
                };
                match r2 {
                    Err(e) => (Err(e), c2, m2),
                    Ok(mi) => if md == 1 {
                        let (r3, c3, m3) = fetch(c2, m2);
                        match r3 {
                            Err(e) => (Err(e), c3, m3),
                            Ok(d) => with_disp(mi, d as u32, reg1, c3, m3),
                        }
                    } else if md == 2 {
                        let (r3, c3, m3) = fetch_seq(c2, m2, 4);
                        match r3 {
                            Err(e) => (Err(e), c3, m3),
                            Ok(bs) => with_disp(mi, le(bs) as u32, reg1, c3, m3),
                        }
                    } else {
                        (Ok(ModRM { reg1, reg2: RM::Addr(mi) }), c2, m2)
                    },
                }
            }
        },
    }
}

impl CPU {
    /// Decodes a ModR/M byte and what follows it, in 64-bit mode.
    fn decode_modrm_64(&mut self, ram: &mut RAM) -> (ret: Result<ModRM, Fault>)
        requires
            wf(old(ram)@),
        ensures
            (ret, *final(self), final(ram)@) == modrm_decoded(*old(self), old(ram)@),
            ret matches Ok(mr) ==> modrm_regs_ok(mr),
            wf(final(ram)@),
    {
        let modrm = match self.read_u8(ram) {
            Ok(b) => b,
            Err(e) => {
                return Err(e);
            },
        };
        let md = (modrm & 0b1100_0000) >> 6;
        let reg = (modrm & 0b0011_1000) >> 3;
        let rm = (modrm & 0b0000_0111) >> 0;
        assert(md == modrm / 64 && reg == (modrm / 8) % 8 && rm == modrm % 8) by (bit_vector)
            requires
                md == (modrm & 0b1100_0000u8) >> 6u8,
                reg == (modrm & 0b0011_1000u8) >> 3u8,
                rm == (modrm & 0b0000_0111u8) >> 0u8,
        ;
        let rex_r = self.ir_data.rex.contains(REX::from_bits_retain(REX::R));
        let rex_b = self.ir_data.rex.contains(REX::from_bits_retain(REX::B));
        let highbyte1: u8 = if rex_r { 1 } else { 0 };
        let highbyte2: u8 = if rex_b { 1 } else { 0 };
        let reg1 = (highbyte1 << 3) | reg;
        let reg2 = (highbyte2 << 3) | rm;
        assert(reg1 == highbyte1 * 8 + reg && reg2 == highbyte2 * 8 + rm) by (bit_vector)
            requires
                highbyte1 < 2,
                highbyte2 < 2,
                reg < 8,
                rm < 8,
                reg1 == (highbyte1 << 3u8) | reg,
                reg2 == (highbyte2 << 3u8) | rm,
        ;
        if md == 3 {
            return Ok(ModRM { reg1, reg2: RM::Reg(reg2) });
        }
        let gpr: GPRs = match GPRs::try_from(reg2) {
            Ok(g) => g,
            Err(()) => GPRs::AX,
        };
        let mut addr = MemoryInfo {
            addr: if rex_b { Mem { r: self.gpr(gpr).ur } } else { Mem::from_d(self.gpr(gpr).ud()) },
            base: Some(reg2),
            idx: None,
            off: None,
        };
        if rm == 4 {
            addr = match self.decode_sib_64(ram) {
                Ok(a) => a,
                Err(e) => {
                    return Err(e);
                },
            };
        } else if rm == 5 && md == 1 {
            if rex_b {
                addr.addr.r = self.ip.r;
            } else {
                addr.addr.set_d(self.ip.d());
            }
        }
        if md == 1 {
            let disp = match self.read_u8(ram) {
                Ok(b) => b as u32,
                Err(e) => {
                    return Err(e);
                },
            };
            addr.off = Some(disp);
            if addr.addr.r > u64::MAX - disp as u64 {
                return Err(Fault::Overflow);
            }
            addr.addr.r = addr.addr.r + disp as u64;
        } else if md == 2 {
            let disp = match self.read_u32(ram) {
                Ok(v) => v,
                Err(e) => {
                    return Err(e);
                },
            };
            addr.off = Some(disp);
            if addr.addr.r > u64::MAX - disp as u64 {
                return Err(Fault::Overflow);
            }
            addr.addr.r = addr.addr.r + disp as u64;
        }
        Ok(ModRM { reg1, reg2: RM::Addr(addr) })
    }

    /// Decodes a ModR/M byte and what follows it.
    pub fn decode_modrm(&mut self, ram: &mut RAM) -> (ret: Result<ModRM, Fault>)
        requires
            wf(old(ram)@),
        ensures
            (ret, *final(self), final(ram)@) == modrm_decoded(*old(self), old(ram)@),
            ret matches Ok(mr) ==> modrm_regs_ok(mr),
            wf(final(ram)@),
    {
        self.decode_modrm_64(ram)
    }
}


/// Bytes read as a value of the operand size `size`.
pub open spec fn sized(size: GPRSize, r: Result<Seq<u8>, Fault>) -> Result<GPRSize, Fault> {
    match r {
        Err(e) => Err(e),
        Ok(bs) => Ok(
            match size {
                GPRSize::X16(_) => GPRSize::X16(le(bs) as u16),
                GPRSize::X32(_) => GPRSize::X32(le(bs) as u32),
                GPRSize::X64(_) => GPRSize::X64(le(bs) as u64),
            },
        ),
    }
}

/// The number of bytes of a value of the size `size`.
pub open spec fn size_bytes(size: GPRSize) -> nat {
    match size {
        GPRSize::X16(_) => 2,
        GPRSize::X32(_) => 4,
        GPRSize::X64(_) => 8,
    }
}

/// Loading the memory operand at `addr` at the operand size.
pub open spec fn mem_sized(cpu: CPU, m: RamView, addr: Mem) -> (Result<GPRSize, Fault>, CPU, RamView) {
    let size = cpu.size_at(Location::Operand);
    let (r, c, mm) = load_seq(cpu, m, cpu.mem_operand_addr(addr), size_bytes(size));
    (sized(size, r), c, mm)
}

/// Reading the register-or-memory operand of `modrm` at the operand size.
pub open spec fn rm_sized(cpu: CPU, m: RamView, modrm: ModRM) -> (Result<GPRSize, Fault>, CPU, RamView) {
    match modrm.reg2 {
        RM::Addr(mem) => mem_sized(cpu, m, mem.addr),
        RM::Reg(reg) => (Ok(cpu.gpr_at_size(reg as int)), cpu, m),
    }
}

impl CPU {
    fn decode_size_64(&self, location: &Location) -> (ret: GPRSize)
        ensures
            ret == self.size_at(*location),
    {
        if *location == Location::Address && self.ir_data.addr || *location == Location::Operand
            && self.ir_data.oper {
            GPRSize::X16(0)
        } else if self.ir_data.rex.contains(REX::from_bits_retain(REX::W)) {
            GPRSize::X64(0)
        } else {
            GPRSize::X32(0)
        }
    }

    /// The size asked for at `location`, each with value 0.
    pub fn decode_size(&self, location: &Location) -> (ret: GPRSize)
        ensures
            ret == self.size_at(*location),
    {
        self.decode_size_64(location)
    }

    /// The value of register `gpr_idx` at the operand size.
    pub fn decode_gpr_size(&self, gpr_idx: u8) -> (ret: GPRSize)
        requires
            gpr_idx < 16,
        ensures
            ret == self.gpr_at_size(gpr_idx as int),
    {
        let gpr: GPRs = match GPRs::try_from(gpr_idx) {
            Ok(g) => g,
            Err(()) => GPRs::AX,
        };
        match self.decode_size(&Location::Operand) {
            GPRSize::X16(_) => GPRSize::X16(self.gpr(gpr).uw()),
            GPRSize::X32(_) => GPRSize::X32(self.gpr(gpr).ud()),
            GPRSize::X64(_) => GPRSize::X64(self.gpr(gpr).ur),
        }
    }

    /// Loads the memory operand at `addr` at the operand size.
    pub fn decode_mem_size(&mut self, ram: &mut RAM, addr: Mem) -> (ret: Result<GPRSize, Fault>)
        requires
            wf(old(ram)@),
        ensures
            (ret, *final(self), final(ram)@) == mem_sized(*old(self), old(ram)@, addr),
            wf(final(ram)@),
    {
        let virt_addr: u64 = match self.decode_size(&Location::Address) {
            GPRSize::X16(_) => addr.w() as u64,
            GPRSize::X32(_) => addr.r,
            GPRSize::X64(_) => addr.d() as u64,
        };
        match self.decode_size(&Location::Operand) {
            GPRSize::X16(_) => match self.get_u16(ram, virt_addr) {
                Ok(v) => Ok(GPRSize::X16(v)),
                Err(e) => Err(e),
            },
            GPRSize::X32(_) => match self.get_u32(ram, virt_addr) {
                Ok(v) => Ok(GPRSize::X32(v)),
                Err(e) => Err(e),
            },
            GPRSize::X64(_) => match self.get_u64(ram, virt_addr) {
                Ok(v) => Ok(GPRSize::X64(v)),
                Err(e) => Err(e),
            },
        }
    }

    /// Reads the register-or-memory operand of `modrm` at the operand size.
    pub fn decode_rm_size(&mut self, ram: &mut RAM, modrm: &ModRM) -> (ret: Result<GPRSize, Fault>)
        requires
            wf(old(ram)@),
            modrm.reg2 matches RM::Reg(r) ==> r < 16,
        ensures
            (ret, *final(self), final(ram)@) == rm_sized(*old(self), old(ram)@, *modrm),
            wf(final(ram)@),
    {
        match modrm.reg2 {
            RM::Addr(mem) => self.decode_mem_size(ram, mem.addr),
            RM::Reg(reg) => Ok(self.decode_gpr_size(reg)),
        }
    }
}


/// The address size is 16 bits exactly where the address-size prefix is
/// present, else 64 bits where REX.W is set, else 32 bits; the operand size is
/// 16 bits exactly where the operand-size prefix is present, else 64 bits where
/// REX.W is set, else 32 bits. So neither prefix changes the other size.
pub proof fn lemma_sizes_follow_their_prefixes(cpu: CPU)
    ensures
        cpu.ir_data.addr ==> cpu.size_at(Location::Address) == GPRSize::X16(0),
        !cpu.ir_data.addr && cpu.ir_data.rex.0 & 8 == 8 ==> cpu.size_at(Location::Address) == GPRSize::X64(0),
        !cpu.ir_data.addr && cpu.ir_data.rex.0 & 8 != 8 ==> cpu.size_at(Location::Address) == GPRSize::X32(0),
        cpu.ir_data.oper ==> cpu.size_at(Location::Operand) == GPRSize::X16(0),
        !cpu.ir_data.oper && cpu.ir_data.rex.0 & 8 == 8 ==> cpu.size_at(Location::Operand) == GPRSize::X64(0),
        !cpu.ir_data.oper && cpu.ir_data.rex.0 & 8 != 8 ==> cpu.size_at(Location::Operand) == GPRSize::X32(0),
{
}

/// Setting or clearing the operand-size prefix leaves the address size as it
/// was, and setting or clearing the address-size prefix leaves the operand size
/// as it was.
pub proof fn lemma_prefixes_are_independent(cpu: CPU, flag: bool)
    ensures
        (CPU { ir_data: InstrData { oper: flag, ..cpu.ir_data }, ..cpu }).size_at(Location::Address)
            == cpu.size_at(Location::Address),
        (CPU { ir_data: InstrData { addr: flag, ..cpu.ir_data }, ..cpu }).size_at(Location::Operand)
            == cpu.size_at(Location::Operand),
{
}

/// A register read at the operand size gives its low 16 bits under the
/// operand-size prefix, all 64 of its bits with REX.W and no such prefix, and
/// its low 32 bits otherwise.
pub proof fn lemma_gpr_read_at_operand_size(cpu: CPU, reg: int)
    requires
        0 <= reg < 16,
    ensures
        cpu.ir_data.oper ==> cpu.gpr_at_size(reg) == GPRSize::X16((cpu.gprs[reg].ur % 0x1_0000) as u16),
        !cpu.ir_data.oper && cpu.ir_data.rex.0 & 8 == 8 ==> cpu.gpr_at_size(reg) == GPRSize::X64(
            cpu.gprs[reg].ur,
        ),
        !cpu.ir_data.oper && cpu.ir_data.rex.0 & 8 != 8 ==> cpu.gpr_at_size(reg) == GPRSize::X32(
            (cpu.gprs[reg].ur % 0x1_0000_0000) as u32,
        ),
{
}

/// Register `r` as an address: all 64 bits where `wide`, else its low 32 bits.
pub open spec fn reg_addr(cpu: CPU, r: int, wide: bool) -> int {
    if wide {
        cpu.gprs[r].ur as int
    } else {
        (cpu.gprs[r].ur % 0x1_0000_0000) as int
    }
}

/// A SIB byte whose base is not 5 with scale 0, and whose index is not 5
/// without REX.X, gives the base register plus the index register times 0, 2,
/// 4 or 8 for the scale fields 0, 1, 2 and 3 (registers extended by REX.B and
/// REX.X, read at 64 bits with REX.W, else at 32); the decoding succeeds
/// exactly where that sum fits in 64 bits.
pub proof fn lemma_sib_scales_the_index(cpu: CPU, m: RamView)
    ensures
        ({
            let sib = fetch(cpu, m).0->Ok_0;
            let ss = sib / 64;
            let idx = (sib / 8) % 8;
            let base = sib % 8;
            let b = if cpu.ir_data.rex.0 & 1 == 1 { 8 + base } else { base as int };
            let x = if cpu.ir_data.rex.0 & 2 == 2 { 8 + idx } else { idx as int };
            let wide = cpu.ir_data.rex.0 & 8 == 8;
            let a = reg_addr(cpu, b, wide);
            let i = reg_addr(cpu, x, wide);
            let r = sib_decoded(cpu, m).0;
            fetch(cpu, m).0 is Ok && !(base == 5 && ss == 0) && !(idx == 5 && cpu.ir_data.rex.0 & 2 != 2)
                ==> {
                &&& ss == 0 ==> (r is Ok <==> a <= u64::MAX) && (r is Ok ==> r->Ok_0.addr.r == a)
                &&& ss == 1 ==> (r is Ok <==> a + 2 * i <= u64::MAX) && (r is Ok ==> r->Ok_0.addr.r == a + 2
                    * i)
                &&& ss == 2 ==> (r is Ok <==> a + 4 * i <= u64::MAX) && (r is Ok ==> r->Ok_0.addr.r == a + 4
                    * i)
                &&& ss == 3 ==> (r is Ok <==> a + 8 * i <= u64::MAX) && (r is Ok ==> r->Ok_0.addr.r == a + 8
                    * i)
                &&& r is Ok ==> r->Ok_0.base == Some(b as u8) && r->Ok_0.idx == Some(x as u8) && r->Ok_0.off
                    is None
            }
        }),
{
    lemma_fetch_advances(cpu, m);
    let sib = fetch(cpu, m).0->Ok_0;
    assert(sib / 64 < 4);
}

/// A SIB byte with base 5 and scale 0 gives the 32-bit little-endian
/// displacement that follows it as the address, with no base or index; one
/// whose index is 5 without REX.X (and not base 5 with scale 0) gives the base
/// register alone, read at 64 bits with REX.W, else at 32, and always succeeds.
pub proof fn lemma_sib_special_forms(cpu: CPU, m: RamView)
    ensures
        ({
            let (r1, c1, m1) = fetch(cpu, m);
            let sib = r1->Ok_0;
            let ss = sib / 64;
            let idx = (sib / 8) % 8;
            let base = sib % 8;
            let b = if cpu.ir_data.rex.0 & 1 == 1 { 8 + base } else { base as int };
            let r = sib_decoded(cpu, m).0;
            let bytes = fetch_seq(c1, m1, 4).0;
            &&& r1 is Ok && base == 5 && ss == 0 ==> (r is Ok <==> bytes is Ok) && (r is Ok ==> r->Ok_0
                == MemoryInfo {
                addr: Mem { r: le(bytes->Ok_0) as u64 },
                base: None,
                idx: None,
                off: Some(le(bytes->Ok_0) as u32),
            } && le(bytes->Ok_0) < 0x1_0000_0000)
            &&& r1 is Ok && !(base == 5 && ss == 0) && idx == 5 && cpu.ir_data.rex.0 & 2 != 2 ==> r
                == Ok::<MemoryInfo, Fault>(
                MemoryInfo {
                    addr: Mem { r: reg_addr(cpu, b, cpu.ir_data.rex.0 & 8 == 8) as u64 },
                    base: Some(b as u8),
                    idx: None,
                    off: None,
                },
            )
        }),
{
    lemma_fetch_advances(cpu, m);
    let (r1, c1, m1) = fetch(cpu, m);
    lemma_fetch_seq_len(c1, m1, 4);
    if fetch_seq(c1, m1, 4).0 is Ok {
        lemma_le_bound(fetch_seq(c1, m1, 4).0->Ok_0);
        reveal_with_fuel(pow256, 5);
    }
}

/// A ModR/M byte's reg field, extended by REX.R, names the register operand.
/// With mod 3 the rm field, extended by REX.B, names a register operand and
/// nothing more is fetched. With mod 0 and rm not 4 the memory operand is the
/// rm register (extended by REX.B, read at 64 bits with REX.B, else at 32)
/// with no displacement.
pub proof fn lemma_modrm_register_forms(cpu: CPU, m: RamView)
    ensures
        ({
            let (r1, c1, m1) = fetch(cpu, m);
            let modrm = r1->Ok_0;
            let md = modrm / 64;
            let reg = (modrm / 8) % 8;
            let rm = modrm % 8;
            let rex_b = cpu.ir_data.rex.0 & 1 == 1;
            let g = if cpu.ir_data.rex.0 & 4 == 4 { 8 + reg } else { reg as int };
            let b = if rex_b { 8 + rm } else { rm as int };
            let d = modrm_decoded(cpu, m);
            &&& r1 is Ok && d.0 is Ok ==> d.0->Ok_0.reg1 == g
            &&& r1 is Ok && md == 3 ==> d == (Ok::<ModRM, Fault>(ModRM { reg1: g as u8, reg2: RM::Reg(b as u8) }), c1, m1)
            &&& r1 is Ok && md == 0 && rm != 4 ==> d == (
                Ok::<ModRM, Fault>(
                    ModRM {
                        reg1: g as u8,
                        reg2: RM::Addr(
                            MemoryInfo { addr: Mem { r: reg_addr(cpu, b, rex_b) as u64 }, base: Some(b as u8), idx: None, off: None },
                        ),
                    },
                ),
                c1,
                m1,
            )
        }),
{
    lemma_fetch_advances(cpu, m);
}

/// A memory operand is read at its address's low 16 bits with the
/// address-size prefix; else at its whole address without REX.W, and at the
/// low 32 bits of its address with REX.W. It is read as 2, 4 or 8 bytes (at
/// operand size 16, 32 or 64 bits), which spell its value little-endian.
pub proof fn lemma_memory_operand_read(cpu: CPU, m: RamView, addr: Mem)
    ensures
        cpu.ir_data.addr ==> cpu.mem_operand_addr(addr) == addr.r % 0x1_0000,
        !cpu.ir_data.addr && cpu.ir_data.rex.0 & 8 != 8 ==> cpu.mem_operand_addr(addr) == addr.r,
        !cpu.ir_data.addr && cpu.ir_data.rex.0 & 8 == 8 ==> cpu.mem_operand_addr(addr) == addr.r % 0x1_0000_0000,
        ({
            let v = cpu.mem_operand_addr(addr);
            let (r, c, mm) = mem_sized(cpu, m, addr);
            &&& cpu.ir_data.oper ==> (r, c, mm) == (match load_seq(cpu, m, v, 2).0 {
                Ok(bs) => Ok(GPRSize::X16(le(bs) as u16)),
                Err(e) => Err(e),
            }, load_seq(cpu, m, v, 2).1, load_seq(cpu, m, v, 2).2)
            &&& !cpu.ir_data.oper && cpu.ir_data.rex.0 & 8 != 8 ==> (r, c, mm) == (match load_seq(cpu, m, v, 4).0 {
                Ok(bs) => Ok(GPRSize::X32(le(bs) as u32)),
                Err(e) => Err(e),
            }, load_seq(cpu, m, v, 4).1, load_seq(cpu, m, v, 4).2)
            &&& !cpu.ir_data.oper && cpu.ir_data.rex.0 & 8 == 8 ==> (r, c, mm) == (match load_seq(cpu, m, v, 8).0 {
                Ok(bs) => Ok(GPRSize::X64(le(bs) as u64)),
                Err(e) => Err(e),
            }, load_seq(cpu, m, v, 8).1, load_seq(cpu, m, v, 8).2)
        }),
{
}

/// With mod 1 or mod 2, a decoded memory operand records its displacement
/// and its address is the base address plus that displacement: an 8-bit
/// displacement fetched after the ModR/M byte (and SIB byte) with mod 1, a
/// 32-bit little-endian one with mod 2. The base address is that of the SIB
/// byte when rm is 4, the instruction pointer past the ModR/M byte when rm is 5
/// and mod is 1, and the rm register otherwise (extended by REX.B, and read at
/// 64 bits with REX.B, else at 32).
pub proof fn lemma_modrm_adds_the_displacement(cpu: CPU, m: RamView)
    ensures
        ({
            let (r1, c1, m1) = fetch(cpu, m);
            let modrm = r1->Ok_0;
            let md = modrm / 64;
            let rm = modrm % 8;
            let rex_b = cpu.ir_data.rex.0 & 1 == 1;
            let b = if rex_b { 8 + rm } else { rm as int };
            let (r2, c2, m2) = sib_decoded(c1, m1);
            let base: int = if rm == 4 {
                r2->Ok_0.addr.r as int
            } else if rm == 5 && md == 1 {
                if rex_b {
                    cpu.ip.r + 1
                } else {
                    (cpu.ip.r + 1) % 0x1_0000_0000
                }
            } else {
                reg_addr(cpu, b, rex_b)
            };
            let (c3, m3) = if rm == 4 { (c2, m2) } else { (c1, m1) };
            let disp: int = if md == 1 {
                fetch(c3, m3).0->Ok_0 as int
            } else {
                le(fetch_seq(c3, m3, 4).0->Ok_0) as int
            };
            r1 is Ok && (md == 1 || md == 2) && modrm_decoded(cpu, m).0 is Ok ==> {
                &&& modrm_decoded(cpu, m).0->Ok_0.reg2 matches RM::Addr(mi)
                &&& mi.off == Some(disp as u32)
                &&& mi.addr.r == base + disp
                &&& disp < 0x1_0000_0000
            }
        }),
{
    lemma_fetch_advances(cpu, m);
    let (r1, c1, m1) = fetch(cpu, m);
    let modrm = r1->Ok_0;
    let rm = modrm % 8;
    let md = modrm / 64;
    if r1 is Ok && (md == 1 || md == 2) && rm != 4 {
        if md == 2 {
            lemma_fetch_seq_len(c1, m1, 4);
            lemma_le_bound(fetch_seq(c1, m1, 4).0->Ok_0);
            reveal_with_fuel(pow256, 5);
        }
    } else if r1 is Ok && (md == 1 || md == 2) {
        let (r2, c2, m2) = sib_decoded(c1, m1);
        if md == 2 {
            lemma_fetch_seq_len(c2, m2, 4);
            lemma_le_bound(fetch_seq(c2, m2, 4).0->Ok_0);
            reveal_with_fuel(pow256, 5);
        }
    }
}

} // verus!
