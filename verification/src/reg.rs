use vstd::prelude::*;
use vstd::std_specs::convert::TryFromSpecImpl;

verus! {

/// The two low bytes of a general purpose register, unsigned.
#[derive(Clone, Copy)]
pub struct UHighBits {
    pub ls: u8,
    pub ms: u8,
}

/// The two low bytes of a general purpose register, signed.
#[derive(Clone, Copy)]
pub struct SHighBits {
    pub ls: i8,
    pub ms: i8,
}

/// A 64-bit general purpose register. `ur` holds all of it; the narrower views
/// read or write its low bytes, as the register file of a little-endian machine
/// overlays them.
#[derive(Clone, Copy)]
pub struct GPR {
    pub ur: u64,
}

impl GPR {
    /// The low two bytes, unsigned.
    pub fn ub(&self) -> (ret: UHighBits)
        ensures
            ret.ls == self.ur % 0x100,
            ret.ms == (self.ur / 0x100) % 0x100,
    {
        let r = self.ur;
        assert(r & 0xFF == r % 0x100) by (bit_vector);
        assert((r >> 8u64) & 0xFF == (r / 0x100) % 0x100) by (bit_vector);
        UHighBits { ls: (r & 0xFF) as u8, ms: ((r >> 8) & 0xFF) as u8 }
    }

    /// The low two bytes, signed.
    pub fn sb(&self) -> (ret: SHighBits)
        ensures
            ret.ls == (self.ur % 0x100) as u8 as i8,
            ret.ms == ((self.ur / 0x100) % 0x100) as u8 as i8,
    {
        let u = self.ub();
        SHighBits { ls: u.ls as i8, ms: u.ms as i8 }
    }

    /// The low 16 bits, unsigned.
    pub fn uw(&self) -> (ret: u16)
        ensures
            ret == self.ur % 0x1_0000,
    {
        let r = self.ur;
        assert(r & 0xFFFF == r % 0x1_0000) by (bit_vector);
        (r & 0xFFFF) as u16
    }

    /// The low 16 bits, signed.
    pub fn sw(&self) -> (ret: i16)
        ensures
            ret == (self.ur % 0x1_0000) as u16 as i16,
    {
        self.uw() as i16
    }

    /// The low 32 bits, unsigned.
    pub fn ud(&self) -> (ret: u32)
        ensures
            ret == self.ur % 0x1_0000_0000,
    {
        let r = self.ur;
        assert(r & 0xFFFF_FFFF == r % 0x1_0000_0000) by (bit_vector);
        (r & 0xFFFF_FFFF) as u32
    }

    /// The low 32 bits, signed.
    pub fn sd(&self) -> (ret: i32)
        ensures
            ret == (self.ur % 0x1_0000_0000) as u32 as i32,
    {
        self.ud() as i32
    }

    /// All 64 bits, signed.
    pub fn sr(&self) -> (ret: i64)
        ensures
            ret == self.ur as i64,
    {
        self.ur as i64
    }

    /// Writes the low 16 bits; the others keep their value.
    pub fn set_uw(&mut self, val: u16)
        ensures
            final(self).ur == old(self).ur - old(self).ur % 0x1_0000 + val,
    {
        let r = self.ur;
        let v = val as u64;
        assert((r & !0xFFFFu64) | v == r - r % 0x1_0000 + v) by (bit_vector)
            requires v < 0x1_0000;
        self.ur = (r & !0xFFFFu64) | v;
    }

    /// Writes the low 32 bits; the others keep their value.
    pub fn set_ud(&mut self, val: u32)
        ensures
            final(self).ur == old(self).ur - old(self).ur % 0x1_0000_0000 + val,
    {
        let r = self.ur;
        let v = val as u64;
        assert((r & !0xFFFF_FFFFu64) | v == r - r % 0x1_0000_0000 + v) by (bit_vector)
            requires v < 0x1_0000_0000;
        self.ur = (r & !0xFFFF_FFFFu64) | v;
    }
}

impl Default for GPR {
    fn default() -> (ret: Self)
        ensures
            ret.ur == 0,
    {
        GPR { ur: 0 }
    }
}

/// The sixteen general purpose registers, in encoding order.
#[derive(Clone, Copy, PartialEq, Eq, Debug, Structural)]
pub enum GPRs {
    AX,
    CX,
    DX,
    BX,
    SP,
    BP,
    SI,
    DI,
    R8,
    R9,
    R10,
    R11,
    R12,
    R13,
    R14,
    R15,
}

/// The register with encoding `v`, if `v` is below 16.
pub open spec fn gpr_of(v: u8) -> Option<GPRs> {
    match v {
        0 => Some(GPRs::AX),
        1 => Some(GPRs::CX),
        2 => Some(GPRs::DX),
        3 => Some(GPRs::BX),
        4 => Some(GPRs::SP),
        5 => Some(GPRs::BP),
        6 => Some(GPRs::SI),
        7 => Some(GPRs::DI),
        8 => Some(GPRs::R8),
        9 => Some(GPRs::R9),
        10 => Some(GPRs::R10),
        11 => Some(GPRs::R11),
        12 => Some(GPRs::R12),
        13 => Some(GPRs::R13),
        14 => Some(GPRs::R14),
        15 => Some(GPRs::R15),
        _ => None,
    }
}

impl GPRs {
    /// The register's encoding.
    pub open spec fn encoding(self) -> nat {
        match self {
            GPRs::AX => 0,
            GPRs::CX => 1,
            GPRs::DX => 2,
            GPRs::BX => 3,
            GPRs::SP => 4,
            GPRs::BP => 5,
            GPRs::SI => 6,
            GPRs::DI => 7,
            GPRs::R8 => 8,
            GPRs::R9 => 9,
            GPRs::R10 => 10,
            GPRs::R11 => 11,
            GPRs::R12 => 12,
            GPRs::R13 => 13,
            GPRs::R14 => 14,
            GPRs::R15 => 15,
        }
    }

    /// The register's encoding, 0 to 15.
    pub fn index(&self) -> (ret: usize)
        ensures
            ret == self.encoding(),
            ret < 16,
    {
        match self {
            GPRs::AX => 0,
            GPRs::CX => 1,
            GPRs::DX => 2,
            GPRs::BX => 3,
            GPRs::SP => 4,
            GPRs::BP => 5,
            GPRs::SI => 6,
            GPRs::DI => 7,
            GPRs::R8 => 8,
            GPRs::R9 => 9,
            GPRs::R10 => 10,
            GPRs::R11 => 11,
            GPRs::R12 => 12,
            GPRs::R13 => 13,
            GPRs::R14 => 14,
            GPRs::R15 => 15,
        }
    }
}

impl TryFrom<u8> for GPRs {
    type Error = ();

    fn try_from(value: u8) -> (ret: Result<Self, Self::Error>) {
        match value {
            0 => Ok(Self::AX),
            1 => Ok(Self::CX),
            2 => Ok(Self::DX),
            3 => Ok(Self::BX),
            4 => Ok(Self::SP),
            5 => Ok(Self::BP),
            6 => Ok(Self::SI),
            7 => Ok(Self::DI),
            8 => Ok(Self::R8),
            9 => Ok(Self::R9),
            10 => Ok(Self::R10),
            11 => Ok(Self::R11),
            12 => Ok(Self::R12),
            13 => Ok(Self::R13),
            14 => Ok(Self::R14),
            15 => Ok(Self::R15),
            _ => Err(()),
        }
    }
}

impl TryFromSpecImpl<u8> for GPRs {
    open spec fn obeys_try_from_spec() -> bool {
        true
    }

    open spec fn try_from_spec(v: u8) -> Result<Self, ()> {
        match gpr_of(v) {
            Some(g) => Ok(g),
            None => Err(()),
        }
    }
}


/// A memory operand or instruction pointer: 64 bits, of which `w` and `d`
/// read the low 16 and 32.
#[derive(Clone, Copy)]
pub struct Mem {
    pub r: u64,
}

/// The instruction pointer.
pub type IPR = Mem;

impl Mem {
    /// A value whose low 32 bits are `d` and whose upper bits are zero.
    pub fn from_d(d: u32) -> (ret: Mem)
        ensures
            ret.r == d,
    {
        Mem { r: d as u64 }
    }

    /// The low 16 bits.
    pub fn w(&self) -> (ret: u16)
        ensures
            ret == self.r % 0x1_0000,
    {
        let r = self.r;
        assert(r & 0xFFFF == r % 0x1_0000) by (bit_vector);
        (r & 0xFFFF) as u16
    }

    /// The low 32 bits.
    pub fn d(&self) -> (ret: u32)
        ensures
            ret == self.r % 0x1_0000_0000,
    {
        let r = self.r;
        assert(r & 0xFFFF_FFFF == r % 0x1_0000_0000) by (bit_vector);
        (r & 0xFFFF_FFFF) as u32
    }

    /// Writes the low 16 bits; the others keep their value.
    pub fn set_w(&mut self, val: u16)
        ensures
            final(self).r == old(self).r - old(self).r % 0x1_0000 + val,
    {
        let r = self.r;
        let v = val as u64;
        assert((r & !0xFFFFu64) | v == r - r % 0x1_0000 + v) by (bit_vector)
            requires v < 0x1_0000;
        self.r = (r & !0xFFFFu64) | v;
    }

    /// Writes the low 32 bits; the others keep their value.
    pub fn set_d(&mut self, val: u32)
        ensures
            final(self).r == old(self).r - old(self).r % 0x1_0000_0000 + val,
    {
        let r = self.r;
        let v = val as u64;
        assert((r & !0xFFFF_FFFFu64) | v == r - r % 0x1_0000_0000 + v) by (bit_vector)
            requires v < 0x1_0000_0000;
        self.r = (r & !0xFFFF_FFFFu64) | v;
    }
}

impl Default for Mem {
    /// The instruction pointer at reset.
    fn default() -> (ret: Self)
        ensures
            ret.r == 0xFFF0,
    {
        Mem { r: 0x0000_FFF0 }
    }
}

/// A segment register: the base it designates and its limit.
pub struct SR {
    pub base: u32,
    pub limit: u16,
}

impl SR {
    /// A segment register loaded with the selector `val`.
    pub fn new(val: u16) -> (ret: Self)
        ensures
            ret.base == (val as u32) * 16,
            ret.limit == 0xFFF,
    {
        let mut ret = Self { base: 0, limit: 0xFFF };
        ret.set(val);
        ret
    }

    /// The selector the base designates: bits 4 to 19 of the base.
    pub fn get(&self) -> (ret: u16)
        ensures
            ret == (self.base % 0x10_0000) / 16,
    {
        let b = self.base;
        assert(((b & 0x000F_FFF0u32) >> 4u32) == (b % 0x10_0000) / 16) by (bit_vector);
        ((b & 0x000F_FFF0) >> 4) as u16
    }

    /// Loads the selector `val`: the base becomes `val` times 16.
    pub fn set(&mut self, val: u16)
        ensures
            final(self).base == (val as u32) * 16,
            final(self).limit == old(self).limit,
    {
        let v = val as u32;
        assert((v << 4u32) == v * 16) by (bit_vector)
            requires v < 0x10000u32;
        self.base = v << 4;
    }
}

/// The six segment registers.
#[derive(PartialEq, Eq, Structural)]
pub enum SRs {
    ES,
    CS,
    SS,
    DS,
    FS,
    GS,
}

impl SRs {
    /// The register's position, 0 to 5.
    pub open spec fn encoding(self) -> nat {
        match self {
            SRs::ES => 0,
            SRs::CS => 1,
            SRs::SS => 2,
            SRs::DS => 3,
            SRs::FS => 4,
            SRs::GS => 5,
        }
    }

    /// The register's position, 0 to 5.
    pub fn index(&self) -> (ret: usize)
        ensures
            ret == self.encoding(),
    {
        match self {
            SRs::ES => 0,
            SRs::CS => 1,
            SRs::SS => 2,
            SRs::DS => 3,
            SRs::FS => 4,
            SRs::GS => 5,
        }
    }
}

/// A multimedia register.
pub type MMR = u64;

/// A descriptor table register.
pub struct DTR {
    pub limit: u16,
    pub base: Mem,
}

impl Default for DTR {
    fn default() -> (ret: Self)
        ensures
            ret.limit == 0xFFFF,
            ret.base.r == 0,
    {
        Self { limit: 0xFFFF, base: Mem { r: 0 } }
    }
}

/// The flags register.
#[derive(Clone, Copy, PartialEq, Eq, Structural)]
pub struct FR(pub u64);

impl FR {
    pub const CF: u64 = 0x0000_0001;
    pub const ON: u64 = 0x0000_0002;
    pub const PF: u64 = 0x0000_0004;
    pub const AF: u64 = 0x0000_0010;
    pub const ZF: u64 = 0x0000_0040;
    pub const SF: u64 = 0x0000_0080;
    pub const TF: u64 = 0x0000_0100;
    pub const IF: u64 = 0x0000_0200;
    pub const DF: u64 = 0x0000_0400;
    pub const OF: u64 = 0x0000_0800;
    pub const IOPL: u64 = 0x0000_3000;
    pub const NT: u64 = 0x0000_4000;
    pub const RF: u64 = 0x0001_0000;
    pub const VM: u64 = 0x0002_0000;
    pub const AC: u64 = 0x0004_0000;
    pub const VIF: u64 = 0x0008_0000;
    pub const VIP: u64 = 0x0010_0000;
    pub const ID: u64 = 0x0020_0000;

    /// No flag set.
    pub fn empty() -> (ret: Self)
        ensures
            ret.0 == 0,
    {
        FR(0)
    }

    /// The flags whose bits are `bits`, unknown bits included.
    pub fn from_bits_retain(bits: u64) -> (ret: Self)
        ensures
            ret.0 == bits,
    {
        FR(bits)
    }

    /// The bits of the flags.
    pub fn bits(&self) -> (ret: u64)
        ensures
            ret == self.0,
    {
        self.0
    }

    /// Whether every bit of `other` is set in `self`.
    pub fn contains(&self, other: Self) -> (ret: bool)
        ensures
            ret == (self.0 & other.0 == other.0),
    {
        self.0 & other.0 == other.0
    }
}


/// Control register 0.
#[derive(Clone, Copy, PartialEq, Eq, Structural)]
pub struct CR0(pub u64);

impl CR0 {
    pub const PE: u64 = 0x0000_0001;
    pub const MP: u64 = 0x0000_0002;
    pub const EM: u64 = 0x0000_0004;
    pub const TS: u64 = 0x0000_0008;
    pub const ET: u64 = 0x0000_0010;
    pub const NE: u64 = 0x0000_0020;
    pub const WP: u64 = 0x0001_0000;
    pub const AM: u64 = 0x0004_0000;
    pub const NW: u64 = 0x2000_0000;
    pub const CD: u64 = 0x4000_0000;
    pub const PG: u64 = 0x8000_0000;

    /// No flag set.
    pub fn empty() -> (ret: Self)
        ensures
            ret.0 == 0,
    {
        CR0(0)
    }

    /// The flags whose bits are `bits`, unknown bits included.
    pub fn from_bits_retain(bits: u64) -> (ret: Self)
        ensures
            ret.0 == bits,
    {
        CR0(bits)
    }

    /// The bits of the flags.
    pub fn bits(&self) -> (ret: u64)
        ensures
            ret == self.0,
    {
        self.0
    }

    /// Whether every bit of `other` is set in `self`.
    pub fn contains(&self, other: Self) -> (ret: bool)
        ensures
            ret == (self.0 & other.0 == other.0),
    {
        self.0 & other.0 == other.0
    }
}

/// Control register 3 while process-context identifiers are off.
#[derive(Clone, Copy, PartialEq, Eq, Structural)]
pub struct CR3NOPCID(pub u64);

impl CR3NOPCID {
    pub const PWT: u64 = 0x04;
    pub const PCD: u64 = 0x10;

    /// No flag set.
    pub fn empty() -> (ret: Self)
        ensures
            ret.0 == 0,
    {
        CR3NOPCID(0)
    }

    /// The flags whose bits are `bits`, unknown bits included.
    pub fn from_bits_retain(bits: u64) -> (ret: Self)
        ensures
            ret.0 == bits,
    {
        CR3NOPCID(bits)
    }

    /// The bits of the flags.
    pub fn bits(&self) -> (ret: u64)
        ensures
            ret == self.0,
    {
        self.0
    }

    /// Whether every bit of `other` is set in `self`.
    pub fn contains(&self, other: Self) -> (ret: bool)
        ensures
            ret == (self.0 & other.0 == other.0),
    {
        self.0 & other.0 == other.0
    }
}

/// Control register 3 while process-context identifiers are on.
#[derive(Clone, Copy, PartialEq, Eq, Structural)]
pub struct CR3PCID(pub u64);

impl CR3PCID {
    pub const PCID: u64 = 0xFFF;

    /// No flag set.
    pub fn empty() -> (ret: Self)
        ensures
            ret.0 == 0,
    {
        CR3PCID(0)
    }

    /// The flags whose bits are `bits`, unknown bits included.
    pub fn from_bits_retain(bits: u64) -> (ret: Self)
        ensures
            ret.0 == bits,
    {
        CR3PCID(bits)
    }

    /// The bits of the flags.
    pub fn bits(&self) -> (ret: u64)
        ensures
            ret == self.0,
    {
        self.0
    }

    /// Whether every bit of `other` is set in `self`.
    pub fn contains(&self, other: Self) -> (ret: bool)
        ensures
            ret == (self.0 & other.0 == other.0),
    {
        self.0 & other.0 == other.0
    }
}

/// Control register 4.
pub struct CR4(pub u64);

impl CR4 {
    pub const VME: u64 = 0x0000_0001;
    pub const PVI: u64 = 0x0000_0002;
    pub const TSD: u64 = 0x0000_0004;
    pub const DE: u64 = 0x0000_0008;
    pub const PSE: u64 = 0x0000_0010;
    pub const PAE: u64 = 0x0000_0020;
    pub const MCE: u64 = 0x0000_0040;
    pub const PGE: u64 = 0x0000_0080;
    pub const PCE: u64 = 0x0000_0100;
    pub const OSFXSR: u64 = 0x0000_0200;
    pub const OSXMMEXCPT: u64 = 0x0000_0400;
    pub const UMIP: u64 = 0x0000_0800;
    pub const LA57: u64 = 0x0000_1000;
    pub const VMXE: u64 = 0x0000_2000;
    pub const SMXE: u64 = 0x0000_4000;
    pub const FSGSBASE: u64 = 0x0001_0000;
    pub const PCIDE: u64 = 0x0002_0000;
    pub const OSXSAVE: u64 = 0x0004_0000;
    pub const SMEP: u64 = 0x0010_0000;
    pub const SMAP: u64 = 0x0020_0000;
    pub const PKE: u64 = 0x0040_0000;
    pub const CET: u64 = 0x0080_0000;
    pub const PKS: u64 = 0x0100_0000;

    /// No flag set.
    pub fn empty() -> (ret: Self)
        ensures
            ret.0 == 0,
    {
        CR4(0)
    }

    /// The flags whose bits are `bits`, unknown bits included.
    pub fn from_bits_retain(bits: u64) -> (ret: Self)
        ensures
            ret.0 == bits,
    {
        CR4(bits)
    }

    /// The bits of the flags.
    pub fn bits(&self) -> (ret: u64)
        ensures
            ret == self.0,
    {
        self.0
    }

    /// Whether every bit of `other` is set in `self`.
    pub fn contains(&self, other: Self) -> (ret: bool)
        ensures
            ret == (self.0 & other.0 == other.0),
    {
        self.0 & other.0 == other.0
    }
}

/// Debug register 6, the debug status.
pub struct DR6(pub u64);

impl DR6 {
    pub const B0: u64 = 0x00001;
    pub const B1: u64 = 0x00002;
    pub const B2: u64 = 0x00004;
    pub const B3: u64 = 0x00008;
    pub const BLD: u64 = 0x00800;
    pub const BK: u64 = 0x01000;
    pub const BD: u64 = 0x02000;
    pub const BS: u64 = 0x04000;
    pub const BT: u64 = 0x08000;
    pub const RTM: u64 = 0x10000;
    pub const ON: u64 = 0xFFFE_0000;

    /// No flag set.
    pub fn empty() -> (ret: Self)
        ensures
            ret.0 == 0,
    {
        DR6(0)
    }

    /// The flags whose bits are `bits`, unknown bits included.
    pub fn from_bits_retain(bits: u64) -> (ret: Self)
        ensures
            ret.0 == bits,
    {
        DR6(bits)
    }

    /// The bits of the flags.
    pub fn bits(&self) -> (ret: u64)
        ensures
            ret == self.0,
    {
        self.0
    }

    /// Whether every bit of `other` is set in `self`.
    pub fn contains(&self, other: Self) -> (ret: bool)
        ensures
            ret == (self.0 & other.0 == other.0),
    {
        self.0 & other.0 == other.0
    }
}

/// Debug register 7, the debug control.
pub struct DR7(pub u64);

impl DR7 {
    pub const L0: u64 = 0x0000_0001;
    pub const G0: u64 = 0x0000_0002;
    pub const L1: u64 = 0x0000_0004;
    pub const G1: u64 = 0x0000_0008;
    pub const L2: u64 = 0x0000_0010;
    pub const G2: u64 = 0x0000_0020;
    pub const L3: u64 = 0x0000_0040;
    pub const G3: u64 = 0x0000_0080;
    pub const RW0: u64 = 0x0000_0300;
    pub const LEN0: u64 = 0x0000_0C00;
    pub const RW1: u64 = 0x0000_3000;
    pub const LEN1: u64 = 0x0000_C000;
    pub const RW2: u64 = 0x0003_0000;
    pub const LEN2: u64 = 0x000C_0000;
    pub const RW3: u64 = 0x0030_0000;
    pub const LEN3: u64 = 0x00C0_0000;

    /// No flag set.
    pub fn empty() -> (ret: Self)
        ensures
            ret.0 == 0,
    {
        DR7(0)
    }

    /// The flags whose bits are `bits`, unknown bits included.
    pub fn from_bits_retain(bits: u64) -> (ret: Self)
        ensures
            ret.0 == bits,
    {
        DR7(bits)
    }

    /// The bits of the flags.
    pub fn bits(&self) -> (ret: u64)
        ensures
            ret == self.0,
    {
        self.0
    }

    /// Whether every bit of `other` is set in `self`.
    pub fn contains(&self, other: Self) -> (ret: bool)
        ensures
            ret == (self.0 & other.0 == other.0),
    {
        self.0 & other.0 == other.0
    }
}

/// The REX prefix of an instruction.
pub struct REX(pub u8);

impl REX {
    pub const B: u8 = 0b0001;
    pub const X: u8 = 0b0010;
    pub const R: u8 = 0b0100;
    pub const W: u8 = 0b1000;

    /// No flag set.
    pub fn empty() -> (ret: Self)
        ensures
            ret.0 == 0,
    {
        REX(0)
    }

    /// The flags whose bits are `bits`, unknown bits included.
    pub fn from_bits_retain(bits: u8) -> (ret: Self)
        ensures
            ret.0 == bits,
    {
        REX(bits)
    }

    /// The bits of the flags.
    pub fn bits(&self) -> (ret: u8)
        ensures
            ret == self.0,
    {
        self.0
    }

    /// Whether every bit of `other` is set in `self`.
    pub fn contains(&self, other: Self) -> (ret: bool)
        ensures
            ret == (self.0 & other.0 == other.0),
    {
        self.0 & other.0 == other.0
    }
}


impl TryFrom<CRVals> for CR0 {
    type Error = ();

    /// The value of control register 0, if `value` holds one.
    fn try_from(value: CRVals) -> (ret: Result<Self, Self::Error>) {
        match value {
            CRVals::CR0(val) => Ok(val),
            _ => Err(()),
        }
    }
}

impl TryFromSpecImpl<CRVals> for CR0 {
    open spec fn obeys_try_from_spec() -> bool {
        true
    }

    open spec fn try_from_spec(v: CRVals) -> Result<Self, ()> {
        match v {
            CRVals::CR0(val) => Ok(val),
            _ => Err(()),
        }
    }
}

/// Control register 3, read as process-context identifiers are off or on.
pub enum CR3 {
    Disabled(CR3NOPCID),
    Enabled(CR3PCID),
}

impl TryFrom<CR3> for CR3NOPCID {
    type Error = ();

    /// The register, if identifiers are off.
    fn try_from(value: CR3) -> (ret: Result<Self, Self::Error>) {
        match value {
            CR3::Disabled(val) => Ok(val),
            _ => Err(()),
        }
    }
}

impl TryFromSpecImpl<CR3> for CR3NOPCID {
    open spec fn obeys_try_from_spec() -> bool {
        true
    }

    open spec fn try_from_spec(v: CR3) -> Result<Self, ()> {
        match v {
            CR3::Disabled(val) => Ok(val),
            _ => Err(()),
        }
    }
}

impl TryFrom<CR3> for CR3PCID {
    type Error = ();

    /// The register, if identifiers are on.
    fn try_from(value: CR3) -> (ret: Result<Self, Self::Error>) {
        match value {
            CR3::Enabled(val) => Ok(val),
            _ => Err(()),
        }
    }
}

impl TryFromSpecImpl<CR3> for CR3PCID {
    open spec fn obeys_try_from_spec() -> bool {
        true
    }

    open spec fn try_from_spec(v: CR3) -> Result<Self, ()> {
        match v {
            CR3::Enabled(val) => Ok(val),
            _ => Err(()),
        }
    }
}

impl TryFrom<CRVals> for CR3 {
    type Error = ();

    /// The value of control register 3, if `value` holds one.
    fn try_from(value: CRVals) -> (ret: Result<Self, Self::Error>) {
        match value {
            CRVals::CR3(val) => Ok(val),
            _ => Err(()),
        }
    }
}

impl TryFromSpecImpl<CRVals> for CR3 {
    open spec fn obeys_try_from_spec() -> bool {
        true
    }

    open spec fn try_from_spec(v: CRVals) -> Result<Self, ()> {
        match v {
            CRVals::CR3(val) => Ok(val),
            _ => Err(()),
        }
    }
}

impl TryFrom<CRVals> for CR4 {
    type Error = ();

    /// The value of control register 4, if `value` holds one.
    fn try_from(value: CRVals) -> (ret: Result<Self, Self::Error>) {
        match value {
            CRVals::CR4(val) => Ok(val),
            _ => Err(()),
        }
    }
}

impl TryFromSpecImpl<CRVals> for CR4 {
    open spec fn obeys_try_from_spec() -> bool {
        true
    }

    open spec fn try_from_spec(v: CRVals) -> Result<Self, ()> {
        match v {
            CRVals::CR4(val) => Ok(val),
            _ => Err(()),
        }
    }
}

/// Control register 8, the task priority: its low four bits.
pub struct CR8(u64);

impl TryFrom<CRVals> for CR8 {
    type Error = ();

    /// The value of control register 8, if `value` holds one.
    fn try_from(value: CRVals) -> (ret: Result<Self, Self::Error>) {
        match value {
            CRVals::CR8(val) => Ok(val),
            _ => Err(()),
        }
    }
}

impl TryFromSpecImpl<CRVals> for CR8 {
    open spec fn obeys_try_from_spec() -> bool {
        true
    }

    open spec fn try_from_spec(v: CRVals) -> Result<Self, ()> {
        match v {
            CRVals::CR8(val) => Ok(val),
            _ => Err(()),
        }
    }
}

impl View for CR8 {
    type V = u64;

    closed spec fn view(&self) -> u64 {
        self.0
    }
}

impl CR8 {
    /// The register holding the priority `val`, of which the low four bits count.
    pub fn new(val: u8) -> (ret: Self)
        ensures
            ret@ == val % 16,
    {
        let mut ret = Self(0);
        ret.set(val);
        ret
    }

    /// The register with raw contents `val`.
    pub fn from_raw(val: u64) -> (ret: Self)
        ensures
            ret@ == val,
    {
        Self(val)
    }

    /// The raw contents.
    pub fn into_raw(self) -> (ret: u64)
        ensures
            ret == self@,
    {
        self.0
    }

    /// The priority: the low four bits.
    pub fn get(&self) -> (ret: u8)
        ensures
            ret == self@ % 16,
    {
        let v = self.0;
        assert(v & 0b1111 == v % 16) by (bit_vector);
        (v & 0b1111) as u8
    }

    /// Sets the priority to the low four bits of `val`; the rest becomes zero.
    pub fn set(&mut self, val: u8)
        ensures
            final(self)@ == val % 16,
    {
        assert(val & 0b1111 == val % 16) by (bit_vector);
        self.0 = (val & 0b1111) as u64;
    }
}

/// The control registers that exist.
pub enum CRs {
    CR0,
    CR2,
    CR3,
    CR4,
    CR8,
}

/// The control register numbered `v`, if there is one.
pub open spec fn cr_of(v: u8) -> Option<CRs> {
    match v {
        0 => Some(CRs::CR0),
        2 => Some(CRs::CR2),
        3 => Some(CRs::CR3),
        4 => Some(CRs::CR4),
        8 => Some(CRs::CR8),
        _ => None,
    }
}

impl CRs {
    /// The control register numbered `value`; only the numbers of existing
    /// registers are accepted.
    pub fn try_from(value: u8) -> (ret: Result<Self, ()>)
        requires
            cr_of(value) is Some,
        ensures
            ret == Ok::<CRs, ()>(cr_of(value)->0),
    {
        match value {
            0 => Ok(Self::CR0),
            2 => Ok(Self::CR2),
            3 => Ok(Self::CR3),
            4 => Ok(Self::CR4),
            _ => Ok(Self::CR8),
        }
    }
}

/// The value of a control register.
pub enum CRVals {
    CR0(CR0),
    CR2(u64),
    CR3(CR3),
    CR4(CR4),
    CR8(CR8),
}

/// The debug registers that exist.
pub enum DRs {
    DR0,
    DR1,
    DR2,
    DR3,
    DR6,
    DR7,
}

/// The debug register numbered `v`, if there is one.
pub open spec fn dr_of(v: u8) -> Option<DRs> {
    match v {
        0 => Some(DRs::DR0),
        1 => Some(DRs::DR1),
        2 => Some(DRs::DR2),
        3 => Some(DRs::DR3),
        6 => Some(DRs::DR6),
        7 => Some(DRs::DR7),
        _ => None,
    }
}

impl DRs {
    /// The debug register numbered `value`; only the numbers of existing
    /// registers are accepted.
    pub fn try_from(value: u8) -> (ret: Result<Self, ()>)
        requires
            dr_of(value) is Some,
        ensures
            ret == Ok::<DRs, ()>(dr_of(value)->0),
    {
        match value {
            0 => Ok(Self::DR0),
            1 => Ok(Self::DR1),
            2 => Ok(Self::DR2),
            3 => Ok(Self::DR3),
            6 => Ok(Self::DR6),
            _ => Ok(Self::DR7),
        }
    }
}

/// The value of a debug register.
pub enum DRVals {
    DR0(u64),
    DR1(u64),
    DR2(u64),
    DR3(u64),
    DR6(DR6),
    DR7(DR7),
}

/// The prefixes decoded for the current instruction; each flag is independent.
pub struct InstrData {
    pub rex: REX,
    pub null: bool,
    pub fs: bool,
    pub gs: bool,
    pub oper: bool,
    pub addr: bool,
    pub wait: bool,
    pub lock: bool,
    pub rep: bool,
}

impl Default for InstrData {
    fn default() -> (ret: Self)
        ensures
            ret.rex.0 == 0,
            !ret.null && !ret.fs && !ret.gs && !ret.oper,
            !ret.addr && !ret.wait && !ret.lock && !ret.rep,
    {
        Self {
            rex: REX::empty(),
            null: false,
            fs: false,
            gs: false,
            oper: false,
            addr: false,
            wait: false,
            lock: false,
            rep: false,
        }
    }
}


/// Loading a selector into a segment register and reading it back gives the
/// selector.
pub proof fn lemma_sr_set_then_get(val: u16)
    ensures
        ((val as u32 * 16) % 0x10_0000) / 16 == val,
{
}

/// Setting the task priority of control register 8 and reading it back gives
/// the low four bits of what was set: `c` is the register after
/// `CR8::set(val)` (or `CR8::new(val)`), whose contents `set` ensures are
/// `val % 16`, and `get` reads the contents modulo 16.
pub proof fn lemma_cr8_set_then_get(c: CR8, val: u8)
    requires
        c@ == val % 16,
    ensures
        c@ % 16 == val % 16,
        c@ < 16,
{
}

/// Writing the low 16 or 32 bits of a register (or of a memory operand) and
/// reading them back gives what was written, and the bits above keep their
/// value.
pub proof fn lemma_low_bits_write_then_read(r: u64, w: u16, d: u32)
    ensures
        (r - r % 0x1_0000 + w) % 0x1_0000 == w,
        (r - r % 0x1_0000 + w) / 0x1_0000 == r / 0x1_0000,
        (r - r % 0x1_0000_0000 + d) % 0x1_0000_0000 == d,
        (r - r % 0x1_0000_0000 + d) / 0x1_0000_0000 == r / 0x1_0000_0000,
{
    let a = r / 0x1_0000;
    assert(r - r % 0x1_0000 == a * 0x1_0000);
    assert((a * 0x1_0000 + w) % 0x1_0000 == w && (a * 0x1_0000 + w) / 0x1_0000 == a) by (nonlinear_arith)
        requires
            w < 0x1_0000,
    ;
    let b = r / 0x1_0000_0000;
    assert(r - r % 0x1_0000_0000 == b * 0x1_0000_0000);
    assert((b * 0x1_0000_0000 + d) % 0x1_0000_0000 == d && (b * 0x1_0000_0000 + d) / 0x1_0000_0000 == b)
        by (nonlinear_arith)
        requires
            d < 0x1_0000_0000,
    ;
}

/// A register's encoding converts back to the register, and every number
/// below 16 is the encoding of a register.
pub proof fn lemma_gpr_encoding_round_trip(g: GPRs, v: u8)
    ensures
        gpr_of(g.encoding() as u8) == Some(g),
        v < 16 ==> gpr_of(v) is Some && gpr_of(v)->0.encoding() == v,
        v >= 16 ==> gpr_of(v) is None,
{
}

} // verus!
