use vstd::prelude::*;

verus! {

/// The extended feature enable register.
pub struct IA32EFER(pub u64);

impl IA32EFER {
    pub const SCE: u64 = 0x001;
    pub const LME: u64 = 0x100;
    pub const LMA: u64 = 0x400;
    pub const NXE: u64 = 0x800;

    /// No flag set.
    pub fn empty() -> (ret: Self)
        ensures
            ret.0 == 0,
    {
        IA32EFER(0)
    }

    /// The flags whose bits are `bits`, unknown bits included.
    pub fn from_bits_retain(bits: u64) -> (ret: Self)
        ensures
            ret.0 == bits,
    {
        IA32EFER(bits)
    }

    /// The bits of the flags.
    pub fn bits(&self) -> (ret: u64)
        ensures
            ret == self.0,
    {
        self.0
    }

    /// Whether every bit of `other` is set in `self`.
    pub fn contains(&self, other: Self) -> (ret: bool)
        ensures
            ret == (self.0 & other.0 == other.0),
    {
        self.0 & other.0 == other.0
    }
}

/// The model-specific registers.
pub struct MSRs {
    pub ia32_efer: IA32EFER,
}

/// The numbers of the model-specific registers.
pub enum MSRIdx {
    IA32EFER,
}

impl MSRIdx {
    /// The register's number.
    pub fn number(&self) -> (ret: u32)
        ensures
            ret == 0xC000_0080,
    {
        match self {
            MSRIdx::IA32EFER => 0xC000_0080,
        }
    }
}

impl Default for MSRs {
    fn default() -> (ret: Self)
        ensures
            ret.ia32_efer.0 == 0,
    {
        MSRs { ia32_efer: IA32EFER::empty() }
    }
}

} // verus!
