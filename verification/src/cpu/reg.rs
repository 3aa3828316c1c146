use vstd::prelude::*;
use crate::cpu::CPU;
use crate::reg::{
    CR0, CR3, CR3NOPCID, CR3PCID, CR4, CR8, CRVals, CRs, DR6, DR7, DRVals, DRs, cr_of, dr_of,
};

verus! {

/// Process-context identifiers are on: bit 17 of control register 4.
pub open spec fn pcid_enabled(crs: Seq<u64>) -> bool {
    crs[4] & 0x2_0000 == 0x2_0000
}

/// Whether `v` is the value of the control register `cr` when the control
/// registers hold `crs`: its raw contents, and for register 3 the reading that
/// control register 4 selects.
pub open spec fn cr_value_is(crs: Seq<u64>, cr: CRs, v: CRVals) -> bool {
    match cr {
        CRs::CR0 => v matches CRVals::CR0(x) && x.0 == crs[0],
        CRs::CR2 => v matches CRVals::CR2(x) && x == crs[2],
        CRs::CR3 => if pcid_enabled(crs) {
            v matches CRVals::CR3(CR3::Enabled(x)) && x.0 == crs[3]
        } else {
            v matches CRVals::CR3(CR3::Disabled(x)) && x.0 == crs[3]
        },
        CRs::CR4 => v matches CRVals::CR4(x) && x.0 == crs[4],
        CRs::CR8 => v matches CRVals::CR8(x) && x@ == crs[8],
    }
}

/// Whether `v` is a value for the control register `cr`.
pub open spec fn cr_fits(cr: CRs, v: CRVals) -> bool {
    match cr {
        CRs::CR0 => v is CR0,
        CRs::CR2 => v is CR2,
        CRs::CR3 => v is CR3,
        CRs::CR4 => v is CR4,
        CRs::CR8 => v is CR8,
    }
}

/// The slot a write of the control register value `v` stores to, and the raw
/// contents stored: register 3 is stored in slot 2 and register 8 in slot 4.
pub open spec fn cr_store(v: CRVals) -> (int, u64) {
    match v {
        CRVals::CR0(x) => (0, x.0),
        CRVals::CR2(x) => (2, x),
        CRVals::CR3(CR3::Disabled(x)) => (2, x.0),
        CRVals::CR3(CR3::Enabled(x)) => (2, x.0),
        CRVals::CR4(x) => (4, x.0),
        CRVals::CR8(x) => (4, x@),
    }
}

/// Whether `v` is the value of the debug register `dr` when the debug
/// registers hold `drs`.
pub open spec fn dr_value_is(drs: Seq<u64>, dr: DRs, v: DRVals) -> bool {
    match dr {
        DRs::DR0 => v matches DRVals::DR0(x) && x == drs[0],
        DRs::DR1 => v matches DRVals::DR1(x) && x == drs[1],
        DRs::DR2 => v matches DRVals::DR2(x) && x == drs[2],
        DRs::DR3 => v matches DRVals::DR3(x) && x == drs[3],
        DRs::DR6 => v matches DRVals::DR6(x) && x.0 == drs[6],
        DRs::DR7 => v matches DRVals::DR7(x) && x.0 == drs[7],
    }
}

/// Whether `v` is a value for the debug register `dr`.
pub open spec fn dr_fits(dr: DRs, v: DRVals) -> bool {
    match dr {
        DRs::DR0 => v is DR0,
        DRs::DR1 => v is DR1,
        DRs::DR2 => v is DR2,
        DRs::DR3 => v is DR3,
        DRs::DR6 => v is DR6,
        DRs::DR7 => v is DR7,
    }
}

/// The slot a write of the debug register value `v` stores to, and the raw
/// contents stored.
pub open spec fn dr_store(v: DRVals) -> (int, u64) {
    match v {
        DRVals::DR0(x) => (0, x),
        DRVals::DR1(x) => (1, x),
        DRVals::DR2(x) => (2, x),
        DRVals::DR3(x) => (3, x),
        DRVals::DR6(x) => (6, x.0),
        DRVals::DR7(x) => (7, x.0),
    }
}

impl CPU {
    /// The value of the control register `cr`.
    pub fn get_cr(&self, cr: &CRs) -> (ret: CRVals)
        ensures
            cr_value_is(self.crs@, *cr, ret),
        decreases if *cr is CR3 { 1int } else { 0int },
    {
        match cr {
            CRs::CR0 => CRVals::CR0(CR0::from_bits_retain(self.crs[0])),
            CRs::CR2 => CRVals::CR2(self.crs[2]),
            CRs::CR3 => {
                let raw = self.crs[3];
                let cr4: CR4 = match CR4::try_from(self.get_cr(&CRs::CR4)) {
                    Ok(v) => v,
                    Err(()) => CR4::empty(),
                };
                if cr4.contains(CR4::from_bits_retain(CR4::PCIDE)) {
                    CRVals::CR3(CR3::Enabled(CR3PCID::from_bits_retain(raw)))
                } else {
                    CRVals::CR3(CR3::Disabled(CR3NOPCID::from_bits_retain(raw)))
                }
            },
            CRs::CR4 => CRVals::CR4(CR4::from_bits_retain(self.crs[4])),
            CRs::CR8 => CRVals::CR8(CR8::from_raw(self.crs[8])),
        }
    }

    /// Writes the control register `cr`, whose value `val` must be.
    pub fn set_cr(&mut self, cr: CRs, val: CRVals)
        requires
            cr_fits(cr, val),
        ensures
            final(self).crs@ == old(self).crs@.update(cr_store(val).0, cr_store(val).1),
            *final(self) == (CPU { crs: final(self).crs, ..*old(self) }),
    {
        match (cr, val) {
            (CRs::CR0, CRVals::CR0(cr0)) => self.crs[0] = cr0.bits(),
            (CRs::CR2, CRVals::CR2(cr2)) => self.crs[2] = cr2,
            (CRs::CR3, CRVals::CR3(CR3::Disabled(cr3))) => self.crs[2] = cr3.bits(),
            (CRs::CR3, CRVals::CR3(CR3::Enabled(cr3))) => self.crs[2] = cr3.bits(),
            (CRs::CR4, CRVals::CR4(cr4)) => self.crs[4] = cr4.bits(),
            (CRs::CR8, CRVals::CR8(cr8)) => self.crs[4] = cr8.into_raw(),
            _ => {
                assert(false);
            },
        }
    }

    /// The value of the control register numbered `index`, which must exist.
    pub fn read_cr(&self, index: u8) -> (ret: Result<CRVals, ()>)
        requires
            index <= 16,
            cr_of(index) is Some,
        ensures
            ret is Ok,
            cr_value_is(self.crs@, cr_of(index)->0, ret->Ok_0),
    {
        match CRs::try_from(index) {
            Ok(cr) => Ok(self.get_cr(&cr)),
            Err(()) => Err(()),
        }
    }

    /// Writes the control register numbered `index`, which must exist and
    /// whose value `val` must be.
    pub fn write_cr(&mut self, index: u8, val: CRVals)
        requires
            index < 16,
            cr_of(index) is Some,
            cr_fits(cr_of(index)->0, val),
        ensures
            final(self).crs@ == old(self).crs@.update(cr_store(val).0, cr_store(val).1),
            *final(self) == (CPU { crs: final(self).crs, ..*old(self) }),
    {
        if let Ok(cr) = CRs::try_from(index) {
            self.set_cr(cr, val);
        }
    }

    /// The value of the debug register `dr`.
    pub fn get_dr(&self, dr: &DRs) -> (ret: DRVals)
        ensures
            dr_value_is(self.drs@, *dr, ret),
    {
        match dr {
            DRs::DR0 => DRVals::DR0(self.drs[0]),
            DRs::DR1 => DRVals::DR1(self.drs[1]),
            DRs::DR2 => DRVals::DR2(self.drs[2]),
            DRs::DR3 => DRVals::DR3(self.drs[3]),
            DRs::DR6 => DRVals::DR6(DR6::from_bits_retain(self.drs[6])),
            DRs::DR7 => DRVals::DR7(DR7::from_bits_retain(self.drs[7])),
        }
    }

    /// Writes the debug register `dr`, whose value `val` must be.
    pub fn set_dr(&mut self, dr: DRs, val: DRVals)
        requires
            dr_fits(dr, val),
        ensures
            final(self).drs@ == old(self).drs@.update(dr_store(val).0, dr_store(val).1),
            *final(self) == (CPU { drs: final(self).drs, ..*old(self) }),
    {
        match (dr, val) {
            (DRs::DR0, DRVals::DR0(dr0)) => self.drs[0] = dr0,
            (DRs::DR1, DRVals::DR1(dr1)) => self.drs[1] = dr1,
            (DRs::DR2, DRVals::DR2(dr2)) => self.drs[2] = dr2,
            (DRs::DR3, DRVals::DR3(dr3)) => self.drs[3] = dr3,
            (DRs::DR6, DRVals::DR6(dr6)) => self.drs[6] = dr6.bits(),
            (DRs::DR7, DRVals::DR7(dr7)) => self.drs[7] = dr7.bits(),
            _ => {
                assert(false);
            },
        }
    }

    /// The value of the debug register numbered `index`, which must exist.
    pub fn read_dr(&self, index: u8) -> (ret: Result<DRVals, ()>)
        requires
            index < 8,
            dr_of(index) is Some,
        ensures
            ret is Ok,
            dr_value_is(self.drs@, dr_of(index)->0, ret->Ok_0),
    {
        match DRs::try_from(index) {
            Ok(dr) => Ok(self.get_dr(&dr)),
            Err(()) => Err(()),
        }
    }

    /// Writes the debug register numbered `index`, which must exist and whose
    /// value `val` must be.
    pub fn write_dr(&mut self, index: u8, val: DRVals)
        requires
            index < 8,
            dr_of(index) is Some,
            dr_fits(dr_of(index)->0, val),
        ensures
            final(self).drs@ == old(self).drs@.update(dr_store(val).0, dr_store(val).1),
            *final(self) == (CPU { drs: final(self).drs, ..*old(self) }),
    {
        if let Ok(dr) = DRs::try_from(index) {
            self.set_dr(dr, val);
        }
    }
}


/// Reading a debug register gives back the value last written to it, and
/// writing one leaves the values of the others as they were.
pub proof fn lemma_dr_write_then_read(drs: Seq<u64>, dr: DRs, v: DRVals, other: DRs, w: DRVals)
    requires
        drs.len() == 8,
        dr_fits(dr, v),
        other != dr,
    ensures
        dr_value_is(drs.update(dr_store(v).0, dr_store(v).1), dr, v),
        dr_value_is(drs.update(dr_store(v).0, dr_store(v).1), other, w) == dr_value_is(drs, other, w),
{
}

/// Reading control register 0, 2 or 4 gives back the value last written to
/// it. (A value written to register 3 is stored where register 2 is read, and
/// one written to register 8 where register 4 is read.)
pub proof fn lemma_cr_write_then_read(crs: Seq<u64>, cr: CRs, v: CRVals)
    requires
        crs.len() == 16,
        cr_fits(cr, v),
        cr is CR0 || cr is CR2 || cr is CR4,
    ensures
        cr_value_is(crs.update(cr_store(v).0, cr_store(v).1), cr, v),
{
}

/// Writing control register 0 leaves the values of the others as they were.
pub proof fn lemma_cr0_write_keeps_others(crs: Seq<u64>, v: CRVals, other: CRs, w: CRVals)
    requires
        crs.len() == 16,
        v is CR0,
        !(other is CR0),
    ensures
        cr_value_is(crs.update(cr_store(v).0, cr_store(v).1), other, w) == cr_value_is(crs, other, w),
{
}

} // verus!
