use vstd::prelude::*;
use vstd::string::StringExecFns;
use crate::cpu::{CPU, Fault};
use crate::cpu::debug::{gpr_name, hex, push_hex_digits, rm_name};
use crate::cpu::decode::{GPRSize, Location, RM, modrm_decoded, rm_sized};
use crate::cpu::rw::fetch;
use crate::ram::{RAM, RamView, wf};
use crate::reg::{GPR, GPRs};

verus! {

/// Whether adding the value `val` to the register holding `old` stays within
/// the part of the register the value's size covers.
pub open spec fn add_fits(old: u64, val: GPRSize) -> bool {
    match val {
        GPRSize::X16(v) => old % 0x1_0000 + v <= u16::MAX,
        GPRSize::X32(v) => old % 0x1_0000_0000 + v <= u32::MAX,
        GPRSize::X64(v) => old + v <= u64::MAX,
    }
}

/// The number a sized value holds.
pub open spec fn size_value(val: GPRSize) -> nat {
    match val {
        GPRSize::X16(v) => v as nat,
        GPRSize::X32(v) => v as nat,
        GPRSize::X64(v) => v as nat,
    }
}

/// The lines an addition prints: the instruction, and the register's new value.
pub open spec fn add_trace(reg: u8, rm: RM, val: GPRSize, ad_size: GPRSize, new: u64) -> Seq<Seq<char>> {
    seq![
        seq!['A', 'D', 'D', ' '] + gpr_name(reg, val) + seq![',', ' '] + rm_name(rm, val, ad_size),
        seq!['F', 'I', 'N', 'A', 'L', ' ', 'V', 'A', 'L', ':', ' '] + hex(new as nat),
    ]
}

/// Executing `ADD r, r/m` (opcode `0x03`) once its opcode is fetched: decode
/// the ModR/M, read the r/m operand at the operand size and add it to the
/// register operand's part of that size. Gives the lines the instruction
/// prints, the registers' new file, the processor before that write, and
/// memory after.
pub open spec fn add_executed(cpu: CPU, m: RamView) -> (Result<(Seq<Seq<char>>, Seq<GPR>), Fault>, CPU, RamView) {
    let (r, c1, m1) = modrm_decoded(cpu, m);
    match r {
        Err(e) => (Err(e), c1, m1),
        Ok(mr) => {
            let (r2, c2, m2) = rm_sized(c1, m1, mr);
            match r2 {
                Err(e) => (Err(e), c2, m2),
                Ok(val) => {
                    let old = c2.gprs[mr.reg1 as int].ur;
                    if !add_fits(old, val) {
                        (Err(Fault::Overflow), c2, m2)
                    } else {
                        let new = (old + size_value(val)) as u64;
                        (
                            Ok(
                                (
                                    add_trace(mr.reg1, mr.reg2, val, c2.size_at(Location::Address), new),
                                    c2.gprs@.update(mr.reg1 as int, GPR { ur: new }),
                                ),
                            ),
                            c2,
                            m2,
                        )
                    }
                },
            }
        },
    }
}

/// The texts of a list of strings.
pub open spec fn texts(v: Seq<String>) -> Seq<Seq<char>> {
    v.map_values(|s: String| s@)
}

impl CPU {
    /// `ADD r, r/m`: adds the r/m operand to the register operand, at the
    /// operand size; gives the lines it prints.
    fn op_03(&mut self, ram: &mut RAM) -> (ret: Result<Vec<String>, Fault>)
        requires
            wf(old(ram)@),
        ensures
            wf(final(ram)@),
            final(ram)@ == add_executed(*old(self), old(ram)@).2,
            match add_executed(*old(self), old(ram)@).0 {
                Err(e) => ret == Err::<Vec<String>, Fault>(e) && *final(self) == add_executed(
                    *old(self),
                    old(ram)@,
                ).1,
                Ok((lines, gprs)) => ret is Ok && texts(ret->Ok_0@) == lines && final(self).gprs@ == gprs
                    && *final(self) == (CPU { gprs: final(self).gprs, ..add_executed(*old(self), old(ram)@).1 }),
            },
    {
        let modrm = match self.decode_modrm(ram) {
            Ok(m) => m,
            Err(e) => {
                return Err(e);
            },
        };
        let reg = modrm.reg1;
        let rm = modrm.reg2;
        let val = match self.decode_rm_size(ram, &modrm) {
            Ok(v) => v,
            Err(e) => {
                return Err(e);
            },
        };
        let gpr: GPRs = match GPRs::try_from(reg) {
            Ok(g) => g,
            Err(()) => GPRs::AX,
        };
        let mut g = *self.gpr(gpr);
        match val {
            GPRSize::X16(v) => {
                let w = g.uw();
                if w > u16::MAX - v {
                    return Err(Fault::Overflow);
                }
                g.set_uw(w + v);
            },
            GPRSize::X32(v) => {
                let d = g.ud();
                if d > u32::MAX - v {
                    return Err(Fault::Overflow);
                }
                g.set_ud(d + v);
            },
            GPRSize::X64(v) => {
                if g.ur > u64::MAX - v {
                    return Err(Fault::Overflow);
                }
                g.ur = g.ur + v;
            },
        }
        self.set_gpr(gpr, g);
        let reg_name = Self::get_gpr_name(reg, &val);
        let ad_size = self.decode_size(&Location::Address);
        let rm_name = Self::get_rm_name(&rm, &val, &ad_size);
        proof {
            reveal_strlit("ADD ");
            reveal_strlit(", ");
            reveal_strlit("FINAL VAL: 0x");
        }
        let mut line1 = String::from_str("ADD ");
        line1.append(reg_name.as_str());
        line1.append(", ");
        line1.append(rm_name.as_str());
        let mut line2 = String::from_str("FINAL VAL: 0x");
        push_hex_digits(&mut line2, self.gpr(gpr).ur);
        let mut lines = Vec::new();
        lines.push(line1);
        lines.push(line2);
        proof {
            let expected = add_trace(reg, rm, val, ad_size, g.ur);
            assert(lines@[0]@ =~= expected[0]);
            assert(lines@[1]@ =~= expected[1]);
            assert(texts(lines@) =~= expected);
        }
        Ok(lines)
    }

    /// An opcode with no implementation: the machine stops.
    fn op_unimplemented(&mut self, ram: &mut RAM) -> (ret: Result<Vec<String>, Fault>)
        ensures
            ret == Err::<Vec<String>, Fault>(Fault::Unimplemented(old(self).ir)),
            *final(self) == *old(self),
            final(ram)@ == old(ram)@,
    {
        Err(Fault::Unimplemented(self.ir))
    }

    /// Fetches the next opcode and executes its instruction; gives the lines
    /// it prints.
    pub fn run(&mut self, ram: &mut RAM) -> (ret: Result<Vec<String>, Fault>)
        requires
            wf(old(ram)@),
        ensures
            wf(final(ram)@),
            ({
                let (r, c1, m1) = fetch(*old(self), old(ram)@);
                match r {
                    Err(e) => ret == Err::<Vec<String>, Fault>(e) && *final(self) == c1 && final(ram)@ == m1,
                    Ok(op) => if op == 0x03 {
                        let (r2, c2, m2) = add_executed(c1, m1);
                        &&& final(ram)@ == m2
                        &&& match r2 {
                            Err(e) => ret == Err::<Vec<String>, Fault>(e) && *final(self) == c2,
                            Ok((lines, gprs)) => ret is Ok && texts(ret->Ok_0@) == lines && final(self).gprs@
                                == gprs && *final(self) == (CPU { gprs: final(self).gprs, ..c2 }),
                        }
                    } else {
                        ret == Err::<Vec<String>, Fault>(Fault::Unimplemented(op)) && *final(self) == c1
                            && final(ram)@ == m1
                    },
                }
            }),
    {
        match self.read_u8(ram) {
            Ok(_) => {},
            Err(e) => {
                return Err(e);
            },
        }
        if self.ir == 0x03 {
            self.op_03(ram)
        } else {
            self.op_unimplemented(ram)
        }
    }
}

} // verus!
