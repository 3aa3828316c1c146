use vstd::prelude::*;
use vstd::string::StringExecFns;
use crate::cpu::CPU;
use crate::cpu::decode::{GPRSize, MemoryInfo, RM};

verus! {

/// The name of the low byte of register `reg`.
pub open spec fn lo8_name(reg: u8) -> &'static str {
    match reg {
        0 => "AL",
        1 => "CL",
        2 => "DL",
        3 => "BL",
        4 => "SPL",
        5 => "BPL",
        6 => "SIL",
        7 => "DIL",
        8 => "R8B",
        9 => "R9B",
        10 => "R10B",
        11 => "R11B",
        12 => "R12B",
        13 => "R13B",
        14 => "R14B",
        _ => "R15B",
    }
}

/// The name of the second byte of register `reg`.
pub open spec fn hi8_name(reg: u8) -> &'static str {
    match reg {
        0 => "AH",
        1 => "CH",
        2 => "DH",
        _ => "BH",
    }
}

/// The name of the low 16 bits of register `reg`.
pub open spec fn x16_name(reg: u8) -> &'static str {
    match reg {
        0 => "AX",
        1 => "CX",
        2 => "DX",
        3 => "BX",
        4 => "SP",
        5 => "BP",
        6 => "SI",
        7 => "DI",
        8 => "R8W",
        9 => "R9W",
        10 => "R10W",
        11 => "R11W",
        12 => "R12W",
        13 => "R13W",
        14 => "R14W",
        _ => "R15W",
    }
}

/// The name of the low 32 bits of register `reg`.
pub open spec fn x32_name(reg: u8) -> &'static str {
    match reg {
        0 => "EAX",
        1 => "ECX",
        2 => "EDX",
        3 => "EBX",
        4 => "ESP",
        5 => "EBP",
        6 => "ESI",
        7 => "EDI",
        8 => "R8D",
        9 => "R9D",
        10 => "R10D",
        11 => "R11D",
        12 => "R12D",
        13 => "R13D",
        14 => "R14D",
        _ => "R15D",
    }
}

/// The name of register `reg` in full.
pub open spec fn x64_name(reg: u8) -> &'static str {
    match reg {
        0 => "RAX",
        1 => "RCX",
        2 => "RDX",
        3 => "RBX",
        4 => "RSP",
        5 => "RBP",
        6 => "RSI",
        7 => "RDI",
        8 => "R8",
        9 => "R9",
        10 => "R10",
        11 => "R11",
        12 => "R12",
        13 => "R13",
        14 => "R14",
        _ => "R15",
    }
}

/// The name of register `reg` at the size `size`.
pub open spec fn gpr_name(reg: u8, size: GPRSize) -> Seq<char> {
    match size {
        GPRSize::X16(_) => x16_name(reg)@,
        GPRSize::X32(_) => x32_name(reg)@,
        GPRSize::X64(_) => x64_name(reg)@,
    }
}

/// The lowercase hexadecimal digit for `d`, below 16.
pub open spec fn hex_digit(d: nat) -> char {
    if d == 0 {
        '0'
    } else if d == 1 {
        '1'
    } else if d == 2 {
        '2'
    } else if d == 3 {
        '3'
    } else if d == 4 {
        '4'
    } else if d == 5 {
        '5'
    } else if d == 6 {
        '6'
    } else if d == 7 {
        '7'
    } else if d == 8 {
        '8'
    } else if d == 9 {
        '9'
    } else if d == 10 {
        'a'
    } else if d == 11 {
        'b'
    } else if d == 12 {
        'c'
    } else if d == 13 {
        'd'
    } else if d == 14 {
        'e'
    } else {
        'f'
    }
}

/// The lowercase hexadecimal digits of `n`, without leading zeros.
pub open spec fn hex_digits(n: nat) -> Seq<char>
    decreases n,
{
    if n < 16 {
        seq![hex_digit(n)]
    } else {
        hex_digits(n / 16).push(hex_digit(n % 16))
    }
}

/// `n` in hexadecimal with the `0x` prefix.
pub open spec fn hex(n: nat) -> Seq<char> {
    seq!['0', 'x'] + hex_digits(n)
}

/// The text of a memory operand, between brackets: the base register's name,
/// then a `+` if there is an index; the index register's name, then a `+` if
/// there is a displacement; then the displacement in hexadecimal. (A base with
/// a displacement and no index gives, for example, `[EBX0x8]`.)
pub open spec fn mem_name(mem: MemoryInfo, ad_size: GPRSize) -> Seq<char> {
    let base = match mem.base {
        Some(b) => gpr_name(b, ad_size) + if mem.idx is Some { seq!['+'] } else { Seq::empty() },
        None => Seq::empty(),
    };
    let idx = match mem.idx {
        Some(i) => gpr_name(i, ad_size) + if mem.off is Some { seq!['+'] } else { Seq::empty() },
        None => Seq::empty(),
    };
    let off = match mem.off {
        Some(d) => hex(d as nat),
        None => Seq::empty(),
    };
    seq!['['] + base + idx + off + seq![']']
}

/// The text of a register-or-memory operand.
pub open spec fn rm_name(rm: RM, op_size: GPRSize, ad_size: GPRSize) -> Seq<char> {
    match rm {
        RM::Addr(addr) => mem_name(addr, ad_size),
        RM::Reg(reg) => gpr_name(reg, op_size),
    }
}

/// Whether the registers a memory operand names exist.
pub open spec fn mem_regs_ok(mem: MemoryInfo) -> bool {
    &&& mem.base matches Some(b) ==> b < 16
    &&& mem.idx matches Some(i) ==> i < 16
}

/// The one-character text of the hexadecimal digit `d`.
fn hex_digit_str(d: u64) -> (ret: &'static str)
    requires
        d < 16,
    ensures
        ret@ == seq![hex_digit(d as nat)],
{
    proof {
        reveal_strlit("0");
        reveal_strlit("1");
        reveal_strlit("2");
        reveal_strlit("3");
        reveal_strlit("4");
        reveal_strlit("5");
        reveal_strlit("6");
        reveal_strlit("7");
        reveal_strlit("8");
        reveal_strlit("9");
        reveal_strlit("a");
        reveal_strlit("b");
        reveal_strlit("c");
        reveal_strlit("d");
        reveal_strlit("e");
        reveal_strlit("f");
    }
    let r = match d {
        0 => "0",
        1 => "1",
        2 => "2",
        3 => "3",
        4 => "4",
        5 => "5",
        6 => "6",
        7 => "7",
        8 => "8",
        9 => "9",
        10 => "a",
        11 => "b",
        12 => "c",
        13 => "d",
        14 => "e",
        _ => "f",
    };
    assert(r@ =~= seq![hex_digit(d as nat)]);
    r
}

/// Appends the hexadecimal digits of `n` to `s`.
pub fn push_hex_digits(s: &mut String, n: u64)
    ensures
        final(s)@ == old(s)@ + hex_digits(n as nat),
    decreases n,
{
    if n >= 16 {
        push_hex_digits(s, n / 16);
    }
    s.append(hex_digit_str(n % 16));
    assert(s@ =~= old(s)@ + hex_digits(n as nat));
}

impl CPU {
    /// The name of the low byte of register `reg`.
    pub fn get_lo8_name(reg: u8) -> (ret: String)
        requires
            reg < 16,
        ensures
            ret@ == lo8_name(reg)@,
    {
        let name = match reg {
            0 => "AL",
            1 => "CL",
            2 => "DL",
            3 => "BL",
            4 => "SPL",
            5 => "BPL",
            6 => "SIL",
            7 => "DIL",
            8 => "R8B",
            9 => "R9B",
            10 => "R10B",
            11 => "R11B",
            12 => "R12B",
            13 => "R13B",
            14 => "R14B",
            _ => "R15B",
        };
        String::from_str(name)
    }

    /// The name of the second byte of register `reg`.
    pub fn get_hi8_name(reg: u8) -> (ret: String)
        requires
            reg < 4,
        ensures
            ret@ == hi8_name(reg)@,
    {
        let name = match reg {
            0 => "AH",
            1 => "CH",
            2 => "DH",
            _ => "BH",
        };
        String::from_str(name)
    }

    /// The name of register `reg` at the size `size`.
    pub fn get_gpr_name(reg: u8, size: &GPRSize) -> (ret: String)
        requires
            reg < 16,
        ensures
            ret@ == gpr_name(reg, *size),
    {
        let name = match size {
            GPRSize::X16(_) => match reg {
                0 => "AX",
                1 => "CX",
                2 => "DX",
                3 => "BX",
                4 => "SP",
                5 => "BP",
                6 => "SI",
                7 => "DI",
                8 => "R8W",
                9 => "R9W",
                10 => "R10W",
                11 => "R11W",
                12 => "R12W",
                13 => "R13W",
                14 => "R14W",
                _ => "R15W",
            },
            GPRSize::X32(_) => match reg {
                0 => "EAX",
                1 => "ECX",
                2 => "EDX",
                3 => "EBX",
                4 => "ESP",
                5 => "EBP",
                6 => "ESI",
                7 => "EDI",
                8 => "R8D",
                9 => "R9D",
                10 => "R10D",
                11 => "R11D",
                12 => "R12D",
                13 => "R13D",
                14 => "R14D",
                _ => "R15D",
            },
            GPRSize::X64(_) => match reg {
                0 => "RAX",
                1 => "RCX",
                2 => "RDX",
                3 => "RBX",
                4 => "RSP",
                5 => "RBP",
                6 => "RSI",
                7 => "RDI",
                8 => "R8",
                9 => "R9",
                10 => "R10",
                11 => "R11",
                12 => "R12",
                13 => "R13",
                14 => "R14",
                _ => "R15",
            },
        };
        String::from_str(name)
    }

    /// The text of the memory operand `mem`, with registers named at `ad_size`.
    pub fn get_mem_name(mem: &MemoryInfo, ad_size: &GPRSize) -> (ret: String)
        requires
            mem_regs_ok(*mem),
        ensures
            ret@ == mem_name(*mem, *ad_size),
    {
        proof {
            reveal_strlit("[");
            reveal_strlit("]");
            reveal_strlit("+");
            reveal_strlit("0x");
        }
        let mut name = String::from_str("[");
        let ghost s0 = name@;
        if let Some(base) = mem.base {
            name.append(Self::get_gpr_name(base, ad_size).as_str());
            if mem.idx.is_some() {
                name.append("+");
            }
        }
        let ghost s1 = name@;
        if let Some(idx) = mem.idx {
            name.append(Self::get_gpr_name(idx, ad_size).as_str());
            if mem.off.is_some() {
                name.append("+");
            }
        }
        let ghost s2 = name@;
        if let Some(disp) = mem.off {
            name.append("0x");
            push_hex_digits(&mut name, disp as u64);
        }
        let ghost s3 = name@;
        name.append("]");
        proof {
            let base = match mem.base {
                Some(b) => gpr_name(b, *ad_size) + if mem.idx is Some { seq!['+'] } else { Seq::empty() },
                None => Seq::empty(),
            };
            let idx = match mem.idx {
                Some(i) => gpr_name(i, *ad_size) + if mem.off is Some { seq!['+'] } else { Seq::empty() },
                None => Seq::empty(),
            };
            let off = match mem.off {
                Some(d) => hex(d as nat),
                None => Seq::empty(),
            };
            assert(s1 =~= s0 + base);
            assert(s2 =~= s1 + idx);
            assert(s3 =~= s2 + off);
            assert(name@ =~= mem_name(*mem, *ad_size));
        }
        name
    }

    /// The text of the register-or-memory operand `rm`.
    pub fn get_rm_name(rm: &RM, op_size: &GPRSize, ad_size: &GPRSize) -> (ret: String)
        requires
            match *rm {
                RM::Addr(addr) => mem_regs_ok(addr),
                RM::Reg(reg) => reg < 16,
            },
        ensures
            ret@ == rm_name(*rm, *op_size, *ad_size),
    {
        match rm {
            RM::Addr(addr) => Self::get_mem_name(addr, ad_size),
            RM::Reg(reg) => Self::get_gpr_name(*reg, op_size),
        }
    }
}

} // verus!
