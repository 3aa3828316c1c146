use vstd::prelude::*;
use crate::cpu::{CPU, Fault};
use crate::ram::{RAM, RamView, is_file_byte, lemma_read_returns_file_byte, read_result, wf};
use crate::reg::IPR;

verus! {

/// Fetching the next instruction byte from the address the instruction
/// pointer designates, through the region of the last fetch: the byte, and the
/// processor (which keeps the byte and its region, and moves the instruction
/// pointer past it) and memory after.
#[verifier::opaque]
pub open spec fn fetch(cpu: CPU, m: RamView) -> (Result<u8, Fault>, CPU, RamView) {
    if !cpu.mem_addr_ok() {
        (Err(Fault::Overflow), cpu, m)
    } else {
        let (r, m2) = read_result(m, Some(cpu.ir_cache), cpu.mem_addr());
        match r {
            Err(e) => (Err(Fault::Ram(e)), cpu, m2),
            Ok(None) => (Err(Fault::Unmapped(cpu.mem_addr())), cpu, m2),
            Ok(Some((b, c))) => {
                let c2 = CPU { ir: b, ir_cache: c, ..cpu };
                if !c2.increment_ok() {
                    (Err(Fault::Overflow), c2, m2)
                } else {
                    (Ok(b), CPU { ip: IPR { r: (c2.ip.r + 1) as u64 }, ..c2 }, m2)
                }
            },
        }
    }
}

/// Fetching `n` instruction bytes in turn; the first fault stops it.
pub open spec fn fetch_seq(cpu: CPU, m: RamView, n: nat) -> (Result<Seq<u8>, Fault>, CPU, RamView)
    decreases n,
{
    if n == 0 {
        (Ok(Seq::empty()), cpu, m)
    } else {
        let (r, c1, m1) = fetch_seq(cpu, m, (n - 1) as nat);
        match r {
            Err(e) => (Err(e), c1, m1),
            Ok(s) => {
                let (r2, c2, m2) = fetch(c1, m1);
                match r2 {
                    Err(e) => (Err(e), c2, m2),
                    Ok(b) => (Ok(s.push(b)), c2, m2),
                }
            },
        }
    }
}

/// Loading the byte at `virt`, through the region of the last load: the byte,
/// and the processor (which keeps the region) and memory after.
#[verifier::opaque]
pub open spec fn load(cpu: CPU, m: RamView, virt: u64) -> (Result<u8, Fault>, CPU, RamView) {
    let (r, m2) = read_result(m, cpu.read_cache, virt);
    match r {
        Err(e) => (Err(Fault::Ram(e)), cpu, m2),
        Ok(None) => (Err(Fault::Unmapped(virt)), cpu, m2),
        Ok(Some((b, c))) => (Ok(b), CPU { read_cache: Some(c), ..cpu }, m2),
    }
}

/// Loading the `n` bytes from `virt` on in turn; the first fault stops it, and
/// an address past the last one is a fault.
pub open spec fn load_seq(cpu: CPU, m: RamView, virt: u64, n: nat) -> (Result<Seq<u8>, Fault>, CPU, RamView)
    decreases n,
{
    if n == 0 {
        (Ok(Seq::empty()), cpu, m)
    } else {
        let (r, c1, m1) = load_seq(cpu, m, virt, (n - 1) as nat);
        match r {
            Err(e) => (Err(e), c1, m1),
            Ok(s) => if virt + (n - 1) > u64::MAX {
                (Err(Fault::Overflow), c1, m1)
            } else {
                let (r2, c2, m2) = load(c1, m1, (virt + (n - 1)) as u64);
                match r2 {
                    Err(e) => (Err(e), c2, m2),
                    Ok(b) => (Ok(s.push(b)), c2, m2),
                }
            },
        }
    }
}

/// The little-endian number the bytes `s` spell.
pub open spec fn le(s: Seq<u8>) -> nat
    decreases s.len(),
{
    if s.len() == 0 {
        0
    } else {
        (s[0] + 0x100 * le(s.drop_first())) as nat
    }
}

/// A result of bytes read as the little-endian number they spell.
pub open spec fn le_result(r: Result<Seq<u8>, Fault>) -> Result<nat, Fault> {
    match r {
        Ok(s) => Ok(le(s)),
        Err(e) => Err(e),
    }
}

/// Fetching `n` bytes gives `n` bytes where it succeeds.
pub proof fn lemma_fetch_seq_len(cpu: CPU, m: RamView, n: nat)
    ensures
        fetch_seq(cpu, m, n).0 matches Ok(s) ==> s.len() == n,
    decreases n,
{
    if n > 0 {
        lemma_fetch_seq_len(cpu, m, (n - 1) as nat);
    }
}

/// Loading `n` bytes gives `n` bytes where it succeeds.
pub proof fn lemma_load_seq_len(cpu: CPU, m: RamView, virt: u64, n: nat)
    ensures
        load_seq(cpu, m, virt, n).0 matches Ok(s) ==> s.len() == n,
    decreases n,
{
    if n > 0 {
        lemma_load_seq_len(cpu, m, virt, (n - 1) as nat);
    }
}

/// Fetching `a` and then `b` bytes is fetching `a + b` bytes.
pub proof fn lemma_fetch_seq_split(cpu: CPU, m: RamView, a: nat, b: nat)
    ensures
        fetch_seq(cpu, m, a + b) == ({
            let (r1, c1, m1) = fetch_seq(cpu, m, a);
            match r1 {
                Err(e) => (Err(e), c1, m1),
                Ok(s1) => {
                    let (r2, c2, m2) = fetch_seq(c1, m1, b);
                    match r2 {
                        Err(e) => (Err(e), c2, m2),
                        Ok(s2) => (Ok(s1 + s2), c2, m2),
                    }
                },
            }
        }),
    decreases b,
{
    if b == 0 {
        let (r1, c1, m1) = fetch_seq(cpu, m, a);
        if let Ok(s1) = r1 {
            assert(s1 + Seq::<u8>::empty() =~= s1);
        }
    } else {
        lemma_fetch_seq_split(cpu, m, a, (b - 1) as nat);
        assert((a + b - 1) as nat == a + (b - 1) as nat);
        let (r1, c1, m1) = fetch_seq(cpu, m, a);
        if let Ok(s1) = r1 {
            let (r2, c2, m2) = fetch_seq(c1, m1, (b - 1) as nat);
            if let Ok(s2) = r2 {
                let (r3, c3, m3) = fetch(c2, m2);
                if let Ok(x) = r3 {
                    assert((s1 + s2).push(x) =~= s1 + s2.push(x));
                }
            }
        }
    }
}

/// Loading `a` bytes from `virt` and then `b` more from `virt + a` is loading
/// `a + b` bytes from `virt`.
pub proof fn lemma_load_seq_split(cpu: CPU, m: RamView, virt: u64, a: nat, b: nat)
    requires
        b >= 1,
    ensures
        load_seq(cpu, m, virt, a + b) == ({
            let (r1, c1, m1) = load_seq(cpu, m, virt, a);
            match r1 {
                Err(e) => (Err(e), c1, m1),
                Ok(s1) => if virt + a > u64::MAX {
                    (Err(Fault::Overflow), c1, m1)
                } else {
                    let (r2, c2, m2) = load_seq(c1, m1, (virt + a) as u64, b);
                    match r2 {
                        Err(e) => (Err(e), c2, m2),
                        Ok(s2) => (Ok(s1 + s2), c2, m2),
                    }
                },
            }
        }),
    decreases b,
{
    let (r1, c1, m1) = load_seq(cpu, m, virt, a);
    if b == 1 {
        assert((a + b - 1) as nat == a);
        if let Ok(s1) = r1 {
            if virt + a <= u64::MAX {
                let (r2, c2, m2) = load(c1, m1, (virt + a) as u64);
                assert(load_seq(c1, m1, (virt + a) as u64, 0) == (Ok::<Seq<u8>, Fault>(Seq::empty()), c1, m1));
                if let Ok(x) = r2 {
                    assert(s1.push(x) =~= s1 + Seq::<u8>::empty().push(x));
                }
            }
        }
    } else {
        lemma_load_seq_split(cpu, m, virt, a, (b - 1) as nat);
        assert((a + b - 1) as nat == a + (b - 1) as nat);
        if let Ok(s1) = r1 {
            if virt + a <= u64::MAX {
                let (r2, c2, m2) = load_seq(c1, m1, (virt + a) as u64, (b - 1) as nat);
                if let Ok(s2) = r2 {
                    if virt + a + (b - 1) <= u64::MAX {
                        let (r3, c3, m3) = load(c2, m2, (virt + a + (b - 1)) as u64);
                        if let Ok(x) = r3 {
                            assert((s1 + s2).push(x) =~= s1 + s2.push(x));
                        }
                    }
                }
            }
        }
    }
}


/// `256` to the power `n`.
pub open spec fn pow256(n: nat) -> nat
    decreases n,
{
    if n == 0 {
        1
    } else {
        256 * pow256((n - 1) as nat)
    }
}

/// The number `n` bytes spell is below `256` to the power `n`.
pub proof fn lemma_le_bound(s: Seq<u8>)
    ensures
        le(s) < pow256(s.len()),
    decreases s.len(),
{
    if s.len() > 0 {
        lemma_le_bound(s.drop_first());
        let a = le(s.drop_first());
        let p = pow256((s.len() - 1) as nat);
        let b0 = s[0];
        assert(b0 + 256 * a < 256 * p) by (nonlinear_arith)
            requires
                b0 < 256,
                a < p,
        ;
    }
}

/// The number two byte strings spell one after the other.
pub proof fn lemma_le_concat(s1: Seq<u8>, s2: Seq<u8>)
    ensures
        le(s1 + s2) == le(s1) + pow256(s1.len()) * le(s2),
    decreases s1.len(),
{
    if s1.len() > 0 {
        lemma_le_concat(s1.drop_first(), s2);
        assert((s1 + s2).drop_first() =~= s1.drop_first() + s2);
        let a = le(s1.drop_first());
        let p = pow256((s1.len() - 1) as nat);
        let b = le(s2);
        assert(256 * (a + p * b) == 256 * a + (256 * p) * b) by (nonlinear_arith);
        assert((s1 + s2)[0] == s1[0]);
        assert(le(s1 + s2) == s1[0] + 256 * le((s1 + s2).drop_first()));
        assert(pow256(s1.len()) == 256 * p);
        assert(le(s1) == s1[0] + 256 * a);
        assert(le(s1 + s2) == s1[0] + 256 * (a + p * b));
        assert(le(s1 + s2) == le(s1) + (256 * p) * b);
    } else {
        assert(s1 + s2 =~= s2);
        assert(pow256(0) == 1);
        assert(le(s1) == 0);
    }
}

/// The number one or two bytes spell.
pub proof fn lemma_le_small(s: Seq<u8>)
    ensures
        s.len() == 1 ==> le(s) == s[0],
        s.len() == 2 ==> le(s) == s[0] + 256 * s[1],
{
    reveal_with_fuel(le, 3);
    if s.len() == 2 {
        assert(s.drop_first().drop_first().len() == 0);
    }
}

/// Widens a 16-bit result.
pub open spec fn widen16(r: Result<u16, Fault>) -> Result<nat, Fault> {
    match r {
        Ok(v) => Ok(v as nat),
        Err(e) => Err(e),
    }
}

/// Widens a 32-bit result.
pub open spec fn widen32(r: Result<u32, Fault>) -> Result<nat, Fault> {
    match r {
        Ok(v) => Ok(v as nat),
        Err(e) => Err(e),
    }
}

/// Widens a 64-bit result.
pub open spec fn widen64(r: Result<u64, Fault>) -> Result<nat, Fault> {
    match r {
        Ok(v) => Ok(v as nat),
        Err(e) => Err(e),
    }
}

impl CPU {
    /// Whether the address of the next instruction byte fits its width.
    fn mem_addr_fits(&self) -> (ret: bool)
        ensures
            ret == self.mem_addr_ok(),
    {
        !(!self.is_long_mode() && self.is_protected_mode()) || self.ip.d() as u64 + self.srs[1].base as u64
            <= u32::MAX as u64
    }

    /// Whether the instruction pointer can move to the next byte.
    fn can_increment_ip(&self) -> (ret: bool)
        ensures
            ret == self.increment_ok(),
    {
        if self.is_long_mode() {
            self.ip.r < u64::MAX
        } else if self.is_protected_mode() {
            self.ip.d() < u32::MAX
        } else {
            self.ip.w() < u16::MAX
        }
    }

    /// Fetches the next instruction byte into the instruction register.
    fn read_instr(&mut self, ram: &mut RAM) -> (ret: Result<(), Fault>)
        requires
            wf(old(ram)@),
        ensures
            *final(self) == fetch(*old(self), old(ram)@).1,
            final(ram)@ == fetch(*old(self), old(ram)@).2,
            match fetch(*old(self), old(ram)@).0 {
                Ok(b) => ret is Ok && final(self).ir == b,
                Err(e) => ret == Err::<(), Fault>(e),
            },
            wf(final(ram)@),
    {
        proof {
            reveal(fetch);
        }
        if !self.mem_addr_fits() {
            return Err(Fault::Overflow);
        }
        let ip = self.get_mem_addr();
        match ram.read(Some(self.ir_cache), ip) {
            Err(e) => Err(Fault::Ram(e)),
            Ok(None) => Err(Fault::Unmapped(ip)),
            Ok(Some((data, cache))) => {
                self.ir = data;
                self.ir_cache = cache;
                if !self.can_increment_ip() {
                    return Err(Fault::Overflow);
                }
                self.increment_ip();
                Ok(())
            },
        }
    }

    /// Fetches the next instruction byte.
    pub fn read_u8(&mut self, ram: &mut RAM) -> (ret: Result<u8, Fault>)
        requires
            wf(old(ram)@),
        ensures
            (ret, *final(self), final(ram)@) == fetch(*old(self), old(ram)@),
            ret matches Ok(b) ==> final(self).ir == b,
            wf(final(ram)@),
    {
        match self.read_instr(ram) {
            Ok(()) => Ok(self.ir),
            Err(e) => Err(e),
        }
    }

    /// Fetches the next two instruction bytes, as a little-endian number.
    pub fn read_u16(&mut self, ram: &mut RAM) -> (ret: Result<u16, Fault>)
        requires
            wf(old(ram)@),
        ensures
            widen16(ret) == le_result(fetch_seq(*old(self), old(ram)@, 2).0),
            *final(self) == fetch_seq(*old(self), old(ram)@, 2).1,
            final(ram)@ == fetch_seq(*old(self), old(ram)@, 2).2,
            wf(final(ram)@),
    {
        let ghost c0 = *self;
        let ghost m0 = ram@;
        proof {
            reveal_with_fuel(fetch_seq, 3);
        }
        let val = match self.read_u8(ram) {
            Ok(v) => v,
            Err(e) => {
                return Err(e);
            },
        };
        let hi = match self.read_u8(ram) {
            Ok(v) => v,
            Err(e) => {
                return Err(e);
            },
        };
        proof {
            let s = fetch_seq(c0, m0, 2).0->Ok_0;
            assert(s =~= seq![val, hi]);
            lemma_le_small(s);
        }
        let lo16 = val as u16;
        let hi16 = hi as u16;
        assert((hi16 << 8u16) | lo16 == lo16 + 256 * hi16) by (bit_vector)
            requires
                lo16 < 256,
                hi16 < 256,
        ;
        Ok((hi16 << 8) | lo16)
    }

    /// Fetches the next four instruction bytes, as a little-endian number.
    pub fn read_u32(&mut self, ram: &mut RAM) -> (ret: Result<u32, Fault>)
        requires
            wf(old(ram)@),
        ensures
            widen32(ret) == le_result(fetch_seq(*old(self), old(ram)@, 4).0),
            *final(self) == fetch_seq(*old(self), old(ram)@, 4).1,
            final(ram)@ == fetch_seq(*old(self), old(ram)@, 4).2,
            wf(final(ram)@),
    {
        let ghost c0 = *self;
        let ghost m0 = ram@;
        proof {
            lemma_fetch_seq_split(c0, m0, 2, 2);
        }
        let val = match self.read_u16(ram) {
            Ok(v) => v,
            Err(e) => {
                return Err(e);
            },
        };
        let hi = match self.read_u16(ram) {
            Ok(v) => v,
            Err(e) => {
                return Err(e);
            },
        };
        proof {
            let s1 = fetch_seq(c0, m0, 2).0->Ok_0;
            let (_, c1, m1) = fetch_seq(c0, m0, 2);
            let s2 = fetch_seq(c1, m1, 2).0->Ok_0;
            lemma_fetch_seq_len(c0, m0, 2);
            lemma_le_concat(s1, s2);
            reveal_with_fuel(pow256, 3);
            assert(fetch_seq(c0, m0, 4).0 == Ok::<Seq<u8>, Fault>(s1 + s2));
            assert(le(s1) == val);
            assert(le(s2) == hi);
            assert(pow256(2) == 65536);
            assert(le(s1 + s2) == val + 65536 * hi);
        }
        let lo32 = val as u32;
        let hi32 = hi as u32;
        assert((hi32 << 16u32) | lo32 == lo32 + 65536 * hi32) by (bit_vector)
            requires
                lo32 < 65536,
                hi32 < 65536,
        ;
        Ok((hi32 << 16) | lo32)
    }

    /// Fetches the next eight instruction bytes, as a little-endian number.
    pub fn read_u64(&mut self, ram: &mut RAM) -> (ret: Result<u64, Fault>)
        requires
            wf(old(ram)@),
        ensures
            widen64(ret) == le_result(fetch_seq(*old(self), old(ram)@, 8).0),
            *final(self) == fetch_seq(*old(self), old(ram)@, 8).1,
            final(ram)@ == fetch_seq(*old(self), old(ram)@, 8).2,
            wf(final(ram)@),
    {
        let ghost c0 = *self;
        let ghost m0 = ram@;
        proof {
            lemma_fetch_seq_split(c0, m0, 4, 4);
        }
        let val = match self.read_u32(ram) {
            Ok(v) => v,
            Err(e) => {
                return Err(e);
            },
        };
        let hi = match self.read_u32(ram) {
            Ok(v) => v,
            Err(e) => {
                return Err(e);
            },
        };
        proof {
            let s1 = fetch_seq(c0, m0, 4).0->Ok_0;
            let (_, c1, m1) = fetch_seq(c0, m0, 4);
            let s2 = fetch_seq(c1, m1, 4).0->Ok_0;
            lemma_fetch_seq_len(c0, m0, 4);
            lemma_le_concat(s1, s2);
            reveal_with_fuel(pow256, 5);
            assert(fetch_seq(c0, m0, 8).0 == Ok::<Seq<u8>, Fault>(s1 + s2));
            assert(le(s1) == val);
            assert(le(s2) == hi);
            assert(pow256(4) == 0x1_0000_0000);
            assert(le(s1 + s2) == val + 0x1_0000_0000 * hi);
        }
        let lo64 = val as u64;
        let hi64 = hi as u64;
        assert((hi64 << 32u64) | lo64 == lo64 + 0x1_0000_0000 * hi64) by (bit_vector)
            requires
                lo64 < 0x1_0000_0000,
                hi64 < 0x1_0000_0000,
        ;
        Ok((hi64 << 32) | lo64)
    }

    /// Loads the byte at `virt_addr`.
    pub fn get_u8(&mut self, ram: &mut RAM, virt_addr: u64) -> (ret: Result<u8, Fault>)
        requires
            wf(old(ram)@),
        ensures
            (ret, *final(self), final(ram)@) == load(*old(self), old(ram)@, virt_addr),
            wf(final(ram)@),
    {
        proof {
            reveal(load);
        }
        match ram.read(self.read_cache, virt_addr) {
            Err(e) => Err(Fault::Ram(e)),
            Ok(None) => Err(Fault::Unmapped(virt_addr)),
            Ok(Some((data, cache))) => {
                self.read_cache = Some(cache);
                Ok(data)
            },
        }
    }

    /// Loads the two bytes from `virt_addr` on, as a little-endian number.
    pub fn get_u16(&mut self, ram: &mut RAM, virt_addr: u64) -> (ret: Result<u16, Fault>)
        requires
            wf(old(ram)@),
        ensures
            widen16(ret) == le_result(load_seq(*old(self), old(ram)@, virt_addr, 2).0),
            *final(self) == load_seq(*old(self), old(ram)@, virt_addr, 2).1,
            final(ram)@ == load_seq(*old(self), old(ram)@, virt_addr, 2).2,
            wf(final(ram)@),
    {
        let ghost c0 = *self;
        let ghost m0 = ram@;
        proof {
            reveal_with_fuel(load_seq, 3);
        }
        let val = match self.get_u8(ram, virt_addr) {
            Ok(v) => v,
            Err(e) => {
                return Err(e);
            },
        };
        if virt_addr == u64::MAX {
            return Err(Fault::Overflow);
        }
        let hi = match self.get_u8(ram, virt_addr + 1) {
            Ok(v) => v,
            Err(e) => {
                return Err(e);
            },
        };
        proof {
            let s = load_seq(c0, m0, virt_addr, 2).0->Ok_0;
            assert(s =~= seq![val, hi]);
            lemma_le_small(s);
        }
        let lo16 = val as u16;
        let hi16 = hi as u16;
        assert((hi16 << 8u16) + lo16 == lo16 + 256 * hi16) by (bit_vector)
            requires
                lo16 < 256,
                hi16 < 256,
        ;
        Ok((hi16 << 8) + lo16)
    }

    /// Loads the four bytes from `virt_addr` on, as a little-endian number.
    pub fn get_u32(&mut self, ram: &mut RAM, virt_addr: u64) -> (ret: Result<u32, Fault>)
        requires
            wf(old(ram)@),
        ensures
            widen32(ret) == le_result(load_seq(*old(self), old(ram)@, virt_addr, 4).0),
            *final(self) == load_seq(*old(self), old(ram)@, virt_addr, 4).1,
            final(ram)@ == load_seq(*old(self), old(ram)@, virt_addr, 4).2,
            wf(final(ram)@),
    {
        let ghost c0 = *self;
        let ghost m0 = ram@;
        proof {
            lemma_load_seq_split(c0, m0, virt_addr, 2, 2);
        }
        let val = match self.get_u16(ram, virt_addr) {
            Ok(v) => v,
            Err(e) => {
                return Err(e);
            },
        };
        if virt_addr > u64::MAX - 2 {
            return Err(Fault::Overflow);
        }
        let hi = match self.get_u16(ram, virt_addr + 2) {
            Ok(v) => v,
            Err(e) => {
                return Err(e);
            },
        };
        proof {
            let s1 = load_seq(c0, m0, virt_addr, 2).0->Ok_0;
            let (_, c1, m1) = load_seq(c0, m0, virt_addr, 2);
            let s2 = load_seq(c1, m1, (virt_addr + 2) as u64, 2).0->Ok_0;
            lemma_load_seq_len(c0, m0, virt_addr, 2);
            lemma_le_concat(s1, s2);
            reveal_with_fuel(pow256, 3);
            assert(load_seq(c0, m0, virt_addr, 4).0 == Ok::<Seq<u8>, Fault>(s1 + s2));
            assert(le(s1 + s2) == val + 65536 * hi);
        }
        let lo32 = val as u32;
        let hi32 = hi as u32;
        assert((hi32 << 16u32) + lo32 == lo32 + 65536 * hi32) by (bit_vector)
            requires
                lo32 < 65536,
                hi32 < 65536,
        ;
        Ok((hi32 << 16) + lo32)
    }

    /// Loads the eight bytes from `virt_addr` on, as a little-endian number.
    pub fn get_u64(&mut self, ram: &mut RAM, virt_addr: u64) -> (ret: Result<u64, Fault>)
        requires
            wf(old(ram)@),
        ensures
            widen64(ret) == le_result(load_seq(*old(self), old(ram)@, virt_addr, 8).0),
            *final(self) == load_seq(*old(self), old(ram)@, virt_addr, 8).1,
            final(ram)@ == load_seq(*old(self), old(ram)@, virt_addr, 8).2,
            wf(final(ram)@),
    {
        let ghost c0 = *self;
        let ghost m0 = ram@;
        proof {
            lemma_load_seq_split(c0, m0, virt_addr, 4, 4);
        }
        let val = match self.get_u32(ram, virt_addr) {
            Ok(v) => v,
            Err(e) => {
                return Err(e);
            },
        };
        if virt_addr > u64::MAX - 4 {
            return Err(Fault::Overflow);
        }
        let hi = match self.get_u32(ram, virt_addr + 4) {
            Ok(v) => v,
            Err(e) => {
                return Err(e);
            },
        };
        proof {
            let s1 = load_seq(c0, m0, virt_addr, 4).0->Ok_0;
            let (_, c1, m1) = load_seq(c0, m0, virt_addr, 4);
            let s2 = load_seq(c1, m1, (virt_addr + 4) as u64, 4).0->Ok_0;
            lemma_load_seq_len(c0, m0, virt_addr, 4);
            lemma_le_concat(s1, s2);
            reveal_with_fuel(pow256, 5);
            assert(load_seq(c0, m0, virt_addr, 8).0 == Ok::<Seq<u8>, Fault>(s1 + s2));
            assert(le(s1 + s2) == val + 0x1_0000_0000 * hi);
        }
        let lo64 = val as u64;
        let hi64 = hi as u64;
        assert((hi64 << 32u64) + lo64 == lo64 + 0x1_0000_0000 * hi64) by (bit_vector)
            requires
                lo64 < 0x1_0000_0000,
                hi64 < 0x1_0000_0000,
        ;
        Ok((hi64 << 32) + lo64)
    }

    /// Finds the region that serves the address of the next instruction byte
    /// and makes it the region instruction fetches go through.
    pub fn setup_cache(&mut self, ram: &mut RAM) -> (ret: Result<(), Fault>)
        requires
            wf(old(ram)@),
        ensures
            wf(final(ram)@),
            !old(self).mem_addr_ok() ==> ret == Err::<(), Fault>(Fault::Overflow) && *final(self) == *old(self)
                && final(ram)@ == old(ram)@,
            old(self).mem_addr_ok() ==> ({
                let (r, m) = read_result(old(ram)@, None, old(self).mem_addr());
                &&& final(ram)@ == m
                &&& match r {
                    Err(e) => ret == Err::<(), Fault>(Fault::Ram(e)) && *final(self) == *old(self),
                    Ok(None) => ret == Err::<(), Fault>(Fault::Unmapped(old(self).mem_addr()))
                        && *final(self) == *old(self),
                    Ok(Some((_, c))) => ret == Ok::<(), Fault>(()) && *final(self) == (CPU {
                        ir_cache: c,
                        ..*old(self)
                    }),
                }
            }),
    {
        if !self.mem_addr_fits() {
            return Err(Fault::Overflow);
        }
        let ip = self.get_mem_addr();
        match ram.read(None, ip) {
            Err(e) => Err(Fault::Ram(e)),
            Ok(None) => Err(Fault::Unmapped(ip)),
            Ok(Some((_, cache))) => {
                self.ir_cache = cache;
                Ok(())
            },
        }
    }
}


/// An instruction byte fetched from well formed memory is the byte the program
/// file holds at the fetch address, in the region the processor then keeps;
/// memory stays well formed.
pub proof fn lemma_fetch_reads_program(cpu: CPU, m: RamView)
    requires
        wf(m),
    ensures
        fetch(cpu, m).0 matches Ok(b) ==> is_file_byte(m, fetch(cpu, m).1.ir_cache, cpu.mem_addr(), b),
        wf(fetch(cpu, m).2),
{
    reveal(fetch);
    if cpu.mem_addr_ok() {
        lemma_read_returns_file_byte(m, Some(cpu.ir_cache), cpu.mem_addr());
    }
}

/// A byte loaded from well formed memory is the byte the program file holds
/// at that address; memory stays well formed.
pub proof fn lemma_load_reads_program(cpu: CPU, m: RamView, virt: u64)
    requires
        wf(m),
    ensures
        load(cpu, m, virt).0 matches Ok(b) ==> is_file_byte(m, load(cpu, m, virt).1.read_cache->0, virt, b),
        wf(load(cpu, m, virt).2),
{
    reveal(load);
    lemma_read_returns_file_byte(m, cpu.read_cache, virt);
}

/// Fetching an instruction byte moves the instruction pointer one byte on and
/// changes nothing else but the instruction register and the region of
/// instruction fetches.
pub proof fn lemma_fetch_advances(cpu: CPU, m: RamView)
    ensures
        fetch(cpu, m).0 is Ok ==> cpu.ip.r < u64::MAX,
        fetch(cpu, m).0 is Ok ==> fetch(cpu, m).1 == (CPU {
            ip: IPR { r: (cpu.ip.r + 1) as u64 },
            ir: fetch(cpu, m).1.ir,
            ir_cache: fetch(cpu, m).1.ir_cache,
            ..cpu
        }),
{
    reveal(fetch);
}

/// Fetching `n` instruction bytes moves the instruction pointer `n` bytes on
/// and changes nothing else but the instruction register and the region of
/// instruction fetches.
pub proof fn lemma_fetch_seq_advances(cpu: CPU, m: RamView, n: nat)
    ensures
        fetch_seq(cpu, m, n).0 is Ok ==> cpu.ip.r + n <= u64::MAX,
        fetch_seq(cpu, m, n).0 is Ok ==> fetch_seq(cpu, m, n).1 == (CPU {
            ip: IPR { r: (cpu.ip.r + n) as u64 },
            ir: fetch_seq(cpu, m, n).1.ir,
            ir_cache: fetch_seq(cpu, m, n).1.ir_cache,
            ..cpu
        }),
    decreases n,
{
    if n > 0 {
        lemma_fetch_seq_advances(cpu, m, (n - 1) as nat);
        let (_, c1, m1) = fetch_seq(cpu, m, (n - 1) as nat);
        lemma_fetch_advances(c1, m1);
    }
}

/// Loading bytes changes nothing in the processor but the region of loads.
pub proof fn lemma_load_seq_keeps_state(cpu: CPU, m: RamView, virt: u64, n: nat)
    ensures
        load_seq(cpu, m, virt, n).1 == (CPU { read_cache: load_seq(cpu, m, virt, n).1.read_cache, ..cpu }),
    decreases n,
{
    reveal(load);
    if n > 0 {
        lemma_load_seq_keeps_state(cpu, m, virt, (n - 1) as nat);
    }
}

} // verus!
