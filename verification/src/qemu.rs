use vstd::prelude::*;
use crate::ram::{Address, AddressMap, has_key, insert_entry, keys_increasing, lemma_insert_entry, lookup};

verus! {

/// Declares std's `std::io::Error`, the error of a failed file read, so that
/// `InitError` can carry it. Verus sees nothing inside it, and nothing is
/// assumed of it.
#[verifier::external_type_specification]
#[verifier::external_body]
pub struct ExIoError(std::io::Error);

/// Why a program file cannot be loaded.
#[derive(Debug)]
pub enum InitError {
    /// The file could not be read.
    ReadError(std::io::Error),
    /// The file does not start with a program header.
    InvalidFile,
    /// The file ends within its list of regions.
    CorruptedFile,
}

/// The little-endian 32-bit number in the four bytes of `s` from `at`.
pub open spec fn le_u32(s: Seq<u8>, at: int) -> u32 {
    (s[at] + s[at + 1] * 0x100 + s[at + 2] * 0x1_0000 + s[at + 3] * 0x100_0000) as u32
}

/// Whether `f` starts with a program header: eight bytes, the first four of
/// which spell `CS86`.
pub open spec fn header_ok(f: Seq<u8>) -> bool {
    &&& f.len() >= 8
    &&& f[0] == 0x43
    &&& f[1] == 0x53
    &&& f[2] == 0x38
    &&& f[3] == 0x36
}

/// The number of regions the header lists: its fifth byte.
pub open spec fn region_count(f: Seq<u8>) -> nat {
    f[4] as nat
}

/// Whether the file holds the whole list of regions after its header: eight
/// bytes each, a virtual address and a file offset.
pub open spec fn regions_complete(f: Seq<u8>) -> bool {
    f.len() >= 8 + 8 * region_count(f)
}

/// The regions listed by the first `n` entries after the header, each
/// recorded at its virtual address in turn.
pub open spec fn parsed(f: Seq<u8>, n: nat) -> Seq<(u64, Address)>
    decreases n,
{
    if n == 0 {
        Seq::empty()
    } else {
        let at = 8 + 8 * (n - 1);
        insert_entry(
            parsed(f, (n - 1) as nat),
            le_u32(f, at) as u64,
            Address { data: None, file: le_u32(f, at + 4) as u64, write: false },
        )
    }
}

fn read_le_u32(f: &[u8], at: usize) -> (ret: u32)
    requires
        at + 4 <= f@.len(),
    ensures
        ret == le_u32(f@, at as int),
{
    f[at] as u32 + f[at + 1] as u32 * 0x100 + f[at + 2] as u32 * 0x1_0000 + f[at + 3] as u32 * 0x100_0000
}

/// Reads the regions of the program file `file`: a header of eight bytes,
/// starting with `CS86` and giving in its fifth byte the number of regions,
/// then eight bytes per region: its virtual address and its offset in the file,
/// each four bytes, little-endian. A later region at an address replaces an
/// earlier one.
pub fn read(file: &[u8]) -> (ret: Result<AddressMap, InitError>)
    ensures
        !header_ok(file@) <==> ret is Err && ret->Err_0 is InvalidFile,
        header_ok(file@) && !regions_complete(file@) <==> ret is Err && ret->Err_0 is CorruptedFile,
        ret is Ok <==> header_ok(file@) && regions_complete(file@),
        ret matches Ok(m) ==> m@ == parsed(file@, region_count(file@)) && keys_increasing(m@),
{
    if file.len() < 8 || file[0] != 0x43 || file[1] != 0x53 || file[2] != 0x38 || file[3] != 0x36 {
        return Err(InitError::InvalidFile);
    }
    let num_virt_addrs = file[4] as usize;
    if file.len() - 8 < num_virt_addrs * 8 {
        return Err(InitError::CorruptedFile);
    }
    let mut addrs = AddressMap::new();
    let mut n: usize = 0;
    while n < num_virt_addrs
        invariant
            n <= num_virt_addrs,
            num_virt_addrs == region_count(file@),
            8 + 8 * num_virt_addrs <= file@.len(),
            addrs@ == parsed(file@, n as nat),
            keys_increasing(addrs@),
        decreases num_virt_addrs - n,
    {
        let i = 8 + 8 * n;
        let virt_addr = read_le_u32(file, i);
        let file_addr = read_le_u32(file, i + 4);
        addrs.insert(virt_addr as u64, Address { data: None, file: file_addr as u64, write: false });
        n += 1;
    }
    Ok(addrs)
}


/// The position of the last of the first `n` listed regions whose address is
/// `k`, or -1 where there is none.
pub open spec fn last_listing(f: Seq<u8>, n: nat, k: u64) -> int
    decreases n,
{
    if n == 0 {
        -1
    } else if le_u32(f, 8 + 8 * (n - 1)) as u64 == k {
        n - 1
    } else {
        last_listing(f, (n - 1) as nat, k)
    }
}

/// Reading the list of regions records exactly the listed addresses, in
/// increasing order; at each address it records the region listed there last:
/// its file offset, not cached and not writable.
pub proof fn lemma_parsed_regions(f: Seq<u8>, n: nat, k: u64)
    ensures
        keys_increasing(parsed(f, n)),
        has_key(parsed(f, n), k) <==> last_listing(f, n, k) >= 0,
        last_listing(f, n, k) >= 0 ==> lookup(parsed(f, n), k) == (Address {
            data: None,
            file: le_u32(f, 8 + 8 * last_listing(f, n, k) + 4) as u64,
            write: false,
        }),
    decreases n,
{
    if n > 0 {
        lemma_parsed_regions(f, (n - 1) as nat, k);
        let s = parsed(f, (n - 1) as nat);
        let at = 8 + 8 * (n - 1);
        let k0 = le_u32(f, at) as u64;
        let a0 = Address { data: None, file: le_u32(f, at + 4) as u64, write: false };
        lemma_insert_entry(s, k0, a0);
    }
}

} // verus!
