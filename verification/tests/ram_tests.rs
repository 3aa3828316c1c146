use cs86::qemu::{self, InitError};
use cs86::ram::{RAM, RamError};

/// A program file: the header, the regions (virtual address, offset in
/// `body`), then `body`.
fn image(regions: &[(u32, u32)], body: &[u8]) -> Vec<u8> {
    let start = 8 + 8 * regions.len() as u32;
    let mut f = vec![b'C', b'S', b'8', b'6', regions.len() as u8, 0, 0, 0];
    for (virt, off) in regions {
        f.extend_from_slice(&virt.to_le_bytes());
        f.extend_from_slice(&(start + off).to_le_bytes());
    }
    f.extend_from_slice(body);
    f
}

#[test]
fn header_must_spell_cs86() {
    assert!(matches!(qemu::read(b"CS8"), Err(InitError::InvalidFile)));
    assert!(matches!(qemu::read(b"XS86\x00\x00\x00\x00"), Err(InitError::InvalidFile)));
    assert_eq!(qemu::read(b"CS86\x00\x00\x00\x00").ok().map(|m| m.len()), Some(0));
}

#[test]
fn region_list_must_be_complete() {
    let mut f = image(&[(0x10, 0)], &[]);
    f[4] = 2;
    assert!(matches!(qemu::read(&f), Err(InitError::CorruptedFile)));
    assert!(matches!(RAM::new(f), Err(InitError::CorruptedFile)));
    assert!(matches!(RAM::new(b"nothing".to_vec()), Err(InitError::InvalidFile)));
}

#[test]
fn later_region_replaces_earlier_one() {
    let f = image(&[(0x10, 100), (0x5, 200), (0x10, 300)], &[]);
    let m = qemu::read(&f).ok().unwrap();
    assert_eq!(m.len(), 2);
    assert!(m.contains_key(0x5));
    assert!(m.contains_key(0x10));
    assert!(!m.contains_key(0x6));
    assert_eq!(m.get(0x10).unwrap().file, 32 + 300);
    assert_eq!(m.get(0x5).unwrap().file, 32 + 200);
    assert_eq!(m.get(0x5).unwrap().data, None);
    assert!(!m.get(0x5).unwrap().write);
    assert!(m.get(0x7).is_none());
}

#[test]
fn reads_give_the_file_bytes() {
    let f = image(&[(0x100, 0)], &[1, 2, 3, 4]);
    let mut ram = RAM::new(f).ok().unwrap();
    assert!(matches!(ram.read(None, 0x100), Ok(Some((1, 0x100)))));
    assert!(matches!(ram.read(Some(0x100), 0x102), Ok(Some((3, 0x100)))));
    assert!(matches!(ram.read(Some(0x100), 0x103), Ok(Some((4, 0x100)))));
    assert!(matches!(ram.read(Some(0x100), 0x104), Ok(None)));
}

#[test]
fn reads_cache_the_next_region() {
    let f = image(&[(0x100, 4), (0x200, 8)], &[9, 8, 7, 6, 5, 4, 3, 2, 0xAA, 0xBB]);
    let mut ram = RAM::new(f).ok().unwrap();
    assert!(matches!(ram.read(None, 0x100), Ok(Some((5, 0x100)))));
    assert!(matches!(ram.read(Some(0x100), 0x101), Ok(Some((4, 0x100)))));
    assert!(matches!(ram.read(Some(0x100), 0x200), Ok(Some((0xAA, 0x200)))));
    assert!(matches!(ram.read(Some(0x200), 0x201), Ok(Some((0xBB, 0x200)))));
    assert!(matches!(ram.read(Some(0x200), 0x100), Ok(Some((5, 0x100)))));
}

#[test]
fn region_found_is_the_cached_one() {
    let f = image(&[(0x100, 0)], &[1, 2]);
    let mut ram = RAM::new(f).ok().unwrap();
    assert!(matches!(ram.read(Some(0x100), 0x100), Ok(None)));
    assert!(matches!(ram.read(None, 0x300), Ok(None)));
}

#[test]
fn address_before_region() {
    let f = image(&[(0x100, 0)], &[1, 2]);
    let mut ram = RAM::new(f).ok().unwrap();
    assert!(matches!(ram.read(None, 0x50), Err(RamError::AddressBeforeRegion(0x50, 0x100))));
}

#[test]
fn region_too_big_for_cache() {
    let f = image(&[(0x100, 16), (0x200, 0x2_0000)], &[0; 8]);
    let mut ram = RAM::new(f).ok().unwrap();
    assert!(matches!(ram.read(None, 0x100), Err(RamError::CacheTooBig(0x100, 0xFFFF, 0x1_FFF0))));
}

#[test]
fn empty_region() {
    let f = image(&[(0x100, 16), (0x200, 16)], &[0; 8]);
    let mut ram = RAM::new(f).ok().unwrap();
    assert!(matches!(ram.read(None, 0x100), Err(RamError::ZeroSize)));
    let f = image(&[(0x100, 0)], &[]);
    let mut ram = RAM::new(f).ok().unwrap();
    assert!(matches!(ram.read(None, 0x100), Err(RamError::ZeroSize)));
}

#[test]
fn last_region_past_end_of_file() {
    let f = image(&[(0x100, 1000)], &[1]);
    let mut ram = RAM::new(f).ok().unwrap();
    assert!(matches!(ram.read(None, 0x100), Err(RamError::RegionPastEnd(0x100))));
}

#[test]
fn last_region_too_large() {
    let f = image(&[(0x100, 0)], &vec![7u8; 0x1_0000]);
    let mut ram = RAM::new(f).ok().unwrap();
    assert!(matches!(ram.read(None, 0x100), Err(RamError::RegionTooLarge(0x100))));
}

#[test]
fn regions_wrap_around_the_cache() {
    let mut body = vec![0u8; 0xC000 * 2 + 4];
    body[0] = 0x11;
    body[0xC000] = 0x22;
    body[0xC000 * 2] = 0x33;
    let f = image(&[(0x1000, 0), (0x2000, 0xC000), (0x3000, 0xC000 * 2)], &body);
    let mut ram = RAM::new(f).ok().unwrap();
    assert!(matches!(ram.read(None, 0x1000), Ok(Some((0x11, 0x1000)))));
    assert!(matches!(ram.read(None, 0x2000), Ok(Some((0x22, 0x2000)))));
    assert!(matches!(ram.read(None, 0x3000), Ok(Some((0x33, 0x3000)))));
    assert!(matches!(ram.read(Some(0x1000), 0x1000), Ok(None)));
    assert!(matches!(ram.read(Some(0x3000), 0x3002), Ok(Some((0, 0x3000)))));
    assert!(matches!(ram.read(None, 0x1000), Ok(Some((0x11, 0x1000)))));
}

#[test]
fn reads_are_logged() {
    let f = image(&[(0x100, 4), (0x200, 8)], &[9, 8, 7, 6, 5, 4, 3, 2, 0xAA, 0xBB]);
    let mut ram = RAM::new(f).ok().unwrap();
    assert!(ram.take_log().is_empty());
    assert!(matches!(ram.read(None, 0x100), Ok(Some((5, 0x100)))));
    assert!(matches!(ram.read(Some(0x100), 0x101), Ok(Some((4, 0x100)))));
    assert!(matches!(ram.read(Some(0x100), 0x200), Ok(Some((0xAA, 0x200)))));
    assert!(matches!(ram.read(Some(0x200), 0x200), Ok(Some((0xAA, 0x200)))));
    let expected = [
        "reading 0x100 with no cache",
        "CACHING --- 0x100",
        "reading 0x101 cached @ 0x100",
        "reading 0x200 cached @ 0x100",
        "CACHING --- 0x200",
        "reading 0x200 cached @ 0x200",
    ];
    assert_eq!(ram.take_log(), expected.iter().map(|l| String::from(*l)).collect::<Vec<String>>());
    assert!(ram.take_log().is_empty());
}
