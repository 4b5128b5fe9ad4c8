//! Decoding recorded auxv images: whole captures from real machines, plus the
//! same captures mangled to end too early in various ways.

use auxv::procfs::{ProcfsAuxvError, ProcfsAuxvIter};
use auxv::source::MemorySource;
use auxv::{AuxvPair, Endianness, WordWidth};

/// Append one little-endian word of `width_bytes` bytes.
fn push_word_le(image: &mut Vec<u8>, width_bytes: usize, word: u64) {
    for i in 0..width_bytes {
        image.push(((word >> (8 * i)) & 0xff) as u8);
    }
}

/// A little-endian image of the given pairs, without any terminator.
fn image_le(width_bytes: usize, pairs: &[(u64, u64)]) -> Vec<u8> {
    let mut image: Vec<u8> = Vec::new();
    for &(key, value) in pairs {
        push_word_le(&mut image, width_bytes, key);
        push_word_le(&mut image, width_bytes, value);
    }
    image
}

/// The pairs of the 64-bit capture from a real Linux x86-64 machine.
fn linux_x64_pairs() -> Vec<(u64, u64)> {
    vec![
        (33, 140724395515904),
        (16, 3219913727),
        (6, 4096),
        (17, 100),
        (3, 4194368),
        (4, 56),
        (5, 10),
        (7, 139881368498176),
        (8, 0),
        (9, 4204128),
        (11, 1000),
        (12, 1000),
        (13, 1000),
        (14, 1000),
        (23, 0),
        (25, 140724393842889),
        (31, 140724393852911),
        (15, 140724393842905),
    ]
}

/// The pairs of the 32-bit capture from Linux x86 under VirtualBox.
fn virtualbox_x86_pairs() -> Vec<(u64, u64)> {
    vec![
        (32, 3078061308),
        (33, 3078057984),
        (16, 126614527),
        (6, 4096),
        (17, 100),
        (3, 134512692),
        (4, 32),
        (5, 9),
        (7, 3078066176),
        (8, 0),
        (9, 134520424),
        (11, 0),
        (12, 0),
        (13, 0),
        (14, 0),
        (23, 0),
        (25, 3219671659),
        (31, 3219677171),
        (15, 3219671675),
    ]
}

#[test]
fn test_iterate_auxv_path_real_linux_x64() {
    let mut pairs = linux_x64_pairs();
    pairs.push((0, 0));
    let image = image_le(8, &pairs);
    let mut iter = ProcfsAuxvIter::new(MemorySource::new(image), Endianness::Little, WordWidth::Width64);
    // x86 AT_SYSINFO_EHDR
    assert_eq!(AuxvPair { key: 33, value: 140724395515904 }, iter.next().unwrap().unwrap());
    // AT_HWCAP
    assert_eq!(AuxvPair { key: 16, value: 3219913727 }, iter.next().unwrap().unwrap());
    // AT_PAGESZ
    assert_eq!(AuxvPair { key: 6, value: 4096 }, iter.next().unwrap().unwrap());
    // AT_CLKTCK
    assert_eq!(AuxvPair { key: 17, value: 100 }, iter.next().unwrap().unwrap());
    // AT_PHDR
    assert_eq!(AuxvPair { key: 3, value: 4194368 }, iter.next().unwrap().unwrap());
    // AT_PHENT
    assert_eq!(AuxvPair { key: 4, value: 56 }, iter.next().unwrap().unwrap());
    // AT_PHNUM
    assert_eq!(AuxvPair { key: 5, value: 10 }, iter.next().unwrap().unwrap());
    // AT_BASE
    assert_eq!(AuxvPair { key: 7, value: 139881368498176 }, iter.next().unwrap().unwrap());
    // AT_FLAGS
    assert_eq!(AuxvPair { key: 8, value: 0 }, iter.next().unwrap().unwrap());
    // AT_ENTRY
    assert_eq!(AuxvPair { key: 9, value: 4204128 }, iter.next().unwrap().unwrap());
    // AT_UID
    assert_eq!(AuxvPair { key: 11, value: 1000 }, iter.next().unwrap().unwrap());
    // AT_EUID
    assert_eq!(AuxvPair { key: 12, value: 1000 }, iter.next().unwrap().unwrap());
    // AT_GID
    assert_eq!(AuxvPair { key: 13, value: 1000 }, iter.next().unwrap().unwrap());
    // AT_EGID
    assert_eq!(AuxvPair { key: 14, value: 1000 }, iter.next().unwrap().unwrap());
    // AT_SECURE
    assert_eq!(AuxvPair { key: 23, value: 0 }, iter.next().unwrap().unwrap());
    // AT_RANDOM
    assert_eq!(AuxvPair { key: 25, value: 140724393842889 }, iter.next().unwrap().unwrap());
    // AT_EXECFN
    assert_eq!(AuxvPair { key: 31, value: 140724393852911 }, iter.next().unwrap().unwrap());
    // AT_PLATFORM
    assert_eq!(AuxvPair { key: 15, value: 140724393842905 }, iter.next().unwrap().unwrap());
    assert_eq!(None, iter.next());
}

#[test]
fn test_iterate_auxv_path_virtualbox_linux_x86() {
    let mut pairs = virtualbox_x86_pairs();
    pairs.push((0, 0));
    let image = image_le(4, &pairs);
    let mut iter = ProcfsAuxvIter::new(MemorySource::new(image), Endianness::Little, WordWidth::Width32);
    // x86 AT_SYSINFO
    assert_eq!(AuxvPair { key: 32, value: 3078061308 }, iter.next().unwrap().unwrap());
    // x86 AT_SYSINFO_EHDR
    assert_eq!(AuxvPair { key: 33, value: 3078057984 }, iter.next().unwrap().unwrap());
    // AT_HWCAP
    assert_eq!(AuxvPair { key: 16, value: 126614527 }, iter.next().unwrap().unwrap());
    // AT_PAGESZ
    assert_eq!(AuxvPair { key: 6, value: 4096 }, iter.next().unwrap().unwrap());
    // AT_CLKTCK
    assert_eq!(AuxvPair { key: 17, value: 100 }, iter.next().unwrap().unwrap());
    // AT_PHDR
    assert_eq!(AuxvPair { key: 3, value: 134512692 }, iter.next().unwrap().unwrap());
    // AT_PHENT
    assert_eq!(AuxvPair { key: 4, value: 32 }, iter.next().unwrap().unwrap());
    // AT_PHNUM
    assert_eq!(AuxvPair { key: 5, value: 9 }, iter.next().unwrap().unwrap());
    // AT_BASE
    assert_eq!(AuxvPair { key: 7, value: 3078066176 }, iter.next().unwrap().unwrap());
    // AT_FLAGS
    assert_eq!(AuxvPair { key: 8, value: 0 }, iter.next().unwrap().unwrap());
    // AT_ENTRY
    assert_eq!(AuxvPair { key: 9, value: 134520424 }, iter.next().unwrap().unwrap());
    // AT_UID
    assert_eq!(AuxvPair { key: 11, value: 0 }, iter.next().unwrap().unwrap());
    // AT_EUID
    assert_eq!(AuxvPair { key: 12, value: 0 }, iter.next().unwrap().unwrap());
    // AT_GID
    assert_eq!(AuxvPair { key: 13, value: 0 }, iter.next().unwrap().unwrap());
    // AT_EGID
    assert_eq!(AuxvPair { key: 14, value: 0 }, iter.next().unwrap().unwrap());
    // AT_SECURE
    assert_eq!(AuxvPair { key: 23, value: 0 }, iter.next().unwrap().unwrap());
    // AT_RANDOM
    assert_eq!(AuxvPair { key: 25, value: 3219671659 }, iter.next().unwrap().unwrap());
    // AT_EXECFN
    assert_eq!(AuxvPair { key: 31, value: 3219677171 }, iter.next().unwrap().unwrap());
    // AT_PLATFORM
    assert_eq!(AuxvPair { key: 15, value: 3219671675 }, iter.next().unwrap().unwrap());
    assert_eq!(None, iter.next());
}

#[test]
fn test_iterate_auxv_path_real_linux_no_value_in_trailing_null() {
    // the terminating record has its key but lost its value
    let mut image = image_le(8, &linux_x64_pairs());
    push_word_le(&mut image, 8, 0);
    let mut iter = ProcfsAuxvIter::new(MemorySource::new(image), Endianness::Little, WordWidth::Width64);
    assert_eq!(AuxvPair { key: 33, value: 140724395515904 }, iter.next().unwrap().unwrap());
    // skip the middle ones
    for _ in 0..16 {
        iter.next().unwrap().unwrap();
    }
    assert_eq!(AuxvPair { key: 15, value: 140724393842905 }, iter.next().unwrap().unwrap());
    assert_eq!(ProcfsAuxvError::InvalidFormat, iter.next().unwrap().unwrap_err());
    assert_eq!(None, iter.next());
}

#[test]
fn test_iterate_auxv_path_real_linux_truncated_entry() {
    // the last data record has its key but lost its value, and there is no
    // terminator at all
    let pairs = linux_x64_pairs();
    let mut image = image_le(8, &pairs[..pairs.len() - 1]);
    push_word_le(&mut image, 8, 15);
    let mut iter = ProcfsAuxvIter::new(MemorySource::new(image), Endianness::Little, WordWidth::Width64);
    // x86 AT_SYSINFO_EHDR
    assert_eq!(AuxvPair { key: 33, value: 140724395515904 }, iter.next().unwrap().unwrap());
    // skip the middle ones, one fewer this time
    for _ in 0..15 {
        iter.next().unwrap().unwrap();
    }
    assert_eq!(AuxvPair { key: 31, value: 140724393852911 }, iter.next().unwrap().unwrap());
    // entry for key 15 is missing its value
    assert_eq!(ProcfsAuxvError::InvalidFormat, iter.next().unwrap().unwrap_err());
    assert_eq!(None, iter.next());
}

#[test]
fn test_iterate_auxv_path_real_linux_no_trailing_null() {
    // all data records intact, but no terminating record after them
    let image = image_le(8, &linux_x64_pairs());
    let mut iter = ProcfsAuxvIter::new(MemorySource::new(image), Endianness::Little, WordWidth::Width64);
    assert_eq!(AuxvPair { key: 33, value: 140724395515904 }, iter.next().unwrap().unwrap());
    // skip the middle ones
    for _ in 0..16 {
        iter.next().unwrap().unwrap();
    }
    assert_eq!(AuxvPair { key: 15, value: 140724393842905 }, iter.next().unwrap().unwrap());
    assert_eq!(ProcfsAuxvError::InvalidFormat, iter.next().unwrap().unwrap_err());
    assert_eq!(None, iter.next());
}

#[test]
fn test_parse_auxv_path_virtualbox_linux_32bit_in_64bit_mode_invalidformat() {
    // a 32-bit image read at 64-bit width: none of the mashed-together keys
    // is the sentinel, and the bytes run out without one
    let mut pairs = virtualbox_x86_pairs();
    pairs.push((0, 0));
    let image = image_le(4, &pairs);
    let mut iter = ProcfsAuxvIter::new(MemorySource::new(image), Endianness::Little, WordWidth::Width64);

    // 19 entries + null in that x86 auxv, so 10 total if you're in 64 bit mode

    for _ in 0..10 {
        assert!(iter.next().unwrap().is_ok());
    }

    assert_eq!(ProcfsAuxvError::InvalidFormat, iter.next().unwrap().unwrap_err());
}

#[test]
fn test_iterate_auxv_path_rpi3_arm() {
    let pairs: Vec<(u64, u64)> = vec![
        (33, 2122829824),
        (16, 4174038),
        (6, 4096),
        (17, 100),
        (3, 65588),
        (4, 32),
        (5, 9),
        (7, 1995284480),
        (8, 0),
        (9, 72569),
        (11, 1000),
        (12, 1000),
        (13, 1000),
        (14, 1000),
        (23, 0),
        (25, 2122731163),
        (26, 16),
        (31, 2122731507),
        (15, 2122731179),
        (0, 0),
    ];
    let image = image_le(4, &pairs);
    let mut iter = ProcfsAuxvIter::new(MemorySource::new(image), Endianness::Little, WordWidth::Width32);
    // x86 AT_SYSINFO_EHDR
    assert_eq!(AuxvPair { key: 33, value: 2122829824 }, iter.next().unwrap().unwrap());
    // AT_HWCAP
    assert_eq!(AuxvPair { key: 16, value: 4174038 }, iter.next().unwrap().unwrap());
    // AT_PAGESZ
    assert_eq!(AuxvPair { key: 6, value: 4096 }, iter.next().unwrap().unwrap());
    // AT_CLKTCK
    assert_eq!(AuxvPair { key: 17, value: 100 }, iter.next().unwrap().unwrap());
    // AT_PHDR
    assert_eq!(AuxvPair { key: 3, value: 65588 }, iter.next().unwrap().unwrap());
    // AT_PHENT
    assert_eq!(AuxvPair { key: 4, value: 32 }, iter.next().unwrap().unwrap());
    // AT_PHNUM
    assert_eq!(AuxvPair { key: 5, value: 9 }, iter.next().unwrap().unwrap());
    // AT_BASE
    assert_eq!(AuxvPair { key: 7, value: 1995284480 }, iter.next().unwrap().unwrap());
    // AT_FLAGS
    assert_eq!(AuxvPair { key: 8, value: 0 }, iter.next().unwrap().unwrap());
    // AT_ENTRY
    assert_eq!(AuxvPair { key: 9, value: 72569 }, iter.next().unwrap().unwrap());
    // AT_UID
    assert_eq!(AuxvPair { key: 11, value: 1000 }, iter.next().unwrap().unwrap());
    // AT_EUID
    assert_eq!(AuxvPair { key: 12, value: 1000 }, iter.next().unwrap().unwrap());
    // AT_GID
    assert_eq!(AuxvPair { key: 13, value: 1000 }, iter.next().unwrap().unwrap());
    // AT_EGID
    assert_eq!(AuxvPair { key: 14, value: 1000 }, iter.next().unwrap().unwrap());
    // AT_SECURE
    assert_eq!(AuxvPair { key: 23, value: 0 }, iter.next().unwrap().unwrap());
    // AT_RANDOM
    assert_eq!(AuxvPair { key: 25, value: 2122731163 }, iter.next().unwrap().unwrap());
    // AT_HWCAP2
    assert_eq!(AuxvPair { key: 26, value: 16 }, iter.next().unwrap().unwrap());
    // AT_EXECFN
    assert_eq!(AuxvPair { key: 31, value: 2122731507 }, iter.next().unwrap().unwrap());
    // AT_PLATFORM
    assert_eq!(AuxvPair { key: 15, value: 2122731179 }, iter.next().unwrap().unwrap());
    assert_eq!(None, iter.next());
}
