use rvsim::bus::Bus;
use rvsim::loader::{load_elf_file, load_segments, LoaderError, Segment, PT_LOAD};

fn segment(kind: u32, offset: u64, file_size: u64, physical_address: u64) -> Segment {
    Segment { kind, offset, file_size, physical_address }
}

/// A little-endian ELF64 file with one loadable segment of four bytes
/// placed at address 0x10, and entry point 0x10.
fn tiny_elf() -> Vec<u8> {
    let mut f = vec![0u8; 64 + 56 + 4];
    f[0..4].copy_from_slice(&[0x7f, b'E', b'L', b'F']);
    f[4] = 2; // 64-bit
    f[5] = 1; // little-endian
    f[6] = 1; // version
    f[16..18].copy_from_slice(&2u16.to_le_bytes()); // executable
    f[18..20].copy_from_slice(&0xf3u16.to_le_bytes()); // RISC-V
    f[20..24].copy_from_slice(&1u32.to_le_bytes());
    f[24..32].copy_from_slice(&0x10u64.to_le_bytes()); // e_entry
    f[32..40].copy_from_slice(&64u64.to_le_bytes()); // e_phoff
    f[52..54].copy_from_slice(&64u16.to_le_bytes()); // e_ehsize
    f[54..56].copy_from_slice(&56u16.to_le_bytes()); // e_phentsize
    f[56..58].copy_from_slice(&1u16.to_le_bytes()); // e_phnum
    let ph = 64;
    f[ph..ph + 4].copy_from_slice(&1u32.to_le_bytes()); // PT_LOAD
    f[ph + 8..ph + 16].copy_from_slice(&120u64.to_le_bytes()); // p_offset
    f[ph + 16..ph + 24].copy_from_slice(&0x10u64.to_le_bytes()); // p_vaddr
    f[ph + 24..ph + 32].copy_from_slice(&0x10u64.to_le_bytes()); // p_paddr
    f[ph + 32..ph + 40].copy_from_slice(&4u64.to_le_bytes()); // p_filesz
    f[ph + 40..ph + 48].copy_from_slice(&4u64.to_le_bytes()); // p_memsz
    f[120..124].copy_from_slice(&[0xaa, 0xbb, 0xcc, 0xdd]);
    f
}

#[test]
fn loads_segments_of_an_elf_file() {
    let mut bus = Bus::new(64);
    let entry = load_elf_file(&mut bus, &tiny_elf()).unwrap();
    assert_eq!(entry.virtual_address(), 0x10);
    assert_eq!(bus.load32(0x10), 0xddcc_bbaa);
    assert_eq!(bus.load8(0x0f), 0);
}

#[test]
fn garbage_is_a_parse_error() {
    let mut bus = Bus::new(64);
    let r = load_elf_file(&mut bus, &[1, 2, 3, 4]);
    assert!(matches!(r, Err(LoaderError::ParseError(_))));
    assert!(bus.memory.iter().all(|b| *b == 0));
}

#[test]
fn segment_past_memory_is_refused() {
    let mut bus = Bus::new(0x12);
    let r = load_elf_file(&mut bus, &tiny_elf());
    assert!(matches!(r, Err(LoaderError::SegmentOutOfBounds)));
    assert!(bus.memory.iter().all(|b| *b == 0));
}

#[test]
fn only_loadable_segments_are_copied() {
    let mut bus = Bus::new(8);
    let image = [1u8, 2, 3, 4, 5, 6];
    let segs = vec![segment(PT_LOAD, 0, 2, 4), segment(4, 2, 2, 0), segment(PT_LOAD, 4, 2, 5)];
    assert!(load_segments(&mut bus, &image, &segs).is_ok());
    assert_eq!(bus.memory, vec![0, 0, 0, 0, 1, 5, 6, 0]);
}

#[test]
fn no_loadable_segment_is_an_error() {
    let mut bus = Bus::new(8);
    let image = [1u8, 2];
    let r = load_segments(&mut bus, &image, &vec![segment(4, 0, 2, 0)]);
    assert!(matches!(r, Err(LoaderError::NoSegments)));
    let r = load_segments(&mut bus, &image, &vec![]);
    assert!(matches!(r, Err(LoaderError::NoSegments)));
}

#[test]
fn segment_past_image_changes_nothing() {
    let mut bus = Bus::new(8);
    let image = [1u8, 2];
    let segs = vec![segment(PT_LOAD, 0, 1, 0), segment(PT_LOAD, 1, 2, 0)];
    let r = load_segments(&mut bus, &image, &segs);
    assert!(matches!(r, Err(LoaderError::SegmentOutOfBounds)));
    assert_eq!(bus.memory, vec![0; 8]);
}
