use fatbinary::FatBinary;
use fatbinary::FatBinaryEntry;
use fatbinary::Host;
use fatbinary::Producer;

fn entry_with_flags(flags: u64) -> FatBinaryEntry {
    // round a hand-built image through the reader to obtain arbitrary flags
    let mut image = Vec::new();
    image.extend_from_slice(&0xBA55ED50u32.to_le_bytes());
    image.extend_from_slice(&1u16.to_le_bytes());
    image.extend_from_slice(&16u16.to_le_bytes());
    image.extend_from_slice(&64u64.to_le_bytes());
    image.extend_from_slice(&1u16.to_le_bytes()); // kind
    image.extend_from_slice(&0x0101u16.to_le_bytes());
    image.extend_from_slice(&64u32.to_le_bytes()); // header_size
    image.extend_from_slice(&0u64.to_le_bytes()); // size
    image.extend_from_slice(&0u32.to_le_bytes()); // compressed_size
    image.extend_from_slice(&0u32.to_le_bytes()); // options_offset
    image.extend_from_slice(&0u16.to_le_bytes()); // minor
    image.extend_from_slice(&0u16.to_le_bytes()); // major
    image.extend_from_slice(&70u32.to_le_bytes()); // arch
    image.extend_from_slice(&0u32.to_le_bytes()); // identifier_offset
    image.extend_from_slice(&0u32.to_le_bytes()); // identifier_len
    image.extend_from_slice(&flags.to_le_bytes());
    image.extend_from_slice(&0u64.to_le_bytes()); // zero
    image.extend_from_slice(&0u64.to_le_bytes()); // decompressed_size
    let mut fatbin = FatBinary::read(&image).unwrap();
    fatbin.entries_mut().pop().unwrap()
}

#[test]
fn host_classifier_follows_single_lit_bit() {
    assert_eq!(entry_with_flags(0x10).host(), Host::Linux);
    assert_eq!(entry_with_flags(0x20).host(), Host::Mac);
    assert_eq!(entry_with_flags(0x40).host(), Host::Windows);
    assert_eq!(entry_with_flags(0).host(), Host::Unknown);
    // bits outside the host mask do not matter
    assert_eq!(entry_with_flags(0x2013).host(), Host::Linux);
    assert_eq!(entry_with_flags(0x0f).host(), Host::Unknown);
}

#[test]
fn producer_classifier_follows_single_lit_bit() {
    assert_eq!(entry_with_flags(0x04).producer(), Producer::CUDA);
    assert_eq!(entry_with_flags(0x08).producer(), Producer::OpenCL);
    assert_eq!(entry_with_flags(0).producer(), Producer::Unknown);
    assert_eq!(entry_with_flags(0x73).producer(), Producer::Unknown);
}

#[test]
fn flag_predicates_read_their_bits() {
    let e = entry_with_flags(0x1 | 0x2 | 0x2000);
    assert!(e.is_64bit());
    assert!(e.has_debug_info());
    assert!(e.is_compressed());
    let e = entry_with_flags(0);
    assert!(!e.is_64bit());
    assert!(!e.has_debug_info());
    assert!(!e.is_compressed());
}

#[test]
fn new_auto_detects_elf_by_magic() {
    let e = FatBinaryEntry::new_auto(70, vec![0x7f, 0x45, 0x4c, 0x46, 0, 0]);
    assert!(e.contains_elf());
    assert!(e.is_64bit());
    assert_eq!(e.get_sm_arch(), 70);
    assert_eq!(e.get_version_major(), 0);
    assert_eq!(e.get_version_minor(), 0);

    let e = FatBinaryEntry::new_auto(70, vec![0x7f, 0x45, 0x4c, 0x46]);
    assert!(e.contains_elf());

    let e = FatBinaryEntry::new_auto(70, b".version 8.0".to_vec());
    assert!(!e.contains_elf());

    // shorter than the magic: PTX
    let e = FatBinaryEntry::new_auto(70, vec![0x7f, 0x45, 0x4c]);
    assert!(!e.contains_elf());

    // near miss
    let e = FatBinaryEntry::new_auto(70, vec![0x7f, 0x45, 0x4c, 0x47]);
    assert!(!e.contains_elf());
}

#[test]
fn new_sets_documented_header_fields() {
    let e = FatBinaryEntry::new(false, 80, 8, 3, true, b"ptx".to_vec());
    let h = e.get_header();
    assert_eq!(h.kind, 1);
    assert_eq!(h.reserved1, 0x0101);
    assert_eq!(h.header_size, 64);
    assert_eq!(h.size, 3);
    assert_eq!(h.compressed_size, 0);
    assert_eq!(h.options_offset, 0x40);
    assert_eq!(h.minor, 3);
    assert_eq!(h.major, 8);
    assert_eq!(h.arch, 80);
    assert_eq!(h.identifier_offset, 0);
    assert_eq!(h.identifier_len, 0);
    assert_eq!(h.flags, 1);
    assert_eq!(h.zero, 0);
    assert_eq!(h.decompressed_size, 0);
    assert!(e.get_identifier().is_none());
    assert!(e.get_ptxas_options().is_none());
    assert_eq!(e.get_payload(), b"ptx");
    assert_eq!(e.get_decompressed_payload(), b"ptx".to_vec());

    let e = FatBinaryEntry::new(true, 90, 1, 2, false, vec![]);
    let h = e.get_header();
    assert_eq!(h.kind, 2);
    assert_eq!(h.flags, 0);
    assert_eq!(h.size, 0);
}

#[test]
fn compressed_entry_exposes_only_the_compressed_run() {
    // payload longer than compressed_size: the tail is padding
    let mut image = Vec::new();
    image.extend_from_slice(&0xBA55ED50u32.to_le_bytes());
    image.extend_from_slice(&1u16.to_le_bytes());
    image.extend_from_slice(&16u16.to_le_bytes());
    image.extend_from_slice(&(64u64 + 6).to_le_bytes());
    image.extend_from_slice(&1u16.to_le_bytes());
    image.extend_from_slice(&0x0101u16.to_le_bytes());
    image.extend_from_slice(&64u32.to_le_bytes());
    image.extend_from_slice(&6u64.to_le_bytes()); // size: 4 run + 2 padding
    image.extend_from_slice(&4u32.to_le_bytes()); // compressed_size
    image.extend_from_slice(&0u32.to_le_bytes());
    image.extend_from_slice(&0u16.to_le_bytes());
    image.extend_from_slice(&0u16.to_le_bytes());
    image.extend_from_slice(&70u32.to_le_bytes());
    image.extend_from_slice(&0u32.to_le_bytes());
    image.extend_from_slice(&0u32.to_le_bytes());
    image.extend_from_slice(&0x2000u64.to_le_bytes()); // compressed flag
    image.extend_from_slice(&0u64.to_le_bytes());
    image.extend_from_slice(&3u64.to_le_bytes()); // decompressed_size
    image.extend_from_slice(&[0x30, b'A', b'B', b'C', 0xEE, 0xEE]); // payload
    let fatbin = FatBinary::read(&image).unwrap();
    let e = &fatbin.entries()[0];
    assert!(e.is_compressed());
    assert_eq!(e.get_payload(), &[0x30, b'A', b'B', b'C']);
    assert_eq!(e.get_decompressed_payload(), b"ABC".to_vec());
}
